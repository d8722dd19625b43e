//! The MessagePack pieces that packet headers are made of: array headers,
//! unsigned integers, strings and nil.
//!
//! Each piece is described twice. A spec function gives its bytes, or the
//! value that a byte sequence starts with. An executable function hands the
//! work to `rmp` or `rmpv`; its contract repeats the spec function and is
//! taken on trust, since the verifier does not look inside those crates.

use vstd::prelude::*;
use vstd::utf8::*;

verus! {

/// The two bytes of `v` in network order, for `0 <= v < 0x1_0000`.
pub open spec fn be16(v: int) -> Seq<u8> {
    seq![(v / 0x100) as u8, (v % 0x100) as u8]
}

/// The four bytes of `v` in network order, for `0 <= v < 0x1_0000_0000`.
pub open spec fn be32(v: int) -> Seq<u8> {
    be16(v / 0x1_0000) + be16(v % 0x1_0000)
}

/// The eight bytes of `v` in network order, for `0 <= v < 0x1_0000_0000_0000_0000`.
pub open spec fn be64(v: int) -> Seq<u8> {
    be32(v / 0x1_0000_0000) + be32(v % 0x1_0000_0000)
}

/// The unsigned number held in network order by the two bytes of `b` from index `i`.
pub open spec fn u16_at(b: Seq<u8>, i: int) -> int {
    b[i] as int * 0x100 + b[i + 1] as int
}

/// The unsigned number held in network order by the four bytes of `b` from index `i`.
pub open spec fn u32_at(b: Seq<u8>, i: int) -> int {
    u16_at(b, i) * 0x1_0000 + u16_at(b, i + 2)
}

/// The unsigned number held in network order by the eight bytes of `b` from index `i`.
pub open spec fn u64_at(b: Seq<u8>, i: int) -> int {
    u32_at(b, i) * 0x1_0000_0000 + u32_at(b, i + 4)
}

/// The two's complement reading of `v`, an unsigned number below `2 * half`.
pub open spec fn signed(v: int, half: int) -> int {
    if v < half {
        v
    } else {
        v - 2 * half
    }
}

/// The header of an array of `len` elements, in the shortest form.
pub open spec fn array_header(len: u32) -> Seq<u8> {
    if len < 16 {
        seq![(0x90 + len) as u8]
    } else if len < 0x1_0000 {
        seq![0xdcu8] + be16(len as int)
    } else {
        seq![0xddu8] + be32(len as int)
    }
}

/// An unsigned integer in the shortest form that holds it.
pub open spec fn uint_bytes(v: u64) -> Seq<u8> {
    if v < 0x80 {
        seq![v as u8]
    } else if v < 0x100 {
        seq![0xccu8, v as u8]
    } else if v < 0x1_0000 {
        seq![0xcdu8] + be16(v as int)
    } else if v < 0x1_0000_0000 {
        seq![0xceu8] + be32(v as int)
    } else {
        seq![0xcfu8] + be64(v as int)
    }
}

/// The header of a string of `len` bytes, in the shortest form.
pub open spec fn str_header(len: u32) -> Seq<u8> {
    if len < 32 {
        seq![(0xa0 + len) as u8]
    } else if len < 0x100 {
        seq![0xd9u8, len as u8]
    } else if len < 0x1_0000 {
        seq![0xdau8] + be16(len as int)
    } else {
        seq![0xdbu8] + be32(len as int)
    }
}

/// A string: its header, then its UTF-8 bytes. The header holds the byte
/// length reduced to 32 bits, so a string is only read back as written when
/// it is shorter than 4 GiB.
pub open spec fn str_bytes(s: Seq<char>) -> Seq<u8> {
    str_header((encode_utf8(s).len() % 0x1_0000_0000) as u32) + encode_utf8(s)
}

/// The nil value.
pub open spec fn nil_bytes() -> Seq<u8> {
    seq![0xc0u8]
}

/// The array length that `b` starts with, and the number of bytes it takes.
#[verifier::opaque]
pub open spec fn array_len_at(b: Seq<u8>) -> Option<(u32, nat)> {
    if b.len() >= 1 && 0x90 <= b[0] <= 0x9f {
        Some(((b[0] - 0x90) as u32, 1nat))
    } else if b.len() >= 3 && b[0] == 0xdc {
        Some((u16_at(b, 1) as u32, 3nat))
    } else if b.len() >= 5 && b[0] == 0xdd {
        Some((u32_at(b, 1) as u32, 5nat))
    } else {
        None
    }
}

/// The integer that `b` starts with, signed or unsigned and of any width,
/// and the number of bytes it takes.
#[verifier::opaque]
pub open spec fn int_at(b: Seq<u8>) -> Option<(int, nat)> {
    if b.len() < 1 {
        None
    } else if b[0] <= 0x7f {
        Some((b[0] as int, 1nat))
    } else if b[0] >= 0xe0 {
        Some((b[0] as int - 0x100, 1nat))
    } else if b[0] == 0xcc && b.len() >= 2 {
        Some((b[1] as int, 2nat))
    } else if b[0] == 0xcd && b.len() >= 3 {
        Some((u16_at(b, 1), 3nat))
    } else if b[0] == 0xce && b.len() >= 5 {
        Some((u32_at(b, 1), 5nat))
    } else if b[0] == 0xcf && b.len() >= 9 {
        Some((u64_at(b, 1), 9nat))
    } else if b[0] == 0xd0 && b.len() >= 2 {
        Some((signed(b[1] as int, 0x80), 2nat))
    } else if b[0] == 0xd1 && b.len() >= 3 {
        Some((signed(u16_at(b, 1), 0x8000), 3nat))
    } else if b[0] == 0xd2 && b.len() >= 5 {
        Some((signed(u32_at(b, 1), 0x8000_0000), 5nat))
    } else if b[0] == 0xd3 && b.len() >= 9 {
        Some((signed(u64_at(b, 1), 0x8000_0000_0000_0000), 9nat))
    } else {
        None
    }
}

/// The integer that `b` starts with, where it fits 32 unsigned bits.
pub open spec fn u32_at_head(b: Seq<u8>) -> Option<(u32, nat)> {
    match int_at(b) {
        Some((v, n)) => if 0 <= v <= u32::MAX {
            Some((v as u32, n))
        } else {
            None
        },
        None => None,
    }
}

/// The byte length that the string header at the start of `b` announces,
/// and the number of bytes the header takes.
#[verifier::opaque]
pub open spec fn str_len_at(b: Seq<u8>) -> Option<(nat, nat)> {
    if b.len() >= 1 && 0xa0 <= b[0] <= 0xbf {
        Some(((b[0] - 0xa0) as nat, 1nat))
    } else if b.len() >= 2 && b[0] == 0xd9 {
        Some((b[1] as nat, 2nat))
    } else if b.len() >= 3 && b[0] == 0xda {
        Some((u16_at(b, 1) as nat, 3nat))
    } else if b.len() >= 5 && b[0] == 0xdb {
        Some((u32_at(b, 1) as nat, 5nat))
    } else {
        None
    }
}

/// A value of one of the kinds that a packet header holds besides its
/// leading integers: nil, an unsigned integer, or a string.
#[derive(Debug)]
pub enum Field {
    Nil,
    Uint(u64),
    Str(String),
}

/// What a [`Field`] stands for.
pub enum FieldView {
    Nil,
    Uint(u64),
    Str(Seq<char>),
}

impl View for Field {
    type V = FieldView;

    open spec fn view(&self) -> FieldView {
        match self {
            Field::Nil => FieldView::Nil,
            Field::Uint(v) => FieldView::Uint(*v),
            Field::Str(s) => FieldView::Str(s@),
        }
    }
}

/// The field that `b` starts with, and the number of bytes it takes: nil, an
/// integer that is not negative, or a string of valid UTF-8. Anything else
/// (a negative integer, a string that is not UTF-8, a value of another kind,
/// a value cut short) is `None`.
#[verifier::opaque]
pub open spec fn field_at(b: Seq<u8>) -> Option<(FieldView, nat)> {
    if b.len() >= 1 && (b[0] == 0xc0 || b[0] == 0xc1) {
        Some((FieldView::Nil, 1nat))
    } else if str_len_at(b) is Some {
        let (len, n) = str_len_at(b).unwrap();
        let body = b.subrange(n as int, (n + len) as int);
        if b.len() >= n + len && valid_utf8(body) {
            Some((FieldView::Str(decode_utf8(body)), n + len))
        } else {
            None
        }
    } else {
        match int_at(b) {
            Some((v, n)) => if v >= 0 {
                Some((FieldView::Uint(v as u64), n))
            } else {
                None
            },
            None => None,
        }
    }
}

/// Appends an array header to `buf`.
///
/// Calls `rmp::encode::write_array_len`, which picks the marker by the
/// length (fixarray below 16, array16 below 65536, array32 above) and writes
/// the length after it in network order. Writing to a `Vec` cannot fail.
#[verifier::external_body]
pub(crate) fn write_array_len(buf: &mut Vec<u8>, len: u32)
    ensures
        final(buf)@ == old(buf)@ + array_header(len),
{
    let _ = rmp::encode::write_array_len(buf, len);
}

/// Appends an unsigned integer to `buf`.
///
/// Calls `rmp::encode::write_uint`, which writes a positive fixint below
/// 128, and above that the marker of the narrowest of u8, u16, u32 and u64
/// that holds the value, followed by the value in network order.
#[verifier::external_body]
pub(crate) fn write_uint(buf: &mut Vec<u8>, v: u64)
    ensures
        final(buf)@ == old(buf)@ + uint_bytes(v),
{
    let _ = rmp::encode::write_uint(buf, v);
}

/// Appends a string to `buf`.
///
/// Calls `rmp::encode::write_str`, which writes the header for the byte
/// length cast to `u32` (fixstr below 32, then str8, str16, str32) and then
/// all bytes of the string.
#[verifier::external_body]
pub(crate) fn write_str(buf: &mut Vec<u8>, s: &str)
    ensures
        final(buf)@ == old(buf)@ + str_bytes(s@),
{
    let _ = rmp::encode::write_str(buf, s);
}

/// Appends nil to `buf`.
///
/// Calls `rmp::encode::write_nil`, which writes the single byte `0xc0`.
#[verifier::external_body]
pub(crate) fn write_nil(buf: &mut Vec<u8>)
    ensures
        final(buf)@ == old(buf)@ + nil_bytes(),
{
    let _ = rmp::encode::write_nil(buf);
}

/// Reads an array header from the start of `bytes`; gives the length and
/// the number of bytes left after it.
///
/// Calls `rmp::decode::read_array_len`, which takes a fixarray, array16 or
/// array32 marker with its length and fails on any other marker and on
/// input that ends early.
#[verifier::external_body]
pub(crate) fn read_array_len(bytes: &[u8]) -> (r: Option<(u32, usize)>)
    ensures
        match array_len_at(bytes@) {
            Some((len, n)) => r == Some((len, (bytes@.len() - n) as usize)),
            None => r is None,
        },
{
    let mut rd = bytes;
    match rmp::decode::read_array_len(&mut rd) {
        Ok(len) => Some((len, rd.len())),
        Err(_) => None,
    }
}

/// Reads an integer from the start of `bytes` as a `u32`; gives the value
/// and the number of bytes left after it.
///
/// Calls `rmp::decode::read_int`, which takes an integer under any of the
/// ten integer markers and fails on another marker, on input that ends
/// early, and on a value that `u32` does not hold.
#[verifier::external_body]
pub(crate) fn read_u32(bytes: &[u8]) -> (r: Option<(u32, usize)>)
    ensures
        match u32_at_head(bytes@) {
            Some((v, n)) => r == Some((v, (bytes@.len() - n) as usize)),
            None => r is None,
        },
{
    let mut rd = bytes;
    match rmp::decode::read_int::<u32, _>(&mut rd) {
        Ok(v) => Some((v, rd.len())),
        Err(_) => None,
    }
}

/// Reads one self-describing value from the start of `bytes`; gives it, if
/// it is nil, an integer that is not negative or a UTF-8 string, with the
/// number of bytes left after it.
///
/// Calls `rmpv::decode::read_value`, then `Integer::as_u64` on an integer
/// and `Utf8String::into_str` on a string. `read_value` reads nil from
/// `0xc0` and from the reserved `0xc1`, an integer under any integer marker,
/// and a string from its header and as many bytes as the header says;
/// `as_u64` is `None` for a negative integer and `into_str` for bytes that
/// are not UTF-8.
#[verifier::external_body]
pub(crate) fn read_field(bytes: &[u8]) -> (r: Option<(Field, usize)>)
    ensures
        match field_at(bytes@) {
            Some((f, n)) => r matches Some((g, rest)) && g@ == f && rest == bytes@.len() - n,
            None => r is None,
        },
{
    let mut rd = bytes;
    match rmpv::decode::read_value(&mut rd) {
        Ok(rmpv::Value::Nil) => Some((Field::Nil, rd.len())),
        Ok(rmpv::Value::Integer(i)) => match i.as_u64() {
            Some(v) => Some((Field::Uint(v), rd.len())),
            None => None,
        },
        Ok(rmpv::Value::String(s)) => match s.into_str() {
            Some(s) => Some((Field::Str(s), rd.len())),
            None => None,
        },
        _ => None,
    }
}

/// An array header takes at least one byte and no more than there are.
pub proof fn lemma_array_len_at_bound(b: Seq<u8>)
    ensures
        array_len_at(b) matches Some((_, n)) ==> 1 <= n <= b.len(),
{
    reveal(array_len_at);
}

/// An integer takes at least one byte and no more than there are.
pub proof fn lemma_int_at_bound(b: Seq<u8>)
    ensures
        int_at(b) matches Some((_, n)) ==> 1 <= n <= b.len(),
        u32_at_head(b) matches Some((_, n)) ==> 1 <= n <= b.len(),
{
    reveal(int_at);
}

/// A field takes at least one byte and no more than there are.
pub proof fn lemma_field_at_bound(b: Seq<u8>)
    ensures
        field_at(b) matches Some((_, n)) ==> 1 <= n <= b.len(),
{
    reveal(int_at);
    reveal(str_len_at);
    reveal(field_at);
}

/// `be16` is read back by `u16_at`, wherever the two bytes stand.
pub proof fn lemma_be16_at(b: Seq<u8>, i: int, v: int)
    requires
        0 <= v < 0x1_0000,
        0 <= i,
        i + 2 <= b.len(),
        b.subrange(i, i + 2) == be16(v),
    ensures
        u16_at(b, i) == v,
{
    let x = b.subrange(i, i + 2);
    assert(b[i] == x[0]);
    assert(b[i + 1] == x[1]);
}

/// `be32` is read back by `u32_at`, wherever the four bytes stand.
pub proof fn lemma_be32_at(b: Seq<u8>, i: int, v: int)
    requires
        0 <= v < 0x1_0000_0000,
        0 <= i,
        i + 4 <= b.len(),
        b.subrange(i, i + 4) == be32(v),
    ensures
        u32_at(b, i) == v,
{
    let x = b.subrange(i, i + 4);
    let hi = be16(v / 0x1_0000);
    let lo = be16(v % 0x1_0000);
    assert(x[0] == hi[0] && x[1] == hi[1] && x[2] == lo[0] && x[3] == lo[1]);
    assert(b[i] == x[0] && b[i + 1] == x[1] && b[i + 2] == x[2] && b[i + 3] == x[3]);
    assert(b.subrange(i, i + 2) =~= hi);
    assert(b.subrange(i + 2, i + 4) =~= lo);
    lemma_be16_at(b, i, v / 0x1_0000);
    lemma_be16_at(b, i + 2, v % 0x1_0000);
}

/// `be64` is read back by `u64_at`, wherever the eight bytes stand.
pub proof fn lemma_be64_at(b: Seq<u8>, i: int, v: int)
    requires
        0 <= v < 0x1_0000_0000_0000_0000,
        0 <= i,
        i + 8 <= b.len(),
        b.subrange(i, i + 8) == be64(v),
    ensures
        u64_at(b, i) == v,
{
    let x = b.subrange(i, i + 8);
    let hi = be32(v / 0x1_0000_0000);
    let lo = be32(v % 0x1_0000_0000);
    assert(hi.len() == 4 && lo.len() == 4);
    assert(x[0] == hi[0] && x[1] == hi[1] && x[2] == hi[2] && x[3] == hi[3]);
    assert(x[4] == lo[0] && x[5] == lo[1] && x[6] == lo[2] && x[7] == lo[3]);
    assert(b[i] == x[0] && b[i + 1] == x[1] && b[i + 2] == x[2] && b[i + 3] == x[3]);
    assert(b[i + 4] == x[4] && b[i + 5] == x[5] && b[i + 6] == x[6] && b[i + 7] == x[7]);
    assert(b.subrange(i, i + 4) =~= hi);
    assert(b.subrange(i + 4, i + 8) =~= lo);
    lemma_be32_at(b, i, v / 0x1_0000_0000);
    lemma_be32_at(b, i + 4, v % 0x1_0000_0000);
}

/// How many bytes an unsigned integer takes: between one and nine.
pub proof fn lemma_uint_len(v: u64)
    ensures
        1 <= uint_bytes(v).len() <= 9,
        uint_bytes(v).len() == if v < 0x80 {
            1nat
        } else if v < 0x100 {
            2nat
        } else if v < 0x1_0000 {
            3nat
        } else if v < 0x1_0000_0000 {
            5nat
        } else {
            9nat
        },
{
}

/// An unsigned integer that was written is read back, whatever follows it.
pub proof fn lemma_uint_read_back(v: u64, rest: Seq<u8>)
    ensures
        int_at(uint_bytes(v) + rest) == Some((v as int, uint_bytes(v).len())),
        v <= u32::MAX ==> u32_at_head(uint_bytes(v) + rest) == Some(
            (v as u32, uint_bytes(v).len()),
        ),
        field_at(uint_bytes(v) + rest) == Some((FieldView::Uint(v), uint_bytes(v).len())),
{
    reveal(int_at);
    reveal(str_len_at);
    reveal(field_at);
    let b = uint_bytes(v) + rest;
    lemma_uint_len(v);
    assert(b[0] == uint_bytes(v)[0]);
    if v < 0x80 {
    } else if v < 0x100 {
        assert(b[1] == uint_bytes(v)[1]);
    } else if v < 0x1_0000 {
        assert(b.subrange(1, 3) =~= be16(v as int));
        lemma_be16_at(b, 1, v as int);
    } else if v < 0x1_0000_0000 {
        assert(b.subrange(1, 5) =~= be32(v as int));
        lemma_be32_at(b, 1, v as int);
    } else {
        assert(b.subrange(1, 9) =~= be64(v as int));
        lemma_be64_at(b, 1, v as int);
    }
    assert(str_len_at(b) is None);
}

/// An array header that was written is read back, whatever follows it.
pub proof fn lemma_array_len_read_back(len: u32, rest: Seq<u8>)
    ensures
        array_len_at(array_header(len) + rest) == Some((len, array_header(len).len())),
{
    reveal(array_len_at);
    let b = array_header(len) + rest;
    assert(b[0] == array_header(len)[0]);
    if len < 16 {
    } else if len < 0x1_0000 {
        assert(b.subrange(1, 3) =~= be16(len as int));
        lemma_be16_at(b, 1, len as int);
    } else {
        assert(b.subrange(1, 5) =~= be32(len as int));
        lemma_be32_at(b, 1, len as int);
    }
}

/// Nil that was written is read back, whatever follows it.
pub proof fn lemma_nil_read_back(rest: Seq<u8>)
    ensures
        field_at(nil_bytes() + rest) == Some((FieldView::Nil, 1nat)),
{
    reveal(field_at);
    assert((nil_bytes() + rest)[0] == 0xc0);
}

/// A string of less than 4 GiB that was written is read back, whatever
/// follows it.
pub proof fn lemma_str_read_back(s: Seq<char>, rest: Seq<u8>)
    requires
        encode_utf8(s).len() <= u32::MAX,
    ensures
        field_at(str_bytes(s) + rest) == Some((FieldView::Str(s), str_bytes(s).len())),
{
    reveal(str_len_at);
    reveal(field_at);
    let body = encode_utf8(s);
    let len = body.len() as u32;
    let head = str_header(len);
    let b = str_bytes(s) + rest;
    assert(str_bytes(s) == head + body);
    assert(b[0] == head[0]);
    if len < 32 {
    } else if len < 0x100 {
        assert(b[1] == head[1]);
    } else if len < 0x1_0000 {
        assert(b.subrange(1, 3) =~= be16(len as int));
        lemma_be16_at(b, 1, len as int);
    } else {
        assert(b.subrange(1, 5) =~= be32(len as int));
        lemma_be32_at(b, 1, len as int);
    }
    assert(str_len_at(b) == Some((len as nat, head.len())));
    let n = head.len();
    assert(b.subrange(n as int, (n + len) as int) =~= body);
    encode_utf8_valid_utf8(s);
    encode_utf8_decode_utf8(s);
}

} // verus!
