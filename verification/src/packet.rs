//! The three packets and their framing.
//!
//! A packet is a MessagePack array whose first element is its type:
//!
//! - request: `[0, id, method, args]`
//! - response: `[1, id, error, result]`, where `error` is nil or a string
//! - notify: `[2, method, args]`
//!
//! The functions here build the bytes in front of `args` and `result`, and
//! read them back from a received frame.

use vstd::prelude::*;
use vstd::slice::slice_subrange;
use crate::method::{method_bytes, method_of, Method, MethodView};
use crate::msgpack::{
    array_header, array_len_at, field_at, nil_bytes, read_array_len, read_field, read_u32,
    lemma_array_len_at_bound, lemma_array_len_read_back, lemma_field_at_bound,
    lemma_int_at_bound, lemma_nil_read_back, lemma_str_read_back, lemma_uint_read_back,
    str_bytes, u32_at_head, uint_bytes, write_array_len, write_nil, write_str, write_uint, Field,
    FieldView,
};
use vstd::utf8::encode_utf8;

verus! {

/// The type tag of a request.
pub const REQUEST: u32 = 0;

/// The type tag of a response.
pub const RESPONSE: u32 = 1;

/// The type tag of a notify.
pub const NOTIFY: u32 = 2;

/// The kind of a packet.
#[derive(Clone, Copy, Debug, PartialEq, Eq, Structural)]
pub enum Kind {
    Request,
    Response,
    Notify,
}

/// Why a frame is not a packet.
#[derive(Clone, Copy, Debug, PartialEq, Eq, Structural)]
pub enum ProtocolError {
    /// The frame does not start with an array header and an integer type tag.
    Malformed,
    /// The type tag is none of the three.
    UnknownType,
    /// The array does not have the number of elements that its type asks for.
    BadLength,
    /// The request id is not an integer of 32 unsigned bits.
    BadId,
    /// The method is neither an unsigned integer nor a string.
    BadMethod,
    /// The error of a response is neither nil nor a string.
    BadError,
}

/// The start of a received packet, up to the payload.
#[derive(Debug)]
pub struct Header {
    /// Which packet this is.
    pub kind: Kind,
    /// The request id; 0 in a notify, which carries none.
    pub id: u32,
    /// The method of a request or notify, the error of a response.
    pub field: Field,
    /// Where the payload starts in the frame.
    pub body_at: usize,
}

/// What a [`Header`] stands for.
pub struct HeaderView {
    pub kind: Kind,
    pub id: u32,
    pub field: FieldView,
    pub body_at: nat,
}

impl View for Header {
    type V = HeaderView;

    open spec fn view(&self) -> HeaderView {
        HeaderView { kind: self.kind, id: self.id, field: self.field@, body_at: self.body_at as nat }
    }
}

/// A received packet, read as far as the session needs it.
pub enum PacketView {
    Request { id: u32, method: MethodView, args_at: nat },
    Response { id: u32, error: Option<Seq<char>>, result_at: nat },
    Notify { method: MethodView, args_at: nat },
}

/// The bytes of a request in front of its arguments.
pub open spec fn request_header(id: u32, method: MethodView) -> Seq<u8> {
    array_header(4) + uint_bytes(REQUEST as u64) + uint_bytes(id as u64) + method_bytes(method)
}

/// The bytes of a notify in front of its arguments.
pub open spec fn notify_header(method: MethodView) -> Seq<u8> {
    array_header(3) + uint_bytes(NOTIFY as u64) + method_bytes(method)
}

/// The bytes of a response in front of its error.
pub open spec fn response_header(id: u32) -> Seq<u8> {
    array_header(4) + uint_bytes(RESPONSE as u64) + uint_bytes(id as u64)
}

/// A whole request.
pub open spec fn request_frame(id: u32, method: MethodView, args: Seq<u8>) -> Seq<u8> {
    request_header(id, method) + args
}

/// A whole notify.
pub open spec fn notify_frame(method: MethodView, args: Seq<u8>) -> Seq<u8> {
    notify_header(method) + args
}

/// A whole response that succeeds: nil for the error, then the result.
pub open spec fn reply_frame(id: u32, result: Seq<u8>) -> Seq<u8> {
    response_header(id) + nil_bytes() + result
}

/// A whole response that fails: the message for the error, then nil for the
/// result.
pub open spec fn error_frame(id: u32, msg: Seq<char>) -> Seq<u8> {
    response_header(id) + str_bytes(msg) + nil_bytes()
}

/// The header that the frame `b` starts with.
///
/// The array length and the type tag come first; a frame without them is
/// malformed. The tag decides how many elements the array must have and
/// what follows: the id of a request or response, then the method or the
/// error.
pub open spec fn header_at(b: Seq<u8>) -> Result<HeaderView, ProtocolError> {
    match array_len_at(b) {
        None => Err(ProtocolError::Malformed),
        Some((len, n1)) => match u32_at_head(b.subrange(n1 as int, b.len() as int)) {
            None => Err(ProtocolError::Malformed),
            Some((tag, n2)) => {
                let p2 = n1 + n2;
                if tag == REQUEST || tag == RESPONSE {
                    if len != 4 {
                        Err(ProtocolError::BadLength)
                    } else {
                        match u32_at_head(b.subrange(p2 as int, b.len() as int)) {
                            None => Err(ProtocolError::BadId),
                            Some((id, n3)) => {
                                let p3 = p2 + n3;
                                match field_at(b.subrange(p3 as int, b.len() as int)) {
                                    None => Err(
                                        if tag == REQUEST {
                                            ProtocolError::BadMethod
                                        } else {
                                            ProtocolError::BadError
                                        },
                                    ),
                                    Some((field, n4)) => Ok(
                                        HeaderView {
                                            kind: if tag == REQUEST {
                                                Kind::Request
                                            } else {
                                                Kind::Response
                                            },
                                            id,
                                            field,
                                            body_at: p3 + n4,
                                        },
                                    ),
                                }
                            },
                        }
                    }
                } else if tag == NOTIFY {
                    if len != 3 {
                        Err(ProtocolError::BadLength)
                    } else {
                        match field_at(b.subrange(p2 as int, b.len() as int)) {
                            None => Err(ProtocolError::BadMethod),
                            Some((field, n4)) => Ok(
                                HeaderView { kind: Kind::Notify, id: 0, field, body_at: p2 + n4 },
                            ),
                        }
                    }
                } else {
                    Err(ProtocolError::UnknownType)
                }
            },
        },
    }
}

/// The packet that the frame `b` holds: its header, with the field read as a
/// method or as an error.
pub open spec fn packet_at(b: Seq<u8>) -> Result<PacketView, ProtocolError> {
    match header_at(b) {
        Err(e) => Err(e),
        Ok(h) => match h.kind {
            Kind::Request => match method_of(h.field) {
                Some(method) => Ok(PacketView::Request { id: h.id, method, args_at: h.body_at }),
                None => Err(ProtocolError::BadMethod),
            },
            Kind::Notify => match method_of(h.field) {
                Some(method) => Ok(PacketView::Notify { method, args_at: h.body_at }),
                None => Err(ProtocolError::BadMethod),
            },
            Kind::Response => match h.field {
                FieldView::Nil => Ok(
                    PacketView::Response { id: h.id, error: None, result_at: h.body_at },
                ),
                FieldView::Str(s) => Ok(
                    PacketView::Response { id: h.id, error: Some(s), result_at: h.body_at },
                ),
                FieldView::Uint(_) => Err(ProtocolError::BadError),
            },
        },
    }
}

/// Starts a request: everything in front of the arguments.
pub fn prepare_request(id: u32, method: Method) -> (pack: Vec<u8>)
    ensures
        pack@ == request_header(id, method@),
{
    let mut pack: Vec<u8> = Vec::with_capacity(0x30);
    write_array_len(&mut pack, 4);
    write_uint(&mut pack, REQUEST as u64);
    write_uint(&mut pack, id as u64);
    method.serialize(&mut pack);
    assert(pack@ =~= request_header(id, method@));
    pack
}

/// Starts a notify: everything in front of the arguments.
pub fn prepare_notify(method: Method) -> (pack: Vec<u8>)
    ensures
        pack@ == notify_header(method@),
{
    let mut pack: Vec<u8> = Vec::new();
    write_array_len(&mut pack, 3);
    write_uint(&mut pack, NOTIFY as u64);
    method.serialize(&mut pack);
    assert(pack@ =~= notify_header(method@));
    pack
}

/// Starts a response: everything in front of the error.
pub fn prepare_response(req_id: u32) -> (pack: Vec<u8>)
    ensures
        pack@ == response_header(req_id),
{
    let mut pack: Vec<u8> = Vec::new();
    write_array_len(&mut pack, 4);
    write_uint(&mut pack, RESPONSE as u64);
    write_uint(&mut pack, req_id as u64);
    assert(pack@ =~= response_header(req_id));
    pack
}

/// Appends bytes that are already encoded.
fn splice(pack: &mut Vec<u8>, msgpack: &[u8])
    ensures
        final(pack)@ == old(pack)@ + msgpack@,
{
    pack.extend_from_slice(msgpack);
    assert(pack@ =~= old(pack)@ + msgpack@);
}

/// Builds a request whose arguments `msgpack` are already encoded: they
/// follow the header byte for byte.
pub fn encode_request(id: u32, method: Method, msgpack: &[u8]) -> (pack: Vec<u8>)
    ensures
        pack@ == request_frame(id, method@, msgpack@),
{
    let mut pack = prepare_request(id, method);
    splice(&mut pack, msgpack);
    pack
}

/// Builds a notify whose arguments `msgpack` are already encoded: they
/// follow the header byte for byte.
pub fn encode_notify(method: Method, msgpack: &[u8]) -> (pack: Vec<u8>)
    ensures
        pack@ == notify_frame(method@, msgpack@),
{
    let mut pack = prepare_notify(method);
    splice(&mut pack, msgpack);
    pack
}

/// Builds a response that succeeds with the encoded result `msgpack`.
pub fn encode_reply(req_id: u32, msgpack: &[u8]) -> (pack: Vec<u8>)
    ensures
        pack@ == reply_frame(req_id, msgpack@),
{
    let mut pack = prepare_response(req_id);
    write_nil(&mut pack);
    splice(&mut pack, msgpack);
    pack
}

/// Builds a response that fails with the message `err`.
pub fn encode_error(req_id: u32, err: &str) -> (pack: Vec<u8>)
    ensures
        pack@ == error_frame(req_id, err@),
{
    let mut pack = prepare_response(req_id);
    write_str(&mut pack, err);
    write_nil(&mut pack);
    pack
}

/// Reads the header of a received frame.
pub fn decode_header(frame: &[u8]) -> (r: Result<Header, ProtocolError>)
    ensures
        match header_at(frame@) {
            Ok(h) => r matches Ok(got) && got@ == h && h.body_at <= frame@.len(),
            Err(e) => r == Err::<Header, ProtocolError>(e),
        },
{
    let total: usize = frame.len();
    proof {
        lemma_array_len_at_bound(frame@);
    }
    let (len, left1) = match read_array_len(frame) {
        Some(x) => x,
        None => {
            return Err(ProtocolError::Malformed);
        },
    };
    let p1: usize = total - left1;
    proof {
        lemma_int_at_bound(frame@.subrange(p1 as int, total as int));
    }
    let (tag, left2) = match read_u32(slice_subrange(frame, p1, total)) {
        Some(x) => x,
        None => {
            return Err(ProtocolError::Malformed);
        },
    };
    let p2: usize = total - left2;
    proof {
        lemma_int_at_bound(frame@.subrange(p2 as int, total as int));
        lemma_field_at_bound(frame@.subrange(p2 as int, total as int));
    }
    if tag == REQUEST || tag == RESPONSE {
        if len != 4 {
            return Err(ProtocolError::BadLength);
        }
        let (id, left3) = match read_u32(slice_subrange(frame, p2, total)) {
            Some(x) => x,
            None => {
                return Err(ProtocolError::BadId);
            },
        };
        let p3: usize = total - left3;
        proof {
            lemma_field_at_bound(frame@.subrange(p3 as int, total as int));
        }
        match read_field(slice_subrange(frame, p3, total)) {
            Some((field, left4)) => {
                let kind = if tag == REQUEST {
                    Kind::Request
                } else {
                    Kind::Response
                };
                Ok(Header { kind, id, field, body_at: total - left4 })
            },
            None => Err(
                if tag == REQUEST {
                    ProtocolError::BadMethod
                } else {
                    ProtocolError::BadError
                },
            ),
        }
    } else if tag == NOTIFY {
        if len != 3 {
            return Err(ProtocolError::BadLength);
        }
        match read_field(slice_subrange(frame, p2, total)) {
            Some((field, left4)) => Ok(
                Header { kind: Kind::Notify, id: 0, field, body_at: total - left4 },
            ),
            None => Err(ProtocolError::BadMethod),
        }
    } else {
        Err(ProtocolError::UnknownType)
    }
}

/// Whether a method can be read back from the wire as it was written: any
/// integer, and any string of less than 4 GiB.
pub open spec fn method_fits(m: MethodView) -> bool {
    m matches MethodView::Str(s) ==> encode_utf8(s).len() <= u32::MAX
}

/// The array header and the type tag in front of `rest` are read back, and
/// `rest` is what follows them.
proof fn lemma_envelope_read_back(len: u32, tag: u32, rest: Seq<u8>)
    ensures
        ({
            let b = array_header(len) + uint_bytes(tag as u64) + rest;
            let n1 = array_header(len).len();
            let n2 = uint_bytes(tag as u64).len();
            &&& array_len_at(b) == Some((len, n1))
            &&& u32_at_head(b.subrange(n1 as int, b.len() as int)) == Some((tag, n2))
            &&& b.subrange((n1 + n2) as int, b.len() as int) == rest
        }),
{
    let b = array_header(len) + uint_bytes(tag as u64) + rest;
    let n1 = array_header(len).len();
    let n2 = uint_bytes(tag as u64).len();
    assert(b =~= array_header(len) + (uint_bytes(tag as u64) + rest));
    lemma_array_len_read_back(len, uint_bytes(tag as u64) + rest);
    assert(b.subrange(n1 as int, b.len() as int) =~= uint_bytes(tag as u64) + rest);
    lemma_uint_read_back(tag as u64, rest);
    assert(b.subrange((n1 + n2) as int, b.len() as int) =~= rest);
}

/// The id in front of `rest` is read back, and `rest` is what follows it.
proof fn lemma_id_read_back(id: u32, rest: Seq<u8>)
    ensures
        ({
            let b = uint_bytes(id as u64) + rest;
            let n = uint_bytes(id as u64).len();
            &&& u32_at_head(b) == Some((id, n))
            &&& b.subrange(n as int, b.len() as int) == rest
        }),
{
    let b = uint_bytes(id as u64) + rest;
    lemma_uint_read_back(id as u64, rest);
    assert(b.subrange(uint_bytes(id as u64).len() as int, b.len() as int) =~= rest);
}

/// The method in front of `rest` is read back, and `rest` is what follows it.
proof fn lemma_method_read_back(m: MethodView, rest: Seq<u8>)
    requires
        method_fits(m),
    ensures
        ({
            let b = method_bytes(m) + rest;
            let n = method_bytes(m).len();
            &&& field_at(b) matches Some((f, k)) && k == n && method_of(f) == Some(m)
            &&& b.subrange(n as int, b.len() as int) == rest
        }),
{
    let b = method_bytes(m) + rest;
    match m {
        MethodView::Int(k) => {
            lemma_uint_read_back(k as u64, rest);
        },
        MethodView::Str(s) => {
            lemma_str_read_back(s, rest);
        },
    }
    assert(b.subrange(method_bytes(m).len() as int, b.len() as int) =~= rest);
}

/// A request that was built is read back: as a request, with the same id
/// and method, and with the arguments at the offset it gives.
pub proof fn lemma_request_read_back(id: u32, method: MethodView, args: Seq<u8>)
    requires
        method_fits(method),
    ensures
        packet_at(request_frame(id, method, args)) == Ok::<PacketView, ProtocolError>(
            PacketView::Request { id, method, args_at: request_header(id, method).len() },
        ),
        request_frame(id, method, args).subrange(
            request_header(id, method).len() as int,
            request_frame(id, method, args).len() as int,
        ) == args,
{
    let b = request_frame(id, method, args);
    let r1 = uint_bytes(id as u64) + method_bytes(method) + args;
    let r2 = method_bytes(method) + args;
    let n1 = array_header(4).len();
    let n2 = uint_bytes(REQUEST as u64).len();
    let n3 = uint_bytes(id as u64).len();
    assert(b =~= array_header(4) + uint_bytes(REQUEST as u64) + r1);
    lemma_envelope_read_back(4, REQUEST, r1);
    assert(r1 =~= uint_bytes(id as u64) + r2);
    lemma_id_read_back(id, r2);
    lemma_method_read_back(method, args);
    assert(b.subrange((n1 + n2) as int, b.len() as int) == r1);
    assert(b.subrange((n1 + n2 + n3) as int, b.len() as int) =~= r2);
    assert(b.subrange(request_header(id, method).len() as int, b.len() as int) =~= args);
}

/// A notify that was built is read back: as a notify, with the same method,
/// and with the arguments at the offset it gives.
pub proof fn lemma_notify_read_back(method: MethodView, args: Seq<u8>)
    requires
        method_fits(method),
    ensures
        packet_at(notify_frame(method, args)) == Ok::<PacketView, ProtocolError>(
            PacketView::Notify { method, args_at: notify_header(method).len() },
        ),
        notify_frame(method, args).subrange(
            notify_header(method).len() as int,
            notify_frame(method, args).len() as int,
        ) == args,
{
    let b = notify_frame(method, args);
    let r1 = method_bytes(method) + args;
    assert(b =~= array_header(3) + uint_bytes(NOTIFY as u64) + r1);
    lemma_envelope_read_back(3, NOTIFY, r1);
    lemma_method_read_back(method, args);
    assert(b.subrange(notify_header(method).len() as int, b.len() as int) =~= args);
}

/// A response that succeeds is read back: as a response to the same id,
/// without an error, and with the result at the offset it gives.
pub proof fn lemma_reply_read_back(id: u32, result: Seq<u8>)
    ensures
        packet_at(reply_frame(id, result)) == Ok::<PacketView, ProtocolError>(
            PacketView::Response { id, error: None, result_at: response_header(id).len() + 1 },
        ),
        reply_frame(id, result).subrange(
            (response_header(id).len() + 1) as int,
            reply_frame(id, result).len() as int,
        ) == result,
{
    let b = reply_frame(id, result);
    let r1 = uint_bytes(id as u64) + nil_bytes() + result;
    let r2 = nil_bytes() + result;
    let n1 = array_header(4).len();
    let n2 = uint_bytes(RESPONSE as u64).len();
    let n3 = uint_bytes(id as u64).len();
    assert(b =~= array_header(4) + uint_bytes(RESPONSE as u64) + r1);
    lemma_envelope_read_back(4, RESPONSE, r1);
    assert(r1 =~= uint_bytes(id as u64) + r2);
    lemma_id_read_back(id, r2);
    lemma_nil_read_back(result);
    assert(b.subrange((n1 + n2) as int, b.len() as int) == r1);
    assert(b.subrange((n1 + n2 + n3) as int, b.len() as int) =~= r2);
    assert(b.subrange((response_header(id).len() + 1) as int, b.len() as int) =~= result);
}

/// A response that fails is read back: as a response to the same id, with
/// the same message.
pub proof fn lemma_error_read_back(id: u32, msg: Seq<char>)
    requires
        encode_utf8(msg).len() <= u32::MAX,
    ensures
        packet_at(error_frame(id, msg)) == Ok::<PacketView, ProtocolError>(
            PacketView::Response {
                id,
                error: Some(msg),
                result_at: response_header(id).len() + str_bytes(msg).len(),
            },
        ),
{
    let b = error_frame(id, msg);
    let r1 = uint_bytes(id as u64) + str_bytes(msg) + nil_bytes();
    let r2 = str_bytes(msg) + nil_bytes();
    let n1 = array_header(4).len();
    let n2 = uint_bytes(RESPONSE as u64).len();
    let n3 = uint_bytes(id as u64).len();
    assert(b =~= array_header(4) + uint_bytes(RESPONSE as u64) + r1);
    lemma_envelope_read_back(4, RESPONSE, r1);
    assert(r1 =~= uint_bytes(id as u64) + r2);
    lemma_id_read_back(id, r2);
    lemma_str_read_back(msg, nil_bytes());
    assert(b.subrange((n1 + n2) as int, b.len() as int) == r1);
    assert(b.subrange((n1 + n2 + n3) as int, b.len() as int) =~= r2);
}

} // verus!
