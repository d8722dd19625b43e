//! The name of a remote procedure: a number or a string.

use vstd::prelude::*;
use vstd::utf8::*;
use crate::msgpack::{str_bytes, uint_bytes, write_str, write_uint, Field, FieldView};

verus! {

/// The method of a request or notify: an integer tag or a string name.
#[derive(Clone, Copy, Debug)]
pub enum Method<'a> {
    Int(u32),
    Str(&'a str),
}

/// What a [`Method`] stands for.
pub enum MethodView {
    Int(u32),
    Str(Seq<char>),
}

impl<'a> View for Method<'a> {
    type V = MethodView;

    open spec fn view(&self) -> MethodView {
        match self {
            Method::Int(n) => MethodView::Int(*n),
            Method::Str(s) => MethodView::Str(s@),
        }
    }
}

/// The bytes of a method on the wire: an unsigned integer or a string.
pub open spec fn method_bytes(m: MethodView) -> Seq<u8> {
    match m {
        MethodView::Int(n) => uint_bytes(n as u64),
        MethodView::Str(s) => str_bytes(s),
    }
}

/// The method that a decoded field names: an integer of 32 unsigned bits or
/// a string. A larger integer names no method, and nil names none.
pub open spec fn method_of(f: FieldView) -> Option<MethodView> {
    match f {
        FieldView::Uint(v) => if v <= u32::MAX {
            Some(MethodView::Int(v as u32))
        } else {
            None
        },
        FieldView::Str(s) => Some(MethodView::Str(s)),
        FieldView::Nil => None,
    }
}

impl<'a> Method<'a> {
    /// Appends the method to `w` in its wire form.
    pub fn serialize(&self, w: &mut Vec<u8>)
        ensures
            final(w)@ == old(w)@ + method_bytes(self@),
    {
        match *self {
            Method::Int(i) => write_uint(w, i as u64),
            Method::Str(s) => write_str(w, s),
        }
    }
}

/// Whether two strings hold the same text, compared byte by byte.
pub fn str_eq(a: &str, b: &str) -> (r: bool)
    ensures
        r == (a@ == b@),
{
    let x = a.as_bytes();
    let y = b.as_bytes();
    proof {
        encode_utf8_decode_utf8(a@);
        encode_utf8_decode_utf8(b@);
    }
    if x.len() != y.len() {
        return false;
    }
    let mut i: usize = 0;
    while i < x.len()
        invariant
            i <= x.len(),
            x.len() == y.len(),
            x@ == encode_utf8(a@),
            y@ == encode_utf8(b@),
            forall|k: int| 0 <= k < i ==> x@[k] == y@[k],
        decreases x.len() - i,
    {
        if x[i] != y[i] {
            return false;
        }
        i = i + 1;
    }
    assert(x@ =~= y@);
    true
}

impl<'a> PartialEq<u32> for Method<'a> {
    fn eq(&self, other: &u32) -> (r: bool) {
        match *self {
            Method::Int(n) => n == *other,
            Method::Str(_) => false,
        }
    }
}

impl<'a> vstd::std_specs::cmp::PartialEqSpecImpl<u32> for Method<'a> {
    open spec fn obeys_eq_spec() -> bool {
        true
    }

    open spec fn eq_spec(&self, other: &u32) -> bool {
        self@ == MethodView::Int(*other)
    }
}

impl<'a> PartialEq<str> for Method<'a> {
    fn eq(&self, other: &str) -> (r: bool) {
        match *self {
            Method::Int(_) => false,
            Method::Str(s) => str_eq(s, other),
        }
    }
}

impl<'a> vstd::std_specs::cmp::PartialEqSpecImpl<str> for Method<'a> {
    open spec fn obeys_eq_spec() -> bool {
        true
    }

    open spec fn eq_spec(&self, other: &str) -> bool {
        self@ == MethodView::Str(other@)
    }
}

impl<'a> PartialEq for Method<'a> {
    fn eq(&self, other: &Method<'a>) -> (r: bool) {
        match (*self, *other) {
            (Method::Int(a), Method::Int(b)) => a == b,
            (Method::Str(a), Method::Str(b)) => str_eq(a, b),
            _ => false,
        }
    }
}

impl<'a> vstd::std_specs::cmp::PartialEqSpecImpl for Method<'a> {
    open spec fn obeys_eq_spec() -> bool {
        true
    }

    open spec fn eq_spec(&self, other: &Method<'a>) -> bool {
        self@ == other@
    }
}

impl<'a> Eq for Method<'a> {

}

/// Reads a method out of a decoded field, as [`method_of`] says.
pub fn parse_method<'a>(val: &'a Field) -> (r: Option<Method<'a>>)
    ensures
        match method_of(val@) {
            Some(m) => r matches Some(got) && got@ == m,
            None => r is None,
        },
{
    match val {
        Field::Uint(v) => if *v <= 0xffff_ffff {
            Some(Method::Int(*v as u32))
        } else {
            None
        },
        Field::Str(s) => Some(Method::Str(s.as_str())),
        Field::Nil => None,
    }
}

/// Anything that names a method: a `u32`, a `&str`, or a [`Method`] itself.
pub trait ToMethod<'a>: Sized {
    /// The method that `self` names.
    spec fn method_view(self) -> MethodView;

    fn to_method(self) -> (m: Method<'a>)
        ensures
            m@ == self.method_view(),
    ;
}

impl<'a> ToMethod<'a> for u32 {
    open spec fn method_view(self) -> MethodView {
        MethodView::Int(self)
    }

    fn to_method(self) -> (m: Method<'a>) {
        Method::Int(self)
    }
}

impl<'a> ToMethod<'a> for &'a str {
    open spec fn method_view(self) -> MethodView {
        MethodView::Str(self@)
    }

    fn to_method(self) -> (m: Method<'a>) {
        Method::Str(self)
    }
}

impl<'a> ToMethod<'a> for Method<'a> {
    open spec fn method_view(self) -> MethodView {
        self@
    }

    fn to_method(self) -> (m: Method<'a>) {
        self
    }
}

} // verus!
