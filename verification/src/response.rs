//! What a caller gets back for a request.

use vstd::prelude::*;
use vstd::slice::slice_subrange;

verus! {

/// The result of a request that succeeded: the whole response frame, and
/// the offset at which the encoded result starts in it.
#[derive(Debug)]
pub struct RespData(Vec<u8>, usize);

impl RespData {
    #[verifier::type_invariant]
    spec fn inv(self) -> bool {
        self.1 <= self.0@.len()
    }

    /// The whole frame.
    pub closed spec fn frame(&self) -> Seq<u8> {
        self.0@
    }

    /// Where the result starts in the frame.
    pub closed spec fn offset(&self) -> nat {
        self.1 as nat
    }

    /// Keeps `frame`, whose result starts at `offset`.
    pub fn new(frame: Vec<u8>, offset: usize) -> (d: RespData)
        requires
            offset <= frame@.len(),
        ensures
            d.frame() == frame@,
            d.offset() == offset,
            d@ == frame@.subrange(offset as int, frame@.len() as int),
    {
        RespData(frame, offset)
    }

    /// The encoded result is the frame from the offset on.
    pub proof fn lemma_view(&self)
        ensures
            self@ == self.frame().subrange(self.offset() as int, self.frame().len() as int),
    {
    }

    /// The encoded result.
    pub fn as_slice(&self) -> (s: &[u8])
        ensures
            s@ == self@,
    {
        proof {
            use_type_invariant(self);
        }
        slice_subrange(self.0.as_slice(), self.1, self.0.len())
    }
}

impl View for RespData {
    type V = Seq<u8>;

    /// The encoded result: the frame from the offset on.
    closed spec fn view(&self) -> Seq<u8> {
        self.0@.subrange(self.1 as int, self.0@.len() as int)
    }
}

/// The answer to a request.
#[derive(Debug)]
pub enum Response {
    /// The peer's handler replied; the result is still encoded.
    Data(RespData),
    /// The peer's handler failed with this message.
    Error(String),
}

/// What a [`Response`] stands for.
pub enum ResponseView {
    Data { frame: Seq<u8>, offset: nat },
    Error(Seq<char>),
}

impl View for Response {
    type V = ResponseView;

    open spec fn view(&self) -> ResponseView {
        match self {
            Response::Data(d) => ResponseView::Data { frame: d.frame(), offset: d.offset() },
            Response::Error(s) => ResponseView::Error(s@),
        }
    }
}

impl ResponseView {
    /// The encoded result of a response that succeeded.
    pub open spec fn payload(self) -> Seq<u8>
        recommends
            self is Data,
    {
        match self {
            ResponseView::Data { frame, offset } => frame.subrange(offset as int, frame.len() as int),
            ResponseView::Error(_) => Seq::empty(),
        }
    }
}

impl Response {
    /// Parts a response into the encoded result and the peer's message.
    pub fn into_result(self) -> (r: Result<RespData, String>)
        ensures
            match self@ {
                ResponseView::Data { frame, offset } => r matches Ok(d) && d.frame() == frame
                    && d.offset() == offset && d@ == self@.payload(),
                ResponseView::Error(s) => r matches Err(e) && e@ == s,
            },
    {
        match self {
            Response::Data(d) => Ok(d),
            Response::Error(s) => Err(s),
        }
    }
}

} // verus!
