//! A small bidirectional RPC runtime over any message transport, with
//! MessagePack framing.
//!
//! A peer at either end of a transport sends requests, which expect a
//! reply, and notifies, which do not, and serves those of the other end
//! through a [`Service`]. The transport is anything that implements
//! [`Adaptor`]. Arguments and results travel as MessagePack that is encoded
//! and decoded outside this crate; the crate frames them.
//!
//! - [`msgpack`]: the MessagePack pieces that headers are made of
//! - [`method`]: the name of a remote procedure
//! - [`packet`]: the three packets, built and read back
//! - [`response`]: what a caller gets back
//! - [`session`]: ids, waiting requests, dispatch
//! - [`laws`]: what holds of all of it together

pub mod laws;
pub mod method;
pub mod msgpack;
pub mod packet;
pub mod response;
pub mod session;

pub use method::{Method, ToMethod};
pub use packet::ProtocolError;
pub use response::{RespData, Response};
pub use session::{
    Adaptor, Arg, AsyncRet, EmptyService, HandleError, Handled, LoopEnd, RecvError, ReplySlot, Ret,
    Service, Session, Verdict,
};
