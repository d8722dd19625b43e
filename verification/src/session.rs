//! The session: request ids, the table of requests that wait for a reply,
//! and the dispatch of received packets.
//!
//! One session stands at each end of a transport. It is driven by whoever
//! owns it: exclusive access takes the place of a reader lock, so at most
//! one caller is ever inside the transport's `recv`. A reply travels in two
//! steps, as through a one-shot channel: the packet that carries it moves
//! the id from the table of pending requests into the mailbox, and the
//! caller that waits for it takes it out of the mailbox.
//!
//! Contracts speak of a session through its view, [`SessionView`], and
//! through [`Session::issued`], the frames that it has handed to the
//! transport on its own account. What the transport and the handlers do is
//! not known here. A contract that depends on them says which call was
//! made and that the result came out of it ([`answers`], [`gives`],
//! [`closes`], [`called`]), and what follows from the result:
//! [`dispatched`] for one frame, [`took_in`] for one receive attempt, and
//! [`run_of`] for a run of attempts, stage by stage.

use std::collections::{HashMap, HashSet};
use std::sync::Arc;
use vstd::prelude::*;
use vstd::slice::slice_subrange;
use crate::method::{parse_method, Method, MethodView, ToMethod};
use crate::msgpack::Field;
use crate::packet::{
    decode_header, encode_error, encode_notify, encode_reply, encode_request, error_frame,
    notify_frame, packet_at, reply_frame, request_frame, Kind, PacketView, ProtocolError,
};
use crate::response::{RespData, Response, ResponseView};

verus! {

broadcast use vstd::std_specs::hash::group_hash_axioms;

/// Why a receive attempt gave no frame.
#[derive(Clone, Copy, Debug, PartialEq, Eq, Structural)]
pub enum RecvError {
    /// Nothing has arrived yet.
    NoData,
    /// The peer is gone.
    Disconnected,
    /// Someone else is reading from the transport.
    MutexOccupied,
}

/// A duplex channel that carries whole messages.
pub trait Adaptor {
    /// Sends one message; says whether the transport took it.
    fn send(&self, data: Vec<u8>) -> bool;

    /// Waits for one message.
    fn recv(&self) -> Result<Vec<u8>, RecvError>;

    /// Whether the connection still stands, as far as is known.
    fn connected(&self) -> bool;

    /// Closes the connection.
    fn close(&self);
}

/// Whether `taken` is what the transport `a` answers when it is handed a
/// message of the bytes `frame`: `taken` comes out of a call of its `send`
/// with such a message.
pub open spec fn answers<A: Adaptor>(a: Arc<A>, frame: Seq<u8>, taken: bool) -> bool {
    exists|data: Vec<u8>| data@ == frame && #[trigger] call_ensures(A::send, (&*a, data), taken)
}

/// Whether `got` is what the transport `a` gives to a receive attempt: `got`
/// comes out of a call of its `recv`.
pub open spec fn gives<A: Adaptor>(a: Arc<A>, got: Result<Vec<u8>, RecvError>) -> bool {
    call_ensures(A::recv, (&*a,), got)
}

/// Whether the transport `a` was closed: a call of its `close` has returned.
pub open spec fn closes<A: Adaptor>(a: Arc<A>) -> bool {
    call_ensures(A::close, (&*a,), ())
}

/// The failure of a handler, as the text that is sent to the caller.
pub struct HandleError(String);

impl View for HandleError {
    type V = Seq<char>;

    closed spec fn view(&self) -> Seq<char> {
        self.0@
    }
}

impl HandleError {
    /// A failure with the message `msg`.
    pub fn new(msg: String) -> (e: HandleError)
        ensures
            e@ == msg@,
    {
        HandleError(msg)
    }

    /// The message.
    pub fn message(&self) -> (s: &str)
        ensures
            s@ == self@,
    {
        self.0.as_str()
    }
}

impl<T: core::fmt::Debug> From<T> for HandleError {
    /// A failure whose message is `e` as its `Debug` impl prints it.
    ///
    /// Calls `format!` with `{:#?}`; what comes out is up to the type.
    #[verifier::external_body]
    fn from(e: T) -> (r: HandleError) {
        HandleError(format!("{:#?}", e))
    }
}

/// The arguments of a request or notify, as the handler sees them.
pub struct Arg<'a> {
    /// The method that was called.
    pub method: Method<'a>,
    /// The arguments, still encoded.
    pub bytes: &'a [u8],
    /// The id of the request; 0 for a notify.
    pub id: u32,
}

/// The state of a session, as contracts see it.
pub struct SessionView {
    /// The id that the next request gets.
    pub next_id: u32,
    /// The ids of the requests that wait for a reply.
    pub pending: Set<u32>,
    /// The replies that have arrived and were not collected yet.
    pub mailbox: Map<u32, ResponseView>,
}

/// The id that comes after `id`: ids count up and, after the largest, start
/// again at 1. 0 is never used.
pub open spec fn id_after(id: u32) -> u32 {
    if id == u32::MAX {
        1
    } else {
        (id + 1) as u32
    }
}

/// Computes the id that comes after `id`.
pub fn next_after(id: u32) -> (next: u32)
    ensures
        next == id_after(id),
        next != 0,
{
    if id == u32::MAX {
        1
    } else {
        id + 1
    }
}

/// The response that a response packet carries.
pub open spec fn carried(frame: Seq<u8>, error: Option<Seq<char>>, result_at: nat) -> ResponseView {
    match error {
        None => ResponseView::Data { frame, offset: result_at },
        Some(s) => ResponseView::Error(s),
    }
}

impl SessionView {
    /// A session that has not sent anything.
    pub open spec fn fresh() -> SessionView {
        SessionView { next_id: 1, pending: Set::empty(), mailbox: Map::empty() }
    }

    /// What holds of every state that a session reaches: the next id is not
    /// 0, finitely many requests wait, and no id both waits for a reply and
    /// has one in the mailbox.
    pub open spec fn wf(self) -> bool {
        &&& self.next_id != 0
        &&& self.pending.finite()
        &&& forall|id: u32| !(self.pending.contains(id) && self.mailbox.contains_key(id))
    }

    /// After an id was handed out.
    pub open spec fn advance(self) -> SessionView {
        SessionView { next_id: id_after(self.next_id), ..self }
    }

    /// After a request with this id was sent: it waits, with an empty slot.
    pub open spec fn register(self, id: u32) -> SessionView {
        SessionView { pending: self.pending.insert(id), mailbox: self.mailbox.remove(id), ..self }
    }

    /// After a response to this id arrived: it goes to the mailbox if the id
    /// waits for one, and is dropped if not.
    pub open spec fn deliver(self, id: u32, resp: ResponseView) -> SessionView {
        if self.pending.contains(id) {
            SessionView {
                pending: self.pending.remove(id),
                mailbox: self.mailbox.insert(id, resp),
                ..self
            }
        } else {
            self
        }
    }

    /// After the reply to this id was collected.
    pub open spec fn take(self, id: u32) -> SessionView {
        SessionView { mailbox: self.mailbox.remove(id), ..self }
    }

    /// After the transport was lost: no request waits any longer.
    pub open spec fn drain(self) -> SessionView {
        SessionView { pending: Set::empty(), ..self }
    }

    /// After a frame was handled: a response is delivered, a frame that is
    /// no packet ends the session, a request or notify changes nothing.
    pub open spec fn on_packet(self, frame: Seq<u8>) -> SessionView {
        match packet_at(frame) {
            Err(_) => self.drain(),
            Ok(PacketView::Response { id, error, result_at }) => self.deliver(
                id,
                carried(frame, error, result_at),
            ),
            Ok(_) => self,
        }
    }

    /// After a receive attempt gave `got`.
    pub open spec fn on_recv(self, got: Result<Seq<u8>, RecvError>) -> SessionView {
        match got {
            Ok(frame) => self.on_packet(frame),
            Err(RecvError::Disconnected) => self.drain(),
            Err(_) => self,
        }
    }
}

/// What a receive attempt gave, with the frame as its bytes.
pub open spec fn received(got: Result<Vec<u8>, RecvError>) -> Result<Seq<u8>, RecvError> {
    match got {
        Ok(frame) => Ok(frame@),
        Err(e) => Err(e),
    }
}

/// Whether what a receive attempt gave ends the session, and why: the peer
/// is gone, or the frame is no packet.
pub open spec fn session_end(got: Result<Seq<u8>, RecvError>) -> Option<LoopEnd> {
    match got {
        Ok(frame) => match packet_at(frame) {
            Err(e) => Some(LoopEnd::Protocol(e)),
            Ok(_) => None,
        },
        Err(RecvError::Disconnected) => Some(LoopEnd::Disconnected),
        Err(_) => None,
    }
}

/// How the wait for the reply to `req_id` goes on once a receive attempt
/// gave `got` and the session took it in, which left it in state `s`.
///
/// The reply is returned if it is in the mailbox. If it is not, and the
/// request does not wait any more either, its slot is closed and no reply
/// can come: the wait fails as for a lost transport. This is so after the
/// session has ended, and for an id that no request was sent under. If
/// someone else is reading from the transport, this caller cannot fetch the
/// reply: the wait fails with that. Otherwise it goes on.
pub open spec fn wait_end(s: SessionView, req_id: u32, got: Result<Seq<u8>, RecvError>) -> Option<
    Result<ResponseView, RecvError>,
> {
    if s.mailbox.contains_key(req_id) {
        Some(Ok(s.mailbox[req_id]))
    } else if !s.pending.contains(req_id) {
        Some(Err(RecvError::Disconnected))
    } else if got == Err::<Seq<u8>, RecvError>(RecvError::MutexOccupied) {
        Some(Err(RecvError::MutexOccupied))
    } else {
        None
    }
}

/// The response frame that passes the response `resp` on as the answer to
/// the request `id`: its result as the result, its failure as the failure.
pub open spec fn relayed(id: u32, resp: ResponseView) -> Seq<u8> {
    match resp {
        ResponseView::Data { .. } => reply_frame(id, resp.payload()),
        ResponseView::Error(msg) => error_frame(id, msg),
    }
}

/// The state of a session that was in state `s` and then took in, one after
/// the other, what the receive attempts `gots` gave.
pub open spec fn after_run(s: SessionView, gots: Seq<Result<Vec<u8>, RecvError>>) -> SessionView
    decreases gots.len(),
{
    if gots.len() == 0 {
        s
    } else {
        after_run(s, gots.drop_last()).on_recv(received(gots.last()))
    }
}

/// Whether `gots` is what the receive attempts of one run of
/// [`Session::loop_handle`] over the transport `a` gave, for a run of at
/// most `rounds` attempts that ended with `end`. Each is something that the
/// transport gave. None but the last ends the session: the run stops at the
/// first that does, and `end` says why. If none does, the run makes all its
/// attempts and is exhausted.
pub open spec fn loop_run<A: Adaptor>(
    a: Arc<A>,
    gots: Seq<Result<Vec<u8>, RecvError>>,
    rounds: usize,
    end: LoopEnd,
) -> bool {
    &&& gots.len() <= rounds
    &&& forall|i: int| 0 <= i < gots.len() ==> gives(a, #[trigger] gots[i])
    &&& forall|i: int|
        0 <= i < gots.len() - 1 ==> session_end(received(#[trigger] gots[i])) is None
    &&& match end {
        LoopEnd::Exhausted => gots.len() == rounds && (rounds > 0 ==> session_end(
            received(gots.last()),
        ) is None),
        _ => gots.len() > 0 && session_end(received(gots.last())) == Some(end),
    }
}

/// The result of a wait, with the response as what it stands for.
pub open spec fn waited(r: Result<Response, RecvError>) -> Result<ResponseView, RecvError> {
    match r {
        Ok(resp) => Ok(resp@),
        Err(e) => Err(e),
    }
}

/// The state of a session that was in state `s` and then, waiting for the
/// reply to `req_id`, took in what the receive attempts `gots` gave, and
/// looked into the mailbox after each.
pub open spec fn after_wait(
    s: SessionView,
    req_id: u32,
    gots: Seq<Result<Vec<u8>, RecvError>>,
) -> SessionView
    decreases gots.len(),
{
    if gots.len() == 0 {
        s
    } else {
        after_wait(s, req_id, gots.drop_last()).on_recv(received(gots.last())).take(req_id)
    }
}

/// How the wait for the reply to `req_id` goes on after the last of the
/// receive attempts `gots`, as [`wait_end`] says of the state in which what
/// that attempt gave was taken in.
pub open spec fn wait_step(
    s: SessionView,
    req_id: u32,
    gots: Seq<Result<Vec<u8>, RecvError>>,
) -> Option<Result<ResponseView, RecvError>>
    recommends
        gots.len() > 0,
{
    wait_end(
        after_wait(s, req_id, gots.drop_last()).on_recv(received(gots.last())),
        req_id,
        received(gots.last()),
    )
}

/// Whether the wait for the reply to `req_id` went on after each of the
/// receive attempts `gots`.
pub open spec fn wait_goes_on(
    s: SessionView,
    req_id: u32,
    gots: Seq<Result<Vec<u8>, RecvError>>,
) -> bool
    decreases gots.len(),
{
    gots.len() == 0 || (wait_goes_on(s, req_id, gots.drop_last()) && wait_step(s, req_id, gots)
        is None)
}

/// Whether `gots` is what the receive attempts of one run of
/// [`Session::wait_response`] gave, for a wait of at most `rounds` attempts
/// for the reply to `req_id`, over the transport `a`, that began in state
/// `s` and ended with `r`.
///
/// No attempt is made where the wait is over at once: the reply is in the
/// mailbox already, or no request waits under `req_id`, or no round is
/// allowed. Otherwise each attempt is something that the transport gave; the
/// wait went on after each but the last; and it ended as [`wait_end`] says
/// of the last, or, if that lets it go on, because the rounds were used up.
pub open spec fn wait_run<A: Adaptor>(
    a: Arc<A>,
    s: SessionView,
    req_id: u32,
    gots: Seq<Result<Vec<u8>, RecvError>>,
    rounds: usize,
    r: Result<ResponseView, RecvError>,
) -> bool {
    &&& gots.len() <= rounds
    &&& forall|i: int| 0 <= i < gots.len() ==> gives(a, #[trigger] gots[i])
    &&& if s.mailbox.contains_key(req_id) {
        gots.len() == 0 && r == Ok::<ResponseView, RecvError>(s.mailbox[req_id])
    } else if !s.pending.contains(req_id) {
        gots.len() == 0 && r == Err::<ResponseView, RecvError>(RecvError::Disconnected)
    } else if gots.len() == 0 {
        rounds == 0 && r == Err::<ResponseView, RecvError>(RecvError::NoData)
    } else {
        &&& wait_goes_on(s.take(req_id), req_id, gots.drop_last())
        &&& match wait_step(s.take(req_id), req_id, gots) {
            Some(x) => r == x,
            None => gots.len() == rounds && r == Err::<ResponseView, RecvError>(
                RecvError::NoData,
            ),
        }
    }
}

/// Whether `outcome` is what the handler of the service returned when the
/// session `ss` called it with the arguments `arg` and the reply handle
/// `ret`: `arg` holds the method, the id and the encoded arguments of the
/// packet, and `ret` is a handle of that session whose slot holds `slot`,
/// the id for a request and nothing for a notify.
pub open spec fn called<A: Adaptor, S: Service<A>>(
    ss: &Session<A, S>,
    method: MethodView,
    id: u32,
    args: Seq<u8>,
    slot: Option<u32>,
    arg: Arg,
    ret: Ret<A, S>,
    outcome: Result<(), HandleError>,
) -> bool {
    &&& arg.method@ == method
    &&& arg.id == id
    &&& arg.bytes@ == args
    &&& ret.ss == ss
    &&& ret.slot.id() == slot
    &&& call_ensures(S::handle, (&*ss.wiring().1, ss, arg, ret), outcome)
}

/// The frames that the session has sent on its own account after it served
/// a request: the failure of the handler follows the frames `before` where
/// the handler failed and left its reply handle armed, and nothing does
/// otherwise.
pub open spec fn after_request(
    before: Seq<Seq<u8>>,
    id: u32,
    outcome: Result<(), HandleError>,
    armed: bool,
) -> Seq<Seq<u8>> {
    match outcome {
        Err(e) => if armed {
            before.push(error_frame(id, e@))
        } else {
            before
        },
        Ok(_) => before,
    }
}

/// What [`Session::handle_packet`] returns for the frame `pack`, and what
/// it does with the transport and the service on the way from the session
/// `before` to the session `after`.
///
/// For a frame that is no packet the transport is closed. For a request the
/// handler is called, with `arg` and the armed handle `ret`; it returns
/// `outcome` and leaves the handle armed or not, which `armed` says; the
/// verdict follows from both, and so does what is sent: the failure of the
/// handler where it failed with the handle still armed, and nothing
/// otherwise. For a notify the handler is called with `arg` and the spent
/// handle `ret`, and nothing is sent. A response is delivered or dropped,
/// and nothing is sent.
pub open spec fn dispatched<A: Adaptor, S: Service<A>>(
    before: &Session<A, S>,
    after: &Session<A, S>,
    pack: Seq<u8>,
    r: Result<Handled, ProtocolError>,
    arg: Arg,
    ret: Ret<A, S>,
    outcome: Result<(), HandleError>,
    armed: bool,
) -> bool {
    &&& after.wiring() == before.wiring()
    &&& match packet_at(pack) {
        Err(e) => {
            &&& r == Err::<Handled, ProtocolError>(e)
            &&& closes(before.wiring().0)
            &&& after.issued() == before.issued()
        },
        Ok(PacketView::Request { id, method, args_at }) => {
            &&& called(
                before,
                method,
                id,
                pack.subrange(args_at as int, pack.len() as int),
                Some(id),
                arg,
                ret,
                outcome,
            )
            &&& r == Ok::<Handled, ProtocolError>(
                Handled::Request(verdict_of(outcome is Err, armed)),
            )
            &&& after.issued() == after_request(before.issued(), id, outcome, armed)
        },
        Ok(PacketView::Notify { method, args_at }) => {
            &&& called(
                before,
                method,
                0,
                pack.subrange(args_at as int, pack.len() as int),
                None,
                arg,
                ret,
                outcome,
            )
            &&& r == Ok::<Handled, ProtocolError>(Handled::Notify)
            &&& after.issued() == before.issued()
        },
        Ok(PacketView::Response { id, .. }) => {
            &&& r == Ok::<Handled, ProtocolError>(
                if before@.pending.contains(id) {
                    Handled::Delivered
                } else {
                    Handled::Discarded
                },
            )
            &&& after.issued() == before.issued()
        },
    }
}

/// Whether the session `after` is the session `before` once it took in what
/// a receive attempt gave, and, where `look` names a request, looked for the
/// reply to it and took it out of the mailbox. The state is the one that
/// [`SessionView::on_recv`] gives, and [`SessionView::take`] after it; the
/// transport and the service are the same; and nothing was sent unless the
/// attempt gave a frame, for which [`dispatched`] says the rest.
pub open spec fn took_in<A: Adaptor, S: Service<A>>(
    before: Session<A, S>,
    after: Session<A, S>,
    got: Result<Vec<u8>, RecvError>,
    look: Option<u32>,
) -> bool {
    &&& after@ == match look {
        Some(req_id) => before@.on_recv(received(got)).take(req_id),
        None => before@.on_recv(received(got)),
    }
    &&& after.wiring() == before.wiring()
    &&& owed(before.issued(), after.issued(), received(got))
    &&& got is Err ==> after.issued() == before.issued()
}

/// Whether the sessions `trace` are the stages of a run of receive attempts
/// that gave `gots`: one stage before the first attempt, in the state
/// `view`, with the frames `issued` sent and with the transport and service
/// `wiring`; and one after each attempt, the last of them `last`.
pub open spec fn stages<A: Adaptor, S: Service<A>>(
    trace: Seq<Session<A, S>>,
    gots: Seq<Result<Vec<u8>, RecvError>>,
    view: SessionView,
    issued: Seq<Seq<u8>>,
    wiring: (Arc<A>, Arc<S>),
    last: Session<A, S>,
) -> bool {
    &&& trace.len() == gots.len() + 1
    &&& trace[0]@ == view
    &&& trace[0].issued() == issued
    &&& trace[0].wiring() == wiring
    &&& trace.last() == last
}

/// Whether stage `k + 1` of `trace` is stage `k` once it took in what
/// attempt `k` gave, as [`took_in`] says, and, where the attempt gave a
/// frame, handled it as [`dispatched`] says. `notes[k]` holds what
/// [`dispatched`] speaks of besides the sessions and the frame: the result
/// of handling the frame, the arguments and the reply handle that the
/// handler was called with, what the handler returned, and whether it left
/// the handle armed.
pub open spec fn stage_at<A: Adaptor, S: Service<A>>(
    trace: Seq<Session<A, S>>,
    gots: Seq<Result<Vec<u8>, RecvError>>,
    notes: Seq<(Result<Handled, ProtocolError>, Arg, Ret<A, S>, Result<(), HandleError>, bool)>,
    look: Option<u32>,
    k: int,
) -> bool {
    &&& took_in(trace[k], trace[k + 1], gots[k], look)
    &&& gots[k] is Ok ==> dispatched(
        &trace[k],
        &trace[k + 1],
        gots[k]->Ok_0@,
        notes[k].0,
        notes[k].1,
        notes[k].2,
        notes[k].3,
        notes[k].4,
    )
}

/// Whether `trace`, `gots` and `notes` describe a run of receive attempts
/// stage by stage: the stages are as [`stages`] says, there is a note for
/// each attempt, and each stage follows from the one before as
/// [`stage_at`] says.
pub open spec fn run_of<A: Adaptor, S: Service<A>>(
    trace: Seq<Session<A, S>>,
    gots: Seq<Result<Vec<u8>, RecvError>>,
    notes: Seq<(Result<Handled, ProtocolError>, Arg, Ret<A, S>, Result<(), HandleError>, bool)>,
    look: Option<u32>,
    view: SessionView,
    issued: Seq<Seq<u8>>,
    wiring: (Arc<A>, Arc<S>),
    last: Session<A, S>,
) -> bool {
    &&& stages(trace, gots, view, issued, wiring, last)
    &&& notes.len() == gots.len()
    &&& forall|k: int| 0 <= k < gots.len() ==> #[trigger] stage_at(trace, gots, notes, look, k)
}

/// Whether each of the receive attempts `gots` gave something that the
/// transport `a` gave, and none of them ended the session.
pub open spec fn loop_goes_on<A: Adaptor>(a: Arc<A>, gots: Seq<Result<Vec<u8>, RecvError>>) -> bool {
    forall|i: int|
        0 <= i < gots.len() ==> gives(a, #[trigger] gots[i]) && session_end(received(gots[i]))
            is None
}

/// What the session may have sent on its own account while it took in
/// what a receive attempt gave: nothing, unless that was a request; and
/// for a request nothing or one response, the failure of its handler.
pub open spec fn owed(
    before: Seq<Seq<u8>>,
    after: Seq<Seq<u8>>,
    got: Result<Seq<u8>, RecvError>,
) -> bool {
    match got {
        Ok(frame) => match packet_at(frame) {
            Ok(PacketView::Request { id, .. }) => after == before || exists|msg: Seq<char>|
                after == before.push(#[trigger] error_frame(id, msg)),
            _ => after == before,
        },
        Err(_) => after == before,
    }
}

/// What the handler of a request left behind.
#[derive(Clone, Copy, Debug, PartialEq, Eq, Structural)]
pub enum Verdict {
    /// It used its reply handle and did not fail.
    Replied,
    /// It failed before replying: the failure is sent as the response.
    Failed,
    /// It failed after replying: the caller has its response, nothing is sent.
    FailedLate,
    /// It neither replied nor failed: nothing is sent, the caller waits on.
    Missing,
}

/// The verdict on a handler that did or did not fail and did or did not
/// leave its reply handle armed.
pub open spec fn verdict_of(failed: bool, armed: bool) -> Verdict {
    if failed {
        if armed {
            Verdict::Failed
        } else {
            Verdict::FailedLate
        }
    } else {
        if armed {
            Verdict::Missing
        } else {
            Verdict::Replied
        }
    }
}

/// Judges the handler of request `req_id`, and builds the response that is
/// still owed: the handler's failure, if it failed with the reply handle
/// still armed, and nothing in every other case.
pub fn settle(req_id: u32, outcome: &Result<(), HandleError>, armed: bool) -> (r: (
    Verdict,
    Option<Vec<u8>>,
))
    ensures
        r.0 == verdict_of(outcome is Err, armed),
        match r.1 {
            Some(frame) => outcome matches Err(e) && armed && frame@ == error_frame(req_id, e@),
            None => !(armed && outcome is Err),
        },
{
    match outcome {
        Err(e) => {
            if armed {
                (Verdict::Failed, Some(encode_error(req_id, e.message())))
            } else {
                (Verdict::FailedLate, None)
            }
        },
        Ok(_) => {
            if armed {
                (Verdict::Missing, None)
            } else {
                (Verdict::Replied, None)
            }
        },
    }
}

/// What became of a frame that was handled.
#[derive(Clone, Copy, Debug, PartialEq, Eq, Structural)]
pub enum Handled {
    /// A request; the handler ran.
    Request(Verdict),
    /// A notify; the handler ran, and what it returned was dropped.
    Notify,
    /// A response to a request that waited for it.
    Delivered,
    /// A response that nothing waited for.
    Discarded,
}

/// Why a run of [`Session::loop_handle`] ended.
#[derive(Clone, Copy, Debug, PartialEq, Eq, Structural)]
pub enum LoopEnd {
    /// The transport reported that the peer is gone.
    Disconnected,
    /// A frame was no packet; the session was closed.
    Protocol(ProtocolError),
    /// The rounds that were asked for are used up.
    Exhausted,
}

/// One end of a connection.
pub struct Session<A, S> {
    pending: HashSet<u32>,
    mailbox: HashMap<u32, Response>,
    last_id: u32,
    issued: Ghost<Seq<Seq<u8>>>,
    /// The transport.
    pub adaptor: Arc<A>,
    /// What serves the peer.
    pub service: Arc<S>,
}

/// Where a reply handle keeps the id of its request until the request is
/// answered. Only the session makes one, and only a reply handle empties
/// it: a handler cannot arm a slot again.
pub struct ReplySlot {
    id: Option<u32>,
}

/// The handle with which the handler of a request replies. It is armed
/// while its slot holds the id of the request, and spent once the id was
/// taken; the handle of a notify is spent from the start.
pub struct Ret<'a, 'b, A, S> {
    /// The session that received the request.
    pub ss: &'a Session<A, S>,
    /// The id of the request, until it is answered.
    pub slot: &'b mut ReplySlot,
}

/// A reply handle that outlives the handler: it owns a share of the
/// transport and can be sent to wherever the reply is made.
pub struct AsyncRet<A> {
    adaptor: Arc<A>,
    req_id: u32,
}

impl ReplySlot {
    /// The id that the slot holds.
    pub closed spec fn id(&self) -> Option<u32> {
        self.id
    }

    /// Whether the slot holds an id.
    pub open spec fn armed(&self) -> bool {
        self.id() is Some
    }

    /// The slot of a request.
    fn of_request(req_id: u32) -> (slot: ReplySlot)
        ensures
            slot.id() == Some(req_id),
    {
        ReplySlot { id: Some(req_id) }
    }

    /// The slot of a notify.
    fn of_notify() -> (slot: ReplySlot)
        ensures
            !slot.armed(),
    {
        ReplySlot { id: None }
    }

    /// Whether the slot holds an id.
    pub fn is_armed(&self) -> (r: bool)
        ensures
            r == self.armed(),
    {
        self.id.is_some()
    }

    /// Takes the id out.
    fn take(&mut self) -> (r: Option<u32>)
        ensures
            r == old(self).id(),
            !final(self).armed(),
    {
        let r = self.id;
        self.id = None;
        r
    }
}

/// What serves the requests and notifies of the peer.
pub trait Service<A: Adaptor>: Sized {
    /// Handles one request or notify. A request is answered through `ret`;
    /// failing instead sends the failure as the response. Unless it is
    /// overridden, every method fails as unknown.
    fn handle(
        &self,
        _ss: &Session<A, Self>,
        _arg: Arg,
        _ret: Ret<A, Self>,
    ) -> (r: Result<(), HandleError>)
        default_ensures
            r matches Err(e) && e@ == "No this method"@,
            final(_ret.slot).id() == old(_ret.slot).id(),
    {
        Err(HandleError::new("No this method".to_owned()))
    }
}

/// A service that knows no method.
pub struct EmptyService;

impl<A: Adaptor> Service<A> for EmptyService {

}

/// Another handle to a shared value.
///
/// Calls `Arc::clone`, which gives a pointer to the same allocation.
#[verifier::external_body]
fn share<T>(a: &Arc<T>) -> (r: Arc<T>)
    ensures
        r == *a,
{
    Arc::clone(a)
}

impl<A: Adaptor, S: Service<A>> Session<A, S> {
    /// A session over `adaptor` that serves its peer with `service`.
    pub fn new(adaptor: Arc<A>, service: Arc<S>) -> (s: Session<A, S>)
        ensures
            s@ == SessionView::fresh(),
            s.issued() == Seq::<Seq<u8>>::empty(),
            s.wiring() == (adaptor, service),
    {
        let s = Session {
            pending: HashSet::new(),
            mailbox: HashMap::new(),
            last_id: 0,
            issued: Ghost(Seq::empty()),
            adaptor,
            service,
        };
        assert(s@.mailbox =~= Map::empty());
        s
    }

    /// The transport and the service that the session was made with. They
    /// stay the same for as long as the session lives.
    pub closed spec fn wiring(&self) -> (Arc<A>, Arc<S>) {
        (self.adaptor, self.service)
    }

    /// The frames that the session has handed to the transport on its own
    /// account, in order: its requests, its notifies, and the failures of
    /// handlers that it sent as responses. What a handler sends through its
    /// reply handle goes out under shared access and is not among them.
    pub closed spec fn issued(&self) -> Seq<Seq<u8>> {
        self.issued@
    }

    /// Hands a frame to the transport and notes it; says whether the
    /// transport took it.
    fn send_pack(&mut self, frame: Vec<u8>) -> (taken: bool)
        ensures
            answers(old(self).wiring().0, frame@, taken),
            final(self)@ == old(self)@,
            final(self).issued() == old(self).issued().push(frame@),
            final(self).wiring() == old(self).wiring(),
    {
        proof {
            self.issued@ = self.issued@.push(frame@);
        }
        self.adaptor.send(frame)
    }

    /// Sends the encoded result `msgpack` as the response to the request
    /// whose id the armed slot `slot` holds, and leaves the slot spent.
    fn response(&self, slot: &mut ReplySlot, msgpack: &[u8]) -> (taken: bool)
        requires
            old(slot).armed(),
        ensures
            !final(slot).armed(),
            answers(self.wiring().0, reply_frame(old(slot).id()->0, msgpack@), taken),
    {
        match slot.take() {
            Some(req_id) => self.adaptor.send(encode_reply(req_id, msgpack)),
            None => false,
        }
    }

    /// Sends the failure `err` as the response to the request whose id the
    /// armed slot `slot` holds, and leaves the slot spent.
    fn response_error(&self, slot: &mut ReplySlot, err: &str) -> (taken: bool)
        requires
            old(slot).armed(),
        ensures
            !final(slot).armed(),
            answers(self.wiring().0, error_frame(old(slot).id()->0, err@), taken),
    {
        match slot.take() {
            Some(req_id) => self.adaptor.send(encode_error(req_id, err)),
            None => false,
        }
    }

    /// Whether the request `id` waits for its reply.
    pub fn is_pending(&self, id: u32) -> (r: bool)
        ensures
            r == self@.pending.contains(id),
    {
        self.pending.contains(&id)
    }

    /// Whether the reply to `id` has arrived and was not collected yet.
    pub fn has_reply(&self, id: u32) -> (r: bool)
        ensures
            r == self@.mailbox.contains_key(id),
    {
        self.mailbox.contains_key(&id)
    }

    /// Hands out the id of the next request.
    pub fn next_id(&mut self) -> (id: u32)
        ensures
            id == old(self)@.next_id,
            id != 0,
            final(self)@ == old(self)@.advance(),
            final(self).issued() == old(self).issued(),
            final(self).wiring() == old(self).wiring(),
    {
        let id: u32 = next_after(self.last_id);
        self.last_id = id;
        assert(self@.mailbox =~= old(self)@.mailbox);
        id
    }

    /// Notes that the request `id` now waits for its reply. A reply that is
    /// still in the mailbox under this id belongs to an earlier request and
    /// is dropped.
    pub fn register(&mut self, id: u32)
        ensures
            final(self)@ == old(self)@.register(id),
            final(self).issued() == old(self).issued(),
            final(self).wiring() == old(self).wiring(),
    {
        self.mailbox.remove(&id);
        assert(self@.mailbox =~= old(self)@.mailbox.remove(id));
        self.pending.insert(id);
        assert(self@.mailbox =~= old(self)@.mailbox.remove(id));
    }

    /// Puts the response to `id` into the mailbox if `id` waits for one, and
    /// drops it if not; says which.
    pub fn deliver(&mut self, id: u32, resp: Response) -> (delivered: bool)
        ensures
            delivered == old(self)@.pending.contains(id),
            final(self)@ == old(self)@.deliver(id, resp@),
            final(self).issued() == old(self).issued(),
            final(self).wiring() == old(self).wiring(),
    {
        if self.pending.remove(&id) {
            assert(self@.mailbox =~= old(self)@.mailbox);
            self.mailbox.insert(id, resp);
            assert(self@.mailbox =~= old(self)@.mailbox.insert(id, resp@));
            true
        } else {
            assert(self@.pending =~= old(self)@.pending);
            assert(self@.mailbox =~= old(self)@.mailbox);
            false
        }
    }

    /// Takes the reply to `id` out of the mailbox, if it has arrived.
    pub fn take_response(&mut self, id: u32) -> (r: Option<Response>)
        ensures
            final(self)@ == old(self)@.take(id),
            final(self).issued() == old(self).issued(),
            final(self).wiring() == old(self).wiring(),
            match r {
                Some(resp) => old(self)@.mailbox.contains_key(id) && resp@ == old(self)@.mailbox[id],
                None => !old(self)@.mailbox.contains_key(id),
            },
    {
        let r = self.mailbox.remove(&id);
        assert(self@.mailbox =~= old(self)@.mailbox.remove(id));
        r
    }

    /// Gives up every request that waits: after the transport is lost, no
    /// reply can arrive.
    pub fn drain(&mut self)
        ensures
            final(self)@ == old(self)@.drain(),
            final(self).issued() == old(self).issued(),
            final(self).wiring() == old(self).wiring(),
    {
        self.pending.clear();
        assert(self@.mailbox =~= old(self)@.mailbox);
    }

    /// Ends the session: closes the transport and gives up every request
    /// that waits.
    pub fn shut(&mut self)
        ensures
            closes(old(self).wiring().0),
            final(self)@ == old(self)@.drain(),
            final(self).issued() == old(self).issued(),
            final(self).wiring() == old(self).wiring(),
    {
        self.adaptor.close();
        self.drain();
    }

    /// Receives one frame from the transport: makes one receive attempt
    /// and returns what it gave. When the transport reports that the peer
    /// is gone, every request that waits is given up.
    pub fn recv_packet(&mut self) -> (r: Result<Vec<u8>, RecvError>)
        ensures
            gives(old(self).wiring().0, r),
            r != Err::<Vec<u8>, RecvError>(RecvError::Disconnected) ==> *final(self) == *old(self),
            final(self)@ == if r == Err::<Vec<u8>, RecvError>(RecvError::Disconnected) {
                old(self)@.drain()
            } else {
                old(self)@
            },
            final(self).issued() == old(self).issued(),
            final(self).wiring() == old(self).wiring(),
    {
        let r = self.adaptor.recv();
        match r {
            Err(RecvError::Disconnected) => {
                self.drain();
            },
            _ => {},
        }
        r
    }

    /// Takes in what a receive attempt gave: handles a frame, gives up the
    /// waiting requests when the peer is gone, and says whether the session
    /// has ended.
    pub fn absorb(&mut self, got: Result<Vec<u8>, RecvError>) -> (end: Option<LoopEnd>)
        ensures
            took_in(*old(self), *final(self), got, None),
            got matches Ok(pack) ==> exists|
                r: Result<Handled, ProtocolError>,
                arg: Arg,
                ret: Ret<A, S>,
                outcome: Result<(), HandleError>,
                armed: bool,
            |
                #[trigger] dispatched(&*old(self), &*final(self), pack@, r, arg, ret, outcome, armed) && armed
                    == final(ret.slot).armed(),
            final(self)@ == old(self)@.on_recv(received(got)),
            end == session_end(received(got)),
            owed(old(self).issued(), final(self).issued(), received(got)),
            final(self).wiring() == old(self).wiring(),
    {
        match got {
            Ok(pack) => match self.handle_packet(pack) {
                Ok(_) => None,
                Err(e) => Some(LoopEnd::Protocol(e)),
            },
            Err(RecvError::Disconnected) => {
                self.drain();
                Some(LoopEnd::Disconnected)
            },
            Err(_) => None,
        }
    }

    /// Takes in what a receive attempt gave, then looks for the reply to
    /// `req_id`: `Some` ends the wait, with the reply or with the reason
    /// why none will be fetched here, and `None` lets it go on.
    pub fn poll(&mut self, req_id: u32, got: Result<Vec<u8>, RecvError>) -> (r: Option<
        Result<Response, RecvError>,
    >)
        ensures
            took_in(*old(self), *final(self), got, Some(req_id)),
            got matches Ok(pack) ==> exists|
                r: Result<Handled, ProtocolError>,
                arg: Arg,
                ret: Ret<A, S>,
                outcome: Result<(), HandleError>,
                armed: bool,
            |
                #[trigger] dispatched(&*old(self), &*final(self), pack@, r, arg, ret, outcome, armed) && armed
                    == final(ret.slot).armed(),
            final(self)@ == old(self)@.on_recv(received(got)).take(req_id),
            owed(old(self).issued(), final(self).issued(), received(got)),
            final(self).wiring() == old(self).wiring(),
            match wait_end(old(self)@.on_recv(received(got)), req_id, received(got)) {
                Some(Ok(resp)) => r matches Some(Ok(x)) && x@ == resp,
                Some(Err(e)) => r == Some(Err::<Response, RecvError>(e)),
                None => r is None,
            },
    {
        let busy = match got {
            Err(RecvError::MutexOccupied) => true,
            _ => false,
        };
        let ghost pack = got->Ok_0@;
        let ghost start = *self;
        let _ = self.absorb(got);
        let ghost mid = *self;
        let taken = self.take_response(req_id);
        proof {
            if got is Ok {
                let (r, arg, ret, outcome, armed) = choose|
                    r: Result<Handled, ProtocolError>,
                    arg: Arg,
                    ret: Ret<A, S>,
                    outcome: Result<(), HandleError>,
                    armed: bool,
                |
                    #[trigger] dispatched(&start, &mid, pack, r, arg, ret, outcome, armed) && armed
                        == final(ret.slot).armed();
                assert(dispatched(&start, &*self, pack, r, arg, ret, outcome, armed));
            }
        }
        match taken {
            Some(resp) => Some(Ok(resp)),
            None => {
                if !self.is_pending(req_id) {
                    Some(Err(RecvError::Disconnected))
                } else if busy {
                    Some(Err(RecvError::MutexOccupied))
                } else {
                    None
                }
            },
        }
    }

    /// Receives and handles frames until the session ends, for at most
    /// `rounds` receive attempts. An attempt that gives no frame is tried
    /// again.
    ///
    /// The run makes one receive attempt after the other and takes in what
    /// each gives. It stops at the first that ends the session, because the
    /// peer is gone or because the frame is no packet, and says why; if none
    /// does, it stops when the rounds are used up.
    pub fn loop_handle(&mut self, rounds: usize) -> (end: LoopEnd)
        ensures
            exists|
                gots: Seq<Result<Vec<u8>, RecvError>>,
                trace: Seq<Session<A, S>>,
                notes: Seq<(Result<Handled, ProtocolError>, Arg, Ret<A, S>, Result<(), HandleError>, bool)>,
            |
                {
                    &&& loop_run(old(self).wiring().0, gots, rounds, end)
                    &&& #[trigger] run_of(
                        trace,
                        gots,
                        notes,
                        None,
                        old(self)@,
                        old(self).issued(),
                        old(self).wiring(),
                        *final(self),
                    )
                    &&& final(self)@ == after_run(old(self)@, gots)
                    &&& forall|k: int|
                        0 <= k < notes.len() ==> (#[trigger] notes[k]).4 == final(notes[k].2.slot).armed()
                },
            final(self)@.next_id == old(self)@.next_id,
            old(self).issued().is_prefix_of(final(self).issued()),
            final(self).wiring() == old(self).wiring(),
            end != LoopEnd::Exhausted ==> final(self)@.pending == Set::<u32>::empty(),
            rounds == 0 ==> end == LoopEnd::Exhausted && final(self)@ == old(self)@,
    {
        let mut left: usize = rounds;
        proof {
            let gots = Seq::<Result<Vec<u8>, RecvError>>::empty();
            let trace = seq![*self];
            let notes = Seq::<(Result<Handled, ProtocolError>, Arg, Ret<A, S>, Result<(), HandleError>, bool)>::empty();
            assert(run_of(
                trace,
                gots,
                notes,
                None,
                old(self)@,
                old(self).issued(),
                old(self).wiring(),
                *self,
            ));
        }
        while left > 0
            invariant
                self@.next_id == old(self)@.next_id,
                old(self).issued().is_prefix_of(self.issued()),
                self.wiring() == old(self).wiring(),
                left == rounds ==> self@ == old(self)@,
                left <= rounds,
                exists|
                    gots: Seq<Result<Vec<u8>, RecvError>>,
                    trace: Seq<Session<A, S>>,
                    notes: Seq<(Result<Handled, ProtocolError>, Arg, Ret<A, S>, Result<(), HandleError>, bool)>,
                |
                    {
                        &&& #[trigger] run_of(
                            trace,
                            gots,
                            notes,
                            None,
                            old(self)@,
                            old(self).issued(),
                            old(self).wiring(),
                            *self,
                        )
                        &&& gots.len() == rounds - left
                        &&& loop_goes_on(old(self).wiring().0, gots)
                        &&& self@ == after_run(old(self)@, gots)
                        &&& forall|k: int|
                            0 <= k < notes.len() ==> (#[trigger] notes[k]).4 == final(notes[k].2.slot).armed()
                    },
            decreases left,
        {
            let ghost start = *self;
            let ghost left_before = left;
            left = left - 1;
            let got = self.recv_packet();
            let ghost mid = *self;
            let end = self.absorb(got);
            proof {
                let (gots0, trace0, notes0) = choose|
                    gots: Seq<Result<Vec<u8>, RecvError>>,
                    trace: Seq<Session<A, S>>,
                    notes: Seq<(Result<Handled, ProtocolError>, Arg, Ret<A, S>, Result<(), HandleError>, bool)>,
                |
                    {
                        &&& #[trigger] run_of(
                            trace,
                            gots,
                            notes,
                            None,
                            old(self)@,
                            old(self).issued(),
                            old(self).wiring(),
                            start,
                        )
                        &&& gots.len() == rounds - left_before
                        &&& loop_goes_on(old(self).wiring().0, gots)
                        &&& start@ == after_run(old(self)@, gots)
                        &&& forall|k: int|
                            0 <= k < notes.len() ==> (#[trigger] notes[k]).4 == final(notes[k].2.slot).armed()
                    };
                let no_ret: Ret<A, S> = arbitrary();
                let note: (Result<Handled, ProtocolError>, Arg, Ret<A, S>, Result<(), HandleError>, bool) = if got is Ok {
                    choose|
                        r: Result<Handled, ProtocolError>,
                        arg: Arg,
                        ret: Ret<A, S>,
                        outcome: Result<(), HandleError>,
                        armed: bool,
                    |
                        #[trigger] dispatched(
                            &mid,
                            &*self,
                            got->Ok_0@,
                            r,
                            arg,
                            ret,
                            outcome,
                            armed,
                        ) && armed == final(ret.slot).armed()
                } else {
                    (arbitrary(), arbitrary(), no_ret, arbitrary(), final(no_ret.slot).armed())
                };
                assert(note.4 == final(note.2.slot).armed());
                let gots = gots0.push(got);
                let trace = trace0.push(*self);
                let notes = notes0.push(note);
                let n = gots0.len() as int;
                assert(gots.drop_last() =~= gots0);
                assert(trace[n] == start);
                assert(stage_at(trace, gots, notes, None::<u32>, n));
                assert forall|k: int| 0 <= k < gots.len() implies #[trigger] stage_at(
                    trace,
                    gots,
                    notes,
                    None::<u32>,
                    k,
                ) by {
                    if k < n {
                        assert(stage_at(trace0, gots0, notes0, None::<u32>, k));
                        assert(trace[k] == trace0[k]);
                        assert(trace[k + 1] == trace0[k + 1]);
                        assert(gots[k] == gots0[k]);
                        assert(notes[k] == notes0[k]);
                    }
                }
                assert(run_of(
                    trace,
                    gots,
                    notes,
                    None,
                    old(self)@,
                    old(self).issued(),
                    old(self).wiring(),
                    *self,
                ));
                assert(forall|k: int|
                    0 <= k < notes.len() ==> (#[trigger] notes[k]).4 == final(notes[k].2.slot).armed()) by {
                    assert forall|k: int| 0 <= k < notes.len() implies (#[trigger] notes[k]).4
                        == final(notes[k].2.slot).armed() by {
                        if k < n {
                            assert(notes[k] == notes0[k]);
                        }
                    }
                }
                assert(self@ == after_run(old(self)@, gots));
                if end is Some {
                    assert(loop_run(old(self).wiring().0, gots, rounds, end->0));
                } else {
                    assert(loop_goes_on(old(self).wiring().0, gots));
                }
            }
            match end {
                Some(end) => {
                    return end;
                },
                None => {},
            }
        }
        proof {
            let (gots, trace, notes) = choose|
                gots: Seq<Result<Vec<u8>, RecvError>>,
                trace: Seq<Session<A, S>>,
                notes: Seq<(Result<Handled, ProtocolError>, Arg, Ret<A, S>, Result<(), HandleError>, bool)>,
            |
                {
                    &&& #[trigger] run_of(
                        trace,
                        gots,
                        notes,
                        None,
                        old(self)@,
                        old(self).issued(),
                        old(self).wiring(),
                        *self,
                    )
                    &&& gots.len() == rounds - left
                    &&& loop_goes_on(old(self).wiring().0, gots)
                    &&& self@ == after_run(old(self)@, gots)
                    &&& forall|k: int|
                        0 <= k < notes.len() ==> (#[trigger] notes[k]).4 == final(notes[k].2.slot).armed()
                };
            assert(loop_run(old(self).wiring().0, gots, rounds, LoopEnd::Exhausted));
        }
        LoopEnd::Exhausted
    }

    /// Waits for the reply to the request `req_id`, for at most `rounds`
    /// receive attempts.
    ///
    /// A reply that is already in the mailbox is returned at once.
    /// Otherwise this caller reads from the transport and handles what
    /// arrives, until the reply is among it. The wait fails with
    /// `Disconnected` when no reply can come any more, because the session
    /// has ended or because no request waits under `req_id`; with
    /// `MutexOccupied` when the transport says that someone else is reading;
    /// and with `NoData` when the rounds are used up.
    pub fn wait_response(&mut self, req_id: u32, rounds: usize) -> (r: Result<Response, RecvError>)
        ensures
            exists|
                gots: Seq<Result<Vec<u8>, RecvError>>,
                trace: Seq<Session<A, S>>,
                notes: Seq<(Result<Handled, ProtocolError>, Arg, Ret<A, S>, Result<(), HandleError>, bool)>,
            |
                {
                    &&& wait_run(old(self).wiring().0, old(self)@, req_id, gots, rounds, waited(r))
                    &&& #[trigger] run_of(
                        trace,
                        gots,
                        notes,
                        Some(req_id),
                        old(self)@.take(req_id),
                        old(self).issued(),
                        old(self).wiring(),
                        *final(self),
                    )
                    &&& final(self)@ == after_wait(old(self)@.take(req_id), req_id, gots)
                    &&& forall|k: int|
                        0 <= k < notes.len() ==> (#[trigger] notes[k]).4 == final(notes[k].2.slot).armed()
                },
            final(self)@.next_id == old(self)@.next_id,
            old(self).issued().is_prefix_of(final(self).issued()),
            final(self).wiring() == old(self).wiring(),
            !final(self)@.mailbox.contains_key(req_id),
            old(self)@.mailbox.contains_key(req_id) ==> (r matches Ok(resp) && resp@ == old(
                self,
            )@.mailbox[req_id] && final(self)@ == old(self)@.take(req_id)),
            !old(self)@.mailbox.contains_key(req_id) && !old(self)@.pending.contains(req_id) ==> r
                == Err::<Response, RecvError>(RecvError::Disconnected) && final(self)@ == old(
                self,
            )@,
            r == Err::<Response, RecvError>(RecvError::Disconnected)
                ==> !final(self)@.pending.contains(req_id),
            r == Err::<Response, RecvError>(RecvError::NoData)
                ==> final(self)@.pending.contains(req_id),
    {
        let ghost mut gots: Seq<Result<Vec<u8>, RecvError>> = Seq::empty();
        match self.take_response(req_id) {
            Some(resp) => {
                assert(wait_run(
                    old(self).wiring().0,
                    old(self)@,
                    req_id,
                    gots,
                    rounds,
                    waited(Ok(resp)),
                ));
                proof {
                    let trace = seq![*self];
                    let notes = Seq::<(Result<Handled, ProtocolError>, Arg, Ret<A, S>, Result<(), HandleError>, bool)>::empty();
                    assert(run_of(
                        trace,
                        gots,
                        notes,
                        Some(req_id),
                        old(self)@.take(req_id),
                        old(self).issued(),
                        old(self).wiring(),
                        *self,
                    ));
                }
                return Ok(resp);
            },
            None => {},
        }
        assert(self@.mailbox =~= old(self)@.mailbox);
        if !self.is_pending(req_id) {
            assert(wait_run(
                old(self).wiring().0,
                old(self)@,
                req_id,
                gots,
                rounds,
                waited(Err(RecvError::Disconnected)),
            ));
            proof {
                let trace = seq![*self];
                let notes = Seq::<(Result<Handled, ProtocolError>, Arg, Ret<A, S>, Result<(), HandleError>, bool)>::empty();
                assert(run_of(
                    trace,
                    gots,
                    notes,
                    Some(req_id),
                    old(self)@.take(req_id),
                    old(self).issued(),
                    old(self).wiring(),
                    *self,
                ));
            }
            return Err(RecvError::Disconnected);
        }
        let ghost start = self@;
        let mut left: usize = rounds;
        proof {
            let trace = seq![*self];
            let notes = Seq::<(Result<Handled, ProtocolError>, Arg, Ret<A, S>, Result<(), HandleError>, bool)>::empty();
            assert(run_of(
                trace,
                gots,
                notes,
                Some(req_id),
                old(self)@.take(req_id),
                old(self).issued(),
                old(self).wiring(),
                *self,
            ));
        }
        while left > 0
            invariant
                self@.next_id == old(self)@.next_id,
                old(self).issued().is_prefix_of(self.issued()),
                self.wiring() == old(self).wiring(),
                !self@.mailbox.contains_key(req_id),
                !old(self)@.mailbox.contains_key(req_id),
                old(self)@.pending.contains(req_id),
                self@.pending.contains(req_id),
                start == old(self)@.take(req_id),
                left <= rounds,
                gots.len() == rounds - left,
                forall|i: int| 0 <= i < gots.len() ==> gives(old(self).wiring().0, #[trigger] gots[i]),
                wait_goes_on(start, req_id, gots),
                self@ == after_wait(start, req_id, gots),
                exists|trace: Seq<Session<A, S>>, notes: Seq<(Result<Handled, ProtocolError>, Arg, Ret<A, S>, Result<(), HandleError>, bool)>|
                    {
                        &&& #[trigger] run_of(
                            trace,
                            gots,
                            notes,
                            Some(req_id),
                            old(self)@.take(req_id),
                            old(self).issued(),
                            old(self).wiring(),
                            *self,
                        )
                        &&& forall|k: int|
                            0 <= k < notes.len() ==> (#[trigger] notes[k]).4 == final(notes[k].2.slot).armed()
                    },
            decreases left,
        {
            left = left - 1;
            let ghost at_start = *self;
            let got = self.recv_packet();
            let ghost mid = *self;
            let ghost before = gots;
            proof {
                gots = gots.push(got);
                assert(gots.drop_last() =~= before);
            }
            let polled = self.poll(req_id, got);
            proof {
                let (trace0, notes0) = choose|
                    trace: Seq<Session<A, S>>,
                    notes: Seq<(Result<Handled, ProtocolError>, Arg, Ret<A, S>, Result<(), HandleError>, bool)>,
                |
                    {
                        &&& #[trigger] run_of(
                            trace,
                            before,
                            notes,
                            Some(req_id),
                            old(self)@.take(req_id),
                            old(self).issued(),
                            old(self).wiring(),
                            at_start,
                        )
                        &&& forall|k: int|
                            0 <= k < notes.len() ==> (#[trigger] notes[k]).4 == final(notes[k].2.slot).armed()
                    };
                let no_ret: Ret<A, S> = arbitrary();
                let note: (Result<Handled, ProtocolError>, Arg, Ret<A, S>, Result<(), HandleError>, bool) = if got is Ok {
                    choose|
                        r: Result<Handled, ProtocolError>,
                        arg: Arg,
                        ret: Ret<A, S>,
                        outcome: Result<(), HandleError>,
                        armed: bool,
                    |
                        #[trigger] dispatched(
                            &mid,
                            &*self,
                            got->Ok_0@,
                            r,
                            arg,
                            ret,
                            outcome,
                            armed,
                        ) && armed == final(ret.slot).armed()
                } else {
                    (arbitrary(), arbitrary(), no_ret, arbitrary(), final(no_ret.slot).armed())
                };
                assert(note.4 == final(note.2.slot).armed());
                let trace = trace0.push(*self);
                let notes = notes0.push(note);
                let n = before.len() as int;
                assert(trace[n] == at_start);
                assert(stage_at(trace, gots, notes, Some(req_id), n));
                assert forall|k: int| 0 <= k < gots.len() implies #[trigger] stage_at(
                    trace,
                    gots,
                    notes,
                    Some(req_id),
                    k,
                ) by {
                    if k < n {
                        assert(stage_at(trace0, before, notes0, Some(req_id), k));
                        assert(trace[k] == trace0[k]);
                        assert(trace[k + 1] == trace0[k + 1]);
                        assert(gots[k] == before[k]);
                        assert(notes[k] == notes0[k]);
                    }
                }
                assert(run_of(
                    trace,
                    gots,
                    notes,
                    Some(req_id),
                    old(self)@.take(req_id),
                    old(self).issued(),
                    old(self).wiring(),
                    *self,
                ));
                assert(forall|k: int|
                    0 <= k < notes.len() ==> (#[trigger] notes[k]).4 == final(notes[k].2.slot).armed()) by {
                    assert forall|k: int| 0 <= k < notes.len() implies (#[trigger] notes[k]).4
                        == final(notes[k].2.slot).armed() by {
                        if k < n {
                            assert(notes[k] == notes0[k]);
                        }
                    }
                }
            }
            match polled {
                Some(r) => {
                    assert(wait_step(start, req_id, gots) == Some(waited(r)));
                    assert(wait_run(
                        old(self).wiring().0,
                        old(self)@,
                        req_id,
                        gots,
                        rounds,
                        waited(r),
                    ));
                    return r;
                },
                None => {},
            }
        }
        assert(wait_run(
            old(self).wiring().0,
            old(self)@,
            req_id,
            gots,
            rounds,
            waited(Err(RecvError::NoData)),
        ));
        proof {
            let (trace, notes) = choose|
                trace: Seq<Session<A, S>>,
                notes: Seq<(Result<Handled, ProtocolError>, Arg, Ret<A, S>, Result<(), HandleError>, bool)>,
            |
                {
                    &&& #[trigger] run_of(
                        trace,
                        gots,
                        notes,
                        Some(req_id),
                        old(self)@.take(req_id),
                        old(self).issued(),
                        old(self).wiring(),
                        *self,
                    )
                    &&& forall|k: int|
                        0 <= k < notes.len() ==> (#[trigger] notes[k]).4 == final(notes[k].2.slot).armed()
                };
        }
        Err(RecvError::NoData)
    }

    /// Sends a request whose arguments `msgpack` are already encoded, and
    /// gives its id. If the transport takes the frame, the request waits for
    /// its reply from now on. If it does not, the transport is lost: the
    /// session gives up every request that waits.
    pub fn send_request<'m, M: ToMethod<'m>>(&mut self, method: M, msgpack: &[u8]) -> (r: Result<
        u32,
        RecvError,
    >)
        ensures
            answers(
                old(self).wiring().0,
                request_frame(old(self)@.next_id, method.method_view(), msgpack@),
                r is Ok,
            ),
            final(self).issued() == old(self).issued().push(
                request_frame(old(self)@.next_id, method.method_view(), msgpack@),
            ),
            final(self).wiring() == old(self).wiring(),
            match r {
                Ok(id) => id == old(self)@.next_id && id != 0 && final(self)@ == old(
                    self,
                )@.advance().register(id),
                Err(e) => e == RecvError::Disconnected && final(self)@ == old(
                    self,
                )@.advance().drain(),
            },
    {
        let req_id = self.next_id();
        let pack = encode_request(req_id, method.to_method(), msgpack);
        if self.send_pack(pack) {
            self.register(req_id);
            Ok(req_id)
        } else {
            self.drain();
            Err(RecvError::Disconnected)
        }
    }

    /// Does a request whose arguments `msgpack` are already encoded: sends
    /// it as [`Session::send_request`] does, then waits for the reply as
    /// [`Session::wait_response`] does. When the rounds are used up, the
    /// request still waits under its id, the one that was next.
    pub fn request_transfer<'m, M: ToMethod<'m>>(
        &mut self,
        method: M,
        msgpack: &[u8],
        rounds: usize,
    ) -> (r: Result<Response, RecvError>)
        ensures
            ({
                let a = old(self).wiring().0;
                let id = old(self)@.next_id;
                let frame = request_frame(id, method.method_view(), msgpack@);
                let sent = old(self)@.advance().register(id);
                ||| {
                    &&& answers(a, frame, false)
                    &&& r == Err::<Response, RecvError>(RecvError::Disconnected)
                    &&& final(self)@ == old(self)@.advance().drain()
                    &&& final(self).issued() == old(self).issued().push(frame)
                }
                ||| {
                    &&& answers(a, frame, true)
                    &&& exists|
                        gots: Seq<Result<Vec<u8>, RecvError>>,
                        trace: Seq<Session<A, S>>,
                        notes: Seq<(Result<Handled, ProtocolError>, Arg, Ret<A, S>, Result<(), HandleError>, bool)>,
                    |
                        {
                            &&& wait_run(a, sent, id, gots, rounds, waited(r))
                            &&& #[trigger] run_of(
                                trace,
                                gots,
                                notes,
                                Some(id),
                                sent.take(id),
                                old(self).issued().push(frame),
                                old(self).wiring(),
                                *final(self),
                            )
                            &&& final(self)@ == after_wait(sent.take(id), id, gots)
                            &&& forall|k: int|
                                0 <= k < notes.len() ==> (#[trigger] notes[k]).4 == final(notes[k].2.slot).armed()
                        }
                }
            }),
            final(self)@.next_id == id_after(old(self)@.next_id),
            old(self).issued().push(
                request_frame(old(self)@.next_id, method.method_view(), msgpack@),
            ).is_prefix_of(final(self).issued()),
            final(self).wiring() == old(self).wiring(),
            r == Err::<Response, RecvError>(RecvError::Disconnected)
                ==> !final(self)@.pending.contains(old(self)@.next_id),
            r == Err::<Response, RecvError>(RecvError::NoData)
                ==> final(self)@.pending.contains(old(self)@.next_id),
    {
        match self.send_request(method, msgpack) {
            Ok(req_id) => self.wait_response(req_id, rounds),
            Err(e) => Err(e),
        }
    }

    /// Does a notify whose arguments `msgpack` are already encoded; says
    /// whether the transport took it.
    pub fn notify_transfer<'m, M: ToMethod<'m>>(
        &mut self,
        method: M,
        msgpack: &[u8],
    ) -> (taken: bool)
        ensures
            answers(old(self).wiring().0, notify_frame(method.method_view(), msgpack@), taken),
            final(self)@ == old(self)@,
            final(self).issued() == old(self).issued().push(
                notify_frame(method.method_view(), msgpack@),
            ),
            final(self).wiring() == old(self).wiring(),
    {
        let pack = encode_notify(method.to_method(), msgpack);
        self.send_pack(pack)
    }

    /// Handles one received frame.
    ///
    /// A request goes to the service with an armed reply handle. If the
    /// handler fails and has not replied, its failure is sent as the
    /// response. A notify goes to the service with a spent reply handle, and
    /// what the handler returns is dropped. A response is delivered to the
    /// request that waits for it, and dropped if none does. A frame that is
    /// no packet ends the session.
    pub fn handle_packet(&mut self, pack: Vec<u8>) -> (r: Result<Handled, ProtocolError>)
        ensures
            exists|arg: Arg, ret: Ret<A, S>, outcome: Result<(), HandleError>, armed: bool|
                #[trigger] dispatched(
                    &*old(self),
                    &*final(self),
                    pack@,
                    r,
                    arg,
                    ret,
                    outcome,
                    armed,
                ) && armed == final(ret.slot).armed(),
            final(self)@ == old(self)@.on_packet(pack@),
            owed(old(self).issued(), final(self).issued(), Ok(pack@)),
            final(self).wiring() == old(self).wiring(),
    {
        let ghost frame = pack@;
        let ghost no_arg: Arg = arbitrary();
        let ghost no_ret: Ret<A, S> = arbitrary();
        let ghost no_outcome: Result<(), HandleError> = arbitrary();
        let header = match decode_header(pack.as_slice()) {
            Ok(h) => h,
            Err(e) => {
                self.shut();
                assert(dispatched(
                    &*old(self),
                    &*self,
                    frame,
                    Err(e),
                    no_arg,
                    no_ret,
                    no_outcome,
                    final(no_ret.slot).armed(),
                ));
                return Err(e);
            },
        };
        match header.kind {
            Kind::Request => {
                let method = match parse_method(&header.field) {
                    Some(m) => m,
                    None => {
                        self.shut();
                        assert(dispatched(
                            &*old(self),
                            &*self,
                            frame,
                            Err(ProtocolError::BadMethod),
                            no_arg,
                            no_ret,
                            no_outcome,
                            final(no_ret.slot).armed(),
                        ));
                        return Err(ProtocolError::BadMethod);
                    },
                };
                let req_id: u32 = header.id;
                let mut slot = ReplySlot::of_request(req_id);
                let bytes = slice_subrange(pack.as_slice(), header.body_at, pack.len());
                let arg = Arg { method, bytes, id: req_id };
                let ret = Ret { ss: &*self, slot: &mut slot };
                let ghost the_arg = arg;
                let ghost the_ret = ret;
                let outcome = self.service.handle(&*self, arg, ret);
                let armed = slot.is_armed();
                assert(armed == final(the_ret.slot).armed());
                let (verdict, failure) = settle(req_id, &outcome, armed);
                match failure {
                    Some(frame_out) => {
                        self.send_pack(frame_out);
                    },
                    None => {},
                }
                proof {
                    let p = packet_at(frame)->Ok_0;
                    assert(p is Request);
                    assert(called(
                        &*old(self),
                        p->Request_method,
                        p->Request_id,
                        frame.subrange(p->Request_args_at as int, frame.len() as int),
                        Some(p->Request_id),
                        the_arg,
                        the_ret,
                        outcome,
                    ));
                    assert(self.issued() == after_request(
                        old(self).issued(),
                        req_id,
                        outcome,
                        armed,
                    ));
                    assert(owed(old(self).issued(), self.issued(), Ok(frame)));
                    assert(dispatched(
                        &*old(self),
                        &*self,
                        frame,
                        Ok(Handled::Request(verdict)),
                        the_arg,
                        the_ret,
                        outcome,
                        armed,
                    ));
                }
                Ok(Handled::Request(verdict))
            },
            Kind::Notify => {
                let method = match parse_method(&header.field) {
                    Some(m) => m,
                    None => {
                        self.shut();
                        assert(dispatched(
                            &*old(self),
                            &*self,
                            frame,
                            Err(ProtocolError::BadMethod),
                            no_arg,
                            no_ret,
                            no_outcome,
                            final(no_ret.slot).armed(),
                        ));
                        return Err(ProtocolError::BadMethod);
                    },
                };
                let mut slot = ReplySlot::of_notify();
                let bytes = slice_subrange(pack.as_slice(), header.body_at, pack.len());
                let arg = Arg { method, bytes, id: 0 };
                let ret = Ret { ss: &*self, slot: &mut slot };
                let ghost the_arg = arg;
                let ghost the_ret = ret;
                let outcome = self.service.handle(&*self, arg, ret);
                proof {
                    let p = packet_at(frame)->Ok_0;
                    assert(p is Notify);
                    assert(called(
                        &*old(self),
                        p->Notify_method,
                        0,
                        frame.subrange(p->Notify_args_at as int, frame.len() as int),
                        None,
                        the_arg,
                        the_ret,
                        outcome,
                    ));
                    assert(dispatched(
                        &*old(self),
                        &*self,
                        frame,
                        Ok(Handled::Notify),
                        the_arg,
                        the_ret,
                        outcome,
                        final(the_ret.slot).armed(),
                    ));
                }
                Ok(Handled::Notify)
            },
            Kind::Response => {
                let resp = match header.field {
                    Field::Nil => Response::Data(RespData::new(pack, header.body_at)),
                    Field::Str(s) => Response::Error(s),
                    Field::Uint(_) => {
                        self.shut();
                        assert(dispatched(
                            &*old(self),
                            &*self,
                            frame,
                            Err(ProtocolError::BadError),
                            no_arg,
                            no_ret,
                            no_outcome,
                            final(no_ret.slot).armed(),
                        ));
                        return Err(ProtocolError::BadError);
                    },
                };
                let delivered = self.deliver(header.id, resp);
                let handled = if delivered {
                    Handled::Delivered
                } else {
                    Handled::Discarded
                };
                assert(dispatched(
                    &*old(self),
                    &*self,
                    frame,
                    Ok(handled),
                    no_arg,
                    no_ret,
                    no_outcome,
                    final(no_ret.slot).armed(),
                ));
                Ok(handled)
            },
        }
    }
}

impl<'a, 'b, A: Adaptor, S: Service<A>> Ret<'a, 'b, A, S> {
    /// Whether this is the handle of a request that has not been answered.
    pub fn is_valid(&self) -> (r: bool)
        ensures
            r == old(self.slot).armed(),
    {
        self.slot.is_armed()
    }

    /// Sends the failure `s` as the response, if the handle is armed, and
    /// leaves it spent. Says whether a response went out and was taken by
    /// the transport; a spent handle sends nothing.
    pub fn error(self, s: &str) -> (sent: bool)
        ensures
            !final(self.slot).armed(),
            !old(self.slot).armed() ==> !sent,
            old(self.slot).id() matches Some(id) ==> answers(
                self.ss.wiring().0,
                error_frame(id, s@),
                sent,
            ),
    {
        let Ret { ss, slot } = self;
        if slot.is_armed() {
            ss.response_error(slot, s)
        } else {
            false
        }
    }

    /// Sends the encoded result `msgpack` as the response, if the handle is
    /// armed, and leaves it spent. Says whether a response went out and was
    /// taken by the transport; a spent handle sends nothing.
    pub fn ret_raw(self, msgpack: &[u8]) -> (sent: bool)
        ensures
            !final(self.slot).armed(),
            !old(self.slot).armed() ==> !sent,
            old(self.slot).id() matches Some(id) ==> answers(
                self.ss.wiring().0,
                reply_frame(id, msgpack@),
                sent,
            ),
    {
        let Ret { ss, slot } = self;
        if slot.is_armed() {
            ss.response(slot, msgpack)
        } else {
            false
        }
    }

    /// Passes on a response that was received elsewhere: its result as the
    /// result, its failure as the failure.
    pub fn forward(self, resp: Response) -> (sent: bool)
        ensures
            !final(self.slot).armed(),
            !old(self.slot).armed() ==> !sent,
            old(self.slot).id() matches Some(id) ==> answers(
                self.ss.wiring().0,
                relayed(id, resp@),
                sent,
            ),
    {
        match resp {
            Response::Data(data) => {
                proof {
                    data.lemma_view();
                }
                self.ret_raw(data.as_slice())
            },
            Response::Error(err) => self.error(err.as_str()),
        }
    }

    /// Turns an armed handle into one that can reply after the handler has
    /// returned, and leaves this one spent. A spent handle gives `None`.
    pub fn into_async(self) -> (r: Option<AsyncRet<A>>)
        ensures
            !final(self.slot).armed(),
            match old(self.slot).id() {
                Some(id) => r matches Some(a) && a.id() == id && a.transport()
                    == self.ss.wiring().0,
                None => r is None,
            },
    {
        let Ret { ss, slot } = self;
        match slot.take() {
            Some(id) => Some(AsyncRet { adaptor: share(&ss.adaptor), req_id: id }),
            None => None,
        }
    }
}

impl<A: Adaptor> AsyncRet<A> {
    /// The id of the request that this handle answers.
    pub closed spec fn id(&self) -> u32 {
        self.req_id
    }

    /// The transport that the reply goes out on.
    pub closed spec fn transport(&self) -> Arc<A> {
        self.adaptor
    }

    /// The id of the request that this handle answers.
    pub fn req_id(&self) -> (id: u32)
        ensures
            id == self.id(),
    {
        self.req_id
    }

    /// Sends the failure `s` as the response; says whether the transport
    /// took it.
    pub fn error(self, s: &str) -> (taken: bool)
        ensures
            answers(self.transport(), error_frame(self.id(), s@), taken),
    {
        self.adaptor.send(encode_error(self.req_id, s))
    }

    /// Sends the encoded result `msgpack` as the response; says whether the
    /// transport took it.
    pub fn ret_raw(self, msgpack: &[u8]) -> (taken: bool)
        ensures
            answers(self.transport(), reply_frame(self.id(), msgpack@), taken),
    {
        self.adaptor.send(encode_reply(self.req_id, msgpack))
    }

    /// Passes on a response that was received elsewhere: its result as the
    /// result, its failure as the failure.
    pub fn forward(self, resp: Response) -> (taken: bool)
        ensures
            answers(self.transport(), relayed(self.id(), resp@), taken),
    {
        match resp {
            Response::Data(data) => {
                proof {
                    data.lemma_view();
                }
                self.ret_raw(data.as_slice())
            },
            Response::Error(err) => self.error(err.as_str()),
        }
    }
}

impl<A, S> View for Session<A, S> {
    type V = SessionView;

    closed spec fn view(&self) -> SessionView {
        SessionView {
            next_id: id_after(self.last_id),
            pending: self.pending@,
            mailbox: Map::new(
                |id: u32| self.mailbox@.contains_key(id),
                |id: u32| self.mailbox@[id]@,
            ),
        }
    }
}

} // verus!
