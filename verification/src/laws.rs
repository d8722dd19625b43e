//! What holds of the protocol as a whole, each statement proved from the
//! definitions in the other modules.

use vstd::arithmetic::div_mod::lemma_mod_equivalence;
use vstd::prelude::*;
use vstd::utf8::encode_utf8;
use crate::method::MethodView;
use crate::packet::{
    error_frame, lemma_error_read_back, lemma_notify_read_back, lemma_reply_read_back,
    lemma_request_read_back, method_fits, notify_frame, packet_at, reply_frame, request_frame,
    request_header, PacketView, ProtocolError,
};
use crate::response::ResponseView;
use crate::session::{id_after, owed, verdict_of, RecvError, SessionView, Verdict};

verus! {

/// The id that is handed out `k` requests after `id` was.
pub open spec fn nth_id_after(id: u32, k: nat) -> u32
    decreases k,
{
    if k == 0 {
        id
    } else {
        id_after(nth_id_after(id, (k - 1) as nat))
    }
}

/// Ids run through 1 up to the largest `u32` in a circle.
pub proof fn lemma_nth_id_after(id: u32, k: nat)
    requires
        id != 0,
    ensures
        nth_id_after(id, k) == (id - 1 + k) % (u32::MAX as int) + 1,
        nth_id_after(id, k) != 0,
    decreases k,
{
    if k > 0 {
        lemma_nth_id_after(id, (k - 1) as nat);
    }
}

/// No request is ever sent with the id 0.
pub proof fn lemma_id_never_zero(id: u32)
    ensures
        id_after(id) != 0,
{
}

/// Two requests get the same id exactly when the number of requests from
/// the one to the other is a multiple of `u32::MAX`, the number of ids.
pub proof fn lemma_same_id_after_full_cycles(id: u32, i: nat, j: nat)
    requires
        id != 0,
    ensures
        nth_id_after(id, i) == nth_id_after(id, j) <==> (j - i) % (u32::MAX as int) == 0,
{
    lemma_nth_id_after(id, i);
    lemma_nth_id_after(id, j);
    lemma_mod_equivalence(id - 1 + j, id - 1 + i, u32::MAX as int);
}

/// While a request waits, none of the next `u32::MAX - 1` requests gets its
/// id: the ids of waiting requests are all different, unless the whole
/// range of ids is handed out while one of them waits.
pub proof fn lemma_ids_distinct(id: u32, i: nat, j: nat)
    requires
        id != 0,
        i < j,
        j - i < u32::MAX,
    ensures
        nth_id_after(id, i) != nth_id_after(id, j),
{
    lemma_same_id_after_full_cycles(id, i, j);
}

/// A session starts well-formed, and whatever happens to it leaves it so.
pub proof fn lemma_wf_kept(s: SessionView, id: u32, resp: ResponseView, got: Result<Seq<u8>, RecvError>)
    requires
        s.wf(),
    ensures
        SessionView::fresh().wf(),
        s.advance().wf(),
        s.register(id).wf(),
        s.deliver(id, resp).wf(),
        s.take(id).wf(),
        s.drain().wf(),
        s.on_recv(got).wf(),
{
}

/// A request that is sent waits under its own id only: the set of waiting
/// ids grows by exactly that id, and by one element when the id was free.
pub proof fn lemma_register_adds_one(s: SessionView, id: u32)
    requires
        s.pending.finite(),
        !s.pending.contains(id),
    ensures
        s.register(id).pending.len() == s.pending.len() + 1,
        forall|other: u32|
            other != id ==> (s.register(id).pending.contains(other) <==> s.pending.contains(other)),
{
}

/// A response reaches the mailbox only where a request waits for it.
pub proof fn lemma_unexpected_response_dropped(s: SessionView, id: u32, resp: ResponseView)
    requires
        !s.pending.contains(id),
    ensures
        s.deliver(id, resp) == s,
{
}

/// A response is paired with its own request, whatever else waits and in
/// whatever order the responses arrive: delivering to one id leaves every
/// other id as it was, and two deliveries to different ids give the same
/// state in either order.
pub proof fn lemma_delivery_by_id(s: SessionView, a: u32, to_a: ResponseView, b: u32, to_b: ResponseView)
    requires
        a != b,
    ensures
        s.deliver(a, to_a).pending.contains(b) == s.pending.contains(b),
        s.deliver(a, to_a).mailbox.contains_key(b) == s.mailbox.contains_key(b),
        s.deliver(a, to_a).mailbox.contains_key(b) ==> s.deliver(a, to_a).mailbox[b] == s.mailbox[b],
        s.deliver(a, to_a).deliver(b, to_b) == s.deliver(b, to_b).deliver(a, to_a),
{
    let one = s.deliver(a, to_a).deliver(b, to_b);
    let other = s.deliver(b, to_b).deliver(a, to_a);
    assert(one.pending =~= other.pending);
    assert(one.mailbox =~= other.mailbox);
}

/// At most one response is delivered for a request: once one has arrived,
/// a second one to the same id changes nothing.
pub proof fn lemma_second_response_dropped(s: SessionView, id: u32, first: ResponseView, second: ResponseView)
    ensures
        s.deliver(id, first).deliver(id, second) == s.deliver(id, first),
        !s.deliver(id, first).pending.contains(id),
{
}

/// The same, of whole frames: of two responses to one id, the second
/// changes nothing.
pub proof fn lemma_second_frame_dropped(s: SessionView, first: Seq<u8>, second: Seq<u8>)
    requires
        packet_at(first) matches Ok(PacketView::Response { id, .. }) && (packet_at(
            second,
        ) matches Ok(PacketView::Response { id: again, .. }) && again == id),
    ensures
        s.on_packet(first).on_packet(second) == s.on_packet(first),
{
}

/// A reply is collected once: after it was taken, the mailbox holds nothing
/// under its id, and taking again changes nothing.
pub proof fn lemma_collected_once(s: SessionView, id: u32)
    ensures
        !s.take(id).mailbox.contains_key(id),
        s.take(id).take(id) == s.take(id),
{
    assert(s.take(id).mailbox.remove(id) =~= s.take(id).mailbox);
}

/// A notify is read back as a notify, never as a response; handling it
/// leaves every waiting request and every reply as it was; and the session
/// sends nothing on its own account for it, whatever the handler returned.
pub proof fn lemma_notify_is_silent(
    s: SessionView,
    method: MethodView,
    args: Seq<u8>,
    before: Seq<Seq<u8>>,
    after: Seq<Seq<u8>>,
)
    requires
        method_fits(method),
        owed(before, after, Ok(notify_frame(method, args))),
    ensures
        packet_at(notify_frame(method, args)) matches Ok(PacketView::Notify { .. }),
        s.on_packet(notify_frame(method, args)) == s,
        after == before,
{
    lemma_notify_read_back(method, args);
}

/// For a request the session sends at most one frame on its own account,
/// and that frame is a failure response to the id of the request.
pub proof fn lemma_request_owes_one_failure(
    id: u32,
    method: MethodView,
    args: Seq<u8>,
    before: Seq<Seq<u8>>,
    after: Seq<Seq<u8>>,
)
    requires
        method_fits(method),
        owed(before, after, Ok(request_frame(id, method, args))),
    ensures
        after == before || (after.len() == before.len() + 1 && after.drop_last() == before
            && exists|msg: Seq<char>| after.last() == #[trigger] error_frame(id, msg)),
{
    lemma_request_read_back(id, method, args);
    if after != before {
        let msg = choose|msg: Seq<char>| after == before.push(#[trigger] error_frame(id, msg));
        assert(after.drop_last() =~= before);
        assert(after.last() == error_frame(id, msg));
    }
}

/// With a spent reply handle no response is owed, whether the handler
/// failed or not: only the verdict `Failed` sends one.
pub proof fn lemma_spent_owes_nothing(failed: bool)
    ensures
        verdict_of(failed, false) != Verdict::Failed,
{
}

/// A request arrives as it was sent, and a reply made of the bytes that
/// arrived comes back as a result of those very bytes: the peer reads the
/// same id and method, with the arguments where the header ends; and when
/// it replies with its arguments, the request stops waiting and finds them
/// in the mailbox.
pub proof fn lemma_echo_round_trip(s: SessionView, id: u32, method: MethodView, args: Seq<u8>)
    requires
        method_fits(method),
        s.pending.contains(id),
    ensures
        packet_at(request_frame(id, method, args)) == Ok::<PacketView, ProtocolError>(
            PacketView::Request { id, method, args_at: request_header(id, method).len() },
        ),
        request_frame(id, method, args).subrange(
            request_header(id, method).len() as int,
            request_frame(id, method, args).len() as int,
        ) == args,
        s.on_packet(reply_frame(id, args)).mailbox.contains_key(id),
        s.on_packet(reply_frame(id, args)).mailbox[id] is Data,
        s.on_packet(reply_frame(id, args)).mailbox[id].payload() == args,
        !s.on_packet(reply_frame(id, args)).pending.contains(id),
{
    lemma_request_read_back(id, method, args);
    lemma_reply_read_back(id, args);
}

/// The failure of a handler comes back as it was sent: the request stops
/// waiting and finds an error with the same message in the mailbox.
pub proof fn lemma_error_round_trip(s: SessionView, id: u32, msg: Seq<char>)
    requires
        encode_utf8(msg).len() <= u32::MAX,
        s.pending.contains(id),
    ensures
        s.on_packet(error_frame(id, msg)).mailbox.contains_key(id),
        s.on_packet(error_frame(id, msg)).mailbox[id] == ResponseView::Error(msg),
        !s.on_packet(error_frame(id, msg)).pending.contains(id),
{
    lemma_error_read_back(id, msg);
}

/// A method may be a number or a name: a request arrives with either.
pub proof fn lemma_method_of_either_form(id: u32, number: u32, name: Seq<char>, args: Seq<u8>)
    requires
        encode_utf8(name).len() <= u32::MAX,
    ensures
        packet_at(request_frame(id, MethodView::Int(number), args)) matches Ok(
            PacketView::Request { method, .. },
        ) && method == MethodView::Int(number),
        packet_at(request_frame(id, MethodView::Str(name), args)) matches Ok(
            PacketView::Request { method, .. },
        ) && method == MethodView::Str(name),
{
    lemma_request_read_back(id, MethodView::Int(number), args);
    lemma_request_read_back(id, MethodView::Str(name), args);
}

} // verus!
