//! What holds of the monitor as a whole, and of a client that talks to it.

use vstd::prelude::*;

use crate::control::{
    accept_outcome, answer_to, bind_outcome, connect_outcome, frame_round_trip, next_frame,
    replies_are_understood, request_bytes, request_round_trip, stream_of, ArcaError,
    ArcaTcpListener, ArcaTcpStream, CodecError, ControlReply, ControlRequest, FrameContent,
};
use crate::monitor::state::{
    reply_bytes, AcceptOutcome, BindOutcome, ConnectOutcome, Handled, MonitorError, MonitorState,
    SocketTask, UNKNOWN_LISTENER_CODE,
};

verus! {

/// Every reply carries the id of the request that it answers: that of the bind or
/// connect, or that of the wait that was first in line.
pub proof fn replies_echo_the_request<L, S, E>(
    state: MonitorState<L, S>,
    rid: u32,
    lid: u32,
    bind: BindOutcome<L, E>,
    connect: ConnectOutcome<S>,
    accept: AcceptOutcome<S>,
    frame: FrameContent,
)
    ensures
        state.after_bind(rid, bind).1 matches Ok(reply) ==> reply.id() == rid,
        state.after_connect(rid, connect).1.id() == rid,
        state.after_accept(lid, accept).1 matches Some(reply) ==> {
            &&& state.waiting(lid).len() > 0
            &&& reply.id() == state.waiting(lid)[0]
        },
        state.refusal(frame) matches Some(reply) ==> reply.id() == frame.request_id,
{
}

/// Nothing that the monitor does breaks its knowledge: no id becomes 0, and no
/// request waits on a listener that does not exist.
pub proof fn knowledge_stays_consistent<L, S, E>(
    state: MonitorState<L, S>,
    rid: u32,
    lid: u32,
    bind: BindOutcome<L, E>,
    connect: ConnectOutcome<S>,
    accept: AcceptOutcome<S>,
    frame: FrameContent,
)
    requires
        state.consistent(),
    ensures
        state.after_bind(rid, bind).0.consistent(),
        state.after_connect(rid, connect).0.consistent(),
        state.after_accept(lid, accept).0.consistent(),
        state.after_frame::<E>(frame).0.consistent(),
{
}

/// A connection is announced with its own id, which is not 0 and names its data
/// pipe too, and with the ring size that the monitor was made with. An outbound
/// one names no listener, an inbound one the listener that it came in on.
pub proof fn announcements_are_exact<L, S>(
    state: MonitorState<L, S>,
    rid: u32,
    lid: u32,
    stream: S,
)
    requires
        state.consistent(),
        state.waiting(lid).len() > 0,
    ensures
        ({
            let (after, reply) = state.after_connect(rid, ConnectOutcome::Connected(stream));
            &&& reply matches ControlReply::ConnectOk { ready, .. }
            &&& ready.listener_id == 0
            &&& ready.connection_id != 0
            &&& ready.pipe.pipe_id == ready.connection_id
            &&& ready.pipe.ring_size == state.ring_size
            &&& after.connections.contains_pair(ready.connection_id, stream)
        }),
        ({
            let (after, reply) = state.after_accept(lid, AcceptOutcome::Accepted(stream));
            &&& reply matches Some(ControlReply::AcceptOk { ready, .. })
            &&& ready.listener_id == lid
            &&& ready.listener_id != 0
            &&& ready.connection_id != 0
            &&& ready.pipe.pipe_id == ready.connection_id
            &&& ready.pipe.ring_size == state.ring_size
            &&& after.connections.contains_pair(ready.connection_id, stream)
        }),
{
    assert(state.waits.contains_key(lid));
}

/// What fails takes no id and keeps no socket. A refused bind or connect, an accept that
/// is not ready and one that nobody waits for change nothing at all.
pub proof fn failures_allocate_nothing<L, S, E>(
    state: MonitorState<L, S>,
    rid: u32,
    lid: u32,
    code: u32,
    e: E,
    accept: AcceptOutcome<S>,
)
    ensures
        state.after_bind::<E>(rid, BindOutcome::Refused(code)).0 == state,
        state.after_bind(rid, BindOutcome::Broken(e)).0 == state,
        state.after_connect(rid, ConnectOutcome::Refused(code)).0 == state,
        state.after_accept(lid, AcceptOutcome::NotReady).0 == state,
        state.waiting(lid).len() == 0 ==> state.after_accept(lid, accept) == (
            state,
            None::<ControlReply>,
        ),
        ({
            let after = state.after_accept(lid, AcceptOutcome::Failed(code)).0;
            &&& after.connections == state.connections
            &&& after.next_connection_id == state.next_connection_id
        }),
{
}

/// Waits are answered in the order in which they came: while somebody waits on a
/// listener, a request that comes later changes nothing about who is answered next
/// and how, and stays behind.
pub proof fn waits_are_served_in_order<L, S>(
    state: MonitorState<L, S>,
    lid: u32,
    rid: u32,
    accept: AcceptOutcome<S>,
)
    requires
        state.waiting(lid).len() > 0,
    ensures
        state.with_wait(lid, rid).after_accept(lid, accept).1 == state.after_accept(lid, accept).1,
        state.with_wait(lid, rid).after_accept(lid, accept).0 == state.after_accept(
            lid,
            accept,
        ).0.with_wait(lid, rid),
{
    let queue = state.waiting(lid);
    assert(queue.push(rid).drop_first() =~= queue.drop_first().push(rid));
    let a = state.with_wait(lid, rid).after_accept(lid, accept).0;
    let b = state.after_accept(lid, accept).0.with_wait(lid, rid);
    assert(a.waits =~= b.waits);
}

/// Each listener has a line of its own: what happens on one leaves the waits on
/// every other alone.
pub proof fn listeners_do_not_mix<L, S>(
    state: MonitorState<L, S>,
    lid: u32,
    other: u32,
    rid: u32,
    accept: AcceptOutcome<S>,
)
    requires
        lid != other,
    ensures
        state.with_wait(lid, rid).waiting(other) == state.waiting(other),
        state.after_accept(lid, accept).0.waiting(other) == state.waiting(other),
{
}

/// One wait, one answer: an accept answers at most one request, and the answered
/// request waits no more. A new connection without an answer does not exist.
pub proof fn one_answer_per_wait<L, S>(
    state: MonitorState<L, S>,
    lid: u32,
    accept: AcceptOutcome<S>,
)
    ensures
        ({
            let (after, reply) = state.after_accept(lid, accept);
            &&& reply is Some ==> after.waiting(lid) == state.waiting(lid).drop_first()
            &&& reply is None ==> after == state
        }),
{
}

/// An accept on a listener that does not exist is refused with the code for a bad
/// file number, under the id of the request, and nothing is queued. The client that
/// waits learns the code.
pub proof fn unknown_listener_is_refused<L, S, E>(
    state: MonitorState<L, S>,
    rid: u32,
    lid: u32,
    rest: Seq<u8>,
)
    ensures
        ({
            let frame = (ControlRequest::Accept { request_id: rid, listener_id: lid }).content();
            &&& !state.listeners.contains_key(lid) ==> {
                &&& state.refusal(frame) == Some(
                    ControlReply::AcceptErr { request_id: rid, code: UNKNOWN_LISTENER_CODE },
                )
                &&& state.after_frame::<E>(frame) == (
                    state,
                    Err::<Handled, MonitorError<E>>(MonitorError::UnknownListener(lid)),
                )
                &&& accept_outcome(
                    answer_to(rid, reply_bytes(state.refusal(frame)->0) + rest),
                ) == Err::<ArcaTcpStream, ArcaError>(
                    ArcaError::AcceptFailed { code: UNKNOWN_LISTENER_CODE },
                )
            }
            &&& state.listeners.contains_key(lid) ==> {
                &&& state.refusal(frame) is None
                &&& state.after_frame::<E>(frame) == (
                    state.with_wait(lid, rid),
                    Ok::<Handled, MonitorError<E>>(Handled::Queued),
                )
            }
        }),
{
    request_round_trip(ControlRequest::Accept { request_id: rid, listener_id: lid });
    replies_are_understood(
        ControlReply::AcceptErr { request_id: rid, code: UNKNOWN_LISTENER_CODE },
        rest,
    );
}

/// From the client's call to the socket: what a session writes for a request, the
/// monitor reads as that request, with the same endpoint and the same id.
pub proof fn requests_reach_the_monitor<L, S, E>(
    state: MonitorState<L, S>,
    request: ControlRequest,
    rest: Seq<u8>,
)
    ensures
        next_frame(request_bytes(request) + rest) == Ok::<FrameContent, CodecError>(
            request.content(),
        ),
        match request {
            ControlRequest::Listen { request_id, endpoint } => state.after_frame::<E>(
                request.content(),
            ) == (
                state,
                Ok::<Handled, MonitorError<E>>(
                    Handled::Task(SocketTask::Bind { request_id, endpoint }),
                ),
            ),
            ControlRequest::Connect { request_id, endpoint } => state.after_frame::<E>(
                request.content(),
            ) == (
                state,
                Ok::<Handled, MonitorError<E>>(
                    Handled::Task(SocketTask::Connect { request_id, endpoint }),
                ),
            ),
            ControlRequest::Accept { request_id, listener_id } => state.listeners.contains_key(
                listener_id,
            ) ==> state.after_frame::<E>(request.content()) == (
                state.with_wait(listener_id, request_id),
                Ok::<Handled, MonitorError<E>>(Handled::Queued),
            ),
        },
{
    request_round_trip(request);
    frame_round_trip(request.content(), rest);
}

/// From the socket to the client's call: a bind returns the listener that the
/// monitor keeps, or the code with which it was refused.
pub proof fn bind_end_to_end<L, S, E>(
    state: MonitorState<L, S>,
    rid: u32,
    bind: BindOutcome<L, E>,
    rest: Seq<u8>,
)
    ensures
        state.after_bind(rid, bind).1 matches Ok(reply) ==> bind_outcome(
            answer_to(rid, reply_bytes(reply) + rest),
        ) == if let BindOutcome::Refused(code) = bind {
            Err(ArcaError::ListenFailed { code })
        } else {
            Ok(ArcaTcpListener { listener_id: state.next_listener_id })
        },
        bind matches BindOutcome::Bound(listener) ==> state.after_bind(
            rid,
            bind,
        ).0.listeners.contains_pair(state.next_listener_id, listener),
{
    if let Ok(reply) = state.after_bind(rid, bind).1 {
        replies_are_understood(reply, rest);
    }
}

/// From the socket to the client's call: a connect returns the connection that the
/// monitor keeps, or the code with which it was refused.
pub proof fn connect_end_to_end<L, S>(
    state: MonitorState<L, S>,
    rid: u32,
    connect: ConnectOutcome<S>,
    rest: Seq<u8>,
)
    ensures
        connect_outcome(
            answer_to(rid, reply_bytes(state.after_connect(rid, connect).1) + rest),
        ) == match connect {
            ConnectOutcome::Connected(_) => Ok(stream_of(state.announcement(0))),
            ConnectOutcome::Refused(code) => Err(ArcaError::ConnectFailed { code }),
        },
{
    replies_are_understood(state.after_connect(rid, connect).1, rest);
}

/// From the socket to the client's call: the request that waited longest on a
/// listener gets the connection that came in on it, or the code with which the kernel
/// failed.
pub proof fn accept_end_to_end<L, S>(
    state: MonitorState<L, S>,
    lid: u32,
    accept: AcceptOutcome<S>,
    rest: Seq<u8>,
)
    ensures
        state.after_accept(lid, accept).1 matches Some(reply) ==> accept_outcome(
            answer_to(state.waiting(lid)[0], reply_bytes(reply) + rest),
        ) == if let AcceptOutcome::Failed(code) = accept {
            Err(ArcaError::AcceptFailed { code })
        } else {
            Ok(stream_of(state.announcement(lid)))
        },
{
    if let Some(reply) = state.after_accept(lid, accept).1 {
        replies_are_understood(reply, rest);
    }
}

} // verus!
