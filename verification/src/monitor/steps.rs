//! What each call of the monitor does, read off the wire and off what it knows.

use vstd::prelude::*;

use crate::control::{
    decided, frame_bytes, frame_layout, frame_round_trip, long_number_at, next_frame, number_at,
    reply_layout, request_bytes, request_layout, request_round_trip, says_endpoint, too_short,
    try_read_effect, what_a_frame_asks_for, what_a_stream_starts_with, CodecError,
    ConnectionReady, ControlFrame, ControlReply, ControlRequest, Endpoint, FrameContent,
    MessageType,
};
use crate::monitor::pump::{
    accept_taken, advanced, answered, bind_taken, connect_taken, read_then, request_effect,
    turn_taken, AcceptPoll, Action, Goal, Moment, Pump, Round, Stage,
};
use crate::monitor::runs::{is_run, leads_to, RunStep};
use crate::monitor::state::{
    reply_bytes, task_of, AcceptOutcome, BindOutcome, ConnectOutcome, Handled, MonitorError,
    MonitorState, SocketTask,
};
use crate::pipe::ChannelState;

verus! {

/// The bytes that were put on a transport between two of its states.
pub open spec fn sent(before: ChannelState, after: ChannelState) -> Seq<u8> {
    after.outgoing.skip(before.outgoing.len() as int)
}

/// Whether bytes are a frame with this code and request id whose payload is one number.
pub open spec fn says_number(s: Seq<u8>, code: u8, request_id: u32, n: u32) -> bool {
    &&& s.len() == 11
    &&& s[0] == code
    &&& s[1] == 4 && s[2] == 0
    &&& number_at(s, 3) == request_id
    &&& number_at(s, 7) == n
}

/// Whether bytes are a frame with this code and request id whose payload announces a
/// connection: listener, connection, pipe of the same number, ring size.
pub open spec fn says_connection(
    s: Seq<u8>,
    code: u8,
    request_id: u32,
    listener_id: u32,
    connection_id: u32,
    ring_size: u64,
) -> bool {
    &&& s.len() == 31
    &&& s[0] == code
    &&& s[1] == 24 && s[2] == 0
    &&& number_at(s, 3) == request_id
    &&& number_at(s, 7) == listener_id
    &&& number_at(s, 11) == connection_id
    &&& long_number_at(s, 15) == connection_id
    &&& long_number_at(s, 23) == ring_size
}

/// Whether a transport has room for `n` more bytes.
pub open spec fn takes(link: ChannelState, n: int) -> bool {
    link.room is None || link.room->0 >= n
}

/// Whether nothing happened to a transport but that bytes were put on it behind those that
/// were there.
pub open spec fn only_sent(before: ChannelState, after: ChannelState) -> bool {
    &&& after.outgoing.len() >= before.outgoing.len()
    &&& after.outgoing.take(before.outgoing.len() as int) == before.outgoing
    &&& after.incoming == before.incoming
    &&& after.hangs_up == before.hangs_up
}

/// Whether a run stands at the start of a round that has one turn for each listener on which
/// somebody waits, and no other.
pub open spec fn in_new_round<L, S>(moment: Moment<L, S>) -> bool {
    &&& moment.pump.stage matches Stage::Polling(poll)
    &&& poll.next == 0
    &&& poll.written == 0
    &&& poll.lids@.no_duplicates()
    &&& forall|lid: u32|
        poll.lids@.contains(lid) <==> #[trigger] moment.state.waiting(lid).len() > 0
}

/// The bytes of every reply: a number for a listener or a code, and what a new connection
/// is for the other two.
pub proof fn replies_on_the_wire(reply: ControlReply)
    ensures
        match reply {
            ControlReply::ListenOk { request_id, listener_id } => says_number(
                reply_bytes(reply),
                2,
                request_id,
                listener_id,
            ),
            ControlReply::ListenErr { request_id, code } => says_number(
                reply_bytes(reply),
                6,
                request_id,
                code,
            ),
            ControlReply::ConnectErr { request_id, code } => says_number(
                reply_bytes(reply),
                7,
                request_id,
                code,
            ),
            ControlReply::AcceptErr { request_id, code } => says_number(
                reply_bytes(reply),
                9,
                request_id,
                code,
            ),
            ControlReply::ConnectOk { request_id, ready } => says_ready_frame(
                reply_bytes(reply),
                4,
                request_id,
                ready,
            ),
            ControlReply::AcceptOk { request_id, ready } => says_ready_frame(
                reply_bytes(reply),
                5,
                request_id,
                ready,
            ),
        },
{
    reply_layout(reply);
    frame_layout(reply.content());
    let s = frame_bytes(reply.content());
    let p = reply.content().payload;
    assert(p.len() == s.len() - 7);
    assert forall|at: int| 0 <= at && at + 4 <= p.len() implies #[trigger] number_at(p, at)
        == number_at(s, 7 + at) by {
        assert(s[7 + at] == p[at]);
        assert(s[7 + (at + 1)] == p[at + 1]);
        assert(s[7 + (at + 2)] == p[at + 2]);
        assert(s[7 + (at + 3)] == p[at + 3]);
    }
    assert(number_at(p, 0) == number_at(s, 7));
    if p.len() == 24 {
        assert(number_at(p, 4) == number_at(s, 11));
        assert(number_at(p, 8) == number_at(s, 15));
        assert(number_at(p, 12) == number_at(s, 19));
        assert(number_at(p, 16) == number_at(s, 23));
        assert(number_at(p, 20) == number_at(s, 27));
    }
}

/// Whether bytes are a frame with this code and request id that carries an announcement.
pub open spec fn says_ready_frame(
    s: Seq<u8>,
    code: u8,
    request_id: u32,
    ready: ConnectionReady,
) -> bool {
    &&& s.len() == 31
    &&& s[0] == code
    &&& s[1] == 24 && s[2] == 0
    &&& number_at(s, 3) == request_id
    &&& number_at(s, 7) == ready.listener_id
    &&& number_at(s, 11) == ready.connection_id
    &&& long_number_at(s, 15) == ready.pipe.pipe_id
    &&& long_number_at(s, 23) == ready.pipe.ring_size
}

/// What a bind that ended leads to. One that worked is kept under the next listener id and
/// answered with that id; one that was refused is answered with its code; both under the id
/// of the request. One that broke ends the run and is not answered.
pub proof fn a_bind_is_answered<L, S, E>(
    before: Moment<L, S>,
    after: Moment<L, S>,
    outcome: BindOutcome<L, E>,
    r: Result<(), MonitorError<E>>,
    request_id: u32,
    endpoint: Endpoint,
)
    requires
        before.pump.stage == (Stage::Binding { request_id, endpoint }),
        bind_taken(before, after, outcome, r),
    ensures
        only_sent(before.link, after.link),
        after.state.connections == before.state.connections,
        after.state.next_connection_id == before.state.next_connection_id,
        after.state.ring_size == before.state.ring_size,
        after.state.waits == before.state.waits,
        after.state.kept == before.state.kept,
        match outcome {
            BindOutcome::Bound(listener) => {
                let id = before.state.next_listener_id;
                &&& after.state.listeners == before.state.listeners.insert(id, listener)
                &&& after.state.next_listener_id == if id == 0xffff_ffff {
                    1int
                } else {
                    id + 1
                }
                &&& takes(before.link, 11) ==> r is Ok && says_number(
                    sent(before.link, after.link),
                    2,
                    request_id,
                    id,
                )
            },
            BindOutcome::Refused(code) => {
                &&& after.state.listeners == before.state.listeners
                &&& after.state.next_listener_id == before.state.next_listener_id
                &&& takes(before.link, 11) ==> r is Ok && says_number(
                    sent(before.link, after.link),
                    6,
                    request_id,
                    code,
                )
            },
            BindOutcome::Broken(e) => {
                &&& after.state.listeners == before.state.listeners
                &&& after.state.next_listener_id == before.state.next_listener_id
                &&& after.link == before.link
                &&& r == Err::<(), MonitorError<E>>(MonitorError::Io(e))
            },
        },
        outcome !is Broken && !takes(before.link, 11) ==> r == Err::<(), MonitorError<E>>(
            MonitorError::Codec(CodecError::Closed),
        ),
        after.pump.goal == before.pump.goal,
        after.pump.served == before.pump.served,
        r is Ok ==> in_new_round(after),
        r is Err ==> after.pump.stage is Finished,
{
    if let Ok(reply) = before.state.after_bind(request_id, outcome).1 {
        replies_on_the_wire(reply);
        let bytes = reply_bytes(reply);
        assert(bytes.take(bytes.len() as int) =~= bytes);
        assert(after.link.outgoing.take(before.link.outgoing.len() as int)
            =~= before.link.outgoing);
        if takes(before.link, 11) {
            assert(sent(before.link, after.link) =~= bytes);
        }
    } else {
        assert(after.link.outgoing.take(before.link.outgoing.len() as int)
            =~= before.link.outgoing);
    }
}

/// What a connect that ended leads to. One that worked is kept under the next connection id
/// and announced with that id, for itself and for its pipe, with the monitor's ring size and
/// no listener; one that was refused is answered with its code; both under the id of the
/// request.
pub proof fn a_connect_is_answered<L, S>(
    before: Moment<L, S>,
    after: Moment<L, S>,
    outcome: ConnectOutcome<S>,
    r: Result<(), CodecError>,
    request_id: u32,
    endpoint: Endpoint,
)
    requires
        before.pump.stage == (Stage::Connecting { request_id, endpoint }),
        connect_taken(before, after, outcome, r),
    ensures
        only_sent(before.link, after.link),
        after.state.listeners == before.state.listeners,
        after.state.next_listener_id == before.state.next_listener_id,
        after.state.ring_size == before.state.ring_size,
        after.state.waits == before.state.waits,
        after.state.kept == before.state.kept,
        match outcome {
            ConnectOutcome::Connected(stream) => {
                let id = before.state.next_connection_id;
                &&& after.state.connections == before.state.connections.insert(id, stream)
                &&& after.state.next_connection_id == if id == 0xffff_ffff {
                    1int
                } else {
                    id + 1
                }
                &&& r is Ok <==> takes(before.link, 31)
                &&& r is Ok ==> says_connection(
                    sent(before.link, after.link),
                    4,
                    request_id,
                    0,
                    id,
                    before.state.ring_size,
                )
            },
            ConnectOutcome::Refused(code) => {
                &&& after.state.connections == before.state.connections
                &&& after.state.next_connection_id == before.state.next_connection_id
                &&& r is Ok <==> takes(before.link, 11)
                &&& r is Ok ==> says_number(sent(before.link, after.link), 7, request_id, code)
            },
        },
        r is Err ==> r == Err::<(), CodecError>(CodecError::Closed),
        after.pump.goal == before.pump.goal,
        after.pump.served == before.pump.served,
        r is Ok ==> in_new_round(after),
        r is Err ==> after.pump.stage is Finished,
{
    let reply = before.state.after_connect(request_id, outcome).1;
    replies_on_the_wire(reply);
    let bytes = reply_bytes(reply);
    assert(bytes.take(bytes.len() as int) =~= bytes);
    assert(after.link.outgoing.take(before.link.outgoing.len() as int) =~= before.link.outgoing);
    if takes(before.link, bytes.len() as int) {
        assert(sent(before.link, after.link) =~= bytes);
    }
}

/// What an accept on the listener whose turn it is leads to. A peer is kept under the next
/// connection id and announced to the request that waited longest on that listener; a
/// failure is answered to that request with its code; either way that request, and no
/// other, waits no more. While nobody is connecting nothing changes. The round goes on to
/// the listener behind.
pub proof fn a_turn_is_answered<L, S>(
    before: Round<L, S>,
    after: Round<L, S>,
    outcome: AcceptOutcome<S>,
    r: Result<(), CodecError>,
)
    requires
        before.poll.fits(before.state),
        before.poll.next < before.poll.lids@.len(),
        turn_taken(before, after, outcome, r),
    ensures
        ({
            let lid = before.poll.lids@[before.poll.next as int];
            let waiting = before.state.waiting(lid);
            &&& waiting.len() > 0
            &&& serves_front(before.state, after.state, lid, outcome)
            &&& only_sent(before.link, after.link)
            &&& tells_front(before.state, before.link, after.link, lid, outcome, r)
            &&& after.poll.written == before.poll.written + if r is Ok && outcome is Accepted {
                1int
            } else {
                0
            }
        }),
        after.poll.lids == before.poll.lids,
        after.poll.next == before.poll.next + 1,
{
    let lid = before.poll.lids@[before.poll.next as int];
    answer_to_front(before.state, before.link, after.link, lid, outcome, r);
}

/// What the outcome of an accept on a listener does to what the monitor knows, where
/// somebody waits on it.
pub open spec fn serves_front<L, S>(
    before: MonitorState<L, S>,
    after: MonitorState<L, S>,
    lid: u32,
    outcome: AcceptOutcome<S>,
) -> bool {
    let id = before.next_connection_id;
    &&& after.listeners == before.listeners
    &&& after.next_listener_id == before.next_listener_id
    &&& after.ring_size == before.ring_size
    &&& after.kept == before.kept
    &&& forall|other: u32| other != lid ==> #[trigger] after.waiting(other) == before.waiting(other)
    &&& match outcome {
        AcceptOutcome::Accepted(stream) => {
            &&& after.connections == before.connections.insert(id, stream)
            &&& after.next_connection_id == if id == 0xffff_ffff {
                1int
            } else {
                id + 1
            }
        },
        _ => {
            &&& after.connections == before.connections
            &&& after.next_connection_id == id
        },
    }
    &&& after.waiting(lid) == if outcome is NotReady {
        before.waiting(lid)
    } else {
        before.waiting(lid).skip(1)
    }
}

/// What the outcome of an accept on a listener puts on the transport, where somebody waits
/// on it.
pub open spec fn tells_front<L, S>(
    state: MonitorState<L, S>,
    before: ChannelState,
    after: ChannelState,
    lid: u32,
    outcome: AcceptOutcome<S>,
    r: Result<(), CodecError>,
) -> bool {
    let rid = state.waiting(lid)[0];
    &&& match outcome {
        AcceptOutcome::Accepted(_) => {
            &&& r is Ok <==> takes(before, 31)
            &&& r is Ok ==> says_connection(
                sent(before, after),
                5,
                rid,
                lid,
                state.next_connection_id,
                state.ring_size,
            )
        },
        AcceptOutcome::Failed(code) => {
            &&& r is Ok <==> takes(before, 11)
            &&& r is Ok ==> says_number(sent(before, after), 9, rid, code)
        },
        AcceptOutcome::NotReady => r is Ok && after == before,
    }
    &&& r is Err ==> r == Err::<(), CodecError>(CodecError::Closed)
}

/// The outcome of an accept is told to the request in front.
proof fn answer_to_front<L, S>(
    state: MonitorState<L, S>,
    before: ChannelState,
    after: ChannelState,
    lid: u32,
    outcome: AcceptOutcome<S>,
    r: Result<(), CodecError>,
)
    requires
        state.waiting(lid).len() > 0,
        answered(state.after_accept(lid, outcome).1, before, after, r),
    ensures
        serves_front(state, state.after_accept(lid, outcome).0, lid, outcome),
        only_sent(before, after),
        tells_front(state, before, after, lid, outcome, r),
{
    let waiting = state.waiting(lid);
    assert(waiting.skip(1) =~= waiting.drop_first());
    assert(after.outgoing.take(before.outgoing.len() as int) =~= before.outgoing);
    if let Some(reply) = state.after_accept(lid, outcome).1 {
        replies_on_the_wire(reply);
        let bytes = reply_bytes(reply);
        assert(bytes.take(bytes.len() as int) =~= bytes);
        if takes(before, bytes.len() as int) {
            assert(sent(before, after) =~= bytes);
        }
    }
}

/// The same in a run: the outcome of the accept that was due is the outcome on the listener
/// whose turn it is, and the run goes on with the listener behind unless its reply could not
/// be sent.
pub proof fn an_accept_is_answered<L, S>(
    before: Moment<L, S>,
    after: Moment<L, S>,
    outcome: AcceptOutcome<S>,
    r: Result<(), CodecError>,
    poll: AcceptPoll,
)
    requires
        before.pump.stage == Stage::Polling(poll),
        before.pump.fits(before.state),
        poll.next < poll.lids@.len(),
        accept_taken(before, after, outcome, r),
    ensures
        ({
            let lid = poll.lids@[poll.next as int];
            &&& before.state.waiting(lid).len() > 0
            &&& serves_front(before.state, after.state, lid, outcome)
            &&& only_sent(before.link, after.link)
            &&& tells_front(before.state, before.link, after.link, lid, outcome, r)
        }),
        r is Ok ==> {
            &&& after.pump.stage matches Stage::Polling(next)
            &&& next.lids == poll.lids
            &&& next.next == poll.next + 1
            &&& next.written == poll.written + if outcome is Accepted {
                1int
            } else {
                0
            }
        },
        r is Err ==> after.pump.stage is Finished,
        after.pump.goal == before.pump.goal,
        after.pump.served == before.pump.served,
{
    let lid = poll.lids@[poll.next as int];
    answer_to_front(before.state, before.link, after.link, lid, outcome, r);
}

/// The bytes that a run has not taken yet, in the decoder and on the transport.
pub open spec fn unread<L, S>(moment: Moment<L, S>) -> Seq<u8> {
    moment.state.kept + moment.link.incoming
}

/// Whether two moments differ, at most, in which bytes were read, in where the run stands
/// and in who waits.
pub open spec fn same_sockets<L, S>(before: Moment<L, S>, after: Moment<L, S>) -> bool {
    &&& after.state.listeners == before.state.listeners
    &&& after.state.connections == before.state.connections
    &&& after.state.next_listener_id == before.state.next_listener_id
    &&& after.state.next_connection_id == before.state.next_connection_id
    &&& after.state.ring_size == before.state.ring_size
    &&& after.link.hangs_up == before.link.hangs_up
    &&& after.pump.goal == before.pump.goal
}

/// Whether a run ended with an error and changed nothing else.
pub open spec fn gave_up<L, S, E>(
    before: Moment<L, S>,
    after: Moment<L, S>,
    r: Result<Action, MonitorError<E>>,
    e: MonitorError<E>,
) -> bool {
    &&& r == Err::<Action, MonitorError<E>>(e)
    &&& after.pump.stage is Finished
    &&& after.pump.served == before.pump.served
    &&& after.state.waits == before.state.waits
    &&& after.link.outgoing == before.link.outgoing
}

/// Whether a run found no whole request: it loses no byte, and it is over or starts anew.
pub open spec fn found_none<L, S, E>(
    before: Moment<L, S>,
    after: Moment<L, S>,
    r: Result<Action, MonitorError<E>>,
) -> bool {
    &&& unread(after) == unread(before)
    &&& !decided(after.state.kept)
    &&& after.state.waits == before.state.waits
    &&& after.link.outgoing == before.link.outgoing
    &&& after.pump.served == before.pump.served
    &&& match before.pump.goal {
        Goal::Drain => {
            &&& r == Ok::<Action, MonitorError<E>>(Action::Done)
            &&& after.pump.stage is Finished
        },
        Goal::ServeOne => {
            &&& r == Ok::<Action, MonitorError<E>>(Action::Yield)
            &&& in_new_round(after)
        },
    }
}

/// Whether a request frame was taken as its bytes say:
/// - a listen request names a bind to the endpoint that its payload says, and a connect
///   request a connect, and the run waits for the outcome under the id of the request;
/// - an accept request goes to the end of the line of its listener, whoever has the turn;
/// - an accept request on a listener that does not exist is refused with code 9;
/// - everything else ends the run with an error that says what was wrong.
pub open spec fn taken_as_asked<L, S, E>(
    before: Moment<L, S>,
    after: Moment<L, S>,
    frame: FrameContent,
    r: Result<Action, MonitorError<E>>,
) -> bool {
    let p = frame.payload;
    let rid = frame.request_id;
    match frame.message_type {
        MessageType::ListenRequest => if p.len() < 6 {
            gave_up(before, after, r, MonitorError::Codec(too_short(6, p.len())))
        } else {
            &&& r matches Ok(Action::Bind(endpoint))
            &&& says_endpoint(p, endpoint)
            &&& after.pump.stage == (Stage::Binding { request_id: rid, endpoint })
            &&& after.pump.served
            &&& after.state.waits == before.state.waits
            &&& after.link.outgoing == before.link.outgoing
        },
        MessageType::ConnectRequest => if p.len() < 6 {
            gave_up(before, after, r, MonitorError::Codec(too_short(6, p.len())))
        } else {
            &&& r matches Ok(Action::Connect(endpoint))
            &&& says_endpoint(p, endpoint)
            &&& after.pump.stage == (Stage::Connecting { request_id: rid, endpoint })
            &&& after.pump.served
            &&& after.state.waits == before.state.waits
            &&& after.link.outgoing == before.link.outgoing
        },
        MessageType::AcceptRequest => if p.len() < 4 {
            gave_up(before, after, r, MonitorError::Codec(too_short(4, p.len())))
        } else if before.state.listeners.contains_key(number_at(p, 0) as u32) {
            let lid = number_at(p, 0) as u32;
            &&& r matches Ok(Action::Accept(turn))
            &&& in_new_round(after)
            &&& after.pump.stage matches Stage::Polling(poll)
            &&& poll.lids@.contains(lid)
            &&& turn == poll.lids@[0]
            &&& after.pump.served
            &&& after.state.waiting(lid) == before.state.waiting(lid).push(rid)
            &&& forall|other: u32|
                other != lid ==> #[trigger] after.state.waiting(other) == before.state.waiting(
                    other,
                )
            &&& after.link.outgoing == before.link.outgoing
        } else {
            &&& after.state.waits == before.state.waits
            &&& after.pump.stage is Finished
            &&& after.pump.served == before.pump.served
            &&& after.link.outgoing.take(before.link.outgoing.len() as int)
                == before.link.outgoing
            &&& takes(before.link, 11) ==> {
                &&& says_number(sent(before.link, after.link), 9, rid, 9)
                &&& r == Err::<Action, MonitorError<E>>(
                    MonitorError::UnknownListener(number_at(p, 0) as u32),
                )
            }
            &&& !takes(before.link, 11) ==> r == Err::<Action, MonitorError<E>>(
                MonitorError::Codec(CodecError::Closed),
            )
        },
        other => gave_up(before, after, r, MonitorError::UnexpectedRequest(other)),
    }
}

/// What a run does when it reads. If the bytes before it start with a whole frame, it takes
/// exactly that frame, as the frame asks, or, where somebody else acts on the transport, it
/// may find none yet. If they start with what is no frame, it ends with the error and loses
/// no byte. If a frame is not whole yet it finds none, unless the peer is gone, which it
/// tells as soon as the transport shows it.
pub proof fn a_run_takes_what_is_asked<L, S, E>(
    before: Moment<L, S>,
    after: Moment<L, S>,
    settled: bool,
    r: Result<Action, MonitorError<E>>,
)
    requires
        before.pump.reads(),
        advanced(before, after, settled, r),
    ensures
        same_sockets(before, after),
        match next_frame(unread(before)) {
            Ok(frame) => {
                ||| {
                    &&& unread(after) == unread(before).skip(7 + frame.payload.len() as int)
                    &&& taken_as_asked(before, after, frame, r)
                }
                ||| !settled && found_none(before, after, r)
            },
            Err(e) => {
                ||| {
                    &&& unread(after) == unread(before)
                    &&& gave_up(before, after, r, MonitorError::Codec(e))
                    &&& e == CodecError::Closed ==> before.link.hangs_up
                }
                ||| {
                    &&& found_none(before, after, r)
                    &&& settled ==> e == CodecError::Closed && after.link.incoming.len() == 0
                    &&& settled && before.link.greedy ==> !before.link.hangs_up
                }
            },
        },
{
    let stream = unread(before);
    let (read, kept, mid) = choose|
        read: Result<Option<ControlFrame>, CodecError>,
        kept: Seq<u8>,
        mid: ChannelState,
    | #[trigger]
        read_then(before, after, settled, read, kept, mid, r);
    let had = Moment {
        state: MonitorState { kept, ..before.state },
        link: mid,
        pump: before.pump,
    };
    assert(try_read_effect(before.state.kept, kept, before.link, mid, settled, read));
    assert(stream.skip(0) =~= stream);
    what_a_stream_starts_with(stream);
    match read {
        Ok(Some(frame)) => {
            what_a_frame_asks_for(frame@);
            assert(kept + mid.incoming == stream.skip(7 + frame@.payload.len() as int));
            frame_is_taken(had, after, frame, r);
        },
        Ok(None) => {
            if settled {
                assert(kept =~= stream);
            }
        },
        Err(_) => {},
    }
}

/// A frame that was read is taken as its bytes say.
proof fn frame_is_taken<L, S, E>(
    had: Moment<L, S>,
    after: Moment<L, S>,
    frame: ControlFrame,
    r: Result<Action, MonitorError<E>>,
)
    requires
        request_effect(had, after, Some(frame), r),
    ensures
        taken_as_asked(had, after, frame@, r),
        unread(after) == unread(had),
        after.state.listeners == had.state.listeners,
        after.state.connections == had.state.connections,
        after.state.next_listener_id == had.state.next_listener_id,
        after.state.next_connection_id == had.state.next_connection_id,
        after.state.ring_size == had.state.ring_size,
        after.link.hangs_up == had.link.hangs_up,
{
    let p = frame@.payload;
    what_a_frame_asks_for(frame@);
    match had.state.refusal(frame@) {
        Some(reply) => {
            replies_on_the_wire(reply);
            let bytes = reply_bytes(reply);
            assert(bytes.take(bytes.len() as int) =~= bytes);
            assert(after.link.outgoing.take(had.link.outgoing.len() as int)
                =~= had.link.outgoing);
            if takes(had.link, 11) {
                assert(sent(had.link, after.link) =~= bytes);
            }
        },
        None => {
            if let Ok(ControlRequest::Accept { listener_id, .. }) = ControlRequest::of(frame@) {
                let poll = after.pump.stage->Polling_0;
                assert(after.state.waiting(listener_id).len() > 0);
                assert(poll.lids@.contains(listener_id));
            }
        },
    }
}

/// When a run reads: once every listener of its round had its turn, unless it only had one
/// request to take and has taken it.
pub proof fn a_run_reads_between_rounds(pump: Pump)
    ensures
        pump.reads() <==> {
            &&& pump.stage matches Stage::Polling(poll)
            &&& poll.next >= poll.lids@.len()
            &&& !(pump.goal is ServeOne && pump.served)
        },
{
}

/// What a run names where it does not read: an accept on the listener whose turn it is, or
/// the bind or connect that it waits for, each with the endpoint that it waits for; it
/// changes nothing by that. A run that has nothing more to do is over and stays over.
pub proof fn a_run_names_what_is_due<L, S, E>(
    before: Moment<L, S>,
    after: Moment<L, S>,
    settled: bool,
    r: Result<Action, MonitorError<E>>,
)
    requires
        !before.pump.reads(),
        advanced(before, after, settled, r),
    ensures
        after.state == before.state,
        after.link == before.link,
        after.pump.goal == before.pump.goal,
        after.pump.served == before.pump.served,
        match before.pump.stage {
            Stage::Polling(poll) => if poll.next < poll.lids@.len() {
                &&& r == Ok::<Action, MonitorError<E>>(
                    Action::Accept(poll.lids@[poll.next as int]),
                )
                &&& after.pump.stage == before.pump.stage
            } else {
                &&& r == Ok::<Action, MonitorError<E>>(Action::Done)
                &&& after.pump.stage is Finished
            },
            Stage::Binding { endpoint, .. } => {
                &&& r == Ok::<Action, MonitorError<E>>(Action::Bind(endpoint))
                &&& after.pump.stage == before.pump.stage
            },
            Stage::Connecting { endpoint, .. } => {
                &&& r == Ok::<Action, MonitorError<E>>(Action::Connect(endpoint))
                &&& after.pump.stage == before.pump.stage
            },
            Stage::Finished => {
                &&& r == Ok::<Action, MonitorError<E>>(Action::Done)
                &&& after.pump.stage is Finished
            },
        },
{
}

/// A run that polls anew is at the start of a round over all on which somebody waits, and a
/// run that is there polls anew.
pub proof fn a_run_begins_with_everybody<L, S>(moment: Moment<L, S>)
    requires
        moment.state.consistent(),
    ensures
        moment.pump.polls_anew(moment.state) <==> in_new_round(moment),
{
    if in_new_round(moment) {
        let poll = moment.pump.stage->Polling_0;
        assert forall|i: int| 0 <= i < poll.lids@.len() implies {
            &&& moment.state.waiting(#[trigger] poll.lids@[i]).len() > 0
            &&& moment.state.listeners.contains_key(poll.lids@[i])
        } by {
            let lid = poll.lids@[i];
            assert(poll.lids@.contains(lid));
            assert(moment.state.waiting(lid).len() > 0);
            assert(moment.state.waits.contains_key(lid));
        }
    }
}

/// A new round is one turn for each listener on which somebody waits.
pub proof fn a_round_has_a_turn_for_everybody<L, S>(poll: AcceptPoll, state: MonitorState<L, S>)
    requires
        poll.starts(state),
    ensures
        poll.next == 0,
        poll.written == 0,
        forall|i: int, j: int|
            0 <= i < j < poll.lids@.len() ==> #[trigger] poll.lids@[i] != #[trigger] poll.lids@[j],
        forall|lid: u32| #[trigger]
            state.waiting(lid).len() > 0 <==> exists|i: int|
                0 <= i < poll.lids@.len() && #[trigger] poll.lids@[i] == lid,
{
    assert forall|lid: u32| #[trigger] state.waiting(lid).len() > 0 implies exists|i: int|
        0 <= i < poll.lids@.len() && #[trigger] poll.lids@[i] == lid by {
        assert(poll.lids@.contains(lid));
    }
}

/// The action that a listen or connect request asks for.
pub open spec fn action_asked(request: ControlRequest) -> Action {
    match request {
        ControlRequest::Listen { endpoint, .. } => Action::Bind(endpoint),
        ControlRequest::Connect { endpoint, .. } => Action::Connect(endpoint),
        ControlRequest::Accept { listener_id, .. } => Action::Accept(listener_id),
    }
}

/// From the caller's endpoint to the socket: where the bytes of a listen or connect request
/// come next, a run that reads names the bind or connect with the very endpoint that the
/// caller gave, unless somebody else acts on the transport and it finds nothing yet.
pub proof fn a_request_names_its_endpoint<L, S, E>(
    before: Moment<L, S>,
    after: Moment<L, S>,
    settled: bool,
    r: Result<Action, MonitorError<E>>,
    request: ControlRequest,
    rest: Seq<u8>,
)
    requires
        request !is Accept,
        before.pump.reads(),
        unread(before) == request_bytes(request) + rest,
        advanced(before, after, settled, r),
    ensures
        settled || r !is Ok || !(r->Ok_0 is Done || r->Ok_0 is Yield) ==> {
            &&& r == Ok::<Action, MonitorError<E>>(action_asked(request))
            &&& unread(after) == rest
            &&& match request {
                ControlRequest::Listen { request_id, endpoint } => after.pump.stage
                    == (Stage::Binding { request_id, endpoint }),
                ControlRequest::Connect { request_id, endpoint } => after.pump.stage
                    == (Stage::Connecting { request_id, endpoint }),
                ControlRequest::Accept { .. } => false,
            }
        },
        r is Ok && (r->Ok_0 is Done || r->Ok_0 is Yield) ==> !settled && unread(after) == unread(
            before,
        ),
{
    a_run_takes_what_is_asked(before, after, settled, r);
    frame_round_trip(request.content(), rest);
    request_round_trip(request);
    request_layout(request);
    let s = unread(before);
    assert(s.skip(7 + request.content().payload.len() as int) =~= rest);
    let p = request.content().payload;
    match request {
        ControlRequest::Listen { endpoint, .. } | ControlRequest::Connect { endpoint, .. } => {
            if let Ok(Action::Bind(named)) = r {
                if says_endpoint(p, named) {
                    assert forall|i: int| 0 <= i < 4 implies named.host@[i]
                        == endpoint.host@[i] by {
                        assert(named.host[i] == p[i]);
                        assert(p[i] == endpoint.host[i]);
                    }
                    assert(named.host =~= endpoint.host);
                }
            }
            if let Ok(Action::Connect(named)) = r {
                if says_endpoint(p, named) {
                    assert forall|i: int| 0 <= i < 4 implies named.host@[i]
                        == endpoint.host@[i] by {
                        assert(named.host[i] == p[i]);
                        assert(p[i] == endpoint.host[i]);
                    }
                    assert(named.host =~= endpoint.host);
                }
            }
        },
        _ => {},
    }
}

/// In every run: from the call that takes a listen or connect request on, and until the
/// outcome is reported, each call of `advance` names that operation with the endpoint of the
/// request and changes nothing, and the outcome that is reported is the outcome of that
/// operation.
pub proof fn an_operation_stays_due<L, S, E>(
    moments: Seq<Moment<L, S>>,
    steps: Seq<RunStep<L, S, E>>,
    settled: bool,
    request: ControlRequest,
    rest: Seq<u8>,
    i: int,
    j: int,
)
    requires
        is_run(moments, steps, settled),
        0 <= i <= j < steps.len(),
        forall|k: int| i <= k < j ==> #[trigger] steps[k] is Advance,
        request !is Accept,
        moments[i].pump.reads(),
        unread(moments[i]) == request_bytes(request) + rest,
        steps[i] matches RunStep::Advance(r) && (settled || r != Ok::<Action, MonitorError<E>>(
            Action::Done,
        ) && r != Ok::<Action, MonitorError<E>>(Action::Yield)),
    ensures
        match steps[j] {
            RunStep::Advance(r) => {
                &&& r == Ok::<Action, MonitorError<E>>(action_asked(request))
                &&& unread(moments[j + 1]) == rest
                &&& moments[j + 1] == moments[i + 1]
            },
            RunStep::Bind(_) => request is Listen,
            RunStep::Connect(_) => request is Connect,
            RunStep::Accept(_) => false,
        },
    decreases j - i,
{
    assert(leads_to(moments[i], moments[i + 1], steps[i], settled));
    assert(leads_to(moments[j], moments[j + 1], steps[j], settled));
    if let RunStep::Advance(r) = steps[i] {
        a_request_names_its_endpoint(moments[i], moments[i + 1], settled, r, request, rest);
    }
    if i < j {
        an_operation_stays_due(moments, steps, settled, request, rest, i, j - 1);
        assert(steps[j - 1] is Advance);
        assert(moments[j] == moments[i + 1]);
        if let RunStep::Advance(r) = steps[j] {
            a_run_names_what_is_due(moments[j], moments[j + 1], settled, r);
            assert(moments[j + 1].pump == moments[j].pump);
        }
    }
}

/// What any frame asks of the monitor, whoever hands it in:
/// - a listen or connect request with six bytes or more asks for the socket operation with
///   the endpoint that they say, under its id, and changes nothing;
/// - an accept request with four bytes or more goes to the end of the line of the listener
///   that they say, if that exists, and is else refused under its id with code 9;
/// - a shorter payload and every other type is an error and changes nothing.
pub proof fn a_frame_is_handled_as_asked<L, S, E>(state: MonitorState<L, S>, frame: FrameContent)
    ensures
        ({
            let p = frame.payload;
            let rid = frame.request_id;
            let (after, r) = state.after_frame::<E>(frame);
            let task = task_of::<E>(frame);
            let refused = state.refusal(frame);
            &&& after.listeners == state.listeners
            &&& after.connections == state.connections
            &&& after.next_listener_id == state.next_listener_id
            &&& after.next_connection_id == state.next_connection_id
            &&& after.ring_size == state.ring_size
            &&& after.kept == state.kept
            &&& match frame.message_type {
                MessageType::ListenRequest => {
                    &&& after == state
                    &&& refused is None
                    &&& match task {
                        Ok(SocketTask::Bind { request_id, endpoint }) => {
                            &&& request_id == rid
                            &&& says_endpoint(p, endpoint)
                            &&& r == Ok::<Handled, MonitorError<E>>(Handled::Task(task->Ok_0))
                        },
                        Ok(_) => false,
                        Err(e) => {
                            &&& p.len() < 6
                            &&& e == MonitorError::<E>::Codec(too_short(6, p.len()))
                            &&& r == Err::<Handled, MonitorError<E>>(e)
                        },
                    }
                },
                MessageType::ConnectRequest => {
                    &&& after == state
                    &&& refused is None
                    &&& match task {
                        Ok(SocketTask::Connect { request_id, endpoint }) => {
                            &&& request_id == rid
                            &&& says_endpoint(p, endpoint)
                            &&& r == Ok::<Handled, MonitorError<E>>(Handled::Task(task->Ok_0))
                        },
                        Ok(_) => false,
                        Err(e) => {
                            &&& p.len() < 6
                            &&& e == MonitorError::<E>::Codec(too_short(6, p.len()))
                            &&& r == Err::<Handled, MonitorError<E>>(e)
                        },
                    }
                },
                MessageType::AcceptRequest => {
                    let lid = number_at(p, 0) as u32;
                    &&& task == Err::<SocketTask, MonitorError<E>>(
                        MonitorError::UnexpectedRequest(MessageType::AcceptRequest),
                    )
                    &&& p.len() < 4 ==> {
                        &&& after == state
                        &&& refused is None
                        &&& r == Err::<Handled, MonitorError<E>>(
                            MonitorError::Codec(too_short(4, p.len())),
                        )
                    }
                    &&& p.len() >= 4 && state.listeners.contains_key(lid) ==> {
                        &&& refused is None
                        &&& r == Ok::<Handled, MonitorError<E>>(Handled::Queued)
                        &&& after.waiting(lid) == state.waiting(lid).push(rid)
                        &&& forall|other: u32|
                            other != lid ==> #[trigger] after.waiting(other) == state.waiting(
                                other,
                            )
                    }
                    &&& p.len() >= 4 && !state.listeners.contains_key(lid) ==> {
                        &&& after == state
                        &&& refused == Some(ControlReply::AcceptErr { request_id: rid, code: 9 })
                        &&& r == Err::<Handled, MonitorError<E>>(
                            MonitorError::UnknownListener(lid),
                        )
                    }
                },
                other => {
                    &&& after == state
                    &&& refused is None
                    &&& task == Err::<SocketTask, MonitorError<E>>(
                        MonitorError::UnexpectedRequest(other),
                    )
                    &&& r == Err::<Handled, MonitorError<E>>(
                        MonitorError::UnexpectedRequest(other),
                    )
                },
            }
        }),
{
    what_a_frame_asks_for(frame);
}

/// A request that is let wait on a listener is the last in its line, and no other line
/// changes, nor anything else.
pub proof fn who_comes_later_waits_behind<L, S>(state: MonitorState<L, S>, lid: u32, rid: u32)
    ensures
        ({
            let after = state.with_wait(lid, rid);
            let line = if state.waits.contains_key(lid) {
                state.waits[lid]
            } else {
                Seq::empty()
            };
            &&& state.waiting(lid) == line
            &&& after.waiting(lid) == line.push(rid)
            &&& after.waits == state.waits.insert(lid, line.push(rid))
            &&& forall|other: u32|
                other != lid ==> #[trigger] after.waiting(other) == state.waiting(other)
            &&& after.listeners == state.listeners
            &&& after.connections == state.connections
            &&& after.next_listener_id == state.next_listener_id
            &&& after.next_connection_id == state.next_connection_id
            &&& after.ring_size == state.ring_size
            &&& after.kept == state.kept
        }),
{
}

} // verus!
