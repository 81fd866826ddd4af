//! What holds of a whole run of the monitor.

use vstd::prelude::*;

use crate::control::{
    decided, frame_bytes, frame_bytes_round_trip, next_frame, next_frame_len, try_read_effect,
    wire, wire_is_read_in_order, CodecError, ControlFrame, ControlReply, ControlRequest,
    FrameContent, MAX_FRAME_PAYLOAD,
};
use crate::monitor::pump::{
    accept_taken, advanced, bind_taken, connect_taken, read_then, Action, Goal, Moment, Stage,
};
use crate::monitor::state::{
    reply_bytes, AcceptOutcome, BindOutcome, ConnectOutcome, MonitorError,
};
use crate::pipe::ChannelState;

verus! {

/// One call in a run, with what it was given or what it returned.
pub enum RunStep<L, S, E> {
    /// `advance` returned this.
    Advance(Result<Action, MonitorError<E>>),
    /// `on_accept` took this outcome.
    Accept(AcceptOutcome<S>),
    /// `on_bind` took this outcome.
    Bind(BindOutcome<L, E>),
    /// `on_connect` took this outcome.
    Connect(ConnectOutcome<S>),
}

/// Whether a call leads from one moment of a run to the next. What takes an outcome does
/// so without an error. `settled` says whether nobody else acts on the transport.
pub open spec fn leads_to<L, S, E>(
    before: Moment<L, S>,
    after: Moment<L, S>,
    step: RunStep<L, S, E>,
    settled: bool,
) -> bool {
    match step {
        RunStep::Advance(r) => advanced(before, after, settled, r),
        RunStep::Accept(outcome) => {
            &&& before.pump.stage matches Stage::Polling(poll) && poll.turn() is Some
            &&& accept_taken(before, after, outcome, Ok(()))
        },
        RunStep::Bind(outcome) => {
            &&& before.pump.stage is Binding
            &&& bind_taken(before, after, outcome, Ok(()))
        },
        RunStep::Connect(outcome) => {
            &&& before.pump.stage is Connecting
            &&& connect_taken(before, after, outcome, Ok(()))
        },
    }
}

/// Whether the calls `steps` lead through the moments of a run, one after the other.
pub open spec fn is_run<L, S, E>(
    moments: Seq<Moment<L, S>>,
    steps: Seq<RunStep<L, S, E>>,
    settled: bool,
) -> bool {
    &&& moments.len() == steps.len() + 1
    &&& forall|i: int|
        0 <= i < steps.len() ==> leads_to(moments[i], moments[i + 1], #[trigger] steps[i], settled)
}

/// Whether no call in a run fails.
pub open spec fn no_call_fails<L, S, E>(steps: Seq<RunStep<L, S, E>>) -> bool {
    forall|i: int|
        0 <= i < steps.len() ==> (#[trigger] steps[i] matches RunStep::Advance(r) ==> r is Ok)
}

/// Whether no call in a run fails or asks the driver to wait.
pub open spec fn goes_through<L, S, E>(steps: Seq<RunStep<L, S, E>>) -> bool {
    forall|i: int|
        0 <= i < steps.len() ==> (#[trigger] steps[i] matches RunStep::Advance(r) ==> names_work(r))
}

/// Whether `advance` named an action other than to wait.
pub open spec fn names_work<E>(r: Result<Action, MonitorError<E>>) -> bool {
    r matches Ok(action) && action !is Yield
}

/// The requests that frames make.
pub open spec fn requests_of(frames: Seq<FrameContent>) -> Seq<ControlRequest> {
    Seq::new(frames.len(), |i: int| ControlRequest::of(frames[i])->Ok_0)
}

/// One reply of the monitor. `listener` is the listener on which the request waited; a
/// reply to a listen or connect request has none.
pub struct Answer {
    pub listener: Option<u32>,
    pub reply: ControlReply,
}

/// What the frames of answers say.
pub open spec fn answer_contents(answers: Seq<Answer>) -> Seq<FrameContent> {
    Seq::new(answers.len(), |i: int| answers[i].reply.content())
}

/// The listen and connect requests among `requests`, in order.
pub open spec fn socket_requests(requests: Seq<ControlRequest>) -> Seq<ControlRequest>
    decreases requests.len(),
{
    if requests.len() == 0 {
        Seq::empty()
    } else {
        let rest = socket_requests(requests.drop_first());
        if requests[0] is Accept {
            rest
        } else {
            seq![requests[0]] + rest
        }
    }
}

/// The replies to listen and connect requests among `answers`, in order.
pub open spec fn socket_replies(answers: Seq<Answer>) -> Seq<ControlReply>
    decreases answers.len(),
{
    if answers.len() == 0 {
        Seq::empty()
    } else {
        let rest = socket_replies(answers.drop_first());
        if answers[0].listener is Some {
            rest
        } else {
            seq![answers[0].reply] + rest
        }
    }
}

/// The ids of those of `requests` that ask to wait on a listener, in order.
pub open spec fn waits_asked(requests: Seq<ControlRequest>, lid: u32) -> Seq<u32>
    decreases requests.len(),
{
    if requests.len() == 0 {
        Seq::empty()
    } else {
        let rest = waits_asked(requests.drop_first(), lid);
        match requests[0] {
            ControlRequest::Accept { request_id, listener_id } if listener_id == lid => seq![
                request_id,
            ] + rest,
            _ => rest,
        }
    }
}

/// The ids of the waits on a listener that `answers` answer, in order.
pub open spec fn waits_answered(answers: Seq<Answer>, lid: u32) -> Seq<u32>
    decreases answers.len(),
{
    if answers.len() == 0 {
        Seq::empty()
    } else {
        let rest = waits_answered(answers.drop_first(), lid);
        if answers[0].listener == Some(lid) {
            seq![answers[0].reply.id()] + rest
        } else {
            rest
        }
    }
}

/// Whether `reply` is one that `request` can get.
pub open spec fn replies_to(reply: ControlReply, request: ControlRequest) -> bool {
    &&& reply.id() == request.id()
    &&& match request {
        ControlRequest::Listen { .. } => reply is ListenOk || reply is ListenErr,
        ControlRequest::Connect { .. } => reply is ConnectOk || reply is ConnectErr,
        ControlRequest::Accept { .. } => reply is AcceptOk || reply is AcceptErr,
    }
}

/// Whether an answer is of the kind that its listener, or the lack of one, asks for.
pub open spec fn fits_listener(answer: Answer) -> bool {
    match answer.listener {
        Some(lid) => match answer.reply {
            ControlReply::AcceptOk { ready, .. } => ready.listener_id == lid,
            ControlReply::AcceptErr { .. } => true,
            _ => false,
        },
        None => true,
    }
}

/// Whether a run from `start` to `end` that took `requests` and gave `answers` did right by
/// all of them:
/// - it wrote the answers, in their order, and nothing else;
/// - each listen and connect request got one reply, in the order of the requests;
/// - on each listener, those who waited at the start, followed by those who asked to wait,
///   are those who were answered, followed by those who wait at the end.
pub open spec fn accounts_for<L, S>(
    start: Moment<L, S>,
    end: Moment<L, S>,
    requests: Seq<ControlRequest>,
    answers: Seq<Answer>,
) -> bool {
    let asked = socket_requests(requests);
    let replies = socket_replies(answers);
    &&& end.link.outgoing == start.link.outgoing + wire(answer_contents(answers))
    &&& replies.len() == asked.len()
    &&& forall|i: int| 0 <= i < asked.len() ==> replies_to(#[trigger] replies[i], asked[i])
    &&& forall|lid: u32|
        start.state.waiting(lid) + waits_asked(requests, lid) == waits_answered(answers, lid)
            + #[trigger] end.state.waiting(lid)
    &&& forall|i: int| 0 <= i < answers.len() ==> fits_listener(#[trigger] answers[i])
}

/// The stage of a run that waits for the socket operation of a request.
pub open spec fn stage_of(request: ControlRequest) -> Stage {
    match request {
        ControlRequest::Listen { request_id, endpoint } => Stage::Binding { request_id, endpoint },
        ControlRequest::Connect { request_id, endpoint } => Stage::Connecting {
            request_id,
            endpoint,
        },
        ControlRequest::Accept { .. } => Stage::Finished,
    }
}

/// Whether nothing before a run can make `advance` fail: the transport does not hang up,
/// its frames are requests, what follows them decides nothing, and every wait is on a
/// listener that exists.
pub open spec fn harmless<L, S>(
    moment: Moment<L, S>,
    frames: Seq<FrameContent>,
    tail: Seq<u8>,
) -> bool {
    &&& !moment.link.hangs_up
    &&& !decided(tail)
    &&& forall|i: int|
        0 <= i < frames.len() ==> match ControlRequest::of(#[trigger] frames[i]) {
            Ok(ControlRequest::Accept { listener_id, .. }) => moment.state.listeners.contains_key(
                listener_id,
            ),
            Ok(_) => true,
            Err(_) => false,
        }
}

/// Whether every frame fits on the wire.
pub open spec fn sendable(frames: Seq<FrameContent>) -> bool {
    forall|i: int|
        0 <= i < frames.len() ==> (#[trigger] frames[i]).payload.len() <= MAX_FRAME_PAYLOAD
}

/// Whether a run stands where it has before it: the outcome of the operation for `due`, if
/// any, and then `frames` and `tail` on the stream.
spec fn stands_before<L, S>(
    moment: Moment<L, S>,
    due: Option<ControlRequest>,
    frames: Seq<FrameContent>,
    tail: Seq<u8>,
) -> bool {
    &&& sendable(frames)
    &&& moment.state.kept + moment.link.incoming == wire(frames) + tail
    &&& match due {
        Some(request) => {
            &&& request !is Accept
            &&& moment.pump.stage == stage_of(request)
            &&& moment.pump.served
        },
        None => moment.pump.stage is Polling,
    }
}

/// What a read in a run leads to, where the first frame on the stream is taken.
spec fn takes_first<L, S>(
    before: Moment<L, S>,
    after: Moment<L, S>,
    frames: Seq<FrameContent>,
    tail: Seq<u8>,
) -> bool {
    let request = ControlRequest::of(frames[0])->Ok_0;
    &&& frames.len() > 0
    &&& ControlRequest::of(frames[0]) is Ok
    &&& after.pump.goal == before.pump.goal
    &&& after.pump.served
    &&& after.link.outgoing == before.link.outgoing
    &&& after.link.hangs_up == before.link.hangs_up
    &&& after.state.listeners == before.state.listeners
    &&& match request {
        ControlRequest::Accept { request_id, listener_id } => {
            &&& stands_before(after, None, frames.drop_first(), tail)
            &&& after.state.waiting(listener_id) == before.state.waiting(listener_id).push(
                request_id,
            )
            &&& forall|lid: u32|
                lid != listener_id ==> #[trigger] after.state.waiting(lid)
                    == before.state.waiting(lid)
        },
        _ => {
            &&& stands_before(after, Some(request), frames.drop_first(), tail)
            &&& after.state.waits == before.state.waits
        },
    }
}

/// What a read in a run leads to, where no frame is taken.
spec fn takes_none<L, S>(
    before: Moment<L, S>,
    after: Moment<L, S>,
    frames: Seq<FrameContent>,
    tail: Seq<u8>,
    settled: bool,
) -> bool {
    &&& after.pump.goal == before.pump.goal
    &&& after.pump.served == before.pump.served
    &&& after.link.outgoing == before.link.outgoing
    &&& after.link.hangs_up == before.link.hangs_up
    &&& after.state.listeners == before.state.listeners
    &&& after.state.waits == before.state.waits
    &&& after.state.kept + after.link.incoming == wire(frames) + tail
    &&& !decided(after.state.kept)
    &&& settled ==> frames.len() == 0 && after.link.incoming.len() == 0
    &&& match before.pump.goal {
        Goal::Drain => after.pump.stage is Finished,
        Goal::ServeOne => after.pump.stage is Polling,
    }
}

/// Reading in a run takes the first frame, or finds no whole one.
proof fn read_step<L, S, E>(
    before: Moment<L, S>,
    after: Moment<L, S>,
    r: Result<Action, MonitorError<E>>,
    frames: Seq<FrameContent>,
    tail: Seq<u8>,
    settled: bool,
)
    requires
        stands_before(before, None, frames, tail),
        before.pump.reads(),
        frames.len() > 0 || next_frame(tail) !is Ok,
        advanced(before, after, settled, r),
        r is Ok || harmless(before, frames, tail),
    ensures
        r is Ok,
        before.pump.goal == Goal::Drain ==> names_work(r),
        takes_first(before, after, frames, tail) || takes_none(
            before,
            after,
            frames,
            tail,
            settled,
        ),
{
    let stream = before.state.kept + before.link.incoming;
    let (read, kept, mid) = choose|
        read: Result<Option<ControlFrame>, CodecError>,
        kept: Seq<u8>,
        mid: ChannelState,
    | #[trigger]
        read_then(before, after, settled, read, kept, mid, r);
    assert(try_read_effect(before.state.kept, kept, before.link, mid, settled, read));
    assert(stream.skip(0) =~= stream);
    if frames.len() > 0 {
        wire_is_read_in_order(frames, tail);
        assert forall|i: int| 0 <= i < frames.drop_first().len() implies (
        #[trigger] frames.drop_first()[i]).payload.len() <= MAX_FRAME_PAYLOAD by {
            assert(frames.drop_first()[i] == frames[i + 1]);
        }
    } else {
        assert(wire(frames) + tail =~= tail);
    }
    match read {
        Ok(Some(frame)) => {
            assert(frame@ == frames[0]);
            assert(ControlRequest::of(frames[0]) is Ok);
            assert(takes_first(before, after, frames, tail));
        },
        Ok(None) => {
            if settled {
                assert(kept =~= stream);
            }
            assert(takes_none(before, after, frames, tail, settled));
        },
        Err(_) => {},
    }
}

/// Taking the outcome of the operation that is due answers its request.
proof fn outcome_answers<L, S, E>(
    before: Moment<L, S>,
    after: Moment<L, S>,
    step: RunStep<L, S, E>,
    settled: bool,
    request: ControlRequest,
    frames: Seq<FrameContent>,
    tail: Seq<u8>,
) -> (reply: ControlReply)
    requires
        stands_before(before, Some(request), frames, tail),
        leads_to(before, after, step, settled),
        step !is Advance,
    ensures
        stands_before(after, None, frames, tail),
        same_run(before, after),
        after.state.waits == before.state.waits,
        replies_to(reply, request),
        after.link.outgoing == before.link.outgoing + reply_bytes(reply),
{
    let reply = match step {
        RunStep::Bind(outcome) => before.state.after_bind(request.id(), outcome).1->Ok_0,
        RunStep::Connect(outcome) => before.state.after_connect(request.id(), outcome).1,
        _ => arbitrary(),
    };
    let bytes = reply_bytes(reply);
    assert(bytes.take(bytes.len() as int) =~= bytes);
    reply
}

/// Whether a run goes on as the one it was: with its goal, with the listeners there were,
/// and with a transport that hangs up as it did.
spec fn same_run<L, S>(before: Moment<L, S>, after: Moment<L, S>) -> bool {
    &&& after.pump.goal == before.pump.goal
    &&& after.pump.served == before.pump.served
    &&& after.link.hangs_up == before.link.hangs_up
    &&& forall|lid: u32| #[trigger]
        before.state.listeners.contains_key(lid) ==> after.state.listeners.contains_key(lid)
}

/// Taking the outcome of an accept answers the request at the front of the line, or none.
proof fn turn_answers<L, S, E>(
    before: Moment<L, S>,
    after: Moment<L, S>,
    step: RunStep<L, S, E>,
    settled: bool,
    frames: Seq<FrameContent>,
    tail: Seq<u8>,
) -> (answer: Option<Answer>)
    requires
        stands_before(before, None, frames, tail),
        leads_to(before, after, step, settled),
        step !is Advance,
    ensures
        stands_before(after, None, frames, tail),
        same_run(before, after),
        match answer {
            Some(answer) => {
                &&& fits_listener(answer)
                &&& answer.listener matches Some(lid)
                &&& before.state.waiting(lid).len() > 0
                &&& answer.reply.id() == before.state.waiting(lid)[0]
                &&& after.state.waiting(lid) == before.state.waiting(lid).drop_first()
                &&& forall|other: u32|
                    other != lid ==> #[trigger] after.state.waiting(other)
                        == before.state.waiting(other)
                &&& after.link.outgoing == before.link.outgoing + reply_bytes(answer.reply)
            },
            None => {
                &&& after.state.waits == before.state.waits
                &&& after.link.outgoing == before.link.outgoing
            },
        },
{
    let lid = before.pump.stage->Polling_0.turn()->0;
    match before.state.after_accept(lid, step->Accept_0).1 {
        Some(reply) => {
            let bytes = reply_bytes(reply);
            assert(bytes.take(bytes.len() as int) =~= bytes);
            Some(Answer { listener: Some(lid), reply })
        },
        None => None,
    }
}

/// Where `advance` does not read, it changes nothing, or ends a run that has served.
proof fn advance_rests<L, S, E>(
    before: Moment<L, S>,
    after: Moment<L, S>,
    r: Result<Action, MonitorError<E>>,
    settled: bool,
    due: Option<ControlRequest>,
    frames: Seq<FrameContent>,
    tail: Seq<u8>,
)
    requires
        stands_before(before, due, frames, tail),
        !before.pump.reads(),
        advanced(before, after, settled, r),
    ensures
        names_work(r),
        after.state == before.state,
        after.link == before.link,
        after == before || {
            &&& after.pump.stage is Finished
            &&& due is None
            &&& before.pump.goal == Goal::ServeOne
            &&& before.pump.served
        },
{
}

/// What is left of a run after its first call is a run.
proof fn run_goes_on<L, S, E>(
    moments: Seq<Moment<L, S>>,
    steps: Seq<RunStep<L, S, E>>,
    settled: bool,
)
    requires
        is_run(moments, steps, settled),
        steps.len() > 0,
    ensures
        leads_to(moments[0], moments[1], steps[0], settled),
        is_run(moments.drop_first(), steps.drop_first(), settled),
        moments.drop_first()[0] == moments[1],
        moments.drop_first().last() == moments.last(),
        no_call_fails(steps) ==> no_call_fails(steps.drop_first()),
        no_call_fails(steps) ==> (steps[0] matches RunStep::Advance(r) ==> r is Ok),
        (steps[0] matches RunStep::Advance(r) ==> r is Ok) && no_call_fails(steps.drop_first())
            ==> no_call_fails(steps),
        (steps[0] matches RunStep::Advance(r) ==> names_work(r)) && goes_through(
            steps.drop_first(),
        ) ==> goes_through(steps),
{
    let later = moments.drop_first();
    let others = steps.drop_first();
    assert(leads_to(moments[0], moments[0int + 1], steps[0], settled));
    assert forall|i: int| 0 <= i < others.len() implies leads_to(
        later[i],
        later[i + 1],
        #[trigger] others[i],
        settled,
    ) by {
        assert(others[i] == steps[i + 1]);
        assert(leads_to(moments[i + 1], moments[i + 1 + 1], steps[i + 1], settled));
    }
    if no_call_fails(steps) {
        assert forall|i: int| 0 <= i < others.len() implies (
        #[trigger] others[i] matches RunStep::Advance(r) ==> r is Ok) by {
            assert(others[i] == steps[i + 1]);
        }
    }
    if (steps[0] matches RunStep::Advance(r) ==> r is Ok) && no_call_fails(others) {
        assert forall|i: int| 0 <= i < steps.len() implies (
        #[trigger] steps[i] matches RunStep::Advance(r) ==> r is Ok) by {
            if i > 0 {
                assert(steps[i] == others[i - 1]);
            }
        }
    }
    if (steps[0] matches RunStep::Advance(r) ==> names_work(r)) && goes_through(others) {
        assert forall|i: int| 0 <= i < steps.len() implies (
        #[trigger] steps[i] matches RunStep::Advance(r) ==> names_work(r)) by {
            if i > 0 {
                assert(steps[i] == others[i - 1]);
            }
        }
    }
}

/// A run that is over changes nothing more, does not fail and does not wait.
proof fn finished_stays<L, S, E>(
    moments: Seq<Moment<L, S>>,
    steps: Seq<RunStep<L, S, E>>,
    settled: bool,
)
    requires
        is_run(moments, steps, settled),
        moments[0].pump.stage is Finished,
    ensures
        moments.last().state == moments[0].state,
        moments.last().link == moments[0].link,
        no_call_fails(steps),
        goes_through(steps),
    decreases steps.len(),
{
    if steps.len() > 0 {
        run_goes_on(moments, steps, settled);
        finished_stays(moments.drop_first(), steps.drop_first(), settled);
    }
}

/// A call that takes no request and gives no answer adds nothing to the account.
proof fn account_stays<L, S>(
    start: Moment<L, S>,
    next: Moment<L, S>,
    end: Moment<L, S>,
    requests: Seq<ControlRequest>,
    answers: Seq<Answer>,
)
    requires
        next.state.waits == start.state.waits,
        next.link.outgoing == start.link.outgoing,
        accounts_for(next, end, requests, answers),
    ensures
        accounts_for(start, end, requests, answers),
{
    assert forall|lid: u32|
        start.state.waiting(lid) + waits_asked(requests, lid) == waits_answered(answers, lid)
            + #[trigger] end.state.waiting(lid) by {
        assert(start.state.waiting(lid) == next.state.waiting(lid));
    }
}

/// A run in which nothing happens has nothing to account for.
proof fn account_opens<L, S>(start: Moment<L, S>, end: Moment<L, S>)
    requires
        end.state.waits == start.state.waits,
        end.link.outgoing == start.link.outgoing,
    ensures
        accounts_for(start, end, Seq::empty(), Seq::empty()),
{
    let none = Seq::<Answer>::empty();
    assert(answer_contents(none).len() == 0);
    assert(start.link.outgoing + wire(answer_contents(none)) =~= start.link.outgoing);
    assert forall|lid: u32|
        start.state.waiting(lid) + waits_asked(Seq::empty(), lid) == waits_answered(none, lid)
            + #[trigger] end.state.waiting(lid) by {
        assert(start.state.waiting(lid) == end.state.waiting(lid));
        assert(start.state.waiting(lid) + Seq::<u32>::empty() =~= Seq::<u32>::empty()
            + start.state.waiting(lid));
    }
}

/// A wait that is queued goes to the end of its line.
proof fn account_of_wait<L, S>(
    start: Moment<L, S>,
    next: Moment<L, S>,
    end: Moment<L, S>,
    request: ControlRequest,
    requests: Seq<ControlRequest>,
    answers: Seq<Answer>,
)
    requires
        request is Accept,
        next.state.waiting(request->Accept_listener_id) == start.state.waiting(
            request->Accept_listener_id,
        ).push(request.id()),
        forall|lid: u32|
            lid != request->Accept_listener_id ==> #[trigger] next.state.waiting(lid)
                == start.state.waiting(lid),
        next.link.outgoing == start.link.outgoing,
        accounts_for(next, end, requests, answers),
    ensures
        accounts_for(start, end, seq![request] + requests, answers),
{
    let all = seq![request] + requests;
    assert(all.drop_first() =~= requests);
    assert forall|lid: u32|
        start.state.waiting(lid) + waits_asked(all, lid) == waits_answered(answers, lid)
            + #[trigger] end.state.waiting(lid) by {
        let rest = waits_asked(requests, lid);
        assert(next.state.waiting(lid) + rest == waits_answered(answers, lid) + end.state.waiting(
            lid,
        ));
        if lid == request->Accept_listener_id {
            assert(start.state.waiting(lid) + (seq![request.id()] + rest)
                =~= start.state.waiting(lid).push(request.id()) + rest);
        }
    }
}

/// A reply to a listen or connect request goes to the one whose turn it is.
proof fn account_of_reply<L, S>(
    start: Moment<L, S>,
    next: Moment<L, S>,
    end: Moment<L, S>,
    request: ControlRequest,
    reply: ControlReply,
    requests: Seq<ControlRequest>,
    answers: Seq<Answer>,
)
    requires
        request !is Accept,
        replies_to(reply, request),
        next.state.waits == start.state.waits,
        next.link.outgoing == start.link.outgoing + reply_bytes(reply),
        accounts_for(next, end, requests, answers),
    ensures
        accounts_for(
            start,
            end,
            seq![request] + requests,
            seq![Answer { listener: None, reply }] + answers,
        ),
{
    let answer = Answer { listener: None, reply };
    let all = seq![request] + requests;
    let given = seq![answer] + answers;
    outgoing_grows(start, next, end, answer, answers);
    assert(all.drop_first() =~= requests);
    assert(given.drop_first() =~= answers);
    let asked = socket_requests(all);
    let replies = socket_replies(given);
    assert forall|i: int| 0 <= i < asked.len() implies replies_to(
        #[trigger] replies[i],
        asked[i],
    ) by {
        if i > 0 {
            assert(replies[i] == socket_replies(answers)[i - 1]);
            assert(asked[i] == socket_requests(requests)[i - 1]);
        }
    }
    assert forall|lid: u32|
        start.state.waiting(lid) + waits_asked(all, lid) == waits_answered(given, lid)
            + #[trigger] end.state.waiting(lid) by {
        assert(start.state.waiting(lid) == next.state.waiting(lid));
    }
}

/// An answer to a wait goes to the front of its line.
proof fn account_of_answer<L, S>(
    start: Moment<L, S>,
    next: Moment<L, S>,
    end: Moment<L, S>,
    answer: Answer,
    requests: Seq<ControlRequest>,
    answers: Seq<Answer>,
)
    requires
        fits_listener(answer),
        answer.listener is Some,
        start.state.waiting(answer.listener->0).len() > 0,
        answer.reply.id() == start.state.waiting(answer.listener->0)[0],
        next.state.waiting(answer.listener->0) == start.state.waiting(
            answer.listener->0,
        ).drop_first(),
        forall|lid: u32|
            lid != answer.listener->0 ==> #[trigger] next.state.waiting(lid)
                == start.state.waiting(lid),
        next.link.outgoing == start.link.outgoing + reply_bytes(answer.reply),
        accounts_for(next, end, requests, answers),
    ensures
        accounts_for(start, end, requests, seq![answer] + answers),
{
    let given = seq![answer] + answers;
    outgoing_grows(start, next, end, answer, answers);
    assert(given.drop_first() =~= answers);
    assert forall|lid: u32|
        start.state.waiting(lid) + waits_asked(requests, lid) == waits_answered(given, lid)
            + #[trigger] end.state.waiting(lid) by {
        let rest = waits_answered(answers, lid);
        assert(next.state.waiting(lid) + waits_asked(requests, lid) == rest + end.state.waiting(
            lid,
        ));
        if lid == answer.listener->0 {
            let line = start.state.waiting(lid);
            assert(line =~= seq![line[0]] + line.drop_first());
            assert(seq![line[0]] + line.drop_first() + waits_asked(requests, lid)
                =~= seq![line[0]] + (line.drop_first() + waits_asked(requests, lid)));
            assert(seq![line[0]] + (rest + end.state.waiting(lid)) =~= seq![line[0]] + rest
                + end.state.waiting(lid));
        }
    }
}

/// An answer comes before those that follow it on the wire.
proof fn outgoing_grows<L, S>(
    start: Moment<L, S>,
    next: Moment<L, S>,
    end: Moment<L, S>,
    answer: Answer,
    answers: Seq<Answer>,
)
    requires
        next.link.outgoing == start.link.outgoing + reply_bytes(answer.reply),
        end.link.outgoing == next.link.outgoing + wire(answer_contents(answers)),
    ensures
        end.link.outgoing == start.link.outgoing + wire(answer_contents(seq![answer] + answers)),
{
    let given = seq![answer] + answers;
    assert(answer_contents(given).drop_first() =~= answer_contents(answers));
    assert(answer_contents(given)[0] == answer.reply.content());
    assert(start.link.outgoing + reply_bytes(answer.reply) + wire(answer_contents(answers))
        =~= start.link.outgoing + wire(answer_contents(given)));
}

/// The request whose operation is due, if there is one.
spec fn pending(due: Option<ControlRequest>) -> Seq<ControlRequest> {
    match due {
        Some(request) => seq![request],
        None => Seq::empty(),
    }
}

/// What a run from `start` to `end` did, if it took the first `n` of `frames`.
spec fn run_result<L, S, E>(
    start: Moment<L, S>,
    end: Moment<L, S>,
    steps: Seq<RunStep<L, S, E>>,
    settled: bool,
    due: Option<ControlRequest>,
    frames: Seq<FrameContent>,
    tail: Seq<u8>,
    n: nat,
    answers: Seq<Answer>,
) -> bool {
    &&& n <= frames.len()
    &&& forall|i: int| 0 <= i < n ==> ControlRequest::of(#[trigger] frames[i]) is Ok
    &&& accounts_for(start, end, pending(due) + requests_of(frames.take(n as int)), answers)
    &&& end.state.kept + end.link.incoming == wire(frames.skip(n as int)) + tail
    &&& no_call_fails(steps)
    &&& match start.pump.goal {
        Goal::Drain => {
            &&& !decided(end.state.kept)
            &&& goes_through(steps)
            &&& settled ==> n == frames.len() && end.link.incoming.len() == 0
        },
        Goal::ServeOne => n == if start.pump.served {
            0nat
        } else {
            1
        },
    }
}

/// What is harmless stays so while a run goes on.
proof fn stays_harmless<L, S>(
    before: Moment<L, S>,
    after: Moment<L, S>,
    frames: Seq<FrameContent>,
    rest: Seq<FrameContent>,
    tail: Seq<u8>,
)
    requires
        harmless(before, frames, tail),
        after.link.hangs_up == before.link.hangs_up,
        forall|lid: u32| #[trigger]
            before.state.listeners.contains_key(lid) ==> after.state.listeners.contains_key(lid),
        rest == frames || (frames.len() > 0 && rest == frames.drop_first()),
    ensures
        harmless(after, rest, tail),
{
    assert forall|i: int| 0 <= i < rest.len() implies match ControlRequest::of(
        #[trigger] rest[i],
    ) {
        Ok(ControlRequest::Accept { listener_id, .. }) => after.state.listeners.contains_key(
            listener_id,
        ),
        Ok(_) => true,
        Err(_) => false,
    } by {
        if rest == frames {
            assert(rest[i] == frames[i]);
        } else {
            assert(rest[i] == frames[i + 1]);
        }
    }
}

/// A call that leaves the run where it stood leaves what the rest of the run does.
proof fn result_of_rest<L, S, E>(
    moments: Seq<Moment<L, S>>,
    steps: Seq<RunStep<L, S, E>>,
    settled: bool,
    due: Option<ControlRequest>,
    frames: Seq<FrameContent>,
    tail: Seq<u8>,
    n: nat,
    answers: Seq<Answer>,
)
    requires
        is_run(moments, steps, settled),
        steps.len() > 0,
        run_result(
            moments[1],
            moments.last(),
            steps.drop_first(),
            settled,
            due,
            frames,
            tail,
            n,
            answers,
        ),
        moments[1].state.waits == moments[0].state.waits,
        moments[1].link.outgoing == moments[0].link.outgoing,
        moments[1].pump.goal == moments[0].pump.goal,
        moments[1].pump.served == moments[0].pump.served,
        steps[0] matches RunStep::Advance(r) ==> r is Ok,
        moments[0].pump.goal == Goal::Drain ==> (steps[0] matches RunStep::Advance(r)
            ==> names_work(r)),
    ensures
        run_result(moments[0], moments.last(), steps, settled, due, frames, tail, n, answers),
{
    run_goes_on(moments, steps, settled);
    account_stays(
        moments[0],
        moments[1],
        moments.last(),
        pending(due) + requests_of(frames.take(n as int)),
        answers,
    );
}

/// Taking the first frame adds its request to what the rest of the run takes.
proof fn result_with_first<L, S, E>(
    moments: Seq<Moment<L, S>>,
    steps: Seq<RunStep<L, S, E>>,
    settled: bool,
    frames: Seq<FrameContent>,
    tail: Seq<u8>,
    n: nat,
    answers: Seq<Answer>,
)
    requires
        is_run(moments, steps, settled),
        steps.len() > 0,
        takes_first(moments[0], moments[1], frames, tail),
        moments[0].pump.goal == Goal::ServeOne ==> !moments[0].pump.served,
        run_result(
            moments[1],
            moments.last(),
            steps.drop_first(),
            settled,
            due_after(frames[0]),
            frames.drop_first(),
            tail,
            n,
            answers,
        ),
        steps[0] matches RunStep::Advance(r) ==> r is Ok,
        moments[0].pump.goal == Goal::Drain ==> (steps[0] matches RunStep::Advance(r)
            ==> names_work(r)),
    ensures
        run_result(moments[0], moments.last(), steps, settled, None, frames, tail, n + 1, answers),
{
    run_goes_on(moments, steps, settled);
    let rest = frames.drop_first();
    let request = ControlRequest::of(frames[0])->Ok_0;
    let taken = requests_of(rest.take(n as int));
    let all = requests_of(frames.take((n + 1) as int));
    assert(all =~= seq![request] + taken);
    assert(pending(None) + all =~= all);
    assert(frames.skip((n + 1) as int) =~= rest.skip(n as int));
    assert forall|i: int| 0 <= i < n + 1 implies ControlRequest::of(#[trigger] frames[i]) is Ok by {
        if i > 0 {
            assert(frames[i] == rest[i - 1]);
        }
    }
    if request is Accept {
        assert(pending(None) + taken =~= taken);
        account_of_wait(moments[0], moments[1], moments.last(), request, taken, answers);
    } else {
        account_stays(moments[0], moments[1], moments.last(), seq![request] + taken, answers);
    }
}

/// The operation that is due after a frame was taken.
spec fn due_after(frame: FrameContent) -> Option<ControlRequest> {
    let request = ControlRequest::of(frame)->Ok_0;
    if request is Accept {
        None
    } else {
        Some(request)
    }
}

/// The rest of a run, from where it stands: how many frames it takes, and what it answers.
proof fn rest_of_run<L, S, E>(
    moments: Seq<Moment<L, S>>,
    steps: Seq<RunStep<L, S, E>>,
    settled: bool,
    due: Option<ControlRequest>,
    frames: Seq<FrameContent>,
    tail: Seq<u8>,
) -> (result: (nat, Seq<Answer>))
    requires
        is_run(moments, steps, settled),
        stands_before(moments[0], due, frames, tail),
        next_frame(tail) !is Ok || (moments[0].pump.goal == Goal::ServeOne && (
        moments[0].pump.served || frames.len() > 0)),
        moments.last().pump.stage is Finished,
        no_call_fails(steps) || harmless(moments[0], frames, tail),
    ensures
        run_result(
            moments[0],
            moments.last(),
            steps,
            settled,
            due,
            frames,
            tail,
            result.0,
            result.1,
        ),
    decreases steps.len(),
{
    assert(steps.len() > 0);
    let before = moments[0];
    let after = moments[1];
    let end = moments.last();
    let step = steps[0];
    let later = moments.drop_first();
    let others = steps.drop_first();
    run_goes_on(moments, steps, settled);
    if step is Advance {
        let r = step->Advance_0;
        if before.pump.reads() {
            read_step(before, after, r, frames, tail, settled);
            if takes_first(before, after, frames, tail) {
                let next = due_after(frames[0]);
                let rest = frames.drop_first();
                if harmless(before, frames, tail) {
                    stays_harmless(before, after, frames, rest, tail);
                }
                let (n, answers) = rest_of_run(later, others, settled, next, rest, tail);
                result_with_first(moments, steps, settled, frames, tail, n, answers);
                (n + 1, answers)
            } else if before.pump.goal == Goal::Drain {
                finished_stays(later, others, settled);
                account_opens(before, end);
                nothing_taken(frames);
                (0, Seq::empty())
            } else {
                if harmless(before, frames, tail) {
                    stays_harmless(before, after, frames, frames, tail);
                }
                let (n, answers) = rest_of_run(later, others, settled, due, frames, tail);
                result_of_rest(moments, steps, settled, due, frames, tail, n, answers);
                (n, answers)
            }
        } else {
            advance_rests(before, after, r, settled, due, frames, tail);
            if after == before {
                let (n, answers) = rest_of_run(later, others, settled, due, frames, tail);
                result_of_rest(moments, steps, settled, due, frames, tail, n, answers);
                (n, answers)
            } else {
                finished_stays(later, others, settled);
                account_opens(before, end);
                nothing_taken(frames);
                (0, Seq::empty())
            }
        }
    } else {
        match due {
            Some(request) => {
                let reply = outcome_answers(before, after, step, settled, request, frames, tail);
                if harmless(before, frames, tail) {
                    stays_harmless(before, after, frames, frames, tail);
                }
                let (n, answers) = rest_of_run(later, others, settled, None, frames, tail);
                let taken = requests_of(frames.take(n as int));
                assert(pending(None) + taken =~= taken);
                account_of_reply(before, after, end, request, reply, taken, answers);
                (n, seq![Answer { listener: None, reply }] + answers)
            },
            None => {
                let answer = turn_answers(before, after, step, settled, frames, tail);
                if harmless(before, frames, tail) {
                    stays_harmless(before, after, frames, frames, tail);
                }
                let (n, answers) = rest_of_run(later, others, settled, None, frames, tail);
                let taken = pending(None) + requests_of(frames.take(n as int));
                match answer {
                    Some(answer) => {
                        account_of_answer(before, after, end, answer, taken, answers);
                        (n, seq![answer] + answers)
                    },
                    None => {
                        account_stays(before, after, end, taken, answers);
                        (n, answers)
                    },
                }
            },
        }
    }
}

/// Taking no frame leaves all of them and makes no request.
proof fn nothing_taken(frames: Seq<FrameContent>)
    ensures
        pending(None) + requests_of(frames.take(0)) == Seq::<ControlRequest>::empty(),
        frames.skip(0) == frames,
{
    assert(pending(None) + requests_of(frames.take(0)) =~= Seq::<ControlRequest>::empty());
    assert(frames.skip(0) =~= frames);
}

/// A whole run of `pump_once` in which no call fails: it takes frames from the start of the
/// stream, each of them a request, and accounts for all of them and for those who waited
/// before. It never asks to wait, and ends when it holds no whole frame. Where nobody else
/// acts on the transport it takes every whole frame there is, and what follows them (one
/// that is cut short, or no byte) is kept, so that a later run has it before it together
/// with the bytes that come then.
pub proof fn pump_answers_every_request<L, S, E>(
    moments: Seq<Moment<L, S>>,
    steps: Seq<RunStep<L, S, E>>,
    settled: bool,
    frames: Seq<FrameContent>,
    tail: Seq<u8>,
) -> (result: (nat, Seq<Answer>))
    requires
        is_run(moments, steps, settled),
        no_call_fails(steps),
        moments[0].pump.goal == Goal::Drain,
        moments[0].pump.polls_anew(moments[0].state),
        sendable(frames),
        moments[0].state.kept + moments[0].link.incoming == wire(frames) + tail,
        next_frame(tail) !is Ok,
        moments.last().pump.stage is Finished,
    ensures
        ({
            let (n, answers) = result;
            let end = moments.last();
            &&& n <= frames.len()
            &&& forall|i: int| 0 <= i < n ==> ControlRequest::of(#[trigger] frames[i]) is Ok
            &&& accounts_for(moments[0], end, requests_of(frames.take(n as int)), answers)
            &&& end.state.kept + end.link.incoming == wire(frames.skip(n as int)) + tail
            &&& !decided(end.state.kept)
            &&& settled ==> {
                &&& n == frames.len()
                &&& end.state.kept == tail
                &&& end.link.incoming.len() == 0
            }
        }),
        goes_through(steps),
{
    let (n, answers) = rest_of_run(moments, steps, settled, None, frames, tail);
    let end = moments.last();
    let taken = requests_of(frames.take(n as int));
    assert(pending(None) + taken =~= taken);
    if settled {
        assert(frames.skip(n as int) =~= Seq::<FrameContent>::empty());
        assert(wire(frames.skip(n as int)) + tail =~= tail);
        assert(end.state.kept + end.link.incoming =~= end.state.kept);
    }
    (n, answers)
}

/// A run of `pump_once` fails only for a reason: where nothing before it can make
/// `advance` fail, no call does, and none asks to wait.
pub proof fn pump_does_not_fail<L, S, E>(
    moments: Seq<Moment<L, S>>,
    steps: Seq<RunStep<L, S, E>>,
    settled: bool,
    frames: Seq<FrameContent>,
    tail: Seq<u8>,
)
    requires
        is_run(moments, steps, settled),
        moments[0].pump.goal == Goal::Drain,
        moments[0].pump.polls_anew(moments[0].state),
        sendable(frames),
        moments[0].state.kept + moments[0].link.incoming == wire(frames) + tail,
        harmless(moments[0], frames, tail),
        moments.last().pump.stage is Finished,
    ensures
        no_call_fails(steps),
        goes_through(steps),
{
    let _ = rest_of_run(moments, steps, settled, None, frames, tail);
}

/// A whole run of `serve_one` in which no call fails takes exactly one request: the frame
/// that the stream starts with. It accounts for that request and for those who waited
/// before, and leaves the rest of the stream. This holds whoever else acts on the
/// transport and however often the run asks to wait.
pub proof fn serve_one_takes_one_request<L, S, E>(
    moments: Seq<Moment<L, S>>,
    steps: Seq<RunStep<L, S, E>>,
    settled: bool,
) -> (result: (ControlRequest, Seq<Answer>))
    requires
        is_run(moments, steps, settled),
        no_call_fails(steps),
        moments[0].pump.goal == Goal::ServeOne,
        !moments[0].pump.served,
        moments[0].pump.polls_anew(moments[0].state),
        moments.last().pump.stage is Finished,
    ensures
        ({
            let stream = moments[0].state.kept + moments[0].link.incoming;
            let end = moments.last();
            &&& next_frame(stream) matches Ok(frame)
            &&& ControlRequest::of(frame) == Ok::<ControlRequest, CodecError>(result.0)
            &&& end.state.kept + end.link.incoming == stream.skip(next_frame_len(stream) as int)
            &&& accounts_for(moments[0], end, seq![result.0], result.1)
        }),
{
    let stream = moments[0].state.kept + moments[0].link.incoming;
    let end = moments.last();
    match next_frame(stream) {
        Ok(frame) => {
            let frames = seq![frame];
            let tail = stream.skip(next_frame_len(stream) as int);
            frame_bytes_round_trip(stream);
            assert(frames.drop_first() =~= Seq::<FrameContent>::empty());
            assert(wire(frames.drop_first()) =~= Seq::<u8>::empty());
            assert(wire(frames) =~= frame_bytes(frame));
            assert(stream =~= wire(frames) + tail);
            let (n, answers) = rest_of_run(moments, steps, settled, None, frames, tail);
            assert(frames.skip(1) =~= Seq::<FrameContent>::empty());
            assert(wire(frames.skip(1)) + tail =~= tail);
            let request = ControlRequest::of(frame)->Ok_0;
            assert(ControlRequest::of(frames[0]) is Ok);
            assert(pending(None) + requests_of(frames.take(1)) =~= seq![request]);
            (request, answers)
        },
        Err(_) => {
            let frames = Seq::<FrameContent>::empty();
            assert(wire(frames) + stream =~= stream);
            let (n, answers) = rest_of_run(moments, steps, settled, None, frames, stream);
            (arbitrary(), answers)
        },
    }
}

} // verus!
