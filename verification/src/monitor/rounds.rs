//! What holds of a whole round over the listeners.

use vstd::prelude::*;

use crate::control::{wire, ControlReply, FrameContent};
use crate::monitor::pump::{turn_taken, Round};
use crate::monitor::state::{reply_bytes, AcceptOutcome, MonitorState};

verus! {

/// What the frames of replies say.
pub open spec fn reply_contents(replies: Seq<ControlReply>) -> Seq<FrameContent> {
    Seq::new(replies.len(), |i: int| replies[i].content())
}

/// Whether taking `outcomes`, one after the other and without an error, leads through
/// `rounds`.
pub open spec fn is_round<L, S>(
    rounds: Seq<Round<L, S>>,
    outcomes: Seq<AcceptOutcome<S>>,
) -> bool {
    &&& rounds.len() == outcomes.len() + 1
    &&& forall|i: int|
        0 <= i < outcomes.len() ==> turns_to(rounds[i], rounds[i + 1], #[trigger] outcomes[i])
}

/// Whether the listener whose turn it is takes `outcome`, without an error.
pub open spec fn turns_to<L, S>(
    before: Round<L, S>,
    after: Round<L, S>,
    outcome: AcceptOutcome<S>,
) -> bool {
    before.poll.turn() is Some && turn_taken(before, after, outcome, Ok(()))
}

/// What the listeners `lids`, with one outcome each, make of what the monitor knows, and
/// what is answered on the way.
pub open spec fn after_accepts<L, S>(
    state: MonitorState<L, S>,
    lids: Seq<u32>,
    outcomes: Seq<AcceptOutcome<S>>,
) -> (MonitorState<L, S>, Seq<ControlReply>)
    decreases outcomes.len(),
{
    if outcomes.len() == 0 {
        (state, Seq::empty())
    } else {
        let (next, reply) = state.after_accept(lids[0], outcomes[0]);
        let (end, rest) = after_accepts(next, lids.drop_first(), outcomes.drop_first());
        match reply {
            Some(reply) => (end, seq![reply] + rest),
            None => (end, rest),
        }
    }
}

/// How many of the outcomes are new connections.
pub open spec fn accepted_count<S>(outcomes: Seq<AcceptOutcome<S>>) -> nat
    decreases outcomes.len(),
{
    if outcomes.len() == 0 {
        0
    } else {
        accepted_count(outcomes.drop_first()) + if outcomes[0] is Accepted {
            1nat
        } else {
            0
        }
    }
}

/// One turn of a round: what it does to the listener whose turn it is, and to nothing
/// else.
proof fn one_turn<L, S>(before: Round<L, S>, after: Round<L, S>, outcome: AcceptOutcome<S>)
    requires
        before.poll.fits(before.state),
        before.poll.turn() is Some,
        turn_taken(before, after, outcome, Ok(())),
    ensures
        after.poll.fits(after.state),
        after.poll.lids == before.poll.lids,
        after.poll.next == before.poll.next + 1,
        after.state.waiting(before.poll.turn()->0) == if outcome is NotReady {
            before.state.waiting(before.poll.turn()->0)
        } else {
            before.state.waiting(before.poll.turn()->0).drop_first()
        },
        forall|lid: u32|
            lid != before.poll.turn()->0 ==> #[trigger] after.state.waiting(lid)
                == before.state.waiting(lid),
        after.link.outgoing == match before.state.after_accept(before.poll.turn()->0, outcome).1 {
            Some(reply) => before.link.outgoing + reply_bytes(reply),
            None => before.link.outgoing,
        },
        after.poll.written == before.poll.written + if outcome is Accepted {
            1int
        } else {
            0
        },
{
    let lid = before.poll.turn()->0;
    assert(lid == before.poll.lids@[before.poll.next as int]);
    if let Some(reply) = before.state.after_accept(lid, outcome).1 {
        let bytes = reply_bytes(reply);
        assert(bytes.take(bytes.len() as int) =~= bytes);
    }
    assert forall|i: int| after.poll.next <= i < after.poll.lids@.len() implies {
        &&& after.state.waiting(#[trigger] after.poll.lids@[i]).len() > 0
        &&& after.state.listeners.contains_key(after.poll.lids@[i])
    } by {
        assert(before.state.waiting(before.poll.lids@[i]).len() > 0);
        assert(before.poll.lids@[i] != lid);
    }
}

/// What is left of a round after its first turn is a round.
proof fn round_goes_on<L, S>(rounds: Seq<Round<L, S>>, outcomes: Seq<AcceptOutcome<S>>)
    requires
        is_round(rounds, outcomes),
        outcomes.len() > 0,
    ensures
        turns_to(rounds[0], rounds[1], outcomes[0]),
        is_round(rounds.drop_first(), outcomes.drop_first()),
        rounds.drop_first()[0] == rounds[1],
        rounds.drop_first().last() == rounds.last(),
{
    let later = rounds.drop_first();
    let others = outcomes.drop_first();
    assert(turns_to(rounds[0], rounds[0int + 1], outcomes[0]));
    assert forall|i: int| 0 <= i < others.len() implies turns_to(
        later[i],
        later[i + 1],
        #[trigger] others[i],
    ) by {
        assert(others[i] == outcomes[i + 1]);
        assert(turns_to(rounds[i + 1], rounds[i + 1 + 1], outcomes[i + 1]));
    }
}

/// What the rest of a round, from where it stands, leads to.
proof fn rest_of_round<L, S>(rounds: Seq<Round<L, S>>, outcomes: Seq<AcceptOutcome<S>>)
    requires
        is_round(rounds, outcomes),
        rounds[0].poll.fits(rounds[0].state),
        rounds.last().poll.turn() is None,
    ensures
        ({
            let start = rounds[0];
            let end = rounds.last();
            let lids = start.poll.lids@.skip(start.poll.next as int);
            let (state, replies) = after_accepts(start.state, lids, outcomes);
            &&& outcomes.len() == lids.len()
            &&& end.state == state
            &&& end.link.outgoing == start.link.outgoing + wire(reply_contents(replies))
            &&& end.poll.written == start.poll.written + accepted_count(outcomes)
        }),
    decreases outcomes.len(),
{
    let start = rounds[0];
    let lids = start.poll.lids@.skip(start.poll.next as int);
    if outcomes.len() == 0 {
        let none = Seq::<ControlReply>::empty();
        assert(reply_contents(none).len() == 0);
        assert(start.link.outgoing + wire(reply_contents(none)) =~= start.link.outgoing);
    } else {
        let next = rounds[1];
        let others = outcomes.drop_first();
        round_goes_on(rounds, outcomes);
        one_turn(start, next, outcomes[0]);
        let behind = lids.drop_first();
        assert(lids[0] == start.poll.turn()->0);
        assert(behind =~= next.poll.lids@.skip(next.poll.next as int));
        rest_of_round(rounds.drop_first(), others);
        let rest = after_accepts(next.state, behind, others).1;
        if let Some(reply) = start.state.after_accept(lids[0], outcomes[0]).1 {
            let replies = seq![reply] + rest;
            assert(reply_contents(replies).drop_first() =~= reply_contents(rest));
            assert(start.link.outgoing + reply_bytes(reply) + wire(reply_contents(rest))
                =~= start.link.outgoing + wire(reply_contents(replies)));
        }
    }
}

/// Who waits after the rest of a round.
proof fn waits_after_rest<L, S>(
    rounds: Seq<Round<L, S>>,
    outcomes: Seq<AcceptOutcome<S>>,
    lid: u32,
)
    requires
        is_round(rounds, outcomes),
        rounds[0].poll.fits(rounds[0].state),
    ensures
        ({
            let start = rounds[0];
            let next = start.poll.next as int;
            let lids = start.poll.lids@;
            let end = rounds.last();
            &&& next + outcomes.len() <= lids.len()
            &&& forall|i: int|
                next <= i < next + outcomes.len() && #[trigger] lids[i] == lid
                    ==> end.state.waiting(lid) == if outcomes[i - next] is NotReady {
                    start.state.waiting(lid)
                } else {
                    start.state.waiting(lid).drop_first()
                }
            &&& (forall|i: int| next <= i < next + outcomes.len() ==> #[trigger] lids[i] != lid)
                ==> end.state.waiting(lid) == start.state.waiting(lid)
        }),
    decreases outcomes.len(),
{
    if outcomes.len() > 0 {
        let start = rounds[0];
        let next = start.poll.next as int;
        let lids = start.poll.lids@;
        let others = outcomes.drop_first();
        round_goes_on(rounds, outcomes);
        one_turn(start, rounds[1], outcomes[0]);
        waits_after_rest(rounds.drop_first(), others, lid);
        assert(lids[next] == start.poll.turn()->0);
        assert forall|i: int|
            next <= i < next + outcomes.len() && #[trigger] lids[i] == lid implies
            rounds.last().state.waiting(lid) == if outcomes[i - next] is NotReady {
            start.state.waiting(lid)
        } else {
            start.state.waiting(lid).drop_first()
        } by {
            if i > next {
                assert(outcomes[i - next] == others[i - next - 1]);
                assert(lids[next] != lid);
            }
        }
    }
}

/// A whole round, from `poll_accepts` on and carried to its end without an error: every
/// listener on which a request waited had its turn exactly once, with one outcome; the
/// replies went out in that order and nothing else did; and `written` counts the new
/// connections. On each listener the request that had waited longest was answered, unless
/// nobody was connecting, and all others wait on.
pub proof fn round_serves_every_listener<L, S>(
    rounds: Seq<Round<L, S>>,
    outcomes: Seq<AcceptOutcome<S>>,
)
    requires
        is_round(rounds, outcomes),
        rounds[0].poll.starts(rounds[0].state),
        rounds.last().poll.turn() is None,
    ensures
        ({
            let start = rounds[0];
            let end = rounds.last();
            let lids = start.poll.lids@;
            let (state, replies) = after_accepts(start.state, lids, outcomes);
            &&& lids.no_duplicates()
            &&& forall|lid: u32|
                lids.contains(lid) <==> #[trigger] start.state.waiting(lid).len() > 0
            &&& outcomes.len() == lids.len()
            &&& forall|i: int|
                0 <= i < outcomes.len() ==> (#[trigger] rounds[i]).poll.turn() == Some(lids[i])
            &&& end.state == state
            &&& end.link.outgoing == start.link.outgoing + wire(reply_contents(replies))
            &&& end.poll.written == accepted_count(outcomes)
            &&& forall|i: int|
                0 <= i < lids.len() ==> end.state.waiting(#[trigger] lids[i])
                    == if outcomes[i] is NotReady {
                    start.state.waiting(lids[i])
                } else {
                    start.state.waiting(lids[i]).drop_first()
                }
            &&& forall|lid: u32|
                !lids.contains(lid) ==> #[trigger] end.state.waiting(lid) == start.state.waiting(
                    lid,
                )
        }),
{
    let start = rounds[0];
    let end = rounds.last();
    let lids = start.poll.lids@;
    assert(lids.skip(0) =~= lids);
    rest_of_round(rounds, outcomes);
    assert forall|i: int| 0 <= i < outcomes.len() implies (
    #[trigger] rounds[i]).poll.turn() == Some(lids[i]) by {
        earlier_turns_leave_others(rounds, outcomes, i);
    }
    assert forall|i: int| 0 <= i < lids.len() implies end.state.waiting(#[trigger] lids[i])
        == if outcomes[i] is NotReady {
        start.state.waiting(lids[i])
    } else {
        start.state.waiting(lids[i]).drop_first()
    } by {
        waits_after_rest(rounds, outcomes, lids[i]);
    }
    assert forall|lid: u32| !lids.contains(lid) implies #[trigger] end.state.waiting(lid)
        == start.state.waiting(lid) by {
        waits_after_rest(rounds, outcomes, lid);
    }
}

/// In a round, each reply answers the request that waited longest on its listener when
/// the round began, and an announcement names that listener.
pub proof fn round_answers_who_waited_longest<L, S>(
    rounds: Seq<Round<L, S>>,
    outcomes: Seq<AcceptOutcome<S>>,
    i: int,
)
    requires
        is_round(rounds, outcomes),
        rounds[0].poll.starts(rounds[0].state),
        rounds.last().poll.turn() is None,
        0 <= i < outcomes.len(),
    ensures
        ({
            let lid = rounds[0].poll.lids@[i];
            match rounds[i].state.after_accept(lid, outcomes[i]).1 {
                Some(ControlReply::AcceptOk { request_id, ready }) => {
                    &&& outcomes[i] is Accepted
                    &&& request_id == rounds[0].state.waiting(lid)[0]
                    &&& ready.listener_id == lid
                },
                Some(ControlReply::AcceptErr { request_id, code }) => {
                    &&& outcomes[i] == AcceptOutcome::<S>::Failed(code)
                    &&& request_id == rounds[0].state.waiting(lid)[0]
                },
                Some(_) => false,
                None => outcomes[i] is NotReady,
            }
        }),
{
    earlier_turns_leave_others(rounds, outcomes, i);
}

/// Before its turn, nothing happens on a listener.
proof fn earlier_turns_leave_others<L, S>(
    rounds: Seq<Round<L, S>>,
    outcomes: Seq<AcceptOutcome<S>>,
    i: int,
)
    requires
        is_round(rounds, outcomes),
        rounds[0].poll.starts(rounds[0].state),
        0 <= i < outcomes.len(),
    ensures
        rounds[i].poll.lids == rounds[0].poll.lids,
        rounds[i].poll.next == i,
        forall|j: int|
            i <= j < rounds[0].poll.lids@.len() ==> rounds[i].state.waiting(
                #[trigger] rounds[0].poll.lids@[j],
            ) == rounds[0].state.waiting(rounds[0].poll.lids@[j]),
    decreases i,
{
    if i > 0 {
        earlier_turns_leave_others(rounds, outcomes, i - 1);
        assert(turns_to(rounds[i - 1], rounds[i - 1 + 1], outcomes[i - 1]));
    }
}

} // verus!
