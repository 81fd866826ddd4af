//! How the monitor numbers its sockets over everything that happens to it.

use vstd::prelude::*;

use crate::control::{
    id_counts, id_later, ids_are_distinct, ConnectionReady, ControlReply, FrameContent,
};
use crate::monitor::state::{AcceptOutcome, BindOutcome, ConnectOutcome, MonitorState};

verus! {

/// Something that happens to the monitor.
pub enum Event<L, S, E> {
    /// A bind for a request ended.
    Bind { request_id: u32, bind: BindOutcome<L, E> },
    /// A connect for a request ended.
    Connect { request_id: u32, connect: ConnectOutcome<S> },
    /// An accept on a listener ended.
    Accept { listener_id: u32, accept: AcceptOutcome<S> },
    /// A request frame was taken.
    Frame(FrameContent),
}

/// What the monitor knows after an event, and what it answers.
pub open spec fn after_event<L, S, E>(state: MonitorState<L, S>, event: Event<L, S, E>) -> (
    MonitorState<L, S>,
    Option<ControlReply>,
) {
    match event {
        Event::Bind { request_id, bind } => {
            let (after, reply) = state.after_bind(request_id, bind);
            (after, if reply is Ok { Some(reply->Ok_0) } else { None })
        },
        Event::Connect { request_id, connect } => {
            let (after, reply) = state.after_connect(request_id, connect);
            (after, Some(reply))
        },
        Event::Accept { listener_id, accept } => state.after_accept(listener_id, accept),
        Event::Frame(frame) => (state.after_frame::<E>(frame).0, state.refusal(frame)),
    }
}

/// What the monitor knows after all of `events`.
pub open spec fn after_events<L, S, E>(
    state: MonitorState<L, S>,
    events: Seq<Event<L, S, E>>,
) -> MonitorState<L, S>
    decreases events.len(),
{
    if events.len() == 0 {
        state
    } else {
        after_event(after_events(state, events.drop_last()), events.last()).0
    }
}

/// The listening socket that an event brought, with the id that the reply named.
pub open spec fn listener_brought<L, S, E>(
    event: Event<L, S, E>,
    reply: Option<ControlReply>,
) -> Option<(u32, L)> {
    match (event, reply) {
        (
            Event::Bind { bind: BindOutcome::Bound(listener), .. },
            Some(ControlReply::ListenOk { listener_id, .. }),
        ) => Some((listener_id, listener)),
        _ => None,
    }
}

/// The connected socket that an event brought, with what the reply announced.
pub open spec fn connection_brought<L, S, E>(
    event: Event<L, S, E>,
    reply: Option<ControlReply>,
) -> Option<(ConnectionReady, S)> {
    match (event, reply) {
        (
            Event::Connect { connect: ConnectOutcome::Connected(stream), .. },
            Some(ControlReply::ConnectOk { ready, .. }),
        ) => Some((ready, stream)),
        (
            Event::Accept { accept: AcceptOutcome::Accepted(stream), .. },
            Some(ControlReply::AcceptOk { ready, .. }),
        ) => Some((ready, stream)),
        _ => None,
    }
}

/// The listening sockets that `events` brought, with the ids that the replies named, in
/// order.
pub open spec fn listeners_of<L, S, E>(
    state: MonitorState<L, S>,
    events: Seq<Event<L, S, E>>,
) -> Seq<(u32, L)>
    decreases events.len(),
{
    if events.len() == 0 {
        Seq::empty()
    } else {
        let earlier = listeners_of(state, events.drop_last());
        let reply = after_event(after_events(state, events.drop_last()), events.last()).1;
        match listener_brought(events.last(), reply) {
            Some(new) => earlier.push(new),
            None => earlier,
        }
    }
}

/// The connected sockets that `events` brought, with what the replies announced, in order.
pub open spec fn connections_of<L, S, E>(
    state: MonitorState<L, S>,
    events: Seq<Event<L, S, E>>,
) -> Seq<(ConnectionReady, S)>
    decreases events.len(),
{
    if events.len() == 0 {
        Seq::empty()
    } else {
        let earlier = connections_of(state, events.drop_last());
        let reply = after_event(after_events(state, events.drop_last()), events.last()).1;
        match connection_brought(events.last(), reply) {
            Some(new) => earlier.push(new),
            None => earlier,
        }
    }
}

/// What one event does to the numbering. A new listener is kept under the id that its
/// reply names, which is the next one, and so is a new connection; the counter goes on by
/// one. Nothing else changes a socket or a counter, and every outcome that hands over a
/// socket brings it, but for an accept on a listener where nobody waits.
pub proof fn an_event_numbers_its_socket<L, S, E>(
    state: MonitorState<L, S>,
    event: Event<L, S, E>,
)
    ensures
        ({
            let (after, reply) = after_event(state, event);
            &&& after.ring_size == state.ring_size
            &&& match listener_brought(event, reply) {
                Some((id, listener)) => {
                    &&& id == state.next_listener_id
                    &&& after.listeners == state.listeners.insert(id, listener)
                    &&& after.next_listener_id == if id == 0xffff_ffff {
                        1int
                    } else {
                        id + 1
                    }
                },
                None => {
                    &&& after.listeners == state.listeners
                    &&& after.next_listener_id == state.next_listener_id
                },
            }
            &&& match connection_brought(event, reply) {
                Some((ready, stream)) => {
                    &&& ready.connection_id == state.next_connection_id
                    &&& ready.pipe.pipe_id == state.next_connection_id
                    &&& ready.pipe.ring_size == state.ring_size
                    &&& ready.listener_id == match event {
                        Event::Accept { listener_id, .. } => listener_id,
                        _ => 0,
                    }
                    &&& after.connections == state.connections.insert(ready.connection_id, stream)
                    &&& after.next_connection_id == if ready.connection_id == 0xffff_ffff {
                        1int
                    } else {
                        ready.connection_id + 1
                    }
                },
                None => {
                    &&& after.connections == state.connections
                    &&& after.next_connection_id == state.next_connection_id
                },
            }
            &&& match event {
                Event::Bind { bind, .. } => {
                    &&& bind is Bound <==> listener_brought(event, reply) is Some
                    &&& after.waits == state.waits
                },
                Event::Connect { connect, .. } => {
                    &&& connect is Connected <==> connection_brought(event, reply) is Some
                    &&& after.waits == state.waits
                },
                Event::Accept { accept, listener_id } => {
                    accept is Accepted && state.waiting(listener_id).len() > 0
                        <==> connection_brought(event, reply) is Some
                },
                Event::Frame(_) => {
                    &&& listener_brought(event, reply) is None
                    &&& connection_brought(event, reply) is None
                },
            }
        }),
{
}

/// Listeners are numbered in the order in which they come, one after the other, whatever
/// happens between. The n-th new one gets the id that is n later than the first, the reply
/// names it, and the socket is kept under it, as long as the ids have not gone round. A
/// listener that was kept before stays unless its id is handed out again, and no other id
/// has a listener.
pub proof fn listeners_are_numbered_in_order<L, S, E>(
    state: MonitorState<L, S>,
    events: Seq<Event<L, S, E>>,
)
    requires
        state.next_listener_id != 0,
    ensures
        ({
            let first = state.next_listener_id;
            let end = after_events(state, events);
            let new = listeners_of(state, events);
            &&& end.next_listener_id == id_later(first, new.len())
            &&& forall|i: int| 0 <= i < new.len() ==> (#[trigger] new[i]).0 == id_later(
                first,
                i as nat,
            )
            &&& new.len() <= 0xffff_ffff ==> {
                &&& forall|i: int|
                    0 <= i < new.len() ==> end.listeners.contains_pair(
                        (#[trigger] new[i]).0,
                        new[i].1,
                    )
                &&& forall|i: int, j: int|
                    0 <= i < j < new.len() ==> (#[trigger] new[i]).0 != (#[trigger] new[j]).0
            }
            &&& forall|id: u32| #[trigger]
                end.listeners.contains_key(id) <==> state.listeners.contains_key(id) || exists|
                    i: int,
                |
                    0 <= i < new.len() && (#[trigger] new[i]).0 == id
            &&& forall|id: u32| #[trigger]
                state.listeners.contains_key(id) && (forall|i: int|
                    0 <= i < new.len() ==> (#[trigger] new[i]).0 != id)
                    ==> end.listeners.contains_pair(id, state.listeners[id])
        }),
    decreases events.len(),
{
    if events.len() > 0 {
        let before = after_events(state, events.drop_last());
        let earlier = listeners_of(state, events.drop_last());
        let new = listeners_of(state, events);
        let end = after_events(state, events);
        let first = state.next_listener_id;
        let reply = after_event(before, events.last()).1;
        listeners_are_numbered_in_order(state, events.drop_last());
        an_event_numbers_its_socket(before, events.last());
        if let Some((id, listener)) = listener_brought(events.last(), reply) {
            assert(new == earlier.push((id, listener)));
            assert(new.last().0 == id);
            assert(forall|i: int| 0 <= i < earlier.len() ==> new[i] == earlier[i]);
            assert forall|i: int, j: int|
                0 <= i < j < new.len() && new.len() <= 0xffff_ffff implies (#[trigger] new[i]).0
                != (#[trigger] new[j]).0 by {
                ids_are_distinct(first, i as nat, j as nat);
            }
            assert forall|k: u32| #[trigger]
                end.listeners.contains_key(k) <==> state.listeners.contains_key(k) || exists|
                    i: int,
                |
                    0 <= i < new.len() && (#[trigger] new[i]).0 == k by {
                if k == id {
                    assert(new[new.len() - 1].0 == k);
                } else {
                    assert(before.listeners.contains_key(k) == end.listeners.contains_key(k));
                    if exists|i: int| 0 <= i < earlier.len() && (#[trigger] earlier[i]).0 == k {
                        let i = choose|i: int| 0 <= i < earlier.len() && earlier[i].0 == k;
                        assert(new[i].0 == k);
                    }
                    if exists|i: int| 0 <= i < new.len() && (#[trigger] new[i]).0 == k {
                        let i = choose|i: int| 0 <= i < new.len() && new[i].0 == k;
                        assert(earlier[i].0 == k);
                    }
                }
            }
            assert forall|k: u32| #[trigger]
                state.listeners.contains_key(k) && (forall|i: int|
                    0 <= i < new.len() ==> (#[trigger] new[i]).0
                        != k) implies end.listeners.contains_pair(k, state.listeners[k]) by {
                assert(new[new.len() - 1].0 != k);
                assert forall|i: int| 0 <= i < earlier.len() implies (#[trigger] earlier[i]).0
                    != k by {
                    assert(new[i].0 != k);
                }
                assert(before.listeners.contains_pair(k, state.listeners[k]));
            }
        }
    }
}

/// Connections, outbound and inbound alike, are numbered in the order in which they come,
/// one after the other, whatever happens between. The n-th new one gets the id that is n
/// later than the first; it is announced under that id, which names its pipe too, with the
/// monitor's ring size; and the socket is kept under it, as long as the ids have not gone
/// round. A connection that was kept before stays unless its id is handed out again, and no
/// other id has a connection.
pub proof fn connections_are_numbered_in_order<L, S, E>(
    state: MonitorState<L, S>,
    events: Seq<Event<L, S, E>>,
)
    requires
        state.next_connection_id != 0,
    ensures
        ({
            let first = state.next_connection_id;
            let end = after_events(state, events);
            let new = connections_of(state, events);
            &&& end.ring_size == state.ring_size
            &&& end.next_connection_id == id_later(first, new.len())
            &&& forall|i: int|
                0 <= i < new.len() ==> {
                    let ready = (#[trigger] new[i]).0;
                    &&& ready.connection_id == id_later(first, i as nat)
                    &&& ready.pipe.pipe_id == ready.connection_id
                    &&& ready.pipe.ring_size == state.ring_size
                }
            &&& new.len() <= 0xffff_ffff ==> {
                &&& forall|i: int|
                    0 <= i < new.len() ==> end.connections.contains_pair(
                        (#[trigger] new[i]).0.connection_id,
                        new[i].1,
                    )
                &&& forall|i: int, j: int|
                    0 <= i < j < new.len() ==> (#[trigger] new[i]).0.connection_id != (
                    #[trigger] new[j]).0.connection_id
            }
            &&& forall|id: u32| #[trigger]
                end.connections.contains_key(id) <==> state.connections.contains_key(id) || exists|
                    i: int,
                |
                    0 <= i < new.len() && (#[trigger] new[i]).0.connection_id == id
            &&& forall|id: u32| #[trigger]
                state.connections.contains_key(id) && (forall|i: int|
                    0 <= i < new.len() ==> (#[trigger] new[i]).0.connection_id != id)
                    ==> end.connections.contains_pair(id, state.connections[id])
        }),
    decreases events.len(),
{
    if events.len() > 0 {
        let before = after_events(state, events.drop_last());
        let earlier = connections_of(state, events.drop_last());
        let new = connections_of(state, events);
        let end = after_events(state, events);
        let first = state.next_connection_id;
        let reply = after_event(before, events.last()).1;
        connections_are_numbered_in_order(state, events.drop_last());
        an_event_numbers_its_socket(before, events.last());
        if let Some((ready, stream)) = connection_brought(events.last(), reply) {
            let id = ready.connection_id;
            assert(new == earlier.push((ready, stream)));
            assert(new.last().0.connection_id == id);
            assert(forall|i: int| 0 <= i < earlier.len() ==> new[i] == earlier[i]);
            assert forall|i: int, j: int|
                0 <= i < j < new.len() && new.len() <= 0xffff_ffff implies (
            #[trigger] new[i]).0.connection_id != (#[trigger] new[j]).0.connection_id by {
                ids_are_distinct(first, i as nat, j as nat);
            }
            assert forall|k: u32| #[trigger]
                end.connections.contains_key(k) <==> state.connections.contains_key(k) || exists|
                    i: int,
                |
                    0 <= i < new.len() && (#[trigger] new[i]).0.connection_id == k by {
                if k == id {
                    assert(new[new.len() - 1].0.connection_id == k);
                } else {
                    assert(before.connections.contains_key(k) == end.connections.contains_key(k));
                    if exists|i: int|
                        0 <= i < earlier.len() && (#[trigger] earlier[i]).0.connection_id == k {
                        let i = choose|i: int|
                            0 <= i < earlier.len() && earlier[i].0.connection_id == k;
                        assert(new[i].0.connection_id == k);
                    }
                    if exists|i: int|
                        0 <= i < new.len() && (#[trigger] new[i]).0.connection_id == k {
                        let i = choose|i: int| 0 <= i < new.len() && new[i].0.connection_id == k;
                        assert(earlier[i].0.connection_id == k);
                    }
                }
            }
            assert forall|k: u32| #[trigger]
                state.connections.contains_key(k) && (forall|i: int|
                    0 <= i < new.len() ==> (#[trigger] new[i]).0.connection_id
                        != k) implies end.connections.contains_pair(k, state.connections[k]) by {
                assert(new[new.len() - 1].0.connection_id != k);
                assert forall|i: int| 0 <= i < earlier.len() implies (
                #[trigger] earlier[i]).0.connection_id != k by {
                    assert(new[i].0.connection_id != k);
                }
                assert(before.connections.contains_pair(k, state.connections[k]));
            }
        }
    }
}

/// A monitor that was made with no sockets counts both kinds from 1, whatever happens: the
/// n-th listener has id n and the n-th connection has id n, each is kept under its number,
/// and there are no others. The id that comes next belongs to no live socket.
pub proof fn a_new_monitor_counts_from_one<L, S, E>(
    state: MonitorState<L, S>,
    events: Seq<Event<L, S, E>>,
)
    requires
        state.next_listener_id == 1,
        state.next_connection_id == 1,
        state.listeners == Map::<u32, L>::empty(),
        state.connections == Map::<u32, S>::empty(),
        events.len() < 0xffff_ffff,
    ensures
        ({
            let end = after_events(state, events);
            let listeners = listeners_of(state, events);
            let connections = connections_of(state, events);
            &&& end.next_listener_id == listeners.len() + 1
            &&& end.next_connection_id == connections.len() + 1
            &&& forall|i: int|
                0 <= i < listeners.len() ==> {
                    &&& (#[trigger] listeners[i]).0 == i + 1
                    &&& end.listeners.contains_pair((i + 1) as u32, listeners[i].1)
                }
            &&& forall|i: int|
                0 <= i < connections.len() ==> {
                    &&& (#[trigger] connections[i]).0.connection_id == i + 1
                    &&& connections[i].0.pipe.pipe_id == i + 1
                    &&& end.connections.contains_pair((i + 1) as u32, connections[i].1)
                }
            &&& forall|id: u32| #[trigger]
                end.listeners.contains_key(id) <==> 1 <= id <= listeners.len()
            &&& forall|id: u32| #[trigger]
                end.connections.contains_key(id) <==> 1 <= id <= connections.len()
            &&& !end.listeners.contains_key(end.next_listener_id)
            &&& !end.connections.contains_key(end.next_connection_id)
        }),
{
    let end = after_events(state, events);
    let listeners = listeners_of(state, events);
    let connections = connections_of(state, events);
    listeners_are_numbered_in_order(state, events);
    connections_are_numbered_in_order(state, events);
    no_more_sockets_than_events(state, events);
    early_ids(listeners.len());
    early_ids(connections.len());
    assert forall|i: int| 0 <= i < listeners.len() implies {
        &&& (#[trigger] listeners[i]).0 == i + 1
        &&& end.listeners.contains_pair((i + 1) as u32, listeners[i].1)
    } by {
        early_ids(i as nat);
    }
    assert forall|i: int| 0 <= i < connections.len() implies {
        &&& (#[trigger] connections[i]).0.connection_id == i + 1
        &&& connections[i].0.pipe.pipe_id == i + 1
        &&& end.connections.contains_pair((i + 1) as u32, connections[i].1)
    } by {
        early_ids(i as nat);
    }
    assert forall|id: u32| #[trigger] end.listeners.contains_key(id) <==> 1 <= id
        <= listeners.len() by {
        if 1 <= id <= listeners.len() {
            assert(listeners[id - 1].0 == id);
        }
    }
    assert forall|id: u32| #[trigger] end.connections.contains_key(id) <==> 1 <= id
        <= connections.len() by {
        if 1 <= id <= connections.len() {
            assert(connections[id - 1].0.connection_id == id);
        }
    }
}

/// The ids behind 1 are the numbers behind 1.
proof fn early_ids(n: nat)
    requires
        n < 0xffff_ffff,
    ensures
        id_later(1, n) == n + 1,
{
    id_counts(1, n);
    vstd::arithmetic::div_mod::lemma_small_mod(n, 0xffff_ffff);
}

/// Each event brings one socket at most.
proof fn no_more_sockets_than_events<L, S, E>(
    state: MonitorState<L, S>,
    events: Seq<Event<L, S, E>>,
)
    ensures
        listeners_of(state, events).len() <= events.len(),
        connections_of(state, events).len() <= events.len(),
    decreases events.len(),
{
    if events.len() > 0 {
        no_more_sockets_than_events(state, events.drop_last());
    }
}

} // verus!
