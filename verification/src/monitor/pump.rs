//! Runs of the monitor: which socket operation comes next, and what its outcome
//! leads to.
//!
//! - [`Monitor::poll_accepts`] tries each listener on which a request waits.
//! - [`Monitor::pump_once`] polls, then takes every request that is there.
//! - [`Monitor::serve_one`] polls and waits until it has taken one request.
//!
//! A driver asks [`Monitor::advance`] for the next [`Action`], carries it out, and
//! reports the outcome, until the run is done.

use vstd::prelude::*;

use crate::control::{
    decided, next_frame, try_read_effect, CodecError, ControlFrame, ControlReply, ControlRequest,
    Endpoint,
};
use crate::monitor::state::{
    reply_bytes, send_reply, AcceptOutcome, BindOutcome, ConnectOutcome, Handled, Monitor,
    MonitorError, MonitorState, SocketTask,
};
use crate::pipe::{after_writing, can_send, continues, has_room, ChannelState, Read, Write};

verus! {

/// One round over the listeners on which a request waits.
#[derive(Debug)]
pub struct AcceptPoll {
    /// The listeners of the round.
    pub lids: Vec<u32>,
    /// How many of them had their turn.
    pub next: usize,
    /// How many connections were announced.
    pub written: usize,
}

impl AcceptPoll {
    /// Whether the round fits what the monitor knows: on every listener that is
    /// still to come a request waits.
    pub open spec fn fits<L, S>(&self, state: MonitorState<L, S>) -> bool {
        &&& self.next <= self.lids@.len()
        &&& self.written <= self.next
        &&& self.lids@.no_duplicates()
        &&& forall|i: int|
            self.next <= i < self.lids@.len() ==> {
                &&& state.waiting(#[trigger] self.lids@[i]).len() > 0
                &&& state.listeners.contains_key(self.lids@[i])
            }
    }

    /// Whether this is a new round over every listener on which a request waits.
    pub open spec fn starts<L, S>(&self, state: MonitorState<L, S>) -> bool {
        &&& self.next == 0
        &&& self.written == 0
        &&& self.fits(state)
        &&& forall|lid: u32| self.lids@.contains(lid) <==> #[trigger] state.waiting(lid).len() > 0
    }

    /// The listener whose turn it is.
    pub open spec fn turn(&self) -> Option<u32> {
        if self.next < self.lids@.len() {
            Some(self.lids@[self.next as int])
        } else {
            None
        }
    }

    /// The listener whose turn it is.
    pub fn listener(&self) -> (lid: Option<u32>)
        ensures
            lid == self.turn(),
    {
        if self.next < self.lids.len() {
            Some(self.lids[self.next])
        } else {
            None
        }
    }
}

/// What the driver has to do next.
#[derive(Debug, Clone, Copy, PartialEq, Eq)]
pub enum Action {
    /// Accept on the listener with this id, without blocking.
    Accept(u32),
    /// Bind and listen on this endpoint, without blocking on accept.
    Bind(Endpoint),
    /// Connect to this endpoint and wait until that is done.
    Connect(Endpoint),
    /// Let others run, then ask again.
    Yield,
    /// The run is over.
    Done,
}

/// How long a run goes on.
#[derive(Debug, Clone, Copy, PartialEq, Eq, Structural)]
pub enum Goal {
    /// Until no whole request is there.
    Drain,
    /// Until one request was taken.
    ServeOne,
}

/// Where a run stands.
#[derive(Debug)]
pub enum Stage {
    /// In a round over the listeners.
    Polling(AcceptPoll),
    /// Waiting for the outcome of a bind.
    Binding { request_id: u32, endpoint: Endpoint },
    /// Waiting for the outcome of a connect.
    Connecting { request_id: u32, endpoint: Endpoint },
    /// Over.
    Finished,
}

/// A run of the monitor.
#[derive(Debug)]
pub struct Pump {
    pub goal: Goal,
    pub stage: Stage,
    /// Whether the run has taken a request.
    pub served: bool,
}

impl Pump {
    /// Whether the run fits what the monitor knows.
    pub open spec fn fits<L, S>(&self, state: MonitorState<L, S>) -> bool {
        self.stage matches Stage::Polling(poll) ==> poll.fits(state)
    }

    /// Whether the run is in a new round over the listeners.
    pub open spec fn polls_anew<L, S>(&self, state: MonitorState<L, S>) -> bool {
        self.stage matches Stage::Polling(poll) && poll.starts(state)
    }

    /// Whether the run is over once its round is.
    pub open spec fn ends_with_round(&self) -> bool {
        self.goal == Goal::ServeOne && self.served
    }

    /// Whether it is time to read a request.
    pub open spec fn reads(&self) -> bool {
        &&& self.stage matches Stage::Polling(poll) && poll.turn() is None
        &&& !self.ends_with_round()
    }
}

/// A run with all that it touches: what the monitor knows, where the run stands, and the
/// state of the transport.
#[verifier::ext_equal]
pub struct Moment<L, S> {
    pub state: MonitorState<L, S>,
    pub pump: Pump,
    pub link: ChannelState,
}

/// A round over the listeners with all that it touches: what the monitor knows, where
/// the round stands, and the state of the transport.
#[verifier::ext_equal]
pub struct Round<L, S> {
    pub state: MonitorState<L, S>,
    pub poll: AcceptPoll,
    pub link: ChannelState,
}

/// What a call of `accepted` that returned `r` does.
pub open spec fn turn_taken<L, S>(
    before: Round<L, S>,
    after: Round<L, S>,
    outcome: AcceptOutcome<S>,
    r: Result<(), CodecError>,
) -> bool {
    let (state, reply) = before.state.after_accept(before.poll.turn()->0, outcome);
    &&& after.state == state
    &&& answered(reply, before.link, after.link, r)
    &&& after.poll.lids == before.poll.lids
    &&& after.poll.next == before.poll.next + 1
    &&& after.poll.written == before.poll.written + announced(reply, r)
}

/// What taking a request, or finding none, leads to.
pub open spec fn request_effect<L, S, E>(
    before: Moment<L, S>,
    after: Moment<L, S>,
    request: Option<ControlFrame>,
    r: Result<Action, MonitorError<E>>,
) -> bool {
    match request {
        None => {
            &&& after.state == before.state
            &&& after.link == before.link
            &&& after.pump.served == before.pump.served
            &&& match before.pump.goal {
                Goal::Drain => {
                    &&& after.pump.stage is Finished
                    &&& r == Ok::<Action, MonitorError<E>>(Action::Done)
                },
                Goal::ServeOne => {
                    &&& after.pump.polls_anew(after.state)
                    &&& r == Ok::<Action, MonitorError<E>>(Action::Yield)
                },
            }
        },
        Some(frame) => match before.state.refusal(frame@) {
            Some(reply) => {
                &&& after.state == before.state
                &&& after.link == after_writing(before.link, reply_bytes(reply))
                &&& after.pump.stage is Finished
                &&& after.pump.served == before.pump.served
                &&& r == if has_room(before.link.room, reply_bytes(reply).len()) {
                    Err::<Action, MonitorError<E>>(before.state.after_frame::<E>(frame@).1->Err_0)
                } else {
                    Err(MonitorError::Codec(CodecError::Closed))
                }
            },
            None => {
                &&& after.state == before.state.after_frame::<E>(frame@).0
                &&& after.link == before.link
                &&& match before.state.after_frame::<E>(frame@).1 {
                    Ok(Handled::Queued) => {
                        &&& after.pump.served
                        &&& after.pump.polls_anew(after.state)
                        &&& after.pump.stage->Polling_0.turn() is Some
                        &&& r == Ok::<Action, MonitorError<E>>(
                            Action::Accept(after.pump.stage->Polling_0.turn()->0),
                        )
                    },
                    Ok(Handled::Task(SocketTask::Bind { request_id, endpoint })) => {
                        &&& after.pump.served
                        &&& after.pump.stage == (Stage::Binding { request_id, endpoint })
                        &&& r == Ok::<Action, MonitorError<E>>(Action::Bind(endpoint))
                    },
                    Ok(Handled::Task(SocketTask::Connect { request_id, endpoint })) => {
                        &&& after.pump.served
                        &&& after.pump.stage == (Stage::Connecting { request_id, endpoint })
                        &&& r == Ok::<Action, MonitorError<E>>(Action::Connect(endpoint))
                    },
                    Err(e) => {
                        &&& after.pump.stage is Finished
                        &&& after.pump.served == before.pump.served
                        &&& r == Err::<Action, MonitorError<E>>(e)
                    },
                }
            },
        },
    }
}

impl<L, S> Monitor<L, S> {
    /// This monitor together with a run and the state of its transport.
    pub open spec fn moment(&self, pump: Pump, link: ChannelState) -> Moment<L, S> {
        Moment { state: self@, pump, link }
    }

    /// This monitor together with a round and the state of its transport.
    pub open spec fn in_round(&self, poll: AcceptPoll, link: ChannelState) -> Round<L, S> {
        Round { state: self@, poll, link }
    }

    /// Begin a round over the listeners on which a request waits.
    pub fn poll_accepts(&self) -> (poll: AcceptPoll)
        requires
            self.wf(),
        ensures
            poll.starts(self@),
    {
        let lids: Vec<u32> = self.waiting_listeners();
        proof {
            assert forall|i: int| 0 <= i < lids@.len() implies self@.waiting(
                #[trigger] lids@[i],
            ).len() > 0 by {
                assert(lids@.contains(lids@[i]));
            }
        }
        AcceptPoll { lids, next: 0, written: 0 }
    }

    /// Begin a run that polls the listeners and then takes every request that is
    /// there.
    pub fn pump_once(&self) -> (pump: Pump)
        requires
            self.wf(),
        ensures
            pump.goal == Goal::Drain,
            !pump.served,
            pump.polls_anew(self@),
            pump.fits(self@),
    {
        Pump { goal: Goal::Drain, stage: Stage::Polling(self.poll_accepts()), served: false }
    }

    /// Begin a run that polls the listeners and waits until it has taken one
    /// request.
    pub fn serve_one(&self) -> (pump: Pump)
        requires
            self.wf(),
        ensures
            pump.goal == Goal::ServeOne,
            !pump.served,
            pump.polls_anew(self@),
            pump.fits(self@),
    {
        Pump { goal: Goal::ServeOne, stage: Stage::Polling(self.poll_accepts()), served: false }
    }

    /// Take the outcome of an accept on the listener whose turn it is: write the
    /// reply, if there is one, and go on to the next listener.
    pub fn accepted<T: Write>(
        &mut self,
        poll: &mut AcceptPoll,
        transport: &mut T,
        outcome: AcceptOutcome<S>,
    ) -> (r: Result<(), CodecError>)
        requires
            old(self).wf(),
            old(poll).fits(old(self)@),
            old(poll).turn() is Some,
            old(transport).wf(),
            can_answer(
                old(self)@.after_accept(old(poll).turn()->0, outcome).1,
                old(transport).state(),
            ),
        ensures
            final(self).wf(),
            final(poll).fits(final(self)@),
            continues(*old(transport), *final(transport)),
            turn_taken(
                old(self).in_round(*old(poll), old(transport).state()),
                final(self).in_round(*final(poll), final(transport).state()),
                outcome,
                r,
            ),
    {
        let total: usize = poll.lids.len();
        assert(poll.next < total);
        let lid: u32 = poll.lids[poll.next];
        let reply: Option<ControlReply> = self.finish_accept(lid, outcome);
        poll.next = poll.next + 1;
        match reply {
            None => Ok(()),
            Some(reply) => {
                send_reply(transport, &reply)?;
                if let ControlReply::AcceptOk { .. } = reply {
                    poll.written = poll.written + 1;
                }
                Ok(())
            },
        }
    }

    /// Go on with what a read gave: take the request, or note that there is none.
    pub fn on_request<T: Write, E>(
        &mut self,
        pump: &mut Pump,
        transport: &mut T,
        request: Option<ControlFrame>,
    ) -> (r: Result<Action, MonitorError<E>>)
        requires
            old(self).wf(),
            old(pump).reads(),
            old(transport).wf(),
            request matches Some(frame) ==> frame.wf(),
            request matches Some(frame) ==> can_answer(
                old(self)@.refusal(frame@),
                old(transport).state(),
            ),
        ensures
            final(self).wf(),
            final(pump).fits(final(self)@),
            final(pump).goal == old(pump).goal,
            continues(*old(transport), *final(transport)),
            request_effect(
                old(self).moment(*old(pump), old(transport).state()),
                final(self).moment(*final(pump), final(transport).state()),
                request,
                r,
            ),
    {
        match request {
            None => match pump.goal {
                Goal::Drain => {
                    pump.stage = Stage::Finished;
                    Ok(Action::Done)
                },
                Goal::ServeOne => {
                    pump.stage = Stage::Polling(self.poll_accepts());
                    Ok(Action::Yield)
                },
            },
            Some(frame) => {
                let handled: Result<Handled, MonitorError<E>> = self.handle_control_frame(
                    transport,
                    &frame,
                );
                match handled {
                    Ok(Handled::Queued) => {
                        pump.served = true;
                        let poll: AcceptPoll = self.poll_accepts();
                        let turn: Option<u32> = poll.listener();
                        proof {
                            let lid = ControlRequest::of(frame@)->Ok_0->Accept_listener_id;
                            assert(self@.waiting(lid).len() > 0);
                            assert(poll.lids@.contains(lid));
                        }
                        pump.stage = Stage::Polling(poll);
                        match turn {
                            Some(lid) => Ok(Action::Accept(lid)),
                            None => Ok(Action::Yield),
                        }
                    },
                    Ok(Handled::Task(SocketTask::Bind { request_id, endpoint })) => {
                        pump.served = true;
                        pump.stage = Stage::Binding { request_id, endpoint };
                        Ok(Action::Bind(endpoint))
                    },
                    Ok(Handled::Task(SocketTask::Connect { request_id, endpoint })) => {
                        pump.served = true;
                        pump.stage = Stage::Connecting { request_id, endpoint };
                        Ok(Action::Connect(endpoint))
                    },
                    Err(e) => {
                        pump.stage = Stage::Finished;
                        Err(e)
                    },
                }
            },
        }
    }

    /// Go on with a run as far as the next socket operation.
    ///
    /// While a socket operation is due, the same action is named again.
    pub fn advance<T: Read + Write, E>(&mut self, pump: &mut Pump, transport: &mut T) -> (r: Result<
        Action,
        MonitorError<E>,
    >)
        requires
            old(self).wf(),
            old(pump).fits(old(self)@),
            old(transport).wf(),
            old(pump).reads() ==> can_refuse(old(self)@, old(transport).state()),
        ensures
            final(self).wf(),
            final(pump).fits(final(self)@),
            continues(*old(transport), *final(transport)),
            r matches Ok(Action::Accept(lid)) ==> final(self)@.waiting(lid).len() > 0
                && final(self)@.listeners.contains_key(lid),
            old(pump).reads() && r == Ok::<Action, MonitorError<E>>(Action::Done) ==> {
                &&& !decided(final(self)@.kept)
                &&& old(transport).settled() ==> final(transport).state().incoming.len() == 0
            },
            advanced(
                old(self).moment(*old(pump), old(transport).state()),
                final(self).moment(*final(pump), final(transport).state()),
                old(transport).settled(),
                r,
            ),
    {
        match &pump.stage {
            Stage::Polling(poll) => {
                if let Some(lid) = poll.listener() {
                    return Ok(Action::Accept(lid));
                }
            },
            Stage::Binding { endpoint, .. } => {
                return Ok(Action::Bind(*endpoint));
            },
            Stage::Connecting { endpoint, .. } => {
                return Ok(Action::Connect(*endpoint));
            },
            Stage::Finished => {
                return Ok(Action::Done);
            },
        }
        if pump.goal == Goal::ServeOne && pump.served {
            pump.stage = Stage::Finished;
            return Ok(Action::Done);
        }
        let read: Result<Option<ControlFrame>, CodecError> = self.next_request(transport);
        let ghost mid = transport.state();
        let ghost kept = self@.kept;
        let r: Result<Action, MonitorError<E>> = match read {
            Ok(request) => self.on_request(pump, transport, request),
            Err(e) => {
                pump.stage = Stage::Finished;
                Err(MonitorError::Codec(e))
            },
        };
        assert(read_then(
            old(self).moment(*old(pump), old(transport).state()),
            self.moment(*pump, transport.state()),
            old(transport).settled(),
            read,
            kept,
            mid,
            r,
        ));
        r
    }

    /// Take the outcome of the accept that the run asked for.
    pub fn on_accept<T: Write>(
        &mut self,
        pump: &mut Pump,
        transport: &mut T,
        outcome: AcceptOutcome<S>,
    ) -> (r: Result<(), CodecError>)
        requires
            old(self).wf(),
            old(pump).fits(old(self)@),
            old(pump).stage matches Stage::Polling(poll) && poll.turn() is Some,
            old(transport).wf(),
            can_answer(
                old(self)@.after_accept(old(pump).stage->Polling_0.turn()->0, outcome).1,
                old(transport).state(),
            ),
        ensures
            final(self).wf(),
            final(pump).fits(final(self)@),
            continues(*old(transport), *final(transport)),
            accept_taken(
                old(self).moment(*old(pump), old(transport).state()),
                final(self).moment(*final(pump), final(transport).state()),
                outcome,
                r,
            ),
    {
        let r: Result<(), CodecError> = match &mut pump.stage {
            Stage::Polling(poll) => self.accepted(poll, transport, outcome),
            _ => Ok(()),
        };
        if r.is_err() {
            pump.stage = Stage::Finished;
        }
        r
    }

    /// Take the outcome of the bind that the run asked for: write the reply and
    /// begin a new round over the listeners.
    pub fn on_bind<T: Write, E>(
        &mut self,
        pump: &mut Pump,
        transport: &mut T,
        outcome: BindOutcome<L, E>,
    ) -> (r: Result<(), MonitorError<E>>)
        requires
            old(self).wf(),
            old(pump).stage is Binding,
            old(transport).wf(),
            old(self)@.after_bind(old(pump).stage->Binding_request_id, outcome).1 matches Ok(reply)
                ==> can_send(old(transport).state(), reply_bytes(reply)),
        ensures
            final(self).wf(),
            final(pump).fits(final(self)@),
            continues(*old(transport), *final(transport)),
            bind_taken(
                old(self).moment(*old(pump), old(transport).state()),
                final(self).moment(*final(pump), final(transport).state()),
                outcome,
                r,
            ),
    {
        let request_id: u32 = match &pump.stage {
            Stage::Binding { request_id, .. } => *request_id,
            _ => 0,
        };
        pump.stage = Stage::Finished;
        match self.finish_bind(request_id, outcome) {
            Ok(reply) => match send_reply(transport, &reply) {
                Ok(_) => {
                    pump.stage = Stage::Polling(self.poll_accepts());
                    Ok(())
                },
                Err(e) => Err(MonitorError::Codec(e)),
            },
            Err(e) => Err(e),
        }
    }

    /// Take the outcome of the connect that the run asked for: write the reply and
    /// begin a new round over the listeners.
    pub fn on_connect<T: Write>(
        &mut self,
        pump: &mut Pump,
        transport: &mut T,
        outcome: ConnectOutcome<S>,
    ) -> (r: Result<(), CodecError>)
        requires
            old(self).wf(),
            old(pump).stage is Connecting,
            old(transport).wf(),
            can_answer(
                Some(old(self)@.after_connect(old(pump).stage->Connecting_request_id, outcome).1),
                old(transport).state(),
            ),
        ensures
            final(self).wf(),
            final(pump).fits(final(self)@),
            continues(*old(transport), *final(transport)),
            connect_taken(
                old(self).moment(*old(pump), old(transport).state()),
                final(self).moment(*final(pump), final(transport).state()),
                outcome,
                r,
            ),
    {
        let request_id: u32 = match &pump.stage {
            Stage::Connecting { request_id, .. } => *request_id,
            _ => 0,
        };
        pump.stage = Stage::Finished;
        let reply: ControlReply = self.finish_connect(request_id, outcome);
        send_reply(transport, &reply)?;
        pump.stage = Stage::Polling(self.poll_accepts());
        Ok(())
    }
}

/// What a call of `advance` that returned `r` does.
pub open spec fn advanced<L, S, E>(
    before: Moment<L, S>,
    after: Moment<L, S>,
    settled: bool,
    r: Result<Action, MonitorError<E>>,
) -> bool {
    &&& after.pump.goal == before.pump.goal
    &&& if before.pump.reads() {
        exists|read: Result<Option<ControlFrame>, CodecError>, kept: Seq<u8>, mid: ChannelState|
            #[trigger] read_then(before, after, settled, read, kept, mid, r)
    } else {
        &&& after.state == before.state
        &&& after.link == before.link
        &&& r == Ok::<Action, MonitorError<E>>(due(before.pump))
        &&& after.pump == if due(before.pump) is Done {
            Pump { stage: Stage::Finished, ..before.pump }
        } else {
            before.pump
        }
    }
}

/// The action that is due in a run that does not read.
pub open spec fn due(pump: Pump) -> Action {
    match pump.stage {
        Stage::Polling(poll) => match poll.turn() {
            Some(lid) => Action::Accept(lid),
            None => Action::Done,
        },
        Stage::Binding { endpoint, .. } => Action::Bind(endpoint),
        Stage::Connecting { endpoint, .. } => Action::Connect(endpoint),
        Stage::Finished => Action::Done,
    }
}

/// What a call of `on_accept` that returned `r` does.
pub open spec fn accept_taken<L, S>(
    before: Moment<L, S>,
    after: Moment<L, S>,
    outcome: AcceptOutcome<S>,
    r: Result<(), CodecError>,
) -> bool {
    let poll = before.pump.stage->Polling_0;
    let (state, reply) = before.state.after_accept(poll.turn()->0, outcome);
    &&& after.pump.goal == before.pump.goal
    &&& after.pump.served == before.pump.served
    &&& after.state == state
    &&& answered(reply, before.link, after.link, r)
    &&& match r {
        Ok(_) => {
            &&& after.pump.stage matches Stage::Polling(next)
            &&& next.lids == poll.lids
            &&& next.next == poll.next + 1
            &&& next.written == poll.written + announced(reply, r)
        },
        Err(_) => after.pump.stage is Finished,
    }
}

/// What a call of `on_bind` that returned `r` does.
pub open spec fn bind_taken<L, S, E>(
    before: Moment<L, S>,
    after: Moment<L, S>,
    outcome: BindOutcome<L, E>,
    r: Result<(), MonitorError<E>>,
) -> bool {
    let (state, reply) = before.state.after_bind(before.pump.stage->Binding_request_id, outcome);
    &&& after.pump.goal == before.pump.goal
    &&& after.pump.served == before.pump.served
    &&& after.state == state
    &&& match reply {
        Ok(reply) => {
            &&& after.link == after_writing(before.link, reply_bytes(reply))
            &&& r is Ok <==> has_room(before.link.room, reply_bytes(reply).len())
            &&& r is Err ==> r == Err::<(), MonitorError<E>>(
                MonitorError::Codec(CodecError::Closed),
            )
        },
        Err(e) => r == Err::<(), MonitorError<E>>(e) && after.link == before.link,
    }
    &&& match r {
        Ok(_) => after.pump.polls_anew(after.state),
        Err(_) => after.pump.stage is Finished,
    }
}

/// What a call of `on_connect` that returned `r` does.
pub open spec fn connect_taken<L, S>(
    before: Moment<L, S>,
    after: Moment<L, S>,
    outcome: ConnectOutcome<S>,
    r: Result<(), CodecError>,
) -> bool {
    let (state, reply) = before.state.after_connect(
        before.pump.stage->Connecting_request_id,
        outcome,
    );
    &&& after.pump.goal == before.pump.goal
    &&& after.pump.served == before.pump.served
    &&& after.state == state
    &&& answered(Some(reply), before.link, after.link, r)
    &&& match r {
        Ok(_) => after.pump.polls_anew(after.state),
        Err(_) => after.pump.stage is Finished,
    }
}

/// Whether `reply`, if there is one, can be written on a transport in this state.
pub open spec fn can_answer(reply: Option<ControlReply>, transport: ChannelState) -> bool {
    reply matches Some(reply) ==> can_send(transport, reply_bytes(reply))
}

/// How many connections a reply announces, if it was written whole.
pub open spec fn announced(reply: Option<ControlReply>, r: Result<(), CodecError>) -> int {
    if r is Ok && reply matches Some(ControlReply::AcceptOk { .. }) {
        1
    } else {
        0
    }
}

/// Whether `reply`, if there is one, was written, and `r` says whether it was
/// written whole.
pub open spec fn answered(
    reply: Option<ControlReply>,
    before: ChannelState,
    after: ChannelState,
    r: Result<(), CodecError>,
) -> bool {
    match reply {
        None => r is Ok && after == before,
        Some(reply) => {
            &&& after == after_writing(before, reply_bytes(reply))
            &&& r is Ok <==> has_room(before.room, reply_bytes(reply).len())
            &&& r is Err ==> r == Err::<(), CodecError>(CodecError::Closed)
        },
    }
}

/// Whether the monitor can refuse the next request on a transport in this state,
/// should it be one to refuse.
pub open spec fn can_refuse<L, S>(state: MonitorState<L, S>, transport: ChannelState) -> bool {
    next_frame(state.kept + transport.incoming) matches Ok(frame) ==> can_answer(
        state.refusal(frame),
        transport,
    )
}

/// Whether reading gave `read`, leaving `kept` in the decoder and the transport in
/// state `mid`, and going on from there led to the rest.
pub open spec fn read_then<L, S, E>(
    before: Moment<L, S>,
    after: Moment<L, S>,
    settled: bool,
    read: Result<Option<ControlFrame>, CodecError>,
    kept: Seq<u8>,
    mid: ChannelState,
    r: Result<Action, MonitorError<E>>,
) -> bool {
    let had = Moment {
        state: MonitorState { kept, ..before.state },
        link: mid,
        pump: before.pump,
    };
    &&& try_read_effect(before.state.kept, kept, before.link, mid, settled, read)
    &&& match read {
        Ok(request) => request_effect(had, after, request, r),
        Err(e) => {
            &&& after.state == had.state
            &&& after.link == mid
            &&& after.pump.stage is Finished
            &&& after.pump.served == before.pump.served
            &&& r == Err::<Action, MonitorError<E>>(MonitorError::Codec(e))
        },
    }
}

} // verus!
