//! What the monitor knows, and what each request and each socket outcome does to
//! it.

use std::collections::hash_map::Entry;
use std::collections::{HashMap, VecDeque};

use vstd::prelude::*;

use crate::control::{
    frame_bytes, id_after, next_id, try_read_effect, write_frame, CodecError, ConnectionReady,
    ControlFrame, ControlReply, ControlRequest, DataPipeInfo, Endpoint, FrameContent, FrameReadBuf,
    MessageType,
};
use crate::pipe::{after_writing, can_send, continues, has_room, Read, Write};

verus! {

broadcast use vstd::std_specs::hash::group_hash_axioms;

/// Why the monitor could not go on. `E` is the error of a socket operation.
#[derive(Debug, PartialEq, Eq)]
pub enum MonitorError<E> {
    Io(E),
    Codec(CodecError),
    UnexpectedRequest(MessageType),
    /// An accept referred to an unknown `listener_id`.
    UnknownListener(u32),
}

impl<E> From<CodecError> for MonitorError<E> {
    fn from(value: CodecError) -> (e: Self) {
        MonitorError::Codec(value)
    }
}

impl<E> vstd::std_specs::convert::FromSpecImpl<CodecError> for MonitorError<E> {
    open spec fn obeys_from_spec() -> bool {
        true
    }

    open spec fn from_spec(value: CodecError) -> MonitorError<E> {
        MonitorError::Codec(value)
    }
}

/// The code that a refusal carries for a socket error: its errno where it has one,
/// else 1 for an unknown error.
pub fn io_err_code(raw_os_error: Option<i32>) -> (code: u32)
    ensures
        code == match raw_os_error {
            Some(errno) => errno as u32,
            None => 1,
        },
{
    match raw_os_error {
        Some(errno) => errno as u32,
        None => 1,
    }
}

/// How an attempt to bind and listen ended.
#[derive(Debug, PartialEq, Eq)]
pub enum BindOutcome<L, E> {
    /// The listener is open and does not block.
    Bound(L),
    /// The kernel refused with this code.
    Refused(u32),
    /// The listener is open but could not be made non-blocking.
    Broken(E),
}

/// How an attempt to connect ended.
#[derive(Debug, PartialEq, Eq)]
pub enum ConnectOutcome<S> {
    Connected(S),
    /// The kernel refused with this code.
    Refused(u32),
}

/// How an attempt to accept ended.
#[derive(Debug, PartialEq, Eq)]
pub enum AcceptOutcome<S> {
    Accepted(S),
    /// Nobody is connecting yet.
    NotReady,
    /// The kernel failed with this code.
    Failed(u32),
}

/// A socket operation that a request asks for.
#[derive(Debug, Clone, Copy, PartialEq, Eq)]
pub enum SocketTask {
    Bind { request_id: u32, endpoint: Endpoint },
    Connect { request_id: u32, endpoint: Endpoint },
}

/// The code of a refusal for an unknown listener: bad file number.
pub const UNKNOWN_LISTENER_CODE: u32 = 9;

/// What the monitor knows.
#[verifier::ext_equal]
pub struct MonitorState<L, S> {
    pub next_listener_id: u32,
    pub next_connection_id: u32,
    pub ring_size: u64,
    pub listeners: Map<u32, L>,
    pub connections: Map<u32, S>,
    /// For each listener the requests that wait for a connection, oldest first.
    pub waits: Map<u32, Seq<u32>>,
    /// Bytes of a frame that is not whole yet.
    pub kept: Seq<u8>,
}

impl<L, S> MonitorState<L, S> {
    /// The requests that wait for a connection on a listener, oldest first.
    pub open spec fn waiting(self, listener_id: u32) -> Seq<u32> {
        if self.waits.contains_key(listener_id) {
            self.waits[listener_id]
        } else {
            Seq::empty()
        }
    }

    /// Whether the knowledge hangs together: no id is 0, and requests wait only on
    /// listeners that exist.
    pub open spec fn consistent(self) -> bool {
        &&& self.next_listener_id != 0
        &&& self.next_connection_id != 0
        &&& !self.listeners.contains_key(0)
        &&& !self.connections.contains_key(0)
        &&& forall|lid: u32| #[trigger]
            self.waits.contains_key(lid) ==> self.listeners.contains_key(lid)
    }

    /// What a new connection is announced with.
    pub open spec fn announcement(self, listener_id: u32) -> ConnectionReady {
        ConnectionReady {
            listener_id,
            connection_id: self.next_connection_id,
            pipe: DataPipeInfo {
                pipe_id: self.next_connection_id as u64,
                ring_size: self.ring_size,
            },
        }
    }

    /// With one more listener.
    pub open spec fn with_listener(self, listener: L) -> Self {
        MonitorState {
            listeners: self.listeners.insert(self.next_listener_id, listener),
            next_listener_id: id_after(self.next_listener_id),
            ..self
        }
    }

    /// With one more connection.
    pub open spec fn with_connection(self, stream: S) -> Self {
        MonitorState {
            connections: self.connections.insert(self.next_connection_id, stream),
            next_connection_id: id_after(self.next_connection_id),
            ..self
        }
    }

    /// With one more request that waits on a listener.
    pub open spec fn with_wait(self, listener_id: u32, request_id: u32) -> Self {
        MonitorState {
            waits: self.waits.insert(listener_id, self.waiting(listener_id).push(request_id)),
            ..self
        }
    }

    /// Without the oldest request that waits on a listener.
    pub open spec fn without_oldest_wait(self, listener_id: u32) -> Self {
        MonitorState {
            waits: self.waits.insert(listener_id, self.waiting(listener_id).drop_first()),
            ..self
        }
    }

    /// The knowledge after a bind for request `rid` ended, and what is answered.
    pub open spec fn after_bind<E>(self, rid: u32, outcome: BindOutcome<L, E>) -> (
        Self,
        Result<ControlReply, MonitorError<E>>,
    ) {
        match outcome {
            BindOutcome::Bound(listener) => (
                self.with_listener(listener),
                Ok(
                    ControlReply::ListenOk {
                        request_id: rid,
                        listener_id: self.next_listener_id,
                    },
                ),
            ),
            BindOutcome::Refused(code) => (
                self,
                Ok(ControlReply::ListenErr { request_id: rid, code }),
            ),
            BindOutcome::Broken(e) => (self, Err(MonitorError::Io(e))),
        }
    }

    /// The knowledge after a connect for request `rid` ended, and what is answered.
    pub open spec fn after_connect(self, rid: u32, outcome: ConnectOutcome<S>) -> (
        Self,
        ControlReply,
    ) {
        match outcome {
            ConnectOutcome::Connected(stream) => (
                self.with_connection(stream),
                ControlReply::ConnectOk { request_id: rid, ready: self.announcement(0) },
            ),
            ConnectOutcome::Refused(code) => (
                self,
                ControlReply::ConnectErr { request_id: rid, code },
            ),
        }
    }

    /// The knowledge after an accept on a listener ended, and what is answered.
    pub open spec fn after_accept(self, listener_id: u32, outcome: AcceptOutcome<S>) -> (
        Self,
        Option<ControlReply>,
    ) {
        if self.waiting(listener_id).len() == 0 {
            (self, None)
        } else {
            let request_id = self.waiting(listener_id)[0];
            match outcome {
                AcceptOutcome::Accepted(stream) => (
                    self.without_oldest_wait(listener_id).with_connection(stream),
                    Some(
                        ControlReply::AcceptOk {
                            request_id,
                            ready: self.announcement(listener_id),
                        },
                    ),
                ),
                AcceptOutcome::NotReady => (self, None),
                AcceptOutcome::Failed(code) => (
                    self.without_oldest_wait(listener_id),
                    Some(ControlReply::AcceptErr { request_id, code }),
                ),
            }
        }
    }
}

impl<L, S> MonitorState<L, S> {
    /// The refusal of a frame that asks to wait on a listener that does not exist.
    pub open spec fn refusal(self, frame: FrameContent) -> Option<ControlReply> {
        match ControlRequest::of(frame) {
            Ok(ControlRequest::Accept { request_id, listener_id }) => {
                if self.listeners.contains_key(listener_id) {
                    None
                } else {
                    Some(ControlReply::AcceptErr { request_id, code: UNKNOWN_LISTENER_CODE })
                }
            },
            _ => None,
        }
    }

    /// The knowledge after a request frame was taken, and what comes of it.
    pub open spec fn after_frame<E>(self, frame: FrameContent) -> (
        Self,
        Result<Handled, MonitorError<E>>,
    ) {
        match ControlRequest::of(frame) {
            Ok(ControlRequest::Accept { request_id, listener_id }) => {
                if self.listeners.contains_key(listener_id) {
                    (self.with_wait(listener_id, request_id), Ok(Handled::Queued))
                } else {
                    (self, Err(MonitorError::UnknownListener(listener_id)))
                }
            },
            Ok(ControlRequest::Listen { request_id, endpoint }) => (
                self,
                Ok(Handled::Task(SocketTask::Bind { request_id, endpoint })),
            ),
            Ok(ControlRequest::Connect { request_id, endpoint }) => (
                self,
                Ok(Handled::Task(SocketTask::Connect { request_id, endpoint })),
            ),
            Err(CodecError::UnexpectedMessage(other)) => (
                self,
                Err(MonitorError::UnexpectedRequest(other)),
            ),
            Err(e) => (self, Err(MonitorError::Codec(e))),
        }
    }
}

/// The bytes of a reply on the wire.
pub open spec fn reply_bytes(reply: ControlReply) -> Seq<u8> {
    frame_bytes(reply.content())
}

/// Write one reply, waiting for room as long as it takes.
pub(crate) fn send_reply<T: Write>(transport: &mut T, reply: &ControlReply) -> (r: Result<
    (),
    CodecError,
>)
    requires
        old(transport).wf(),
        can_send(old(transport).state(), reply_bytes(*reply)),
    ensures
        r is Ok <==> has_room(old(transport).state().room, reply_bytes(*reply).len()),
        r is Err ==> r == Err::<(), CodecError>(CodecError::Closed),
        final(transport).state() == after_writing(old(transport).state(), reply_bytes(*reply)),
        continues(*old(transport), *final(transport)),
{
    write_frame(transport, &reply.to_frame())
}

/// The socket operation that a frame asks for, or why it asks for none.
pub open spec fn task_of<E>(frame: FrameContent) -> Result<SocketTask, MonitorError<E>> {
    match ControlRequest::of(frame) {
        Ok(ControlRequest::Listen { request_id, endpoint }) => Ok(
            SocketTask::Bind { request_id, endpoint },
        ),
        Ok(ControlRequest::Connect { request_id, endpoint }) => Ok(
            SocketTask::Connect { request_id, endpoint },
        ),
        Ok(ControlRequest::Accept { .. }) => Err(
            MonitorError::UnexpectedRequest(MessageType::AcceptRequest),
        ),
        Err(CodecError::UnexpectedMessage(other)) => Err(MonitorError::UnexpectedRequest(other)),
        Err(e) => if frame.message_type == MessageType::AcceptRequest {
            Err(MonitorError::UnexpectedRequest(MessageType::AcceptRequest))
        } else {
            Err(MonitorError::Codec(e))
        },
    }
}

/// How far a request frame was taken.
#[derive(Debug, Clone, Copy, PartialEq, Eq)]
pub enum Handled {
    /// The request waits for a peer.
    Queued,
    /// The request needs a socket operation.
    Task(SocketTask),
}

/// The monitor. `L` is a listening socket, `S` a connected one.
pub struct Monitor<L, S> {
    next_listener_id: u32,
    next_connection_id: u32,
    default_ring_size: u64,
    listeners: HashMap<u32, L>,
    connections: HashMap<u32, S>,
    pending_accepts: HashMap<u32, VecDeque<u32>>,
    control_rx: FrameReadBuf,
}

impl<L, S> View for Monitor<L, S> {
    type V = MonitorState<L, S>;

    closed spec fn view(&self) -> MonitorState<L, S> {
        MonitorState {
            next_listener_id: self.next_listener_id,
            next_connection_id: self.next_connection_id,
            ring_size: self.default_ring_size,
            listeners: self.listeners@,
            connections: self.connections@,
            waits: self.pending_accepts@.map_values(|q: VecDeque<u32>| q@),
            kept: self.control_rx@,
        }
    }
}

impl<L, S> Monitor<L, S> {
    /// Whether the monitor is in order.
    pub closed spec fn wf(&self) -> bool {
        self.control_rx.wf() && self@.consistent()
    }

    /// The knowledge of a monitor that is in order hangs together.
    pub proof fn wf_is_consistent(&self)
        requires
            self.wf(),
        ensures
            self@.consistent(),
    {
    }

    /// A monitor without sockets. New connections get rings of
    /// `default_ring_size` bytes.
    pub fn new(default_ring_size: u64) -> (monitor: Self)
        ensures
            monitor.wf(),
            monitor@ == (MonitorState::<L, S> {
                next_listener_id: 1,
                next_connection_id: 1,
                ring_size: default_ring_size,
                listeners: Map::empty(),
                connections: Map::empty(),
                waits: Map::empty(),
                kept: Seq::empty(),
            }),
    {
        let monitor = Monitor {
            next_listener_id: 1,
            next_connection_id: 1,
            default_ring_size,
            listeners: HashMap::new(),
            connections: HashMap::new(),
            pending_accepts: HashMap::new(),
            control_rx: FrameReadBuf::new(),
        };
        assert(monitor@.waits =~= Map::empty());
        monitor
    }

    /// Decide which socket operation a request frame asks for.
    ///
    /// Only listen and connect requests ask for one. Accept requests wait for a
    /// peer and are taken by `handle_control_frame`.
    pub fn dispatch_request<E>(&self, frame: &ControlFrame) -> (r: Result<
        SocketTask,
        MonitorError<E>,
    >)
        requires
            frame.wf(),
        ensures
            r == task_of::<E>(frame@),
    {
        match frame.message_type {
            MessageType::ListenRequest => match ControlRequest::try_from(frame) {
                Ok(ControlRequest::Listen { request_id, endpoint }) => Ok(
                    SocketTask::Bind { request_id, endpoint },
                ),
                Ok(_) => Err(MonitorError::UnexpectedRequest(frame.message_type)),
                Err(e) => Err(MonitorError::Codec(e)),
            },
            MessageType::ConnectRequest => match ControlRequest::try_from(frame) {
                Ok(ControlRequest::Connect { request_id, endpoint }) => Ok(
                    SocketTask::Connect { request_id, endpoint },
                ),
                Ok(_) => Err(MonitorError::UnexpectedRequest(frame.message_type)),
                Err(e) => Err(MonitorError::Codec(e)),
            },
            other => Err(MonitorError::UnexpectedRequest(other)),
        }
    }

    /// Take the outcome of the bind that request `rid` asked for, and build the
    /// reply.
    pub fn finish_bind<E>(&mut self, rid: u32, outcome: BindOutcome<L, E>) -> (r: Result<
        ControlReply,
        MonitorError<E>,
    >)
        requires
            old(self).wf(),
        ensures
            final(self).wf(),
            (final(self)@, r) == old(self)@.after_bind(rid, outcome),
    {
        match outcome {
            BindOutcome::Bound(listener) => {
                let id: u32 = self.alloc_listener_id();
                self.listeners.insert(id, listener);
                assert(self@ =~= old(self)@.with_listener(listener));
                Ok(ControlReply::ListenOk { request_id: rid, listener_id: id })
            },
            BindOutcome::Refused(code) => Ok(ControlReply::ListenErr { request_id: rid, code }),
            BindOutcome::Broken(e) => Err(MonitorError::Io(e)),
        }
    }

    /// Take the outcome of the connect that request `rid` asked for, and build the
    /// reply.
    pub fn finish_connect(&mut self, rid: u32, outcome: ConnectOutcome<S>) -> (reply: ControlReply)
        requires
            old(self).wf(),
        ensures
            final(self).wf(),
            (final(self)@, reply) == old(self)@.after_connect(rid, outcome),
    {
        match outcome {
            ConnectOutcome::Connected(stream) => {
                let ready: ConnectionReady = self.add_connection(0, stream);
                ControlReply::ConnectOk { request_id: rid, ready }
            },
            ConnectOutcome::Refused(code) => ControlReply::ConnectErr { request_id: rid, code },
        }
    }

    /// Take the outcome of an accept on a listener, and build the reply to the
    /// request that waits longest on it, if that is answered now.
    pub fn finish_accept(&mut self, listener_id: u32, outcome: AcceptOutcome<S>) -> (reply: Option<
        ControlReply,
    >)
        requires
            old(self).wf(),
        ensures
            final(self).wf(),
            (final(self)@, reply) == old(self)@.after_accept(listener_id, outcome),
    {
        match outcome {
            AcceptOutcome::Accepted(stream) => match self.take_oldest_wait(listener_id) {
                Some(request_id) => {
                    let ready: ConnectionReady = self.add_connection(listener_id, stream);
                    Some(ControlReply::AcceptOk { request_id, ready })
                },
                None => None,
            },
            AcceptOutcome::NotReady => None,
            AcceptOutcome::Failed(code) => match self.take_oldest_wait(listener_id) {
                Some(request_id) => Some(ControlReply::AcceptErr { request_id, code }),
                None => None,
            },
        }
    }

    /// Take a request frame: let an accept wait for a peer, and hand on what needs
    /// a socket operation.
    ///
    /// An accept on a listener that does not exist is refused on `transport`, and
    /// the call fails.
    pub fn handle_control_frame<T: Write, E>(
        &mut self,
        transport: &mut T,
        frame: &ControlFrame,
    ) -> (r: Result<Handled, MonitorError<E>>)
        requires
            old(self).wf(),
            frame.wf(),
            old(transport).wf(),
            old(self)@.refusal(frame@) matches Some(reply) ==> can_send(
                old(transport).state(),
                reply_bytes(reply),
            ),
        ensures
            final(self).wf(),
            continues(*old(transport), *final(transport)),
            match old(self)@.refusal(frame@) {
                None => {
                    &&& (final(self)@, r) == old(self)@.after_frame::<E>(frame@)
                    &&& final(transport).state() == old(transport).state()
                },
                Some(reply) => {
                    &&& final(self)@ == old(self)@
                    &&& final(transport).state() == after_writing(
                        old(transport).state(),
                        reply_bytes(reply),
                    )
                    &&& r == if has_room(old(transport).state().room, reply_bytes(reply).len()) {
                        old(self)@.after_frame::<E>(frame@).1
                    } else {
                        Err(MonitorError::Codec(CodecError::Closed))
                    }
                },
            },
    {
        match frame.message_type {
            MessageType::AcceptRequest => match ControlRequest::try_from(frame) {
                Ok(ControlRequest::Accept { request_id, listener_id }) => {
                    if !self.listeners.contains_key(&listener_id) {
                        let reply = ControlReply::AcceptErr {
                            request_id,
                            code: UNKNOWN_LISTENER_CODE,
                        };
                        match send_reply(transport, &reply) {
                            Ok(_) => Err(MonitorError::UnknownListener(listener_id)),
                            Err(e) => Err(MonitorError::Codec(e)),
                        }
                    } else {
                        self.enqueue_accept(listener_id, request_id);
                        Ok(Handled::Queued)
                    }
                },
                Ok(_) => Err(MonitorError::UnexpectedRequest(frame.message_type)),
                Err(e) => Err(MonitorError::Codec(e)),
            },
            _ => match self.dispatch_request(frame) {
                Ok(task) => Ok(Handled::Task(task)),
                Err(e) => Err(e),
            },
        }
    }

    /// The listeners on which a request waits, each once.
    pub fn waiting_listeners(&self) -> (lids: Vec<u32>)
        requires
            self.wf(),
        ensures
            lids@.no_duplicates(),
            forall|lid: u32| lids@.contains(lid) <==> #[trigger] self@.waiting(lid).len() > 0,
            forall|i: int|
                0 <= i < lids@.len() ==> #[trigger] self@.listeners.contains_key(lids@[i]),
    {
        let mut lids: Vec<u32> = Vec::new();
        for lid in keys: self.pending_accepts.keys()
            invariant
                self.wf(),
                keys.seq().unref().to_set() == self.pending_accepts@.dom(),
                keys.seq().no_duplicates(),
                lids@.no_duplicates(),
                forall|i: int|
                    0 <= i < lids@.len() ==> self@.waiting(#[trigger] lids@[i]).len() > 0
                        && exists|j: int| 0 <= j < keys.index() && *keys.seq()[j] == lids@[i],
                forall|j: int|
                    0 <= j < keys.index() && self@.waiting(*#[trigger] keys.seq()[j]).len() > 0
                        ==> lids@.contains(*keys.seq()[j]),
        {
            let ghost before = lids@;
            let ghost at = keys.index();
            proof {
                assert(*lid == *keys.seq()[at]);
                assert forall|i: int| 0 <= i < before.len() implies before[i] != *lid by {
                    let j = choose|j: int| 0 <= j < at && *keys.seq()[j] == before[i];
                    assert(keys.seq()[j] != keys.seq()[at]);
                }
            }
            if let Some(queue) = self.pending_accepts.get(lid) {
                if queue.len() > 0 {
                    lids.push(*lid);
                    assert(lids@.last() == *lid);
                    assert(forall|l: u32| before.contains(l) ==> lids@.contains(l)) by {
                        assert(forall|i: int| 0 <= i < before.len() ==> lids@[i] == before[i]);
                    }
                }
            }
        }
        proof {
            assert forall|lid: u32| lids@.contains(lid) <==> #[trigger] self@.waiting(lid).len()
                > 0 by {
                if self@.waiting(lid).len() > 0 {
                    assert(self.pending_accepts@.dom().contains(lid));
                }
            }
        }
        lids
    }

    /// Append bytes from `transport` and return the next whole request frame, if
    /// any.
    pub fn next_request<T: Read>(&mut self, transport: &mut T) -> (r: Result<
        Option<ControlFrame>,
        CodecError,
    >)
        requires
            old(self).wf(),
            old(transport).wf(),
        ensures
            final(self).wf(),
            final(self)@ == (MonitorState { kept: final(self)@.kept, ..old(self)@ }),
            try_read_effect(
                old(self)@.kept,
                final(self)@.kept,
                old(transport).state(),
                final(transport).state(),
                old(transport).settled(),
                r,
            ),
            continues(*old(transport), *final(transport)),
    {
        self.control_rx.try_read_frame(transport)
    }

    /// Borrow the socket of a live connection.
    pub fn connection(&mut self, id: u32) -> (stream: Option<&mut S>)
        requires
            old(self).wf(),
        ensures
            final(self).wf(),
            match stream {
                Some(stream) => {
                    &&& old(self)@.connections.contains_key(id)
                    &&& *stream == old(self)@.connections[id]
                    &&& final(self)@ == (MonitorState {
                        connections: old(self)@.connections.insert(id, *final(stream)),
                        ..old(self)@
                    })
                },
                None => {
                    &&& !old(self)@.connections.contains_key(id)
                    &&& final(self)@ == old(self)@
                },
            },
    {
        match self.connections.entry(id) {
            Entry::Occupied(entry) => Some(entry.into_mut()),
            Entry::Vacant(_) => None,
        }
    }

    /// Borrow a live listener.
    pub fn listener(&self, id: u32) -> (listener: Option<&L>)
        ensures
            match listener {
                Some(listener) => self@.listeners.contains_key(id) && *listener
                    == self@.listeners[id],
                None => !self@.listeners.contains_key(id),
            },
    {
        self.listeners.get(&id)
    }

    /// Let request `request_id` wait for a connection on a listener.
    pub fn enqueue_accept(&mut self, listener_id: u32, request_id: u32)
        requires
            old(self).wf(),
            old(self)@.listeners.contains_key(listener_id),
        ensures
            final(self).wf(),
            final(self)@ == old(self)@.with_wait(listener_id, request_id),
    {
        let queue: &mut VecDeque<u32> = self.pending_accepts.entry(listener_id).or_insert(
            VecDeque::new(),
        );
        queue.push_back(request_id);
        assert(self@.waits =~= old(self)@.with_wait(listener_id, request_id).waits);
    }

    /// Take the oldest request that waits on a listener off its queue.
    fn take_oldest_wait(&mut self, listener_id: u32) -> (request_id: Option<u32>)
        requires
            old(self).wf(),
        ensures
            final(self).wf(),
            match request_id {
                Some(request_id) => {
                    &&& old(self)@.waiting(listener_id).len() > 0
                    &&& request_id == old(self)@.waiting(listener_id)[0]
                    &&& final(self)@ == old(self)@.without_oldest_wait(listener_id)
                },
                None => {
                    &&& old(self)@.waiting(listener_id).len() == 0
                    &&& final(self)@ == old(self)@
                },
            },
    {
        match self.pending_accepts.remove(&listener_id) {
            Some(mut queue) => {
                let taken: Option<u32> = queue.pop_front();
                self.pending_accepts.insert(listener_id, queue);
                proof {
                    if taken is Some {
                        assert(self@ =~= old(self)@.without_oldest_wait(listener_id));
                    } else {
                        assert(self@ =~= old(self)@);
                    }
                }
                taken
            },
            None => {
                assert(self@.waits =~= old(self)@.waits);
                None
            },
        }
    }

    /// Keep a connected socket, and say how it is announced.
    fn add_connection(&mut self, listener_id: u32, stream: S) -> (ready: ConnectionReady)
        requires
            old(self).wf(),
        ensures
            final(self).wf(),
            final(self)@ == old(self)@.with_connection(stream),
            ready == old(self)@.announcement(listener_id),
    {
        let id: u32 = self.alloc_connection_id();
        self.connections.insert(id, stream);
        assert(self@ =~= old(self)@.with_connection(stream));
        ConnectionReady {
            listener_id,
            connection_id: id,
            pipe: DataPipeInfo::new(id as u64, self.default_ring_size),
        }
    }

    /// Take the next listener id.
    fn alloc_listener_id(&mut self) -> (id: u32)
        ensures
            id == old(self)@.next_listener_id,
            *final(self) == (Monitor {
                next_listener_id: id_after(old(self).next_listener_id),
                ..*old(self)
            }),
    {
        let id: u32 = self.next_listener_id;
        self.next_listener_id = next_id(id);
        id
    }

    /// Take the next connection id.
    fn alloc_connection_id(&mut self) -> (id: u32)
        ensures
            id == old(self)@.next_connection_id,
            *final(self) == (Monitor {
                next_connection_id: id_after(old(self).next_connection_id),
                ..*old(self)
            }),
    {
        let id: u32 = self.next_connection_id;
        self.next_connection_id = next_id(id);
        id
    }
}

} // verus!
