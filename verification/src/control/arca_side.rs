//! The client's side of the control pipe.
//!
//! The handles that come back, [`ArcaTcpListener`] and [`ArcaTcpStream`], are ids
//! and a [`DataPipeInfo`]. The byte stream of a connection is in its data pipe.
//!
//! Every frame from the monitor carries the `request_id` of the request that it
//! answers. A session waits for one reply at a time and refuses any other.

use vstd::prelude::*;

use crate::bytes::u32_of;
use crate::control::codec::{
    decided, frame_bytes, frame_round_trip, next_frame, next_frame_len,
    read_frame, write_frame,
};
use crate::control::ids::{id_after, next_id};
use crate::control::message::{
    read_ready, read_u32, reply_round_trip, request_round_trip, short_of, ControlReply,
    ControlRequest,
};
use crate::control::protocol::{
    CodecError, ConnectionReady, ControlFrame, DataPipeInfo, Endpoint, FrameContent, MessageType,
};
use crate::pipe::{after_writing, can_send, continues, has_room, ChannelState, Read, Write};

verus! {

/// Why a call of the session failed.
#[derive(Debug, Clone, Copy, PartialEq, Eq, Structural)]
pub enum ArcaError {
    Codec(CodecError),
    /// The monitor answered `ListenErr` with this errno-like code.
    ListenFailed { code: u32 },
    /// The monitor answered `ConnectErr` with this errno-like code.
    ConnectFailed { code: u32 },
    /// The monitor answered `AcceptErr` with this errno-like code.
    AcceptFailed { code: u32 },
    /// A frame came that does not answer the request.
    UnexpectedReply(MessageType),
    /// A reply came with another `request_id` than the one waited for.
    UnexpectedRequestId { expected: u32, got: u32 },
}

impl From<CodecError> for ArcaError {
    fn from(value: CodecError) -> (e: Self) {
        ArcaError::Codec(value)
    }
}

impl vstd::std_specs::convert::FromSpecImpl<CodecError> for ArcaError {
    open spec fn obeys_from_spec() -> bool {
        true
    }

    open spec fn from_spec(value: CodecError) -> ArcaError {
        ArcaError::Codec(value)
    }
}

/// Handle to a listener that the monitor holds open.
#[derive(Debug, Clone, Copy, PartialEq, Eq, Structural)]
pub struct ArcaTcpListener {
    pub listener_id: u32,
}

impl ArcaTcpListener {
    pub fn id(&self) -> (id: u32)
        ensures
            id == self.listener_id,
    {
        self.listener_id
    }
}

/// Handle to one TCP session.
///
/// `listener_id == 0` means that the connection is outbound.
#[derive(Debug, Clone, Copy, PartialEq, Eq, Structural)]
pub struct ArcaTcpStream {
    pub listener_id: u32,
    pub connection_id: u32,
    pub pipe: DataPipeInfo,
}

impl ArcaTcpStream {
    pub fn connection_id(&self) -> (id: u32)
        ensures
            id == self.connection_id,
    {
        self.connection_id
    }

    /// 0 for an outbound connection, otherwise the listener that it came in on.
    pub fn listener_id(&self) -> (id: u32)
        ensures
            id == self.listener_id,
    {
        self.listener_id
    }

    /// Where the data pipe of the connection lives.
    pub fn pipe(&self) -> (info: DataPipeInfo)
        ensures
            info == self.pipe,
    {
        self.pipe
    }

    pub fn is_inbound(&self) -> (b: bool)
        ensures
            b == (self.listener_id != 0),
    {
        self.listener_id != 0
    }
}

/// Whether a frame of this type is a reply of the monitor.
pub open spec fn is_answer(mt: MessageType) -> bool {
    match mt {
        MessageType::ListenOk
        | MessageType::ListenErr
        | MessageType::ConnectOk
        | MessageType::ConnectErr
        | MessageType::IncomingConnection
        | MessageType::AcceptErr => true,
        _ => false,
    }
}

/// The answer to request `rid` on the byte stream `stream`, or why there is none.
pub open spec fn answer_to(rid: u32, stream: Seq<u8>) -> Result<FrameContent, ArcaError> {
    match next_frame(stream) {
        Err(e) => Err(ArcaError::Codec(e)),
        Ok(frame) => if frame.request_id != rid {
            Err(ArcaError::UnexpectedRequestId { expected: rid, got: frame.request_id })
        } else if is_answer(frame.message_type) {
            Ok(frame)
        } else {
            Err(ArcaError::UnexpectedReply(frame.message_type))
        },
    }
}

/// What an answer to a listen request means.
pub open spec fn bind_outcome(answer: Result<FrameContent, ArcaError>) -> Result<
    ArcaTcpListener,
    ArcaError,
> {
    match answer {
        Err(e) => Err(e),
        Ok(frame) => match frame.message_type {
            MessageType::ListenOk => match short_of(frame.payload, 4) {
                Some(e) => Err(ArcaError::Codec(e)),
                None => Ok(ArcaTcpListener { listener_id: u32_of(frame.payload.subrange(0, 4)) }),
            },
            MessageType::ListenErr => match short_of(frame.payload, 4) {
                Some(e) => Err(ArcaError::Codec(e)),
                None => Err(
                    ArcaError::ListenFailed { code: u32_of(frame.payload.subrange(0, 4)) },
                ),
            },
            other => Err(ArcaError::UnexpectedReply(other)),
        },
    }
}

/// What an answer to a connect request means.
pub open spec fn connect_outcome(answer: Result<FrameContent, ArcaError>) -> Result<
    ArcaTcpStream,
    ArcaError,
> {
    match answer {
        Err(e) => Err(e),
        Ok(frame) => match frame.message_type {
            MessageType::ConnectOk => match short_of(frame.payload, 24) {
                Some(e) => Err(ArcaError::Codec(e)),
                None => Ok(stream_of(ConnectionReady::of(frame.payload))),
            },
            MessageType::ConnectErr => match short_of(frame.payload, 4) {
                Some(e) => Err(ArcaError::Codec(e)),
                None => Err(
                    ArcaError::ConnectFailed { code: u32_of(frame.payload.subrange(0, 4)) },
                ),
            },
            other => Err(ArcaError::UnexpectedReply(other)),
        },
    }
}

/// What an answer to an accept request means.
pub open spec fn accept_outcome(answer: Result<FrameContent, ArcaError>) -> Result<
    ArcaTcpStream,
    ArcaError,
> {
    match answer {
        Err(e) => Err(e),
        Ok(frame) => match frame.message_type {
            MessageType::IncomingConnection => match short_of(frame.payload, 24) {
                Some(e) => Err(ArcaError::Codec(e)),
                None => Ok(stream_of(ConnectionReady::of(frame.payload))),
            },
            MessageType::AcceptErr => match short_of(frame.payload, 4) {
                Some(e) => Err(ArcaError::Codec(e)),
                None => Err(
                    ArcaError::AcceptFailed { code: u32_of(frame.payload.subrange(0, 4)) },
                ),
            },
            other => Err(ArcaError::UnexpectedReply(other)),
        },
    }
}

/// The handle that a connection's payload gives.
pub open spec fn stream_of(ready: ConnectionReady) -> ArcaTcpStream {
    ArcaTcpStream {
        listener_id: ready.listener_id,
        connection_id: ready.connection_id,
        pipe: ready.pipe,
    }
}

/// The bytes of a request on the wire.
pub open spec fn request_bytes(request: ControlRequest) -> Seq<u8> {
    frame_bytes(request.content())
}

/// Whether a session can make a request on a transport in this state and come
/// back: there is room for it and the answer will come, or the transport hangs
/// up.
pub open spec fn can_ask(state: ChannelState, request: ControlRequest) -> bool {
    &&& can_send(state, request_bytes(request))
    &&& state.hangs_up || decided(state.incoming)
}

/// The answer that a request gets on a transport in this state. A request that
/// could not be sent gets none.
pub open spec fn answer_for(state: ChannelState, request: ControlRequest) -> Result<
    FrameContent,
    ArcaError,
> {
    if has_room(state.room, request_bytes(request).len()) {
        answer_to(request.id(), state.incoming)
    } else {
        Err(ArcaError::Codec(CodecError::Closed))
    }
}

/// The state of a transport after a request was made on it and its answer was
/// taken off.
pub open spec fn after_asking(state: ChannelState, request: ControlRequest) -> ChannelState {
    let sent = after_writing(state, request_bytes(request));
    if has_room(state.room, request_bytes(request).len()) {
        ChannelState {
            incoming: state.incoming.skip(next_frame_len(state.incoming) as int),
            ..sent
        }
    } else {
        sent
    }
}

/// The client's end of the control pipe.
pub struct ArcaSession<'a, T: Read + Write> {
    pub transport: &'a mut T,
    pub next_request_id: u32,
}

impl<'a, T: Read + Write> ArcaSession<'a, T> {
    /// The transport as it is now.
    pub open spec fn link(&self) -> T {
        *self.transport
    }

    /// Whether the session is in order.
    pub open spec fn wf(&self) -> bool {
        self.link().wf() && self.next_request_id != 0
    }

    /// Start a session on the control pipe.
    pub fn new(transport: &'a mut T) -> (session: Self)
        ensures
            session.link() == *old(transport),
            session.next_request_id == 1,
            *final(session.transport) == *final(transport),
    {
        ArcaSession { transport, next_request_id: 1 }
    }

    /// Take the next request id.
    fn alloc_request_id(&mut self) -> (id: u32)
        ensures
            id == old(self).next_request_id,
            final(self).next_request_id == id_after(old(self).next_request_id),
            final(self).link() == old(self).link(),
            *final(final(self).transport) == *final(old(self).transport),
    {
        let id: u32 = self.next_request_id;
        self.next_request_id = next_id(id);
        id
    }

    /// Send a request and wait for the frame that answers it.
    fn ask(&mut self, request: &ControlRequest) -> (r: Result<ControlFrame, ArcaError>)
        requires
            old(self).link().wf(),
            can_ask(old(self).link().state(), *request),
        ensures
            match r {
                Ok(frame) => {
                    &&& frame.wf()
                    &&& frame.padded()
                    &&& answer_for(old(self).link().state(), *request) == Ok::<
                        FrameContent,
                        ArcaError,
                    >(frame@)
                },
                Err(e) => answer_for(old(self).link().state(), *request) == Err::<
                    FrameContent,
                    ArcaError,
                >(e),
            },
            final(self).link().state() == after_asking(old(self).link().state(), *request),
            continues(old(self).link(), final(self).link()),
            final(self).next_request_id == old(self).next_request_id,
            *final(final(self).transport) == *final(old(self).transport),
    {
        proof {
            request_round_trip(*request);
        }
        let frame: ControlFrame = request.to_frame();
        match write_frame(self.transport, &frame) {
            Ok(_) => self.read_reply_for(request.request_id()),
            Err(e) => Err(ArcaError::from(e)),
        }
    }

    /// Ask the monitor to bind and listen on `ep`.
    pub fn bind(&mut self, ep: Endpoint) -> (r: Result<ArcaTcpListener, ArcaError>)
        requires
            old(self).wf(),
            can_ask(
                old(self).link().state(),
                ControlRequest::Listen { request_id: old(self).next_request_id, endpoint: ep },
            ),
        ensures
            r == bind_outcome(
                answer_for(
                    old(self).link().state(),
                    ControlRequest::Listen { request_id: old(self).next_request_id, endpoint: ep },
                ),
            ),
            final(self).link().state() == after_asking(
                old(self).link().state(),
                ControlRequest::Listen { request_id: old(self).next_request_id, endpoint: ep },
            ),
            final(self).wf(),
            final(self).next_request_id == id_after(old(self).next_request_id),
            continues(old(self).link(), final(self).link()),
            *final(final(self).transport) == *final(old(self).transport),
    {
        let request_id: u32 = self.alloc_request_id();
        match self.ask(&ControlRequest::Listen { request_id, endpoint: ep }) {
            Ok(reply) => match reply.message_type {
                MessageType::ListenOk => match read_u32(reply.payload()) {
                    Ok(listener_id) => Ok(ArcaTcpListener { listener_id }),
                    Err(e) => Err(ArcaError::from(e)),
                },
                MessageType::ListenErr => match read_u32(reply.payload()) {
                    Ok(code) => Err(ArcaError::ListenFailed { code }),
                    Err(e) => Err(ArcaError::from(e)),
                },
                other => Err(ArcaError::UnexpectedReply(other)),
            },
            Err(e) => Err(e),
        }
    }

    /// Ask the monitor to connect outbound to `ep`.
    pub fn connect(&mut self, ep: Endpoint) -> (r: Result<ArcaTcpStream, ArcaError>)
        requires
            old(self).wf(),
            can_ask(
                old(self).link().state(),
                ControlRequest::Connect { request_id: old(self).next_request_id, endpoint: ep },
            ),
        ensures
            r == connect_outcome(
                answer_for(
                    old(self).link().state(),
                    ControlRequest::Connect { request_id: old(self).next_request_id, endpoint: ep },
                ),
            ),
            final(self).link().state() == after_asking(
                old(self).link().state(),
                ControlRequest::Connect { request_id: old(self).next_request_id, endpoint: ep },
            ),
            final(self).wf(),
            final(self).next_request_id == id_after(old(self).next_request_id),
            continues(old(self).link(), final(self).link()),
            *final(final(self).transport) == *final(old(self).transport),
    {
        let request_id: u32 = self.alloc_request_id();
        match self.ask(&ControlRequest::Connect { request_id, endpoint: ep }) {
            Ok(reply) => match reply.message_type {
                MessageType::ConnectOk => match read_ready(reply.payload()) {
                    Ok(ready) => Ok(stream_from_ready(ready)),
                    Err(e) => Err(ArcaError::from(e)),
                },
                MessageType::ConnectErr => match read_u32(reply.payload()) {
                    Ok(code) => Err(ArcaError::ConnectFailed { code }),
                    Err(e) => Err(ArcaError::from(e)),
                },
                other => Err(ArcaError::UnexpectedReply(other)),
            },
            Err(e) => Err(e),
        }
    }

    /// Wait for the next inbound connection on `listener`, or for the refusal of the
    /// request.
    pub fn accept(&mut self, listener: &ArcaTcpListener) -> (r: Result<ArcaTcpStream, ArcaError>)
        requires
            old(self).wf(),
            can_ask(
                old(self).link().state(),
                ControlRequest::Accept {
                    request_id: old(self).next_request_id,
                    listener_id: listener.listener_id,
                },
            ),
        ensures
            r == accept_outcome(
                answer_for(
                    old(self).link().state(),
                    ControlRequest::Accept {
                        request_id: old(self).next_request_id,
                        listener_id: listener.listener_id,
                    },
                ),
            ),
            final(self).link().state() == after_asking(
                old(self).link().state(),
                ControlRequest::Accept {
                    request_id: old(self).next_request_id,
                    listener_id: listener.listener_id,
                },
            ),
            final(self).wf(),
            final(self).next_request_id == id_after(old(self).next_request_id),
            continues(old(self).link(), final(self).link()),
            *final(final(self).transport) == *final(old(self).transport),
    {
        let request_id: u32 = self.alloc_request_id();
        match self.ask(&ControlRequest::Accept { request_id, listener_id: listener.listener_id }) {
            Ok(reply) => match reply.message_type {
                MessageType::IncomingConnection => match read_ready(reply.payload()) {
                    Ok(ready) => Ok(stream_from_ready(ready)),
                    Err(e) => Err(ArcaError::from(e)),
                },
                MessageType::AcceptErr => match read_u32(reply.payload()) {
                    Ok(code) => Err(ArcaError::AcceptFailed { code }),
                    Err(e) => Err(ArcaError::from(e)),
                },
                other => Err(ArcaError::UnexpectedReply(other)),
            },
            Err(e) => Err(e),
        }
    }

    /// Read one frame and check that it answers request `expected_rid`.
    fn read_reply_for(&mut self, expected_rid: u32) -> (r: Result<ControlFrame, ArcaError>)
        requires
            old(self).link().wf(),
            old(self).link().state().hangs_up || decided(old(self).link().state().incoming),
        ensures
            match r {
                Ok(frame) => {
                    &&& frame.wf()
                    &&& frame.padded()
                    &&& answer_to(expected_rid, old(self).link().state().incoming) == Ok::<
                        FrameContent,
                        ArcaError,
                    >(frame@)
                },
                Err(e) => answer_to(expected_rid, old(self).link().state().incoming) == Err::<
                    FrameContent,
                    ArcaError,
                >(e),
            },
            final(self).link().state() == (ChannelState {
                incoming: old(self).link().state().incoming.skip(
                    next_frame_len(old(self).link().state().incoming) as int,
                ),
                ..old(self).link().state()
            }),
            continues(old(self).link(), final(self).link()),
            final(self).next_request_id == old(self).next_request_id,
            *final(final(self).transport) == *final(old(self).transport),
    {
        match read_frame(self.transport) {
            Ok(frame) => {
                if frame.request_id != expected_rid {
                    return Err(
                        ArcaError::UnexpectedRequestId {
                            expected: expected_rid,
                            got: frame.request_id,
                        },
                    );
                }
                match frame.message_type {
                    MessageType::ListenOk
                    | MessageType::ListenErr
                    | MessageType::ConnectOk
                    | MessageType::ConnectErr
                    | MessageType::IncomingConnection
                    | MessageType::AcceptErr => Ok(frame),
                    other => Err(ArcaError::UnexpectedReply(other)),
                }
            },
            Err(e) => Err(ArcaError::from(e)),
        }
    }
}

/// The handle that a connection's payload gives.
fn stream_from_ready(ready: ConnectionReady) -> (stream: ArcaTcpStream)
    ensures
        stream == stream_of(ready),
{
    ArcaTcpStream {
        listener_id: ready.listener_id,
        connection_id: ready.connection_id,
        pipe: ready.pipe,
    }
}

/// A session takes a reply only for the request it waits for: a whole reply to
/// another request is an error that names both ids, whatever the reply says.
pub proof fn mismatched_reply_is_refused(rid: u32, reply: ControlReply, rest: Seq<u8>)
    requires
        reply.id() != rid,
    ensures
        answer_to(rid, frame_bytes(reply.content()) + rest) == Err::<FrameContent, ArcaError>(
            ArcaError::UnexpectedRequestId { expected: rid, got: reply.id() },
        ),
{
    reply_round_trip(reply);
    frame_round_trip(reply.content(), rest);
}

/// A session reads back what a reply says: the handle of a success, the code of a
/// refusal, and for a reply of another kind its message type.
pub proof fn replies_are_understood(reply: ControlReply, rest: Seq<u8>)
    ensures
        ({
            let answer = answer_to(reply.id(), frame_bytes(reply.content()) + rest);
            let unexpected = ArcaError::UnexpectedReply(reply.kind());
            &&& bind_outcome(answer) == match reply {
                ControlReply::ListenOk { listener_id, .. } => Ok(ArcaTcpListener { listener_id }),
                ControlReply::ListenErr { code, .. } => Err(ArcaError::ListenFailed { code }),
                _ => Err(unexpected),
            }
            &&& connect_outcome(answer) == match reply {
                ControlReply::ConnectOk { ready, .. } => Ok(stream_of(ready)),
                ControlReply::ConnectErr { code, .. } => Err(ArcaError::ConnectFailed { code }),
                _ => Err(unexpected),
            }
            &&& accept_outcome(answer) == match reply {
                ControlReply::AcceptOk { ready, .. } => Ok(stream_of(ready)),
                ControlReply::AcceptErr { code, .. } => Err(ArcaError::AcceptFailed { code }),
                _ => Err(unexpected),
            }
        }),
{
    reply_round_trip(reply);
    frame_round_trip(reply.content(), rest);
}

} // verus!
