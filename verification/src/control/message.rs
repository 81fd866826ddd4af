//! Control messages by meaning: the layer above the codec.
//!
//! - [`ControlRequest`]: from the client to the monitor.
//! - [`ControlReply`]: from the monitor to the client.
//!
//! Parsing can fail, encoding cannot.

use vstd::prelude::*;

use crate::bytes::{get_u32, overwrite, put_u32, u32_le, u32_of, u32_round_trip};
use crate::control::protocol::{
    connection_ready_round_trip, endpoint_round_trip, CodecError, ConnectionReady, ControlFrame,
    Endpoint, FrameContent, MessageType, MAX_FRAME_PAYLOAD,
};

verus! {

/// A request from the client. `request_id` correlates it with the
/// [`ControlReply`] that answers it.
#[derive(Debug, Clone, Copy, PartialEq, Eq)]
pub enum ControlRequest {
    /// Bind and listen on `endpoint`.
    Listen { request_id: u32, endpoint: Endpoint },
    /// Connect outbound to `endpoint`.
    Connect { request_id: u32, endpoint: Endpoint },
    /// Wait for the next inbound connection on `listener_id`.
    Accept { request_id: u32, listener_id: u32 },
}

impl ControlRequest {
    /// The id that a request carries.
    pub open spec fn id(self) -> u32 {
        match self {
            ControlRequest::Listen { request_id, .. } => request_id,
            ControlRequest::Connect { request_id, .. } => request_id,
            ControlRequest::Accept { request_id, .. } => request_id,
        }
    }

    /// What the frame of a request says.
    pub open spec fn content(self) -> FrameContent {
        match self {
            ControlRequest::Listen { request_id, endpoint } => FrameContent {
                message_type: MessageType::ListenRequest,
                request_id,
                payload: endpoint.bytes(),
            },
            ControlRequest::Connect { request_id, endpoint } => FrameContent {
                message_type: MessageType::ConnectRequest,
                request_id,
                payload: endpoint.bytes(),
            },
            ControlRequest::Accept { request_id, listener_id } => FrameContent {
                message_type: MessageType::AcceptRequest,
                request_id,
                payload: u32_le(listener_id),
            },
        }
    }

    /// The request that a frame makes, or why it makes none.
    pub open spec fn of(frame: FrameContent) -> Result<ControlRequest, CodecError> {
        let request_id = frame.request_id;
        match frame.message_type {
            MessageType::ListenRequest => match short_of(frame.payload, 6) {
                Some(e) => Err(e),
                None => Ok(
                    ControlRequest::Listen { request_id, endpoint: Endpoint::of(frame.payload) },
                ),
            },
            MessageType::ConnectRequest => match short_of(frame.payload, 6) {
                Some(e) => Err(e),
                None => Ok(
                    ControlRequest::Connect { request_id, endpoint: Endpoint::of(frame.payload) },
                ),
            },
            MessageType::AcceptRequest => match short_of(frame.payload, 4) {
                Some(e) => Err(e),
                None => Ok(
                    ControlRequest::Accept {
                        request_id,
                        listener_id: u32_of(frame.payload.subrange(0, 4)),
                    },
                ),
            },
            other => Err(CodecError::UnexpectedMessage(other)),
        }
    }

    /// Correlation id shared with the matching [`ControlReply`].
    pub fn request_id(&self) -> (id: u32)
        ensures
            id == self.id(),
    {
        match self {
            ControlRequest::Listen { request_id, .. } => *request_id,
            ControlRequest::Connect { request_id, .. } => *request_id,
            ControlRequest::Accept { request_id, .. } => *request_id,
        }
    }

    /// Encode into a frame that is ready to be written.
    pub fn to_frame(&self) -> (frame: ControlFrame)
        ensures
            frame.wf(),
            frame.padded(),
            frame@ == self.content(),
    {
        let mut pl: [u8; MAX_FRAME_PAYLOAD] = [0u8; MAX_FRAME_PAYLOAD];
        let (mt, n): (MessageType, usize) = match self {
            ControlRequest::Listen { endpoint, .. } => (
                MessageType::ListenRequest,
                endpoint.encode(&mut pl),
            ),
            ControlRequest::Connect { endpoint, .. } => (
                MessageType::ConnectRequest,
                endpoint.encode(&mut pl),
            ),
            ControlRequest::Accept { listener_id, .. } => (
                MessageType::AcceptRequest,
                write_u32(&mut pl, *listener_id),
            ),
        };
        assert(pl@.subrange(0, n as int) =~= self.content().payload);
        ControlFrame::new(mt, self.request_id(), &pl.as_slice()[0..n])
    }

    /// Parse the request that a frame makes.
    pub fn try_from(f: &ControlFrame) -> (r: Result<Self, CodecError>)
        requires
            f.wf(),
        ensures
            r == ControlRequest::of(f@),
    {
        let request_id: u32 = f.request_id;
        match f.message_type {
            MessageType::ListenRequest => {
                let endpoint: Endpoint = read_endpoint(f.payload())?;
                Ok(ControlRequest::Listen { request_id, endpoint })
            },
            MessageType::ConnectRequest => {
                let endpoint: Endpoint = read_endpoint(f.payload())?;
                Ok(ControlRequest::Connect { request_id, endpoint })
            },
            MessageType::AcceptRequest => {
                let listener_id: u32 = read_u32(f.payload())?;
                Ok(ControlRequest::Accept { request_id, listener_id })
            },
            other => Err(CodecError::UnexpectedMessage(other)),
        }
    }
}

/// A reply from the monitor, tagged with the `request_id` that it answers.
///
/// [`ControlReply::AcceptOk`] is carried by
/// [`MessageType::IncomingConnection`].
#[derive(Debug, Clone, Copy, PartialEq, Eq, Structural)]
pub enum ControlReply {
    ListenOk { request_id: u32, listener_id: u32 },
    ListenErr { request_id: u32, code: u32 },
    ConnectOk { request_id: u32, ready: ConnectionReady },
    ConnectErr { request_id: u32, code: u32 },
    AcceptOk { request_id: u32, ready: ConnectionReady },
    /// The monitor could not fulfil an accept request: the listener is unknown,
    /// or the kernel refused. `code` is like an errno.
    AcceptErr { request_id: u32, code: u32 },
}

impl ControlReply {
    /// The id that a reply carries.
    pub open spec fn id(self) -> u32 {
        match self {
            ControlReply::ListenOk { request_id, .. } => request_id,
            ControlReply::ListenErr { request_id, .. } => request_id,
            ControlReply::ConnectOk { request_id, .. } => request_id,
            ControlReply::ConnectErr { request_id, .. } => request_id,
            ControlReply::AcceptOk { request_id, .. } => request_id,
            ControlReply::AcceptErr { request_id, .. } => request_id,
        }
    }

    /// The message type that carries a reply.
    pub open spec fn kind(self) -> MessageType {
        match self {
            ControlReply::ListenOk { .. } => MessageType::ListenOk,
            ControlReply::ListenErr { .. } => MessageType::ListenErr,
            ControlReply::ConnectOk { .. } => MessageType::ConnectOk,
            ControlReply::ConnectErr { .. } => MessageType::ConnectErr,
            ControlReply::AcceptOk { .. } => MessageType::IncomingConnection,
            ControlReply::AcceptErr { .. } => MessageType::AcceptErr,
        }
    }

    /// The payload of a reply.
    pub open spec fn payload(self) -> Seq<u8> {
        match self {
            ControlReply::ListenOk { listener_id, .. } => u32_le(listener_id),
            ControlReply::ListenErr { code, .. } => u32_le(code),
            ControlReply::ConnectOk { ready, .. } => ready.bytes(),
            ControlReply::ConnectErr { code, .. } => u32_le(code),
            ControlReply::AcceptOk { ready, .. } => ready.bytes(),
            ControlReply::AcceptErr { code, .. } => u32_le(code),
        }
    }

    /// What the frame of a reply says.
    pub open spec fn content(self) -> FrameContent {
        FrameContent {
            message_type: self.kind(),
            request_id: self.id(),
            payload: self.payload(),
        }
    }

    /// The reply that a frame gives, or why it gives none.
    pub open spec fn of(frame: FrameContent) -> Result<ControlReply, CodecError> {
        let request_id = frame.request_id;
        let number = u32_of(frame.payload.subrange(0, 4));
        let ready = ConnectionReady::of(frame.payload);
        match frame.message_type {
            MessageType::ListenOk => match short_of(frame.payload, 4) {
                Some(e) => Err(e),
                None => Ok(ControlReply::ListenOk { request_id, listener_id: number }),
            },
            MessageType::ListenErr => match short_of(frame.payload, 4) {
                Some(e) => Err(e),
                None => Ok(ControlReply::ListenErr { request_id, code: number }),
            },
            MessageType::ConnectOk => match short_of(frame.payload, 24) {
                Some(e) => Err(e),
                None => Ok(ControlReply::ConnectOk { request_id, ready }),
            },
            MessageType::ConnectErr => match short_of(frame.payload, 4) {
                Some(e) => Err(e),
                None => Ok(ControlReply::ConnectErr { request_id, code: number }),
            },
            MessageType::IncomingConnection => match short_of(frame.payload, 24) {
                Some(e) => Err(e),
                None => Ok(ControlReply::AcceptOk { request_id, ready }),
            },
            MessageType::AcceptErr => match short_of(frame.payload, 4) {
                Some(e) => Err(e),
                None => Ok(ControlReply::AcceptErr { request_id, code: number }),
            },
            other => Err(CodecError::UnexpectedMessage(other)),
        }
    }

    /// Correlation id of the request that this reply answers.
    pub fn request_id(&self) -> (id: u32)
        ensures
            id == self.id(),
    {
        match self {
            ControlReply::ListenOk { request_id, .. } => *request_id,
            ControlReply::ListenErr { request_id, .. } => *request_id,
            ControlReply::ConnectOk { request_id, .. } => *request_id,
            ControlReply::ConnectErr { request_id, .. } => *request_id,
            ControlReply::AcceptOk { request_id, .. } => *request_id,
            ControlReply::AcceptErr { request_id, .. } => *request_id,
        }
    }

    /// The message type that carries this reply.
    pub fn message_type(&self) -> (mt: MessageType)
        ensures
            mt == self.kind(),
    {
        match self {
            ControlReply::ListenOk { .. } => MessageType::ListenOk,
            ControlReply::ListenErr { .. } => MessageType::ListenErr,
            ControlReply::ConnectOk { .. } => MessageType::ConnectOk,
            ControlReply::ConnectErr { .. } => MessageType::ConnectErr,
            ControlReply::AcceptOk { .. } => MessageType::IncomingConnection,
            ControlReply::AcceptErr { .. } => MessageType::AcceptErr,
        }
    }

    /// Encode into a frame that is ready to be written.
    pub fn to_frame(&self) -> (frame: ControlFrame)
        ensures
            frame.wf(),
            frame.padded(),
            frame@ == self.content(),
    {
        let mut pl: [u8; MAX_FRAME_PAYLOAD] = [0u8; MAX_FRAME_PAYLOAD];
        let n: usize = match self {
            ControlReply::ListenOk { listener_id, .. } => write_u32(&mut pl, *listener_id),
            ControlReply::ListenErr { code, .. } => write_u32(&mut pl, *code),
            ControlReply::ConnectErr { code, .. } => write_u32(&mut pl, *code),
            ControlReply::AcceptErr { code, .. } => write_u32(&mut pl, *code),
            ControlReply::ConnectOk { ready, .. } => ready.encode(&mut pl),
            ControlReply::AcceptOk { ready, .. } => ready.encode(&mut pl),
        };
        assert(pl@.subrange(0, n as int) =~= self.payload());
        ControlFrame::new(self.message_type(), self.request_id(), &pl.as_slice()[0..n])
    }

    /// Parse the reply that a frame gives.
    pub fn try_from(f: &ControlFrame) -> (r: Result<Self, CodecError>)
        requires
            f.wf(),
        ensures
            r == ControlReply::of(f@),
    {
        let request_id: u32 = f.request_id;
        match f.message_type {
            MessageType::ListenOk => {
                let listener_id: u32 = read_u32(f.payload())?;
                Ok(ControlReply::ListenOk { request_id, listener_id })
            },
            MessageType::ListenErr => {
                let code: u32 = read_u32(f.payload())?;
                Ok(ControlReply::ListenErr { request_id, code })
            },
            MessageType::ConnectOk => {
                let ready: ConnectionReady = read_ready(f.payload())?;
                Ok(ControlReply::ConnectOk { request_id, ready })
            },
            MessageType::ConnectErr => {
                let code: u32 = read_u32(f.payload())?;
                Ok(ControlReply::ConnectErr { request_id, code })
            },
            MessageType::IncomingConnection => {
                let ready: ConnectionReady = read_ready(f.payload())?;
                Ok(ControlReply::AcceptOk { request_id, ready })
            },
            MessageType::AcceptErr => {
                let code: u32 = read_u32(f.payload())?;
                Ok(ControlReply::AcceptErr { request_id, code })
            },
            other => Err(CodecError::UnexpectedMessage(other)),
        }
    }
}

/// The error of a payload that is shorter than `n` bytes.
pub open spec fn short_of(payload: Seq<u8>, n: nat) -> Option<CodecError> {
    if payload.len() < n {
        Some(CodecError::ShortPayload { expected: n as usize, got: payload.len() as usize })
    } else {
        None
    }
}

/// Check that a payload has at least `n` bytes.
fn check_len(p: &[u8], n: usize) -> (r: Result<(), CodecError>)
    ensures
        match r {
            Ok(_) => short_of(p@, n as nat) is None,
            Err(e) => short_of(p@, n as nat) == Some(e),
        },
{
    if p.len() < n {
        Err(CodecError::ShortPayload { expected: n, got: p.len() })
    } else {
        Ok(())
    }
}

/// Read a `u32` from the start of a payload.
pub(crate) fn read_u32(p: &[u8]) -> (r: Result<u32, CodecError>)
    ensures
        r == match short_of(p@, 4) {
            Some(e) => Err(e),
            None => Ok(u32_of(p@.subrange(0, 4))),
        },
{
    check_len(p, 4)?;
    Ok(get_u32(p, 0))
}

/// Read an endpoint from the start of a payload.
fn read_endpoint(p: &[u8]) -> (r: Result<Endpoint, CodecError>)
    ensures
        r == match short_of(p@, 6) {
            Some(e) => Err(e),
            None => Ok(Endpoint::of(p@)),
        },
{
    check_len(p, 6)?;
    Ok(Endpoint::decode(p))
}

/// Read the payload of a new connection.
pub(crate) fn read_ready(p: &[u8]) -> (r: Result<ConnectionReady, CodecError>)
    ensures
        r == match short_of(p@, 24) {
            Some(e) => Err(e),
            None => Ok(ConnectionReady::of(p@)),
        },
{
    check_len(p, 24)?;
    Ok(ConnectionReady::decode(p))
}

/// Write a `u32` at the start of a payload and return how many bytes it takes.
fn write_u32(out: &mut [u8], v: u32) -> (n: usize)
    requires
        4 <= old(out)@.len(),
    ensures
        n == 4,
        final(out)@ == overwrite(old(out)@, 0, u32_le(v)),
{
    put_u32(out, 0, v);
    4
}

/// Parsing the frame of a request gives the request.
pub proof fn request_round_trip(request: ControlRequest)
    ensures
        request.content().payload.len() <= MAX_FRAME_PAYLOAD,
        request.content().request_id == request.id(),
        ControlRequest::of(request.content()) == Ok::<ControlRequest, CodecError>(request),
{
    let payload = request.content().payload;
    match request {
        ControlRequest::Listen { endpoint, .. } | ControlRequest::Connect { endpoint, .. } => {
            endpoint_round_trip(endpoint, seq![]);
            assert(payload + seq![] =~= payload);
        },
        ControlRequest::Accept { listener_id, .. } => {
            u32_round_trip(listener_id);
            assert(payload.subrange(0, 4) =~= payload);
        },
    }
}

/// Parsing the frame of a reply gives the reply.
pub proof fn reply_round_trip(reply: ControlReply)
    ensures
        reply.content().payload.len() <= MAX_FRAME_PAYLOAD,
        reply.content().request_id == reply.id(),
        ControlReply::of(reply.content()) == Ok::<ControlReply, CodecError>(reply),
{
    let payload = reply.payload();
    match reply {
        ControlReply::ConnectOk { ready, .. } | ControlReply::AcceptOk { ready, .. } => {
            connection_ready_round_trip(ready, seq![]);
            assert(payload + seq![] =~= payload);
        },
        ControlReply::ListenOk { listener_id, .. } => {
            u32_round_trip(listener_id);
            assert(payload.subrange(0, 4) =~= payload);
        },
        ControlReply::ListenErr { code, .. } | ControlReply::ConnectErr { code, .. }
        | ControlReply::AcceptErr { code, .. } => {
            u32_round_trip(code);
            assert(payload.subrange(0, 4) =~= payload);
        },
    }
}

/// A message type belongs to one direction: no frame parses both as a request and
/// as a reply, and one in the wrong direction is refused by its type.
pub proof fn one_direction_only(frame: FrameContent)
    ensures
        ControlRequest::of(frame) is Ok ==> ControlReply::of(frame) == Err::<
            ControlReply,
            CodecError,
        >(CodecError::UnexpectedMessage(frame.message_type)),
        ControlReply::of(frame) is Ok ==> ControlRequest::of(frame) == Err::<
            ControlRequest,
            CodecError,
        >(CodecError::UnexpectedMessage(frame.message_type)),
{
}

} // verus!
