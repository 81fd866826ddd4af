//! Data types of the control pipe.
//!
//! ```text
//! offset  size  field
//! ------  ----  -----------------------------------------
//!  0      1     message_type (see MessageType)
//!  1      2     payload_len  (little-endian, bytes)
//!  3      4     request_id   (little-endian)
//!  7      ..    payload      (payload_len bytes, fixed layout)
//! ```
//!
//! The byte streams of single connections flow on separate data pipes, which the
//! receiver finds by [`DataPipeInfo`].

use vstd::prelude::*;

use crate::bytes::{
    copy_into, get_u16, get_u32, get_u64, overwrite, put_u16, put_u32, put_u64, u16_le, u16_of,
    u16_round_trip, u32_le, u32_of, u32_round_trip, u64_le, u64_of, u64_round_trip,
};
use crate::pipe::{required_bytes, BidirectionalPipe};

verus! {

/// Maximum payload bytes after the header.
pub const MAX_FRAME_PAYLOAD: usize = 256;

/// Errors from moving frames over a transport and from parsing them.
#[derive(Debug, Clone, Copy, PartialEq, Eq, Structural)]
pub enum CodecError {
    /// The frame header named a message type that does not exist.
    UnknownMessageType(u8),
    /// The declared payload length exceeds [`MAX_FRAME_PAYLOAD`].
    PayloadTooLarge { len: usize },
    /// The transport returned `Ok(0)`: the peer hung up.
    Closed,
    /// The payload was shorter than the layout of its message.
    ShortPayload { expected: usize, got: usize },
    /// The message type exists but not in this direction.
    UnexpectedMessage(MessageType),
}

/// Catalog of message kinds on the control pipe, one byte each on the wire.
#[derive(Debug, Clone, Copy, PartialEq, Eq, Structural)]
pub enum MessageType {
    ListenRequest,
    ListenOk,
    ConnectRequest,
    ConnectOk,
    /// Reply to [`MessageType::AcceptRequest`]; the payload is a
    /// [`ConnectionReady`].
    IncomingConnection,
    ListenErr,
    ConnectErr,
    AcceptRequest,
    /// Reply to an [`MessageType::AcceptRequest`] that cannot be fulfilled; the
    /// payload is an [`ErrPayload`].
    AcceptErr,
}

impl MessageType {
    /// The byte that stands for this message type.
    pub open spec fn code(self) -> u8 {
        match self {
            MessageType::ListenRequest => 1,
            MessageType::ListenOk => 2,
            MessageType::ConnectRequest => 3,
            MessageType::ConnectOk => 4,
            MessageType::IncomingConnection => 5,
            MessageType::ListenErr => 6,
            MessageType::ConnectErr => 7,
            MessageType::AcceptRequest => 8,
            MessageType::AcceptErr => 9,
        }
    }

    /// The message type that a byte stands for on the wire.
    pub open spec fn of_code(v: u8) -> Option<MessageType> {
        if v == 9 {
            Some(MessageType::AcceptErr)
        } else {
            MessageType::of_listed(v)
        }
    }

    /// The message type that a byte from 1 to 8 stands for.
    pub open spec fn of_listed(v: u8) -> Option<MessageType> {
        match v {
            1 => Some(MessageType::ListenRequest),
            2 => Some(MessageType::ListenOk),
            3 => Some(MessageType::ConnectRequest),
            4 => Some(MessageType::ConnectOk),
            5 => Some(MessageType::IncomingConnection),
            6 => Some(MessageType::ListenErr),
            7 => Some(MessageType::ConnectErr),
            8 => Some(MessageType::AcceptRequest),
            _ => None,
        }
    }

    /// The byte that stands for this message type.
    pub fn as_u8(self) -> (v: u8)
        ensures
            v == self.code(),
    {
        match self {
            MessageType::ListenRequest => 1,
            MessageType::ListenOk => 2,
            MessageType::ConnectRequest => 3,
            MessageType::ConnectOk => 4,
            MessageType::IncomingConnection => 5,
            MessageType::ListenErr => 6,
            MessageType::ConnectErr => 7,
            MessageType::AcceptRequest => 8,
            MessageType::AcceptErr => 9,
        }
    }

    /// The message type with code `v` from 1 to 8; `None` for every other byte.
    ///
    /// The refusal of an accept, code 9, is not in this range: see
    /// [`MessageType::from_wire`].
    pub fn from_u8(v: u8) -> (mt: Option<Self>)
        ensures
            mt == MessageType::of_listed(v),
    {
        match v {
            1 => Some(MessageType::ListenRequest),
            2 => Some(MessageType::ListenOk),
            3 => Some(MessageType::ConnectRequest),
            4 => Some(MessageType::ConnectOk),
            5 => Some(MessageType::IncomingConnection),
            6 => Some(MessageType::ListenErr),
            7 => Some(MessageType::ConnectErr),
            8 => Some(MessageType::AcceptRequest),
            _ => None,
        }
    }

    /// The message type that byte `v` of a frame header stands for: every code of
    /// the catalog, the refusal of an accept included.
    pub fn from_wire(v: u8) -> (mt: Option<Self>)
        ensures
            mt == MessageType::of_code(v),
    {
        if v == 9 {
            Some(MessageType::AcceptErr)
        } else {
            MessageType::from_u8(v)
        }
    }
}

/// Reading the byte of a message type gives the message type, and no other byte
/// gives it. The narrower reading by `from_u8` agrees but for `AcceptErr`.
pub proof fn message_type_round_trip(mt: MessageType, v: u8)
    ensures
        MessageType::of_code(mt.code()) == Some(mt),
        MessageType::of_code(v) == Some(mt) ==> v == mt.code(),
        mt != MessageType::AcceptErr ==> MessageType::of_listed(mt.code()) == Some(mt),
        MessageType::of_code(v) is Some <==> 1 <= v <= 9,
{
}

/// What a frame says.
#[verifier::ext_equal]
pub struct FrameContent {
    pub message_type: MessageType,
    pub request_id: u32,
    pub payload: Seq<u8>,
}

/// One control message in memory.
///
/// Only the first `payload_len` bytes of `payload` are valid; use
/// [`ControlFrame::payload`] to get them.
#[derive(Debug, Clone, Copy, PartialEq, Eq)]
pub struct ControlFrame {
    pub message_type: MessageType,
    pub request_id: u32,
    pub payload_len: u16,
    pub payload: [u8; MAX_FRAME_PAYLOAD],
}

impl View for ControlFrame {
    type V = FrameContent;

    open spec fn view(&self) -> FrameContent {
        FrameContent {
            message_type: self.message_type,
            request_id: self.request_id,
            payload: self.payload@.take(self.payload_len as int),
        }
    }
}

impl ControlFrame {
    /// Whether the payload length is within the buffer.
    pub open spec fn wf(&self) -> bool {
        self.payload_len <= MAX_FRAME_PAYLOAD
    }

    /// Whether the inline buffer holds only zeros behind the payload.
    pub open spec fn padded(&self) -> bool {
        forall|i: int|
            self.payload_len <= i < MAX_FRAME_PAYLOAD ==> #[trigger] self.payload@[i] == 0
    }

    /// Build a frame, copying `payload` into the inline buffer and leaving zeros
    /// behind it.
    pub fn new(message_type: MessageType, request_id: u32, payload: &[u8]) -> (frame: Self)
        requires
            payload@.len() <= MAX_FRAME_PAYLOAD,
        ensures
            frame.wf(),
            frame@ == (FrameContent { message_type, request_id, payload: payload@ }),
            frame.payload_len == payload@.len(),
            frame.padded(),
    {
        let mut frame = ControlFrame {
            message_type,
            request_id,
            payload_len: payload.len() as u16,
            payload: [0u8; MAX_FRAME_PAYLOAD],
        };
        copy_into(&mut frame.payload, 0, payload);
        assert(frame.payload@.take(payload@.len() as int) =~= payload@);
        frame
    }

    /// The valid prefix of the inline buffer.
    pub fn payload(&self) -> (bytes: &[u8])
        requires
            self.wf(),
        ensures
            bytes@ == self@.payload,
    {
        &self.payload.as_slice()[0..self.payload_len as usize]
    }
}

/// IPv4 host and port. Six bytes on the wire: four octets, then the port.
#[derive(Debug, Clone, Copy, PartialEq, Eq)]
pub struct Endpoint {
    pub host: [u8; 4],
    pub port: u16,
}

impl Endpoint {
    /// The bytes of an endpoint on the wire.
    pub open spec fn bytes(self) -> Seq<u8> {
        self.host@ + u16_le(self.port)
    }

    /// The endpoint in the first six bytes of `p`.
    pub open spec fn of(p: Seq<u8>) -> Endpoint {
        Endpoint { host: [p[0], p[1], p[2], p[3]], port: u16_of(p.subrange(4, 6)) }
    }

    pub fn new(host: [u8; 4], port: u16) -> (ep: Self)
        ensures
            ep == (Endpoint { host, port }),
    {
        Endpoint { host, port }
    }

    /// Write the endpoint at the start of `out` and return how many bytes it
    /// takes.
    pub fn encode(&self, out: &mut [u8]) -> (n: usize)
        requires
            6 <= old(out)@.len(),
        ensures
            n == 6,
            final(out)@ == overwrite(old(out)@, 0, self.bytes()),
    {
        let ghost before = out@;
        copy_into(out, 0, self.host.as_slice());
        put_u16(out, 4, self.port);
        assert(out@ =~= overwrite(before, 0, self.bytes()));
        6
    }

    /// Read an endpoint from the start of `p`.
    pub fn decode(p: &[u8]) -> (ep: Self)
        requires
            6 <= p@.len(),
        ensures
            ep == Endpoint::of(p@),
    {
        Endpoint { host: [p[0], p[1], p[2], p[3]], port: get_u16(p, 4) }
    }
}

/// How the client finds the data pipe of one connection. Sixteen bytes on the
/// wire: `pipe_id`, then `ring_size`.
#[derive(Debug, Clone, Copy, PartialEq, Eq, Structural)]
pub struct DataPipeInfo {
    /// Opaque handle agreed by both sides.
    pub pipe_id: u64,
    /// Ring capacity per direction, in bytes.
    pub ring_size: u64,
}

impl DataPipeInfo {
    pub fn new(pipe_id: u64, ring_size: u64) -> (info: Self)
        ensures
            info == (DataPipeInfo { pipe_id, ring_size }),
    {
        DataPipeInfo { pipe_id, ring_size }
    }

    /// Total bytes of shared memory that the receiver must map for this pipe.
    pub fn shm_len(self) -> (len: u64)
        requires
            required_bytes(self.ring_size as nat) <= u64::MAX,
        ensures
            len == required_bytes(self.ring_size as nat),
    {
        BidirectionalPipe::required_size(self.ring_size)
    }
}

/// Payload of a successful connect or accept. Twenty-four bytes on the wire.
///
/// `listener_id == 0` means that the connection is outbound.
#[derive(Debug, Clone, Copy, PartialEq, Eq, Structural)]
pub struct ConnectionReady {
    pub listener_id: u32,
    pub connection_id: u32,
    pub pipe: DataPipeInfo,
}

impl ConnectionReady {
    /// The bytes of the payload on the wire.
    pub open spec fn bytes(self) -> Seq<u8> {
        u32_le(self.listener_id) + u32_le(self.connection_id) + u64_le(self.pipe.pipe_id) + u64_le(
            self.pipe.ring_size,
        )
    }

    /// The payload in the first twenty-four bytes of `p`.
    pub open spec fn of(p: Seq<u8>) -> ConnectionReady {
        ConnectionReady {
            listener_id: u32_of(p.subrange(0, 4)),
            connection_id: u32_of(p.subrange(4, 8)),
            pipe: DataPipeInfo {
                pipe_id: u64_of(p.subrange(8, 16)),
                ring_size: u64_of(p.subrange(16, 24)),
            },
        }
    }

    /// Write the payload at the start of `out` and return how many bytes it
    /// takes.
    pub fn encode(&self, out: &mut [u8]) -> (n: usize)
        requires
            24 <= old(out)@.len(),
        ensures
            n == 24,
            final(out)@ == overwrite(old(out)@, 0, self.bytes()),
    {
        let ghost before = out@;
        put_u32(out, 0, self.listener_id);
        put_u32(out, 4, self.connection_id);
        put_u64(out, 8, self.pipe.pipe_id);
        put_u64(out, 16, self.pipe.ring_size);
        assert(out@ =~= overwrite(before, 0, self.bytes()));
        24
    }

    /// Read the payload from the start of `p`.
    pub fn decode(p: &[u8]) -> (ready: Self)
        requires
            24 <= p@.len(),
        ensures
            ready == ConnectionReady::of(p@),
    {
        ConnectionReady {
            listener_id: get_u32(p, 0),
            connection_id: get_u32(p, 4),
            pipe: DataPipeInfo::new(get_u64(p, 8), get_u64(p, 16)),
        }
    }
}

/// Payload of `ListenOk`. Four bytes on the wire.
#[derive(Debug, Clone, Copy, PartialEq, Eq, Structural)]
pub struct ListenerReady {
    pub listener_id: u32,
}

impl ListenerReady {
    /// Write the payload at the start of `out` and return how many bytes it
    /// takes.
    pub fn encode(&self, out: &mut [u8]) -> (n: usize)
        requires
            4 <= old(out)@.len(),
        ensures
            n == 4,
            final(out)@ == overwrite(old(out)@, 0, u32_le(self.listener_id)),
    {
        put_u32(out, 0, self.listener_id);
        4
    }

    /// Read the payload from the start of `p`.
    pub fn decode(p: &[u8]) -> (ready: Self)
        requires
            4 <= p@.len(),
        ensures
            ready.listener_id == u32_of(p@.subrange(0, 4)),
    {
        ListenerReady { listener_id: get_u32(p, 0) }
    }
}

/// Payload of `AcceptRequest`. Four bytes on the wire.
#[derive(Debug, Clone, Copy, PartialEq, Eq, Structural)]
pub struct AcceptListenerId {
    pub listener_id: u32,
}

impl AcceptListenerId {
    /// Write the payload at the start of `out` and return how many bytes it
    /// takes.
    pub fn encode(&self, out: &mut [u8]) -> (n: usize)
        requires
            4 <= old(out)@.len(),
        ensures
            n == 4,
            final(out)@ == overwrite(old(out)@, 0, u32_le(self.listener_id)),
    {
        put_u32(out, 0, self.listener_id);
        4
    }

    /// Read the payload from the start of `p`.
    pub fn decode(p: &[u8]) -> (wait: Self)
        requires
            4 <= p@.len(),
        ensures
            wait.listener_id == u32_of(p@.subrange(0, 4)),
    {
        AcceptListenerId { listener_id: get_u32(p, 0) }
    }
}

/// Payload of a refusal: an errno, or 1 where there is none. Four bytes on the
/// wire.
#[derive(Debug, Clone, Copy, PartialEq, Eq, Structural)]
pub struct ErrPayload {
    pub code: u32,
}

impl ErrPayload {
    /// Write the payload at the start of `out` and return how many bytes it
    /// takes.
    pub fn encode(&self, out: &mut [u8]) -> (n: usize)
        requires
            4 <= old(out)@.len(),
        ensures
            n == 4,
            final(out)@ == overwrite(old(out)@, 0, u32_le(self.code)),
    {
        put_u32(out, 0, self.code);
        4
    }

    /// Read the payload from the start of `p`.
    pub fn decode(p: &[u8]) -> (err: Self)
        requires
            4 <= p@.len(),
        ensures
            err.code == u32_of(p@.subrange(0, 4)),
    {
        ErrPayload { code: get_u32(p, 0) }
    }
}

/// Reading the bytes of an endpoint gives the endpoint, whatever follows them.
pub proof fn endpoint_round_trip(ep: Endpoint, rest: Seq<u8>)
    ensures
        ep.bytes().len() == 6,
        Endpoint::of(ep.bytes() + rest) == ep,
{
    let p = ep.bytes() + rest;
    assert(p.subrange(4, 6) =~= u16_le(ep.port));
    u16_round_trip(ep.port);
    assert(Endpoint::of(p).host@ =~= ep.host@);
    assert(Endpoint::of(p).host =~= ep.host);
}

/// Reading the bytes of a connection's payload gives the payload, whatever
/// follows them.
pub proof fn connection_ready_round_trip(ready: ConnectionReady, rest: Seq<u8>)
    ensures
        ready.bytes().len() == 24,
        ConnectionReady::of(ready.bytes() + rest) == ready,
{
    let p = ready.bytes() + rest;
    assert(p.subrange(0, 4) =~= u32_le(ready.listener_id));
    assert(p.subrange(4, 8) =~= u32_le(ready.connection_id));
    assert(p.subrange(8, 16) =~= u64_le(ready.pipe.pipe_id));
    assert(p.subrange(16, 24) =~= u64_le(ready.pipe.ring_size));
    u32_round_trip(ready.listener_id);
    u32_round_trip(ready.connection_id);
    u64_round_trip(ready.pipe.pipe_id);
    u64_round_trip(ready.pipe.ring_size);
}

/// A frame is known by what it says: two frames with zeros behind their payloads that
/// say the same are equal, in every byte of the inline buffer.
pub proof fn same_content_same_frame(a: ControlFrame, b: ControlFrame)
    requires
        a.wf(),
        b.wf(),
        a.padded(),
        b.padded(),
        a@ == b@,
    ensures
        a == b,
{
    assert(a@.payload.len() == a.payload_len);
    assert(b@.payload.len() == b.payload_len);
    assert forall|i: int| 0 <= i < MAX_FRAME_PAYLOAD implies a.payload@[i] == b.payload@[i] by {
        if i < a.payload_len {
            assert(a@.payload[i] == a.payload@[i]);
            assert(b@.payload[i] == b.payload@[i]);
        } else {
            assert(a.payload@[i] == 0 && b.payload@[i] == 0);
        }
    }
    assert(a.payload@ =~= b.payload@);
    assert(a.payload =~= b.payload);
}

} // verus!
