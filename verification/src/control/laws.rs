//! What goes over the wire, byte by byte, and what a session makes of it.

use vstd::prelude::*;

use crate::bytes::{
    bytes_are_read_little_endian, numbers_are_little_endian, u16_le, u32_le, u32_of, u64_le, u64_of,
};
use crate::control::arca_side::{
    accept_outcome, after_asking, answer_for, answer_to, bind_outcome, connect_outcome,
    request_bytes, stream_of, ArcaError, ArcaTcpListener, ArcaTcpStream,
};
use crate::control::codec::{
    decided, declared_len, frame_bytes, frame_result, frame_round_trip, next_frame, next_frame_len,
    parse_frame, try_read_effect,
};
use crate::control::ids::id_after;
use crate::control::message::{request_round_trip, ControlReply, ControlRequest};
use crate::control::protocol::{
    CodecError, ConnectionReady, ControlFrame, Endpoint, FrameContent, MessageType,
};
use crate::pipe::{has_room, ChannelState};

verus! {

/// The number that four bytes from `at` on stand for.
pub open spec fn number_at(s: Seq<u8>, at: int) -> int {
    s[at] + 0x100 * s[at + 1] + 0x1_0000 * s[at + 2] + 0x100_0000 * s[at + 3]
}

/// The number that eight bytes from `at` on stand for.
pub open spec fn long_number_at(s: Seq<u8>, at: int) -> int {
    number_at(s, at) + 0x1_0000_0000 * number_at(s, at + 4)
}

/// Four bytes, least significant first, stand for their number wherever they lie.
proof fn number_in_place(s: Seq<u8>, at: int)
    requires
        0 <= at,
        at + 4 <= s.len(),
    ensures
        u32_of(s.subrange(at, at + 4)) == number_at(s, at),
{
    let t = s.subrange(at, at + 4);
    let two = t.subrange(0, 2);
    bytes_are_read_little_endian(two, t, t + t);
    assert(t[0] == s[at] && t[1] == s[at + 1] && t[2] == s[at + 2] && t[3] == s[at + 3]);
}

/// Eight bytes, least significant first, stand for their number wherever they lie.
proof fn long_number_in_place(s: Seq<u8>, at: int)
    requires
        0 <= at,
        at + 8 <= s.len(),
    ensures
        u64_of(s.subrange(at, at + 8)) == long_number_at(s, at),
{
    let t = s.subrange(at, at + 8);
    bytes_are_read_little_endian(t.subrange(0, 2), t.subrange(0, 4), t);
    assert(forall|i: int| 0 <= i < 8 ==> t[i] == s[at + i]);
}

/// The codes of the message types, and what each byte of a header stands for: on the wire
/// 1 to 9, in the narrower reading 1 to 8.
pub proof fn codes_follow_the_catalog(mt: MessageType, v: u8)
    ensures
        mt.code() == match mt {
            MessageType::ListenRequest => 1u8,
            MessageType::ListenOk => 2,
            MessageType::ConnectRequest => 3,
            MessageType::ConnectOk => 4,
            MessageType::IncomingConnection => 5,
            MessageType::ListenErr => 6,
            MessageType::ConnectErr => 7,
            MessageType::AcceptRequest => 8,
            MessageType::AcceptErr => 9,
        },
        MessageType::of_code(v) == Some(mt) <==> v == mt.code(),
        MessageType::of_code(v) is None <==> v == 0 || v > 9,
        MessageType::of_listed(v) == Some(mt) <==> v == mt.code() && v != 9,
        MessageType::of_listed(v) is None <==> v == 0 || v > 8,
{
}

/// A frame on the wire: its code, the length of its payload in two bytes, its request id in
/// four, both least significant first, and then its payload.
pub proof fn frame_layout(frame: FrameContent)
    requires
        frame.payload.len() <= 256,
    ensures
        ({
            let s = frame_bytes(frame);
            &&& s.len() == 7 + frame.payload.len()
            &&& s[0] == frame.message_type.code()
            &&& s[1] + 0x100 * s[2] == frame.payload.len()
            &&& number_at(s, 3) == frame.request_id
            &&& forall|i: int|
                0 <= i < frame.payload.len() ==> s[7 + i] == #[trigger] frame.payload[i]
        }),
{
    let s = frame_bytes(frame);
    numbers_are_little_endian(frame.payload.len() as u16, frame.request_id, 0);
    assert forall|i: int| 0 <= i < frame.payload.len() implies s[7 + i]
        == #[trigger] frame.payload[i] by {}
}

/// What any bytes start with. Once the header is there its two length bytes say how long
/// the payload is; one of more than 256 bytes is refused at once. A frame that is whole
/// gives what its bytes say, unless its first byte is no code. Reading takes off the header
/// of a frame that is too long, the whole of one that is not, and all there is of one that
/// is cut short.
pub proof fn what_a_stream_starts_with(s: Seq<u8>)
    ensures
        s.len() < 7 ==> !decided(s),
        s.len() >= 7 ==> {
            let len = s[1] + 0x100 * s[2];
            &&& declared_len(s) == len
            &&& decided(s) <==> len > 256 || s.len() >= 7 + len
            &&& len > 256 ==> {
                &&& next_frame(s) == Err::<FrameContent, CodecError>(
                    CodecError::PayloadTooLarge { len: len as usize },
                )
                &&& next_frame_len(s) == 7
            }
            &&& len <= 256 && s.len() >= 7 + len ==> {
                &&& next_frame_len(s) == 7 + len
                &&& parse_frame(s) == next_frame(s)
                &&& match next_frame(s) {
                    Ok(frame) => {
                        &&& frame.message_type.code() == s[0]
                        &&& frame.request_id == number_at(s, 3)
                        &&& frame.payload.len() == len
                        &&& forall|i: int|
                            0 <= i < len ==> #[trigger] frame.payload[i] == s[7 + i]
                    },
                    Err(e) => e == CodecError::UnknownMessageType(s[0]) && (s[0] == 0 || s[0] > 9),
                }
            }
        },
        !decided(s) ==> next_frame(s) == Err::<FrameContent, CodecError>(CodecError::Closed)
            && next_frame_len(s) == s.len(),
        s.len() < 7 ==> parse_frame(s) == Err::<FrameContent, CodecError>(
            CodecError::PayloadTooLarge { len: 0 },
        ),
        s.len() >= 7 && (s[0] == 0 || s[0] > 9) ==> parse_frame(s) == Err::<
            FrameContent,
            CodecError,
        >(CodecError::UnknownMessageType(s[0])),
        s.len() >= 7 && 1 <= s[0] <= 9 && (s[1] + 0x100 * s[2] > 256 || s.len() < 7 + s[1] + 0x100
            * s[2]) ==> parse_frame(s) == Err::<FrameContent, CodecError>(
            CodecError::PayloadTooLarge { len: (s[1] + 0x100 * s[2]) as usize },
        ),
{
    if s.len() >= 7 {
        let two = s.subrange(1, 3);
        let four = s.subrange(3, 7);
        bytes_are_read_little_endian(two, four, four + four);
        assert(two[0] == s[1] && two[1] == s[2]);
        number_in_place(s, 3);
        codes_follow_the_catalog(MessageType::ListenOk, s[0]);
        if let Some(mt) = MessageType::of_code(s[0]) {
            codes_follow_the_catalog(mt, s[0]);
        }
    }
}

/// The payload of a request, byte by byte: the four octets of the host in order and the
/// port, or the listener id.
pub proof fn request_layout(request: ControlRequest)
    ensures
        ({
            let frame = request.content();
            let p = frame.payload;
            match request {
                ControlRequest::Listen { request_id, endpoint } => {
                    &&& frame.message_type == MessageType::ListenRequest
                    &&& frame.request_id == request_id
                    &&& p.len() == 6
                    &&& forall|i: int| 0 <= i < 4 ==> #[trigger] p[i] == endpoint.host[i]
                    &&& p[4] + 0x100 * p[5] == endpoint.port
                },
                ControlRequest::Connect { request_id, endpoint } => {
                    &&& frame.message_type == MessageType::ConnectRequest
                    &&& frame.request_id == request_id
                    &&& p.len() == 6
                    &&& forall|i: int| 0 <= i < 4 ==> #[trigger] p[i] == endpoint.host[i]
                    &&& p[4] + 0x100 * p[5] == endpoint.port
                },
                ControlRequest::Accept { request_id, listener_id } => {
                    &&& frame.message_type == MessageType::AcceptRequest
                    &&& frame.request_id == request_id
                    &&& p.len() == 4
                    &&& number_at(p, 0) == listener_id
                },
            }
        }),
        request.id() == request.content().request_id,
{
    match request {
        ControlRequest::Listen { endpoint, .. } | ControlRequest::Connect { endpoint, .. } => {
            endpoint_layout(endpoint);
        },
        ControlRequest::Accept { listener_id, .. } => {
            numbers_are_little_endian(0, listener_id, 0);
        },
    }
}

/// An endpoint on the wire: four octets in order, then the port, least significant byte
/// first.
pub proof fn endpoint_layout(endpoint: Endpoint)
    ensures
        endpoint.bytes().len() == 6,
        forall|i: int| 0 <= i < 4 ==> #[trigger] endpoint.bytes()[i] == endpoint.host[i],
        endpoint.bytes()[4] + 0x100 * endpoint.bytes()[5] == endpoint.port,
{
    numbers_are_little_endian(endpoint.port, 0, 0);
    let s = endpoint.bytes();
    assert forall|i: int| 0 <= i < 4 implies #[trigger] s[i] == endpoint.host[i] by {
        assert(s[i] == endpoint.host@[i]);
    }
    assert(s[4] == u16_le(endpoint.port)[0]);
    assert(s[5] == u16_le(endpoint.port)[1]);
}

/// The payload of a new connection on the wire: listener id, connection id, pipe id, ring
/// size.
pub proof fn ready_layout(ready: ConnectionReady)
    ensures
        ready.bytes().len() == 24,
        number_at(ready.bytes(), 0) == ready.listener_id,
        number_at(ready.bytes(), 4) == ready.connection_id,
        long_number_at(ready.bytes(), 8) == ready.pipe.pipe_id,
        long_number_at(ready.bytes(), 16) == ready.pipe.ring_size,
{
    let s = ready.bytes();
    numbers_are_little_endian(0, ready.listener_id, ready.pipe.pipe_id);
    numbers_are_little_endian(0, ready.connection_id, ready.pipe.ring_size);
    let a = u32_le(ready.listener_id);
    let b = u32_le(ready.connection_id);
    let c = u64_le(ready.pipe.pipe_id);
    let d = u64_le(ready.pipe.ring_size);
    assert(forall|i: int| 0 <= i < 4 ==> s[i] == a[i]);
    assert(forall|i: int| 0 <= i < 4 ==> s[4 + i] == b[i]);
    assert(forall|i: int| 0 <= i < 8 ==> s[8 + i] == c[i]);
    assert(forall|i: int| 0 <= i < 8 ==> s[16 + i] == d[i]);
    assert(number_at(s, 0) == number_at(a, 0));
    assert(number_at(s, 4) == number_at(b, 0));
    assert(long_number_at(s, 8) == long_number_at(c, 0));
    assert(long_number_at(s, 16) == long_number_at(d, 0));
}

/// The frame of a reply: its type, its id, and its payload byte by byte.
pub proof fn reply_layout(reply: ControlReply)
    ensures
        reply.id() == reply.content().request_id,
        reply.kind() == reply.content().message_type,
        ({
            let frame = reply.content();
            let p = frame.payload;
            match reply {
                ControlReply::ListenOk { request_id, listener_id } => {
                    &&& frame.message_type == MessageType::ListenOk
                    &&& frame.request_id == request_id
                    &&& p.len() == 4
                    &&& number_at(p, 0) == listener_id
                },
                ControlReply::ListenErr { request_id, code } => {
                    &&& frame.message_type == MessageType::ListenErr
                    &&& frame.request_id == request_id
                    &&& p.len() == 4
                    &&& number_at(p, 0) == code
                },
                ControlReply::ConnectOk { request_id, ready } => {
                    &&& frame.message_type == MessageType::ConnectOk
                    &&& frame.request_id == request_id
                    &&& says_ready(p, ready)
                },
                ControlReply::ConnectErr { request_id, code } => {
                    &&& frame.message_type == MessageType::ConnectErr
                    &&& frame.request_id == request_id
                    &&& p.len() == 4
                    &&& number_at(p, 0) == code
                },
                ControlReply::AcceptOk { request_id, ready } => {
                    &&& frame.message_type == MessageType::IncomingConnection
                    &&& frame.request_id == request_id
                    &&& says_ready(p, ready)
                },
                ControlReply::AcceptErr { request_id, code } => {
                    &&& frame.message_type == MessageType::AcceptErr
                    &&& frame.request_id == request_id
                    &&& p.len() == 4
                    &&& number_at(p, 0) == code
                },
            }
        }),
{
    match reply {
        ControlReply::ConnectOk { ready, .. } | ControlReply::AcceptOk { ready, .. } => {
            ready_layout(ready);
        },
        ControlReply::ListenOk { listener_id, .. } => {
            numbers_are_little_endian(0, listener_id, 0);
        },
        ControlReply::ListenErr { code, .. } | ControlReply::ConnectErr { code, .. }
        | ControlReply::AcceptErr { code, .. } => {
            numbers_are_little_endian(0, code, 0);
        },
    }
}

/// Whether twenty-four bytes say what a new connection is.
pub open spec fn says_ready(p: Seq<u8>, ready: ConnectionReady) -> bool {
    &&& p.len() == 24
    &&& number_at(p, 0) == ready.listener_id
    &&& number_at(p, 4) == ready.connection_id
    &&& long_number_at(p, 8) == ready.pipe.pipe_id
    &&& long_number_at(p, 16) == ready.pipe.ring_size
}

/// The error of a payload of `got` bytes where `expected` are needed.
pub open spec fn too_short(expected: nat, got: nat) -> CodecError {
    CodecError::ShortPayload { expected: expected as usize, got: got as usize }
}

/// What any frame is as a request: a listen or connect request with the host and port that
/// its first six bytes say, an accept request with the listener that its first four bytes
/// say, an error where they are missing, and a refusal for every other type.
pub proof fn what_a_frame_asks_for(frame: FrameContent)
    ensures
        ({
            let p = frame.payload;
            match frame.message_type {
                MessageType::ListenRequest => match ControlRequest::of(frame) {
                    Ok(ControlRequest::Listen { request_id, endpoint }) => {
                        &&& request_id == frame.request_id
                        &&& says_endpoint(p, endpoint)
                    },
                    Ok(_) => false,
                    Err(e) => p.len() < 6 && e == too_short(6, p.len()),
                },
                MessageType::ConnectRequest => match ControlRequest::of(frame) {
                    Ok(ControlRequest::Connect { request_id, endpoint }) => {
                        &&& request_id == frame.request_id
                        &&& says_endpoint(p, endpoint)
                    },
                    Ok(_) => false,
                    Err(e) => p.len() < 6 && e == too_short(6, p.len()),
                },
                MessageType::AcceptRequest => match ControlRequest::of(frame) {
                    Ok(ControlRequest::Accept { request_id, listener_id }) => {
                        &&& request_id == frame.request_id
                        &&& p.len() >= 4
                        &&& listener_id == number_at(p, 0)
                    },
                    Ok(_) => false,
                    Err(e) => p.len() < 4 && e == too_short(4, p.len()),
                },
                other => ControlRequest::of(frame) == Err::<ControlRequest, CodecError>(
                    CodecError::UnexpectedMessage(other),
                ),
            }
        }),
{
    let p = frame.payload;
    if p.len() >= 4 {
        number_in_place(p, 0);
    }
    if p.len() >= 6 {
        endpoint_in_place(p);
    }
}

/// Whether the first six bytes say this endpoint.
pub open spec fn says_endpoint(p: Seq<u8>, endpoint: Endpoint) -> bool {
    &&& p.len() >= 6
    &&& forall|i: int| 0 <= i < 4 ==> #[trigger] endpoint.host[i] == p[i]
    &&& endpoint.port == p[4] + 0x100 * p[5]
}

/// An endpoint is what its six bytes say.
proof fn endpoint_in_place(p: Seq<u8>)
    requires
        p.len() >= 6,
    ensures
        says_endpoint(p, Endpoint::of(p)),
{
    let two = p.subrange(4, 6);
    let four = p.subrange(0, 4);
    bytes_are_read_little_endian(two, four, four + four);
    assert(two[0] == p[4] && two[1] == p[5]);
    let host = Endpoint::of(p).host;
    assert forall|i: int| 0 <= i < 4 implies #[trigger] host[i] == p[i] by {
        assert(host@[i] == p[i]);
    }
}

/// A new connection is what its twenty-four bytes say.
proof fn ready_in_place(p: Seq<u8>)
    requires
        p.len() >= 24,
    ensures
        says_ready(p.take(24), ConnectionReady::of(p)),
{
    let t = p.take(24);
    number_in_place(p, 0);
    number_in_place(p, 4);
    long_number_in_place(p, 8);
    long_number_in_place(p, 16);
    assert(forall|i: int| 0 <= i < 24 ==> t[i] == p[i]);
    assert(number_at(t, 0) == number_at(p, 0));
    assert(number_at(t, 4) == number_at(p, 4));
    assert(long_number_at(t, 8) == long_number_at(p, 8));
    assert(long_number_at(t, 16) == long_number_at(p, 16));
}

/// What any frame is as a reply: of the kind that its type says, with its request id and
/// with the numbers that its payload says; an error where the payload is too short, and a
/// refusal for the types of requests.
pub proof fn what_a_frame_answers(frame: FrameContent)
    ensures
        ({
            let p = frame.payload;
            match ControlReply::of(frame) {
                Ok(reply) => {
                    &&& reply.id() == frame.request_id
                    &&& reply.kind() == frame.message_type
                    &&& match reply {
                        ControlReply::ListenOk { listener_id, .. } => p.len() >= 4 && listener_id
                            == number_at(p, 0),
                        ControlReply::ListenErr { code, .. } => p.len() >= 4 && code == number_at(
                            p,
                            0,
                        ),
                        ControlReply::ConnectErr { code, .. } => p.len() >= 4 && code == number_at(
                            p,
                            0,
                        ),
                        ControlReply::AcceptErr { code, .. } => p.len() >= 4 && code == number_at(
                            p,
                            0,
                        ),
                        ControlReply::ConnectOk { ready, .. } => p.len() >= 24 && says_ready(
                            p.take(24),
                            ready,
                        ),
                        ControlReply::AcceptOk { ready, .. } => p.len() >= 24 && says_ready(
                            p.take(24),
                            ready,
                        ),
                    }
                },
                Err(e) => match frame.message_type {
                    MessageType::ListenRequest
                    | MessageType::ConnectRequest
                    | MessageType::AcceptRequest => e == CodecError::UnexpectedMessage(
                        frame.message_type,
                    ),
                    MessageType::ConnectOk | MessageType::IncomingConnection => p.len() < 24 && e
                        == too_short(24, p.len()),
                    _ => p.len() < 4 && e == too_short(4, p.len()),
                },
            }
        }),
{
    let p = frame.payload;
    if p.len() >= 4 {
        number_in_place(p, 0);
    }
    if p.len() >= 24 {
        ready_in_place(p);
    }
}

/// What a call of the session puts on the transport, where there is room, is one frame,
/// behind all that was sent before, and whoever reads it finds the very request: the
/// caller's endpoint or listener, under the session's request id. Where there is no room it
/// is a part of that frame. Nothing else is sent, and exactly the first frame to come is
/// taken off.
pub proof fn a_request_is_sent_as_asked(state: ChannelState, request: ControlRequest)
    requires
        request.content().payload.len() <= 256,
    ensures
        ({
            let after = after_asking(state, request);
            let before = state.outgoing.len() as int;
            let sent = after.outgoing.skip(before);
            &&& after.outgoing.len() >= before
            &&& after.outgoing.take(before) == state.outgoing
            &&& (state.room is None || state.room->0 >= request_bytes(request).len()) ==> {
                &&& next_frame(sent) == Ok::<FrameContent, CodecError>(request.content())
                &&& next_frame_len(sent) == sent.len()
                &&& ControlRequest::of(request.content()) == Ok::<ControlRequest, CodecError>(
                    request,
                )
                &&& after.incoming == state.incoming.skip(next_frame_len(state.incoming) as int)
                &&& answer_for(state, request) == answer_to(request.id(), state.incoming)
            }
            &&& (state.room is Some && state.room->0 < request_bytes(request).len()) ==> {
                &&& sent.len() == state.room->0
                &&& after.incoming == state.incoming
                &&& answer_for(state, request) == Err::<FrameContent, ArcaError>(
                    ArcaError::Codec(CodecError::Closed),
                )
            }
        }),
{
    let after = after_asking(state, request);
    let before = state.outgoing.len() as int;
    let bytes = request_bytes(request);
    let sent = after.outgoing.skip(before);
    assert(after.outgoing.take(before) =~= state.outgoing);
    request_round_trip(request);
    if has_room(state.room, bytes.len()) {
        frame_round_trip(request.content(), seq![]);
        assert(bytes.take(bytes.len() as int) =~= bytes);
        assert(sent =~= frame_bytes(request.content()) + seq![]);
    }
}

/// The same in bytes: the frame of a listen or connect request carries the octets of the
/// caller's host in their order, and the caller's port.
pub proof fn a_request_carries_the_callers_endpoint(
    state: ChannelState,
    request: ControlRequest,
    endpoint: Endpoint,
)
    requires
        state.room is None,
        request matches ControlRequest::Listen { endpoint: e, .. } && e == endpoint || (
        request matches ControlRequest::Connect { endpoint: e, .. } && e == endpoint),
    ensures
        ({
            let s = after_asking(state, request).outgoing.skip(state.outgoing.len() as int);
            &&& s.len() == 13
            &&& s[0] == if request is Listen {
                1u8
            } else {
                3
            }
            &&& s[1] == 6 && s[2] == 0
            &&& number_at(s, 3) == request.id()
            &&& s[7] == endpoint.host[0]
            &&& s[8] == endpoint.host[1]
            &&& s[9] == endpoint.host[2]
            &&& s[10] == endpoint.host[3]
            &&& s[11] + 0x100 * s[12] == endpoint.port
        }),
{
    let bytes = request_bytes(request);
    let s = after_asking(state, request).outgoing.skip(state.outgoing.len() as int);
    request_layout(request);
    frame_layout(request.content());
    assert(bytes.take(bytes.len() as int) =~= bytes);
    assert(s =~= frame_bytes(request.content()));
    let p = request.content().payload;
    assert(s[7int + 0] == p[0] && s[7int + 1] == p[1]);
    assert(s[7int + 2] == p[2] && s[7int + 3] == p[3]);
    assert(s[7int + 4] == p[4] && s[7int + 5] == p[5]);
}

/// The frame of an accept request carries the listener that the caller named.
pub proof fn a_request_carries_the_callers_listener(
    state: ChannelState,
    request_id: u32,
    listener_id: u32,
)
    requires
        state.room is None,
    ensures
        ({
            let request = ControlRequest::Accept { request_id, listener_id };
            let s = after_asking(state, request).outgoing.skip(state.outgoing.len() as int);
            &&& s.len() == 11
            &&& s[0] == 8
            &&& s[1] == 4 && s[2] == 0
            &&& number_at(s, 3) == request_id
            &&& number_at(s, 7) == listener_id
        }),
{
    let request = ControlRequest::Accept { request_id, listener_id };
    let bytes = request_bytes(request);
    let s = after_asking(state, request).outgoing.skip(state.outgoing.len() as int);
    request_layout(request);
    frame_layout(request.content());
    assert(bytes.take(bytes.len() as int) =~= bytes);
    assert(s =~= frame_bytes(request.content()));
    let p = request.content().payload;
    assert(s[7int + 0] == p[0] && s[7int + 1] == p[1]);
    assert(s[7int + 2] == p[2] && s[7int + 3] == p[3]);
}

/// Which answer a session takes from any stream: the first frame, if it carries the id of
/// the request and is no request itself. Everything else is an error that says what was
/// found.
pub proof fn an_answer_is_the_first_frame(rid: u32, stream: Seq<u8>)
    ensures
        match next_frame(stream) {
            Err(e) => answer_to(rid, stream) == Err::<FrameContent, ArcaError>(
                ArcaError::Codec(e),
            ),
            Ok(frame) => answer_to(rid, stream) == if frame.request_id != rid {
                Err::<FrameContent, ArcaError>(
                    ArcaError::UnexpectedRequestId { expected: rid, got: frame.request_id },
                )
            } else {
                match frame.message_type {
                    MessageType::ListenRequest
                    | MessageType::ConnectRequest
                    | MessageType::AcceptRequest => Err(
                        ArcaError::UnexpectedReply(frame.message_type),
                    ),
                    _ => Ok(frame),
                }
            },
        },
{
}

/// What the three calls make of any answer: the handle or the code that its payload says if
/// it is of the right kind, an error about the payload if that is too short, and its type if
/// it is of another kind. An error stays the error that it is.
pub proof fn what_an_answer_means(answer: Result<FrameContent, ArcaError>)
    ensures
        match answer {
            Err(e) => {
                &&& bind_outcome(answer) == Err::<ArcaTcpListener, ArcaError>(e)
                &&& connect_outcome(answer) == Err::<ArcaTcpStream, ArcaError>(e)
                &&& accept_outcome(answer) == Err::<ArcaTcpStream, ArcaError>(e)
            },
            Ok(frame) => {
                let p = frame.payload;
                let other = ArcaError::UnexpectedReply(frame.message_type);
                let number_missing = ArcaError::Codec(too_short(4, p.len()));
                let ready_missing = ArcaError::Codec(too_short(24, p.len()));
                &&& match bind_outcome(answer) {
                    Ok(listener) => {
                        &&& frame.message_type == MessageType::ListenOk
                        &&& p.len() >= 4
                        &&& listener.listener_id == number_at(p, 0)
                    },
                    Err(e) => match frame.message_type {
                        MessageType::ListenOk => p.len() < 4 && e == number_missing,
                        MessageType::ListenErr => if p.len() < 4 {
                            e == number_missing
                        } else {
                            e == (ArcaError::ListenFailed { code: number_at(p, 0) as u32 })
                        },
                        _ => e == other,
                    },
                }
                &&& match connect_outcome(answer) {
                    Ok(stream) => {
                        &&& frame.message_type == MessageType::ConnectOk
                        &&& p.len() >= 24
                        &&& says_stream(p, stream)
                    },
                    Err(e) => match frame.message_type {
                        MessageType::ConnectOk => p.len() < 24 && e == ready_missing,
                        MessageType::ConnectErr => if p.len() < 4 {
                            e == number_missing
                        } else {
                            e == (ArcaError::ConnectFailed { code: number_at(p, 0) as u32 })
                        },
                        _ => e == other,
                    },
                }
                &&& match accept_outcome(answer) {
                    Ok(stream) => {
                        &&& frame.message_type == MessageType::IncomingConnection
                        &&& p.len() >= 24
                        &&& says_stream(p, stream)
                    },
                    Err(e) => match frame.message_type {
                        MessageType::IncomingConnection => p.len() < 24 && e == ready_missing,
                        MessageType::AcceptErr => if p.len() < 4 {
                            e == number_missing
                        } else {
                            e == (ArcaError::AcceptFailed { code: number_at(p, 0) as u32 })
                        },
                        _ => e == other,
                    },
                }
            },
        },
{
    if let Ok(frame) = answer {
        let p = frame.payload;
        if p.len() >= 4 {
            number_in_place(p, 0);
        }
        if p.len() >= 24 {
            ready_in_place(p);
            let t = p.take(24);
            assert(forall|i: int| 0 <= i < 24 ==> t[i] == p[i]);
            assert(number_at(t, 0) == number_at(p, 0) && number_at(t, 4) == number_at(p, 4));
            assert(long_number_at(t, 8) == long_number_at(p, 8));
            assert(long_number_at(t, 16) == long_number_at(p, 16));
        }
    }
}

/// Whether the first twenty-four bytes say this handle.
pub open spec fn says_stream(p: Seq<u8>, stream: ArcaTcpStream) -> bool {
    &&& number_at(p, 0) == stream.listener_id
    &&& number_at(p, 4) == stream.connection_id
    &&& long_number_at(p, 8) == stream.pipe.pipe_id
    &&& long_number_at(p, 16) == stream.pipe.ring_size
}

/// A handle says what the announcement said.
pub proof fn a_handle_says_what_was_announced(ready: ConnectionReady)
    ensures
        stream_of(ready).listener_id == ready.listener_id,
        stream_of(ready).connection_id == ready.connection_id,
        stream_of(ready).pipe == ready.pipe,
{
}

/// Ids count upwards by one; behind the largest comes 1.
pub proof fn ids_count_upwards(id: u32)
    ensures
        id < 0xffff_ffff ==> id_after(id) == id + 1,
        id == 0xffff_ffff ==> id_after(id) == 1,
{
}

/// The decoder loses nothing: a call that gives no frame, for want of bytes or with an
/// error, leaves the whole stream, and an error is the one that the stream starts with. It
/// reads nothing while it has a whole frame, and else, as far as the transport gives, as
/// many bytes as the longest frame has.
pub proof fn the_decoder_loses_nothing(
    kept: Seq<u8>,
    left: Seq<u8>,
    before: ChannelState,
    after: ChannelState,
    settled: bool,
    r: Result<Option<ControlFrame>, CodecError>,
)
    requires
        try_read_effect(kept, left, before, after, settled, r),
    ensures
        after.outgoing == before.outgoing,
        after.room == before.room,
        decided(kept) ==> after.incoming == before.incoming,
        settled && before.greedy && !decided(kept) ==> kept.len() + before.incoming.len()
            == after.incoming.len() + if kept.len() + before.incoming.len() <= 263 {
            (kept.len() + before.incoming.len()) as int
        } else {
            263
        },
        match r {
            Ok(Some(frame)) => {
                &&& next_frame(kept + before.incoming) == Ok::<FrameContent, CodecError>(frame@)
                &&& left + after.incoming == (kept + before.incoming).skip(
                    7 + frame.payload_len as int,
                )
            },
            Ok(None) => {
                &&& left + after.incoming == kept + before.incoming
                &&& settled && before.greedy ==> !before.hangs_up
                &&& left.len() >= 7 ==> {
                    &&& left[1] + 0x100 * left[2] <= 256
                    &&& left.len() < 7 + left[1] + 0x100 * left[2]
                }
            },
            Err(e) => {
                &&& left + after.incoming == kept + before.incoming
                &&& next_frame(kept + before.incoming) == Err::<FrameContent, CodecError>(e)
            },
        },
{
    let stream = kept + before.incoming;
    assert(stream.skip(0) =~= stream);
    what_a_stream_starts_with(stream);
    what_a_stream_starts_with(left);
    assert((left + after.incoming).len() == left.len() + after.incoming.len());
    if let Ok(Some(frame)) = r {
        assert(frame@.payload.len() == frame.payload_len);
        assert(stream.skip(next_frame_len(stream) as int).len() == stream.len() - next_frame_len(
            stream,
        ));
    }
}

/// A decoder that was to give a frame or an error gives that error, or the frame with its
/// type, its id and its payload at the start of the inline buffer, and zeros behind it.
pub proof fn a_decoded_frame_holds_its_content(
    r: Result<ControlFrame, CodecError>,
    expected: Result<FrameContent, CodecError>,
)
    requires
        frame_result(r, expected),
    ensures
        match (r, expected) {
            (Ok(frame), Ok(content)) => {
                &&& frame.message_type == content.message_type
                &&& frame.request_id == content.request_id
                &&& frame.payload_len == content.payload.len()
                &&& frame.payload_len <= 256
                &&& forall|i: int|
                    0 <= i < 256 ==> #[trigger] frame.payload@[i] == if i < frame.payload_len {
                        content.payload[i]
                    } else {
                        0
                    }
            },
            (Err(e), Err(f)) => e == f,
            _ => false,
        },
{
    if let Ok(frame) = r {
        let content = expected->Ok_0;
        assert forall|i: int| 0 <= i < 256 implies #[trigger] frame.payload@[i] == if i
            < frame.payload_len {
            content.payload[i]
        } else {
            0
        } by {
            if i < frame.payload_len {
                assert(frame@.payload[i] == frame.payload@[i]);
            }
        }
    }
}

} // verus!
