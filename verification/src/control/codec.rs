//! Reading and writing [`ControlFrame`] values on a byte stream.

use vstd::prelude::*;

use crate::bytes::{
    get_u16, get_u32, put_u16, put_u32, u16_bytes_round_trip, u16_le, u16_of, u16_round_trip,
    u32_bytes_round_trip, u32_le, u32_of, u32_round_trip,
};
use crate::control::protocol::{
    message_type_round_trip, same_content_same_frame, CodecError, ControlFrame, FrameContent,
    MessageType, MAX_FRAME_PAYLOAD,
};
use crate::pipe::{
    accepted, after_writing, can_send, continues, has_room, less, ChannelState, PipeError, Read,
    Write,
};

verus! {

/// Message type, payload length and request id.
pub const HEADER_LEN: usize = 7;

/// Largest frame on the wire: header and full payload.
pub const MAX_WIRE_FRAME_LEN: usize = HEADER_LEN + MAX_FRAME_PAYLOAD;

/// Outside function `core::hint::spin_loop`: tells the processor that the caller
/// spins. It takes nothing and returns nothing; only that it returns is claimed.
pub assume_specification[ core::hint::spin_loop ]()
;

/// The bytes of a frame on the wire.
pub open spec fn frame_bytes(frame: FrameContent) -> Seq<u8> {
    seq![frame.message_type.code()] + u16_le(frame.payload.len() as u16) + u32_le(frame.request_id)
        + frame.payload
}

/// The payload length that a frame header declares.
pub open spec fn declared_len(s: Seq<u8>) -> nat {
    u16_of(s.subrange(1, 3)) as nat
}

/// Whether `s` decides its first frame: it starts with a whole frame, or with a
/// header that declares too long a payload.
pub open spec fn decided(s: Seq<u8>) -> bool {
    s.len() >= HEADER_LEN && (declared_len(s) > MAX_FRAME_PAYLOAD || s.len() >= HEADER_LEN
        + declared_len(s))
}

/// The frame that `s` starts with, or why it starts with none.
pub open spec fn parse_frame(s: Seq<u8>) -> Result<FrameContent, CodecError> {
    if s.len() < HEADER_LEN {
        Err(CodecError::PayloadTooLarge { len: 0 })
    } else {
        match MessageType::of_code(s[0]) {
            None => Err(CodecError::UnknownMessageType(s[0])),
            Some(message_type) => if declared_len(s) > MAX_FRAME_PAYLOAD || s.len() < HEADER_LEN
                + declared_len(s) {
                Err(CodecError::PayloadTooLarge { len: declared_len(s) as usize })
            } else {
                Ok(
                    FrameContent {
                        message_type,
                        request_id: u32_of(s.subrange(3, 7)),
                        payload: s.subrange(
                            HEADER_LEN as int,
                            HEADER_LEN + declared_len(s),
                        ),
                    },
                )
            },
        }
    }
}

/// What reading one frame from the byte stream `s` gives, once its fate is known.
/// A length that is too large is found before the message type is looked at.
pub open spec fn next_frame(s: Seq<u8>) -> Result<FrameContent, CodecError> {
    if !decided(s) {
        Err(CodecError::Closed)
    } else if declared_len(s) > MAX_FRAME_PAYLOAD {
        Err(CodecError::PayloadTooLarge { len: declared_len(s) as usize })
    } else {
        parse_frame(s)
    }
}

/// How many bytes of `s` reading one frame takes off the stream.
pub open spec fn next_frame_len(s: Seq<u8>) -> nat {
    if !decided(s) {
        s.len()
    } else if declared_len(s) > MAX_FRAME_PAYLOAD {
        HEADER_LEN as nat
    } else {
        HEADER_LEN as nat + declared_len(s)
    }
}

/// Whether `r` is the frame or the error that `expected` says.
pub open spec fn frame_result(
    r: Result<ControlFrame, CodecError>,
    expected: Result<FrameContent, CodecError>,
) -> bool {
    match r {
        Ok(frame) => {
            &&& frame.wf()
            &&& frame.padded()
            &&& expected == Ok::<FrameContent, CodecError>(frame@)
        },
        Err(e) => expected == Err::<FrameContent, CodecError>(e),
    }
}

/// Write all of `src`, waiting for room as long as it takes.
fn write_all<T: Write>(transport: &mut T, src: &[u8]) -> (r: Result<(), CodecError>)
    requires
        old(transport).wf(),
        can_send(old(transport).state(), src@),
    ensures
        r is Ok <==> has_room(old(transport).state().room, src@.len()),
        r is Err ==> r == Err::<(), CodecError>(CodecError::Closed),
        final(transport).state() == after_writing(old(transport).state(), src@),
        continues(*old(transport), *final(transport)),
{
    let total: usize = src.len();
    let mut sent: usize = 0;
    let ghost start = *transport;
    while sent < total
        invariant
            sent <= total,
            total == src@.len(),
            start == *old(transport),
            can_send(start.state(), src@),
            has_room(start.state().room, sent as nat),
            continues(start, *transport),
            transport.state() == (ChannelState {
                outgoing: start.state().outgoing + src@.take(sent as int),
                room: less(start.state().room, sent as nat),
                endurance: less(start.state().endurance, sent as nat),
                ..start.state()
            }),
        decreases total - sent, transport.stalls(),
    {
        let rest: &[u8] = &src[sent..total];
        match transport.write(rest) {
            Ok(0) => {
                assert(src@.take(sent as int) + rest@.take(0) =~= src@.take(sent as int));
                return Err(CodecError::Closed);
            },
            Ok(n) => {
                proof {
                    assert(src@.take(sent as int) + rest@.take(n as int) =~= src@.take(
                        (sent + n) as int,
                    ));
                    assert(start.state().outgoing + src@.take(sent as int) + rest@.take(n as int)
                        =~= start.state().outgoing + src@.take((sent + n) as int));
                }
                sent = sent + n;
            },
            Err(PipeError::WouldBlock) => {
                core::hint::spin_loop();
            },
        }
    }
    assert(src@.take(total as int) =~= src@);
    Ok(())
}

/// Writing two pieces in a row is writing them as one.
proof fn writing_in_pieces(before: ChannelState, a: Seq<u8>, b: Seq<u8>)
    requires
        has_room(before.endurance, accepted(before.room, (a + b).len())),
    ensures
        has_room(before.room, a.len()) ==> after_writing(after_writing(before, a), b)
            == after_writing(before, a + b),
        !has_room(before.room, a.len()) ==> after_writing(before, a) == after_writing(
            before,
            a + b,
        ),
{
    let n = accepted(before.room, (a + b).len());
    let mid = after_writing(before, a);
    if has_room(before.room, a.len()) {
        let m = accepted(mid.room, b.len());
        assert(n == a.len() + m);
        assert(a.take(a.len() as int) =~= a);
        assert((a + b).take(n as int) =~= a + b.take(m as int));
        assert(before.outgoing + a + b.take(m as int) =~= before.outgoing + (a + b.take(
            m as int,
        )));
    } else {
        assert((a + b).take(n as int) =~= a.take(n as int));
    }
}

/// Write one frame, waiting for room as long as it takes.
pub fn write_frame<T: Write>(transport: &mut T, frame: &ControlFrame) -> (r: Result<(), CodecError>)
    requires
        old(transport).wf(),
        frame.wf(),
        can_send(old(transport).state(), frame_bytes(frame@)),
    ensures
        r is Ok <==> has_room(old(transport).state().room, frame_bytes(frame@).len()),
        r is Err ==> r == Err::<(), CodecError>(CodecError::Closed),
        final(transport).state() == after_writing(old(transport).state(), frame_bytes(frame@)),
        continues(*old(transport), *final(transport)),
{
    let mut header: [u8; HEADER_LEN] = [0u8; HEADER_LEN];
    header[0] = frame.message_type.as_u8();
    put_u16(&mut header, 1, frame.payload_len);
    put_u32(&mut header, 3, frame.request_id);
    let ghost start = *transport;
    let ghost head = header@;
    let ghost body = frame@.payload;
    proof {
        assert(head =~= seq![frame.message_type.code()] + u16_le(frame.payload_len) + u32_le(
            frame.request_id,
        ));
        assert(frame_bytes(frame@) =~= head + body);
        writing_in_pieces(start.state(), head, body);
    }
    write_all(transport, &header)?;
    write_all(transport, frame.payload())?;
    Ok(())
}

/// Fill all of `dst`, waiting for bytes as long as it takes.
fn read_exact<T: Read>(transport: &mut T, dst: &mut [u8]) -> (r: Result<(), CodecError>)
    requires
        old(transport).wf(),
        old(transport).state().hangs_up || old(transport).state().incoming.len() >= old(dst)@.len(),
    ensures
        r is Ok <==> old(transport).state().incoming.len() >= old(dst)@.len(),
        r is Err ==> r == Err::<(), CodecError>(CodecError::Closed),
        final(dst)@.len() == old(dst)@.len(),
        r is Ok ==> final(dst)@ == old(transport).state().incoming.take(old(dst)@.len() as int),
        final(transport).state() == (ChannelState {
            incoming: old(transport).state().incoming.skip(
                if r is Ok {
                    old(dst)@.len() as int
                } else {
                    old(transport).state().incoming.len() as int
                },
            ),
            ..old(transport).state()
        }),
        continues(*old(transport), *final(transport)),
{
    let total: usize = dst.len();
    let mut filled: usize = 0;
    let ghost start = *transport;
    let ghost all = start.state().incoming;
    while filled < total
        invariant
            filled <= total,
            total == old(dst)@.len(),
            dst@.len() == total,
            start == *old(transport),
            all == start.state().incoming,
            filled <= all.len(),
            start.state().hangs_up || all.len() >= total,
            continues(start, *transport),
            dst@.take(filled as int) == all.take(filled as int),
            transport.state() == (ChannelState {
                incoming: all.skip(filled as int),
                ..start.state()
            }),
        decreases total - filled, transport.stalls(),
    {
        let ghost had = dst@;
        let (_, rest) = dst.split_at_mut(filled);
        match transport.read(rest) {
            Ok(0) => {
                proof {
                    assert(all.skip(filled as int).skip(0) =~= all.skip(all.len() as int));
                }
                return Err(CodecError::Closed);
            },
            Ok(n) => {
                proof {
                    assert(all.skip(filled as int).skip(n as int) =~= all.skip(
                        (filled + n) as int,
                    ));
                    assert(dst@.take((filled + n) as int) =~= all.take((filled + n) as int)) by {
                        assert(all.take((filled + n) as int) =~= all.take(filled as int)
                            + all.skip(filled as int).take(n as int));
                        assert(dst@.take((filled + n) as int) =~= had.take(filled as int)
                            + all.skip(filled as int).take(n as int));
                    }
                }
                filled = filled + n;
            },
            Err(PipeError::WouldBlock) => {
                proof {
                    assert(dst@ =~= had);
                }
                core::hint::spin_loop();
            },
        }
    }
    assert(dst@.take(total as int) =~= dst@);
    Ok(())
}

/// Decode the frame that `buf` starts with.
pub fn decode_frame_from_prefix(buf: &[u8]) -> (r: Result<ControlFrame, CodecError>)
    ensures
        frame_result(r, parse_frame(buf@)),
{
    if buf.len() < HEADER_LEN {
        return Err(CodecError::PayloadTooLarge { len: 0 });
    }
    let message_type: MessageType = match MessageType::from_wire(buf[0]) {
        Some(message_type) => message_type,
        None => return Err(CodecError::UnknownMessageType(buf[0])),
    };
    let payload_len: usize = get_u16(buf, 1) as usize;
    if payload_len > MAX_FRAME_PAYLOAD {
        return Err(CodecError::PayloadTooLarge { len: payload_len });
    }
    let total: usize = HEADER_LEN + payload_len;
    if buf.len() < total {
        return Err(CodecError::PayloadTooLarge { len: payload_len });
    }
    let request_id: u32 = get_u32(buf, 3);
    Ok(ControlFrame::new(message_type, request_id, &buf[HEADER_LEN..total]))
}

/// Read one frame, waiting for bytes as long as it takes.
///
/// A header that declares too long a payload is refused as soon as it is there.
pub fn read_frame<T: Read>(transport: &mut T) -> (r: Result<ControlFrame, CodecError>)
    requires
        old(transport).wf(),
        old(transport).state().hangs_up || decided(old(transport).state().incoming),
    ensures
        frame_result(r, next_frame(old(transport).state().incoming)),
        final(transport).state() == (ChannelState {
            incoming: old(transport).state().incoming.skip(
                next_frame_len(old(transport).state().incoming) as int,
            ),
            ..old(transport).state()
        }),
        continues(*old(transport), *final(transport)),
{
    let ghost s = transport.state().incoming;
    let mut buf: [u8; MAX_WIRE_FRAME_LEN] = [0u8; MAX_WIRE_FRAME_LEN];
    let all: &mut [u8] = &mut buf;
    let (header, rest) = all.split_at_mut(HEADER_LEN);
    read_exact(transport, header)?;
    let payload_len: usize = get_u16(header, 1) as usize;
    proof {
        assert(s.take(7).subrange(1, 3) =~= s.subrange(1, 3));
    }
    if payload_len > MAX_FRAME_PAYLOAD {
        return Err(CodecError::PayloadTooLarge { len: payload_len });
    }
    let total: usize = HEADER_LEN + payload_len;
    let (body, _) = rest.split_at_mut(payload_len);
    read_exact(transport, body)?;
    proof {
        assert(s.skip(7).skip(payload_len as int) =~= s.skip(total as int));
        assert(buf@.take(total as int) =~= s.take(total as int));
        prefix_decides(s, total as int);
    }
    decode_frame_from_prefix(&buf.as_slice()[0..total])
}

/// Incremental decoder for transports that may have no bytes ready.
///
/// Keeps partial bytes until a whole frame is there; several frames may arrive in
/// one chunk.
#[derive(Debug, Clone, Copy)]
pub struct FrameReadBuf {
    storage: [u8; MAX_WIRE_FRAME_LEN],
    len: usize,
}

impl View for FrameReadBuf {
    type V = Seq<u8>;

    /// The bytes that were taken from the transport and belong to no frame that
    /// was returned.
    closed spec fn view(&self) -> Seq<u8> {
        self.storage@.take(self.len as int)
    }
}

impl Default for FrameReadBuf {
    fn default() -> (buf: Self)
        ensures
            buf.wf(),
            buf@ == Seq::<u8>::empty(),
    {
        FrameReadBuf::new()
    }
}

impl FrameReadBuf {
    /// Whether the kept bytes are within the storage.
    pub closed spec fn wf(&self) -> bool {
        self.len <= MAX_WIRE_FRAME_LEN
    }

    /// A decoder that has seen no byte yet.
    pub fn new() -> (buf: Self)
        ensures
            buf.wf(),
            buf@ == Seq::<u8>::empty(),
    {
        let buf = FrameReadBuf { storage: [0u8; MAX_WIRE_FRAME_LEN], len: 0 };
        assert(buf@ =~= Seq::<u8>::empty());
        buf
    }

    /// Append bytes from `transport` and return the next whole frame, if any.
    ///
    /// Returns `Ok(None)` when the transport has no bytes ready and the frame is
    /// not whole. Bytes that make no frame are kept, also on an error.
    pub fn try_read_frame<T: Read>(&mut self, transport: &mut T) -> (r: Result<
        Option<ControlFrame>,
        CodecError,
    >)
        requires
            old(self).wf(),
            old(transport).wf(),
        ensures
            final(self).wf(),
            try_read_effect(
                old(self)@,
                final(self)@,
                old(transport).state(),
                final(transport).state(),
                old(transport).settled(),
                r,
            ),
            continues(*old(transport), *final(transport)),
    {
        let ghost stream = self@ + transport.state().incoming;
        loop
            invariant
                self.wf(),
                continues(*old(transport), *transport),
                stream == old(self)@ + old(transport).state().incoming,
                self@ + transport.state().incoming == stream,
                transport.state() == (ChannelState {
                    incoming: transport.state().incoming,
                    ..old(transport).state()
                }),
                decided(old(self)@) ==> self@ == old(self)@ && transport.state().incoming == old(
                    transport,
                ).state().incoming,
                self@ == old(self)@ || (old(transport).settled() && old(transport).state().greedy
                    ==> self@.len() == if stream.len() <= MAX_WIRE_FRAME_LEN {
                    stream.len() as int
                } else {
                    MAX_WIRE_FRAME_LEN as int
                }),
            decreases transport.state().incoming.len(),
        {
            let ghost kept = self@;
            let ghost coming = transport.state().incoming;
            assert(stream.take(self.len as int) =~= kept);
            assert(stream.skip(0) =~= stream);
            if self.len >= HEADER_LEN {
                let payload_len: usize = get_u16(&self.storage, 1) as usize;
                assert(self.storage@.subrange(1, 3) =~= kept.subrange(1, 3));
                if payload_len > MAX_FRAME_PAYLOAD {
                    proof {
                        prefix_decides(stream, self.len as int);
                    }
                    return Err(CodecError::PayloadTooLarge { len: payload_len });
                }
                let total: usize = HEADER_LEN + payload_len;
                if self.len >= total {
                    proof {
                        prefix_decides(stream, self.len as int);
                        assert(kept.take(total as int) =~= self.storage@.take(total as int));
                        prefix_decides(kept, total as int);
                    }
                    match decode_frame_from_prefix(&self.storage.as_slice()[0..total]) {
                        Ok(frame) => {
                            self.consume_prefix(total);
                            assert(kept.skip(total as int) + coming =~= stream.skip(total as int));
                            return Ok(Some(frame));
                        },
                        Err(e) => return Err(e),
                    }
                }
            }
            let all: &mut [u8] = &mut self.storage;
            let (_, rest) = all.split_at_mut(self.len);
            match transport.read(rest) {
                Ok(0) => {
                    proof {
                        assert(self@ =~= kept);
                        assert(transport.state().incoming =~= coming);
                        assert(kept =~= stream);
                    }
                    return Err(CodecError::Closed);
                },
                Ok(n) => {
                    self.len = self.len + n;
                    proof {
                        assert(self@ =~= kept + coming.take(n as int));
                        assert(self@ + transport.state().incoming =~= stream);
                    }
                },
                Err(PipeError::WouldBlock) => {
                    assert(self@ =~= kept);
                    return Ok(None);
                },
            }
        }
    }

    /// Drop the first `n` kept bytes.
    fn consume_prefix(&mut self, n: usize)
        requires
            old(self).wf(),
            n <= old(self)@.len(),
        ensures
            final(self).wf(),
            final(self)@ == old(self)@.skip(n as int),
    {
        let remain: usize = self.len - n;
        let mut i: usize = 0;
        while i < remain
            invariant
                i <= remain,
                remain == self.len - n,
                n <= self.len <= MAX_WIRE_FRAME_LEN,
                self.len == old(self).len,
                forall|j: int|
                    0 <= j < i ==> #[trigger] self.storage@[j] == old(self).storage@[n + j],
                forall|j: int|
                    i <= j < MAX_WIRE_FRAME_LEN ==> #[trigger] self.storage@[j] == old(
                        self,
                    ).storage@[j],
            decreases remain - i,
        {
            self.storage[i] = self.storage[n + i];
            i = i + 1;
        }
        self.len = remain;
        assert(self@ =~= old(self)@.skip(n as int));
    }
}

/// What a call of `try_read_frame` that returned `r` does. `kept` and `left` are
/// the bytes in the decoder before and after, `before` and `after` the states of
/// the transport.
pub open spec fn try_read_effect(
    kept: Seq<u8>,
    left: Seq<u8>,
    before: ChannelState,
    after: ChannelState,
    settled: bool,
    r: Result<Option<ControlFrame>, CodecError>,
) -> bool {
    let stream = kept + before.incoming;
    let taken = match r {
        Ok(Some(_)) => next_frame_len(stream) as int,
        _ => 0,
    };
    &&& left + after.incoming == stream.skip(taken)
    &&& after == (ChannelState { incoming: after.incoming, ..before })
    &&& decided(kept) ==> after.incoming == before.incoming
    &&& settled && before.greedy && !decided(kept) ==> taken + left.len() == if stream.len()
        <= MAX_WIRE_FRAME_LEN {
        stream.len() as int
    } else {
        MAX_WIRE_FRAME_LEN as int
    }
    &&& match r {
        Ok(Some(frame)) => {
            &&& frame.wf()
            &&& frame.padded()
            &&& decided(stream)
            &&& next_frame(stream) == Ok::<FrameContent, CodecError>(frame@)
        },
        Ok(None) => {
            &&& !decided(left)
            &&& settled ==> after.incoming.len() == 0
            &&& settled && before.greedy ==> !before.hangs_up
        },
        Err(e) => {
            &&& next_frame(stream) == Err::<FrameContent, CodecError>(e)
            &&& !decided(stream) ==> before.hangs_up && after.incoming.len() == 0
        },
    }
}

/// What follows a whole frame has no say in it.
proof fn prefix_decides(s: Seq<u8>, n: int)
    requires
        HEADER_LEN <= n <= s.len(),
        decided(s.take(n)),
    ensures
        decided(s),
        declared_len(s) == declared_len(s.take(n)),
        next_frame(s) == next_frame(s.take(n)),
        next_frame_len(s) == next_frame_len(s.take(n)),
        parse_frame(s) == parse_frame(s.take(n)),
{
    let t = s.take(n);
    assert(t.subrange(1, 3) =~= s.subrange(1, 3));
    assert(t.subrange(3, 7) =~= s.subrange(3, 7));
    if declared_len(s) <= MAX_FRAME_PAYLOAD {
        let end = 7 + declared_len(s) as int;
        assert(t.subrange(7, end) =~= s.subrange(7, end));
    }
}

/// What is written is what is read: a stream that starts with the bytes of a frame
/// gives that frame, and reading it takes off exactly those bytes.
pub proof fn frame_round_trip(frame: FrameContent, rest: Seq<u8>)
    requires
        frame.payload.len() <= MAX_FRAME_PAYLOAD,
    ensures
        decided(frame_bytes(frame) + rest),
        next_frame(frame_bytes(frame) + rest) == Ok::<FrameContent, CodecError>(frame),
        next_frame_len(frame_bytes(frame) + rest) == frame_bytes(frame).len(),
        (frame_bytes(frame) + rest).skip(frame_bytes(frame).len() as int) == rest,
{
    let s = frame_bytes(frame) + rest;
    let len = frame.payload.len();
    assert(s.subrange(1, 3) =~= u16_le(len as u16));
    assert(s.subrange(3, 7) =~= u32_le(frame.request_id));
    u16_round_trip(len as u16);
    u32_round_trip(frame.request_id);
    message_type_round_trip(frame.message_type, s[0]);
    assert(s.subrange(7, 7 + len as int) =~= frame.payload);
    assert(s.skip(frame_bytes(frame).len() as int) =~= rest);
}

/// Frames come out in the order in which they were written.
pub proof fn frames_in_order(a: FrameContent, b: FrameContent, rest: Seq<u8>)
    requires
        a.payload.len() <= MAX_FRAME_PAYLOAD,
        b.payload.len() <= MAX_FRAME_PAYLOAD,
    ensures
        ({
            let stream = frame_bytes(a) + frame_bytes(b) + rest;
            let behind = stream.skip(next_frame_len(stream) as int);
            &&& next_frame(stream) == Ok::<FrameContent, CodecError>(a)
            &&& next_frame(behind) == Ok::<FrameContent, CodecError>(b)
            &&& behind.skip(next_frame_len(behind) as int) == rest
        }),
{
    assert(frame_bytes(a) + frame_bytes(b) + rest =~= frame_bytes(a) + (frame_bytes(b) + rest));
    frame_round_trip(a, frame_bytes(b) + rest);
    frame_round_trip(b, rest);
}

/// A frame has one encoding: the bytes that gave a frame are its bytes.
pub proof fn frame_bytes_round_trip(s: Seq<u8>)
    requires
        next_frame(s) is Ok,
    ensures
        frame_bytes(next_frame(s)->Ok_0) == s.take(next_frame_len(s) as int),
        next_frame(s)->Ok_0.payload.len() <= MAX_FRAME_PAYLOAD,
{
    let frame = next_frame(s)->Ok_0;
    message_type_round_trip(frame.message_type, s[0]);
    u16_bytes_round_trip(s.subrange(1, 3));
    u32_bytes_round_trip(s.subrange(3, 7));
    assert(frame_bytes(frame) =~= s.take(next_frame_len(s) as int));
}

/// The decoder does not care how a stream is cut into chunks: two calls that have
/// the same stream before them, one part kept and the other still to come, end
/// alike and leave the same stream.
pub proof fn chunks_do_not_matter(
    kept: (Seq<u8>, Seq<u8>),
    left: (Seq<u8>, Seq<u8>),
    before: (ChannelState, ChannelState),
    after: (ChannelState, ChannelState),
    r: (Result<Option<ControlFrame>, CodecError>, Result<Option<ControlFrame>, CodecError>),
)
    requires
        kept.0 + before.0.incoming == kept.1 + before.1.incoming,
        try_read_effect(kept.0, left.0, before.0, after.0, true, r.0),
        try_read_effect(kept.1, left.1, before.1, after.1, true, r.1),
        !before.0.hangs_up,
        !before.1.hangs_up,
    ensures
        left.0 + after.0.incoming == left.1 + after.1.incoming,
        match (r.0, r.1) {
            (Ok(Some(a)), Ok(Some(b))) => a@ == b@,
            (Ok(None), Ok(None)) => true,
            (Err(a), Err(b)) => a == b,
            _ => false,
        },
{
    let stream = kept.0 + before.0.incoming;
    assert(stream.skip(0) =~= stream);
    assert(r.0 matches Ok(None) ==> left.0 =~= stream);
    assert(r.1 matches Ok(None) ==> left.1 =~= stream);
}

/// The bytes of frames on the wire, one behind the other.
pub open spec fn wire(frames: Seq<FrameContent>) -> Seq<u8>
    decreases frames.len(),
{
    if frames.len() == 0 {
        Seq::empty()
    } else {
        frame_bytes(frames[0]) + wire(frames.drop_first())
    }
}

/// Writing frames one after the other puts them on the wire in that order.
pub proof fn wire_grows(frames: Seq<FrameContent>, frame: FrameContent)
    ensures
        wire(frames.push(frame)) == wire(frames) + frame_bytes(frame),
    decreases frames.len(),
{
    let more = frames.push(frame);
    if frames.len() == 0 {
        assert(more.drop_first() =~= Seq::<FrameContent>::empty());
        assert(wire(more.drop_first()) =~= Seq::<u8>::empty());
        assert(more[0] == frame);
        assert(wire(more) =~= wire(frames) + frame_bytes(frame));
    } else {
        wire_grows(frames.drop_first(), frame);
        assert(more.drop_first() =~= frames.drop_first().push(frame));
        assert(wire(more) =~= wire(frames) + frame_bytes(frame));
    }
}

/// Reading a frame off the wire gives the first one and leaves exactly the others.
pub proof fn wire_is_read_in_order(frames: Seq<FrameContent>, tail: Seq<u8>)
    requires
        frames.len() > 0,
        frames[0].payload.len() <= MAX_FRAME_PAYLOAD,
    ensures
        next_frame(wire(frames) + tail) == Ok::<FrameContent, CodecError>(frames[0]),
        (wire(frames) + tail).skip(next_frame_len(wire(frames) + tail) as int) == wire(
            frames.drop_first(),
        ) + tail,
{
    let rest = wire(frames.drop_first()) + tail;
    assert(wire(frames) + tail =~= frame_bytes(frames[0]) + rest);
    frame_round_trip(frames[0], rest);
}

/// A frame that is cut short decides nothing: its bytes are kept until the rest comes.
pub proof fn cut_frame_is_undecided(frame: FrameContent, n: int)
    requires
        frame.payload.len() <= MAX_FRAME_PAYLOAD,
        0 <= n < frame_bytes(frame).len(),
    ensures
        !decided(frame_bytes(frame).take(n)),
{
    let s = frame_bytes(frame).take(n);
    if s.len() >= HEADER_LEN {
        assert(s.subrange(1, 3) =~= u16_le(frame.payload.len() as u16));
        u16_round_trip(frame.payload.len() as u16);
    }
}

/// Reading gives back the very frame that was written, in every byte of it.
pub proof fn frame_reads_back_equal(
    frame: ControlFrame,
    rest: Seq<u8>,
    r: Result<ControlFrame, CodecError>,
)
    requires
        frame.wf(),
        frame.padded(),
        frame_result(r, next_frame(frame_bytes(frame@) + rest)),
    ensures
        r == Ok::<ControlFrame, CodecError>(frame),
{
    frame_round_trip(frame@, rest);
    same_content_same_frame(frame, r->Ok_0);
}

/// The decoder gives the frames of a stream in order, each the very frame that was
/// written, however the bytes were cut and whenever the transport has none ready: a call
/// either gives the first frame and leaves the others, or gives none and loses no byte.
/// While nobody else acts on the transport, it gives the frame.
pub proof fn decoder_gives_the_first_frame(
    frame: ControlFrame,
    others: Seq<FrameContent>,
    tail: Seq<u8>,
    kept: Seq<u8>,
    left: Seq<u8>,
    before: ChannelState,
    after: ChannelState,
    settled: bool,
    r: Result<Option<ControlFrame>, CodecError>,
)
    requires
        frame.wf(),
        frame.padded(),
        kept + before.incoming == frame_bytes(frame@) + wire(others) + tail,
        try_read_effect(kept, left, before, after, settled, r),
    ensures
        match r {
            Ok(Some(got)) => got == frame && left + after.incoming == wire(others) + tail,
            Ok(None) => left + after.incoming == kept + before.incoming && !settled,
            Err(_) => false,
        },
{
    let stream = kept + before.incoming;
    let rest = wire(others) + tail;
    assert(stream =~= frame_bytes(frame@) + rest);
    assert(stream.skip(0) =~= stream);
    frame_round_trip(frame@, rest);
    if let Ok(Some(got)) = r {
        same_content_same_frame(frame, got);
    }
    if r matches Ok(None) && settled {
        assert(left =~= stream);
    }
}

} // verus!
