use arca_networking::control::{
    decode_frame_from_prefix, next_id, read_frame, write_frame, AcceptListenerId, ArcaError,
    ArcaSession, ArcaTcpListener, CodecError, ConnectionReady, ControlFrame, ControlReply,
    ControlRequest, DataPipeInfo, Endpoint, ErrPayload, FrameReadBuf, ListenerReady, MessageType,
    HEADER_LEN, MAX_FRAME_PAYLOAD, MAX_WIRE_FRAME_LEN,
};
use arca_networking::pipe::{
    BidirectionalPipe, Channel, PipeError, Read, SharedMemoryRegion, Side, Write,
};

// --- message types, frames and payloads ---

#[test]
fn message_type_from_u8_round_trip() {
    for mt in [
        MessageType::ListenRequest,
        MessageType::ListenOk,
        MessageType::ConnectRequest,
        MessageType::ConnectOk,
        MessageType::IncomingConnection,
        MessageType::ListenErr,
        MessageType::ConnectErr,
        MessageType::AcceptRequest,
    ] {
        assert_eq!(MessageType::from_u8(mt.as_u8()), Some(mt));
    }
}

#[test]
fn message_type_from_u8_unknown() {
    assert_eq!(MessageType::from_u8(0), None);
    assert_eq!(MessageType::from_u8(9), None);
    assert_eq!(MessageType::from_u8(255), None);
}

#[test]
fn message_type_codes_follow_the_catalog() {
    let codes = [
        (MessageType::ListenRequest, 1),
        (MessageType::ListenOk, 2),
        (MessageType::ConnectRequest, 3),
        (MessageType::ConnectOk, 4),
        (MessageType::IncomingConnection, 5),
        (MessageType::ListenErr, 6),
        (MessageType::ConnectErr, 7),
        (MessageType::AcceptRequest, 8),
        (MessageType::AcceptErr, 9),
    ];
    for (mt, code) in codes {
        assert_eq!(mt.as_u8(), code);
        assert_eq!(MessageType::from_wire(code), Some(mt));
    }
    assert_eq!(MessageType::from_wire(0), None);
    assert_eq!(MessageType::from_wire(10), None);
}

#[test]
fn control_frame_payload_slice() {
    let frame = ControlFrame::new(MessageType::ListenRequest, 0, &[10, 20]);
    assert_eq!(frame.payload(), &[10, 20]);
}

#[test]
fn data_pipe_info_shm_len_matches_bidirectional_pipe() {
    let ring_size = 64u64;
    let info = DataPipeInfo::new(1, ring_size);
    assert_eq!(info.shm_len(), BidirectionalPipe::required_size(ring_size));
}

#[test]
fn payload_layouts() {
    let mut out = [0xffu8; 26];
    assert_eq!(Endpoint::new([127, 0, 0, 1], 0x1f90).encode(&mut out), 6);
    assert_eq!(&out[..7], &[127, 0, 0, 1, 0x90, 0x1f, 0xff]);
    let ready = ConnectionReady {
        listener_id: 0x0102_0304,
        connection_id: 5,
        pipe: DataPipeInfo::new(0x1122_3344_5566_7788, 128),
    };
    assert_eq!(ready.encode(&mut out), 24);
    assert_eq!(
        &out[..25],
        &[
            4, 3, 2, 1, 5, 0, 0, 0, 0x88, 0x77, 0x66, 0x55, 0x44, 0x33, 0x22, 0x11, 128, 0, 0, 0, 0,
            0, 0, 0, 0xff
        ]
    );
    assert_eq!(ConnectionReady::decode(&out), ready);
    assert_eq!(ErrPayload { code: 0x0a0b_0c0d }.encode(&mut out), 4);
    assert_eq!(&out[..4], &[0x0d, 0x0c, 0x0b, 0x0a]);
    assert_eq!(ErrPayload::decode(&out).code, 0x0a0b_0c0d);
}

// --- semantic messages ---

fn sample_ready() -> ConnectionReady {
    ConnectionReady {
        listener_id: 3,
        connection_id: 9,
        pipe: DataPipeInfo::new(9, 128),
    }
}

#[test]
fn request_round_trip_through_frame() {
    for req in [
        ControlRequest::Listen {
            request_id: 1,
            endpoint: Endpoint::new([127, 0, 0, 1], 8080),
        },
        ControlRequest::Connect {
            request_id: 2,
            endpoint: Endpoint::new([8, 8, 8, 8], 443),
        },
        ControlRequest::Accept {
            request_id: 3,
            listener_id: 77,
        },
    ] {
        let frame = req.to_frame();
        assert_eq!(frame.request_id, req.request_id());
        assert_eq!(ControlRequest::try_from(&frame).unwrap(), req);
    }
}

#[test]
fn reply_round_trip_through_frame() {
    for reply in [
        ControlReply::ListenOk {
            request_id: 1,
            listener_id: 5,
        },
        ControlReply::ListenErr {
            request_id: 2,
            code: 98,
        },
        ControlReply::ConnectOk {
            request_id: 3,
            ready: sample_ready(),
        },
        ControlReply::ConnectErr {
            request_id: 4,
            code: 111,
        },
        ControlReply::AcceptOk {
            request_id: 5,
            ready: sample_ready(),
        },
        ControlReply::AcceptErr {
            request_id: 6,
            code: 9,
        },
    ] {
        let frame = reply.to_frame();
        assert_eq!(frame.request_id, reply.request_id());
        assert_eq!(frame.message_type, reply.message_type());
        assert_eq!(ControlReply::try_from(&frame).unwrap(), reply);
    }
}

#[test]
fn accept_ok_uses_incoming_connection_wire_type() {
    let f = ControlReply::AcceptOk {
        request_id: 7,
        ready: sample_ready(),
    }
    .to_frame();
    assert_eq!(f.message_type, MessageType::IncomingConnection);
}

#[test]
fn rejects_wrong_direction_message_type() {
    let req_frame = ControlRequest::Accept {
        request_id: 1,
        listener_id: 2,
    }
    .to_frame();
    assert_eq!(
        ControlReply::try_from(&req_frame),
        Err(CodecError::UnexpectedMessage(MessageType::AcceptRequest))
    );
    let reply_frame = ControlReply::ListenOk {
        request_id: 1,
        listener_id: 5,
    }
    .to_frame();
    assert_eq!(
        ControlRequest::try_from(&reply_frame),
        Err(CodecError::UnexpectedMessage(MessageType::ListenOk))
    );
}

#[test]
fn try_from_short_payload_errors() {
    let mut frame = ControlRequest::Listen {
        request_id: 1,
        endpoint: Endpoint::new([0, 0, 0, 0], 0),
    }
    .to_frame();
    frame.payload_len = 3;
    assert_eq!(
        ControlRequest::try_from(&frame),
        Err(CodecError::ShortPayload {
            expected: 6,
            got: 3
        })
    );
}

#[test]
fn short_payloads_of_every_layout() {
    for (mt, need) in [
        (MessageType::ListenOk, 4),
        (MessageType::ListenErr, 4),
        (MessageType::ConnectOk, 24),
        (MessageType::ConnectErr, 4),
        (MessageType::IncomingConnection, 24),
        (MessageType::AcceptErr, 4),
    ] {
        let short = vec![0u8; need - 1];
        assert_eq!(
            ControlReply::try_from(&ControlFrame::new(mt, 1, &short)),
            Err(CodecError::ShortPayload {
                expected: need,
                got: need - 1
            })
        );
    }
    assert_eq!(
        ControlRequest::try_from(&ControlFrame::new(MessageType::AcceptRequest, 1, &[1, 2, 3])),
        Err(CodecError::ShortPayload {
            expected: 4,
            got: 3
        })
    );
}

#[test]
fn bytes_behind_a_payload_are_ignored() {
    let frame = ControlFrame::new(MessageType::AcceptRequest, 4, &[7, 0, 0, 0, 99, 99]);
    assert_eq!(
        ControlRequest::try_from(&frame),
        Ok(ControlRequest::Accept {
            request_id: 4,
            listener_id: 7
        })
    );
}

// --- codec ---

struct MemPipe<const N: usize> {
    buf: [u8; N],
    len: usize,
    pos: usize,
}

impl<const N: usize> MemPipe<N> {
    fn new() -> Self {
        Self {
            buf: [0u8; N],
            len: 0,
            pos: 0,
        }
    }
}

impl<const N: usize> Channel for MemPipe<N> {}

impl<const N: usize> Write for MemPipe<N> {
    fn write(&mut self, src: &[u8]) -> Result<usize, PipeError> {
        let n = src.len();
        assert!(self.len + n <= N, "MemPipe full");
        self.buf[self.len..self.len + n].copy_from_slice(src);
        self.len += n;
        Ok(n)
    }
}

impl<const N: usize> Read for MemPipe<N> {
    fn read(&mut self, dst: &mut [u8]) -> Result<usize, PipeError> {
        if self.pos >= self.len {
            return Err(PipeError::WouldBlock);
        }
        let n = core::cmp::min(dst.len(), self.len - self.pos);
        dst[..n].copy_from_slice(&self.buf[self.pos..self.pos + n]);
        self.pos += n;
        Ok(n)
    }
}

/// Gives its bytes a few at a time, says `WouldBlock` in between, and hangs up at
/// the end. Takes `room` bytes and then hangs up.
struct Halting {
    data: Vec<u8>,
    pos: usize,
    step: usize,
    blocked: bool,
    taken: Vec<u8>,
    room: usize,
}

impl Halting {
    fn new(data: &[u8], step: usize, room: usize) -> Self {
        Self {
            data: data.to_vec(),
            pos: 0,
            step,
            blocked: false,
            taken: Vec::new(),
            room,
        }
    }
}

impl Channel for Halting {}

impl Read for Halting {
    fn read(&mut self, buf: &mut [u8]) -> Result<usize, PipeError> {
        self.blocked = !self.blocked;
        if self.blocked {
            return Err(PipeError::WouldBlock);
        }
        let n = buf.len().min(self.step).min(self.data.len() - self.pos);
        buf[..n].copy_from_slice(&self.data[self.pos..self.pos + n]);
        self.pos += n;
        Ok(n)
    }
}

impl Write for Halting {
    fn write(&mut self, buf: &[u8]) -> Result<usize, PipeError> {
        self.blocked = !self.blocked;
        if self.blocked {
            return Err(PipeError::WouldBlock);
        }
        let n = buf.len().min(self.step).min(self.room - self.taken.len());
        self.taken.extend_from_slice(&buf[..n]);
        Ok(n)
    }
}

#[test]
fn write_read_round_trip_empty_payload() {
    let mut pipe = MemPipe::<256>::new();
    let frame = ControlFrame::new(MessageType::ListenRequest, 7, &[]);
    write_frame(&mut pipe, &frame).unwrap();

    let got = read_frame(&mut pipe).unwrap();
    assert_eq!(got.message_type, MessageType::ListenRequest);
    assert_eq!(got.request_id, 7);
    assert_eq!(got.payload_len, 0);
}

#[test]
fn write_read_round_trip_endpoint_payload() {
    let ep = Endpoint::new([127, 0, 0, 1], 8080);
    let mut pl = [0u8; MAX_FRAME_PAYLOAD];
    let n = ep.encode(&mut pl);
    let frame = ControlFrame::new(MessageType::ConnectRequest, 99, &pl[..n]);

    let mut pipe = MemPipe::<256>::new();
    write_frame(&mut pipe, &frame).unwrap();
    let got = read_frame(&mut pipe).unwrap();

    assert_eq!(got.message_type, MessageType::ConnectRequest);
    assert_eq!(got.request_id, 99);
    let back = Endpoint::decode(got.payload());
    assert_eq!(back, ep);
}

#[test]
fn write_read_round_trip_listener_ready_payload() {
    let lr = ListenerReady {
        listener_id: 0xdead_beef,
    };
    let mut pl = [0u8; 4];
    lr.encode(&mut pl);
    let frame = ControlFrame::new(MessageType::ListenOk, 1, &pl);

    let mut pipe = MemPipe::<128>::new();
    write_frame(&mut pipe, &frame).unwrap();
    let got = read_frame(&mut pipe).unwrap();
    assert_eq!(got.message_type, MessageType::ListenOk);
    assert_eq!(ListenerReady::decode(got.payload()).listener_id, lr.listener_id);
}

#[test]
fn write_read_round_trip_connection_ready_payload() {
    let ready = ConnectionReady {
        listener_id: 0,
        connection_id: 42,
        pipe: DataPipeInfo::new(7, 128),
    };
    let mut pl = [0u8; 24];
    ready.encode(&mut pl);
    let frame = ControlFrame::new(MessageType::ConnectOk, 100, &pl);

    let mut pipe = MemPipe::<256>::new();
    write_frame(&mut pipe, &frame).unwrap();
    let got = read_frame(&mut pipe).unwrap();
    assert_eq!(ConnectionReady::decode(got.payload()), ready);
}

#[test]
fn write_read_two_frames_in_order() {
    let mut pipe = MemPipe::<1024>::new();
    let a = ControlFrame::new(MessageType::ListenRequest, 1, &[1, 2, 3]);
    let b = ControlFrame::new(MessageType::ConnectRequest, 2, &[]);
    write_frame(&mut pipe, &a).unwrap();
    write_frame(&mut pipe, &b).unwrap();

    let got_a = read_frame(&mut pipe).unwrap();
    assert_eq!(got_a.request_id, 1);
    assert_eq!(got_a.payload(), &[1, 2, 3]);

    let got_b = read_frame(&mut pipe).unwrap();
    assert_eq!(got_b.message_type, MessageType::ConnectRequest);
    assert_eq!(got_b.request_id, 2);
    assert_eq!(got_b.payload_len, 0);
}

#[test]
fn write_read_max_sized_payload() {
    let payload: [u8; MAX_FRAME_PAYLOAD] = core::array::from_fn(|i| i as u8);
    let frame = ControlFrame::new(MessageType::IncomingConnection, 0x1234_5678, &payload);

    let mut pipe = MemPipe::<{ HEADER_LEN + MAX_FRAME_PAYLOAD + 32 }>::new();
    write_frame(&mut pipe, &frame).unwrap();
    let got = read_frame(&mut pipe).unwrap();
    assert_eq!(got.payload_len as usize, MAX_FRAME_PAYLOAD);
    assert_eq!(got.payload(), payload.as_slice());
}

#[test]
fn read_unknown_message_type() {
    let mut pipe = MemPipe::<32>::new();
    let mut header = [0u8; HEADER_LEN];
    header[0] = 99;
    header[1..3].copy_from_slice(&0u16.to_le_bytes());
    header[3..7].copy_from_slice(&1u32.to_le_bytes());
    pipe.write(&header).unwrap();
    let err = read_frame(&mut pipe).unwrap_err();
    assert_eq!(err, CodecError::UnknownMessageType(99));
}

#[test]
fn write_read_round_trip_accept_request_payload() {
    let mut pay = [0u8; 4];
    AcceptListenerId { listener_id: 42 }.encode(&mut pay);
    let frame = ControlFrame::new(MessageType::AcceptRequest, 0xbeef_0001, &pay);

    let mut pipe = MemPipe::<256>::new();
    write_frame(&mut pipe, &frame).unwrap();
    let got = read_frame(&mut pipe).unwrap();

    assert_eq!(got.message_type, MessageType::AcceptRequest);
    assert_eq!(got.request_id, 0xbeef_0001);
    assert_eq!(AcceptListenerId::decode(got.payload()).listener_id, 42);
}

#[test]
fn frame_read_buf_decodes_back_to_back_frames() {
    let mut pay = [0u8; 4];
    AcceptListenerId { listener_id: 7 }.encode(&mut pay);
    let a = ControlFrame::new(MessageType::AcceptRequest, 10, &pay);
    let b = ControlFrame::new(MessageType::ListenRequest, 20, &[]);
    let mut pipe = MemPipe::<1024>::new();
    write_frame(&mut pipe, &a).unwrap();
    write_frame(&mut pipe, &b).unwrap();
    pipe.pos = 0;

    let mut dec = FrameReadBuf::new();
    let f1 = dec.try_read_frame(&mut pipe).unwrap().unwrap();
    assert_eq!(f1.message_type, MessageType::AcceptRequest);
    assert_eq!(f1.request_id, 10);
    assert_eq!(AcceptListenerId::decode(f1.payload()).listener_id, 7);

    let f2 = dec.try_read_frame(&mut pipe).unwrap().unwrap();
    assert_eq!(f2.message_type, MessageType::ListenRequest);
    assert_eq!(f2.request_id, 20);

    assert!(dec.try_read_frame(&mut pipe).unwrap().is_none());
}

struct OneByte<'a> {
    buf: &'a [u8],
    pos: usize,
}

impl<'a> Channel for OneByte<'a> {}

impl<'a> Read for OneByte<'a> {
    fn read(&mut self, dst: &mut [u8]) -> Result<usize, PipeError> {
        if self.pos >= self.buf.len() {
            return Err(PipeError::WouldBlock);
        }
        dst[0] = self.buf[self.pos];
        self.pos += 1;
        Ok(1)
    }
}

#[test]
fn frame_read_buf_one_byte_at_a_time() {
    let mut pay = [0u8; 4];
    AcceptListenerId { listener_id: 3 }.encode(&mut pay);
    let frame = ControlFrame::new(MessageType::AcceptRequest, 99, &pay);
    let mut wire = MemPipe::<256>::new();
    write_frame(&mut wire, &frame).unwrap();
    let encoded_len = wire.len;

    let mut reader = OneByte {
        buf: &wire.buf[..encoded_len],
        pos: 0,
    };
    let mut dec = FrameReadBuf::new();
    let mut decoded = None;
    for _ in 0..4096 {
        if let Some(f) = dec.try_read_frame(&mut reader).unwrap() {
            decoded = Some(f);
            break;
        }
    }
    let got = decoded.expect("should decode after enough bytes");
    assert_eq!(got.message_type, MessageType::AcceptRequest);
    assert_eq!(got.request_id, 99);
    assert_eq!(AcceptListenerId::decode(got.payload()).listener_id, 3);
}

#[test]
fn frame_bytes_on_the_wire() {
    let mut pipe = MemPipe::<32>::new();
    let frame = ControlFrame::new(MessageType::AcceptErr, 0x0403_0201, &[9, 0, 0, 0]);
    write_frame(&mut pipe, &frame).unwrap();
    assert_eq!(&pipe.buf[..pipe.len], &[9, 4, 0, 1, 2, 3, 4, 9, 0, 0, 0]);
    assert_eq!(MAX_WIRE_FRAME_LEN, 263);
}

#[test]
fn frames_are_zero_behind_their_payload() {
    let built = ControlFrame::new(MessageType::ListenRequest, 1, &[127, 0, 0, 1, 144, 31]);
    assert!(built.payload[6..].iter().all(|b| *b == 0));
    let request = ControlRequest::Listen {
        request_id: 1,
        endpoint: Endpoint::new([127, 0, 0, 1], 8080),
    };
    assert_eq!(request.to_frame(), built);
    let reply = ControlReply::AcceptOk {
        request_id: 7,
        ready: sample_ready(),
    };
    let ready = [
        3, 0, 0, 0, 9, 0, 0, 0, 9, 0, 0, 0, 0, 0, 0, 0, 128, 0, 0, 0, 0, 0, 0, 0,
    ];
    assert_eq!(
        reply.to_frame(),
        ControlFrame::new(MessageType::IncomingConnection, 7, &ready)
    );
    let mut pipe = MemPipe::<64>::new();
    write_frame(&mut pipe, &built).unwrap();
    assert_eq!(decode_frame_from_prefix(&pipe.buf), Ok(built));
    assert_eq!(read_frame(&mut pipe), Ok(built));
    pipe.pos = 0;
    assert_eq!(FrameReadBuf::new().try_read_frame(&mut pipe), Ok(Some(built)));
}

#[test]
fn bytes_that_gave_a_frame_are_its_bytes() {
    let bytes = [5u8, 3, 0, 0xef, 0xbe, 0xad, 0xde, 1, 2, 3];
    let mut pipe = MemPipe::<32>::new();
    write_frame(&mut pipe, &decode_frame_from_prefix(&bytes).unwrap()).unwrap();
    assert_eq!(&pipe.buf[..pipe.len], &bytes);
}

#[test]
fn accept_err_frames_are_read() {
    let mut pipe = MemPipe::<32>::new();
    let reply = ControlReply::AcceptErr {
        request_id: 5,
        code: 9,
    };
    write_frame(&mut pipe, &reply.to_frame()).unwrap();
    let got = read_frame(&mut pipe).unwrap();
    assert_eq!(ControlReply::try_from(&got), Ok(reply));
}

#[test]
fn decode_checks_in_order() {
    assert_eq!(
        decode_frame_from_prefix(&[1, 0, 0]),
        Err(CodecError::PayloadTooLarge { len: 0 })
    );
    // The type is looked at before the length.
    assert_eq!(
        decode_frame_from_prefix(&[77, 0xff, 0xff, 0, 0, 0, 0]),
        Err(CodecError::UnknownMessageType(77))
    );
    assert_eq!(
        decode_frame_from_prefix(&[1, 1, 1, 0, 0, 0, 0]),
        Err(CodecError::PayloadTooLarge { len: 257 })
    );
    assert_eq!(
        decode_frame_from_prefix(&[1, 2, 0, 0, 0, 0, 0, 5]),
        Err(CodecError::PayloadTooLarge { len: 2 })
    );
    let frame = decode_frame_from_prefix(&[1, 2, 0, 3, 0, 0, 0, 5, 6, 7]).unwrap();
    assert_eq!(frame.payload(), &[5, 6]);
    assert_eq!(frame.request_id, 3);
}

#[test]
fn read_frame_refuses_a_long_payload_before_its_type() {
    let mut pipe = Halting::new(&[77, 1, 1, 0, 0, 0, 0, 1, 2], 3, 0);
    assert_eq!(
        read_frame(&mut pipe).unwrap_err(),
        CodecError::PayloadTooLarge { len: 257 }
    );
    assert_eq!(pipe.pos, 7);
}

#[test]
fn read_frame_reports_a_hang_up() {
    let mut pipe = Halting::new(&[1, 4, 0, 9, 0], 2, 0);
    assert_eq!(read_frame(&mut pipe).unwrap_err(), CodecError::Closed);
    let mut pipe = Halting::new(&[1, 4, 0, 9, 0, 0, 0, 1, 2], 2, 0);
    assert_eq!(read_frame(&mut pipe).unwrap_err(), CodecError::Closed);
    assert_eq!(pipe.pos, 9);
}

#[test]
fn write_frame_waits_and_reports_a_hang_up() {
    let frame = ControlFrame::new(MessageType::ListenOk, 2, &[1, 2, 3, 4]);
    let mut pipe = Halting::new(&[], 2, 100);
    assert_eq!(write_frame(&mut pipe, &frame), Ok(()));
    assert_eq!(pipe.taken, vec![2, 4, 0, 2, 0, 0, 0, 1, 2, 3, 4]);
    let mut pipe = Halting::new(&[], 2, 9);
    assert_eq!(write_frame(&mut pipe, &frame), Err(CodecError::Closed));
    assert_eq!(pipe.taken, vec![2, 4, 0, 2, 0, 0, 0, 1, 2]);
}

#[test]
fn frame_read_buf_keeps_what_makes_no_frame() {
    let mut dec = FrameReadBuf::default();
    let mut long = MemPipe::<16>::new();
    long.write(&[1, 1, 1, 0, 0, 0, 0]).unwrap();
    let too_large = CodecError::PayloadTooLarge { len: 257 };
    assert_eq!(dec.try_read_frame(&mut long), Err(too_large));
    assert_eq!(dec.try_read_frame(&mut long), Err(too_large));

    let mut dec = FrameReadBuf::new();
    let mut unknown = MemPipe::<16>::new();
    unknown.write(&[50, 0, 0, 0, 0, 0, 0]).unwrap();
    let bad_type = CodecError::UnknownMessageType(50);
    assert_eq!(dec.try_read_frame(&mut unknown), Err(bad_type));
    assert_eq!(dec.try_read_frame(&mut unknown), Err(bad_type));
}

#[test]
fn frame_read_buf_reports_a_hang_up() {
    let mut dec = FrameReadBuf::new();
    let mut pipe = Halting::new(&[1, 0, 0, 9], 100, 0);
    assert_eq!(dec.try_read_frame(&mut pipe), Ok(None));
    // The bytes are read, then the next read would block again.
    assert_eq!(dec.try_read_frame(&mut pipe), Ok(None));
    assert_eq!(dec.try_read_frame(&mut pipe), Err(CodecError::Closed));
}

#[test]
fn frame_read_buf_does_not_care_about_chunks() {
    let mut wire = MemPipe::<1024>::new();
    for i in 0..5u8 {
        let payload = vec![i; i as usize * 20];
        write_frame(
            &mut wire,
            &ControlFrame::new(MessageType::ConnectOk, i as u32, &payload),
        )
        .unwrap();
    }
    for step in [1, 2, 3, 7, 8, 50, 300] {
        let mut pipe = Halting::new(&wire.buf[..wire.len], step, 0);
        let mut dec = FrameReadBuf::new();
        let mut got: Vec<ControlFrame> = Vec::new();
        loop {
            match dec.try_read_frame(&mut pipe) {
                Ok(Some(frame)) => got.push(frame),
                Ok(None) => {}
                Err(e) => {
                    assert_eq!(e, CodecError::Closed);
                    break;
                }
            }
        }
        assert_eq!(got.len(), 5);
        for (i, frame) in got.iter().enumerate() {
            assert_eq!(frame.request_id, i as u32);
            assert_eq!(frame.payload(), &vec![i as u8; i * 20][..]);
        }
    }
}

#[test]
fn frames_cross_a_ring() {
    let mut region = SharedMemoryRegion::from_raw(vec![0u8; 2 * (16 + 64)]);
    for rid in 0..20u32 {
        let frame = ControlFrame::new(MessageType::ListenOk, rid, &[rid as u8; 30]);
        let mut b = BidirectionalPipe::new(region, 64, Side::B);
        write_frame(&mut b, &frame).unwrap();
        let mut a = BidirectionalPipe::new(b.into_region(), 64, Side::A);
        assert_eq!(read_frame(&mut a).unwrap(), frame);
        region = a.into_region();
    }
}

// --- the client's session ---

/// In-memory transport for tests: writes append, reads pop from front.
struct MemTransport {
    outbox: [u8; 1024],
    outbox_len: usize,
    inbox: [u8; 1024],
    inbox_len: usize,
    inbox_pos: usize,
}

struct InboxWriter<'a>(&'a mut MemTransport);

impl Channel for InboxWriter<'_> {}

impl Write for InboxWriter<'_> {
    fn write(&mut self, src: &[u8]) -> Result<usize, PipeError> {
        let end = self.0.inbox_len + src.len();
        assert!(end <= self.0.inbox.len(), "inbox overflow");
        self.0.inbox[self.0.inbox_len..end].copy_from_slice(src);
        self.0.inbox_len = end;
        Ok(src.len())
    }
}

impl MemTransport {
    fn new() -> Self {
        Self {
            outbox: [0u8; 1024],
            outbox_len: 0,
            inbox: [0u8; 1024],
            inbox_len: 0,
            inbox_pos: 0,
        }
    }

    fn push_inbound(&mut self, frame: &ControlFrame) {
        let mut w = InboxWriter(self);
        write_frame(&mut w, frame).unwrap();
    }

    fn outbox_slice(&self) -> &[u8] {
        &self.outbox[..self.outbox_len]
    }
}

impl Channel for MemTransport {}

impl Write for MemTransport {
    fn write(&mut self, src: &[u8]) -> Result<usize, PipeError> {
        let end = self.outbox_len + src.len();
        assert!(end <= self.outbox.len(), "outbox overflow");
        self.outbox[self.outbox_len..end].copy_from_slice(src);
        self.outbox_len = end;
        Ok(src.len())
    }
}

impl Read for MemTransport {
    fn read(&mut self, buf: &mut [u8]) -> Result<usize, PipeError> {
        if self.inbox_pos >= self.inbox_len {
            return Err(PipeError::WouldBlock);
        }
        let n = core::cmp::min(buf.len(), self.inbox_len - self.inbox_pos);
        buf[..n].copy_from_slice(&self.inbox[self.inbox_pos..self.inbox_pos + n]);
        self.inbox_pos += n;
        Ok(n)
    }
}

struct SliceReader<'a> {
    data: &'a [u8],
    pos: usize,
}

impl<'a> Channel for SliceReader<'a> {}

impl<'a> Read for SliceReader<'a> {
    fn read(&mut self, buf: &mut [u8]) -> Result<usize, PipeError> {
        if self.pos >= self.data.len() {
            return Err(PipeError::WouldBlock);
        }
        let n = core::cmp::min(buf.len(), self.data.len() - self.pos);
        buf[..n].copy_from_slice(&self.data[self.pos..self.pos + n]);
        self.pos += n;
        Ok(n)
    }
}

fn listen_ok(rid: u32, listener_id: u32) -> ControlFrame {
    let mut pl = [0u8; 4];
    ListenerReady { listener_id }.encode(&mut pl);
    ControlFrame::new(MessageType::ListenOk, rid, &pl)
}

fn connect_ok(rid: u32, ready: ConnectionReady) -> ControlFrame {
    let mut pl = [0u8; 24];
    ready.encode(&mut pl);
    ControlFrame::new(MessageType::ConnectOk, rid, &pl)
}

fn incoming(rid: u32, ready: ConnectionReady) -> ControlFrame {
    let mut pl = [0u8; 24];
    ready.encode(&mut pl);
    ControlFrame::new(MessageType::IncomingConnection, rid, &pl)
}

#[test]
fn bind_returns_listener_handle() {
    let mut t = MemTransport::new();
    t.push_inbound(&listen_ok(1, 7));

    let listener = {
        let mut s = ArcaSession::new(&mut t);
        s.bind(Endpoint::new([127, 0, 0, 1], 8080)).unwrap()
    };
    assert_eq!(listener.id(), 7);

    let mut reader = SliceReader {
        data: t.outbox_slice(),
        pos: 0,
    };
    let req = read_frame(&mut reader).unwrap();
    assert_eq!(req.message_type, MessageType::ListenRequest);
    assert_eq!(req.request_id, 1);
}

#[test]
fn connect_returns_stream_handle() {
    let ready = ConnectionReady {
        listener_id: 0,
        connection_id: 17,
        pipe: DataPipeInfo::new(17, 256),
    };
    let mut t = MemTransport::new();
    t.push_inbound(&connect_ok(1, ready));

    let stream = {
        let mut s = ArcaSession::new(&mut t);
        s.connect(Endpoint::new([8, 8, 8, 8], 443)).unwrap()
    };
    assert_eq!(stream.connection_id(), 17);
    assert!(!stream.is_inbound());
    assert_eq!(stream.pipe(), DataPipeInfo::new(17, 256));
}

#[test]
fn accept_sends_accept_request_and_parses_reply() {
    let ready = ConnectionReady {
        listener_id: 5,
        connection_id: 99,
        pipe: DataPipeInfo::new(99, 64),
    };
    let mut t = MemTransport::new();
    t.push_inbound(&incoming(1, ready));

    let mut s = ArcaSession::new(&mut t);
    let listener = ArcaTcpListener { listener_id: 5 };
    let inbound = s.accept(&listener).unwrap();
    assert_eq!(inbound.connection_id(), 99);
    assert!(inbound.is_inbound());

    let mut reader = SliceReader {
        data: t.outbox_slice(),
        pos: 0,
    };
    let req = read_frame(&mut reader).unwrap();
    assert_eq!(req.message_type, MessageType::AcceptRequest);
    assert_eq!(req.request_id, 1);
    assert_eq!(
        AcceptListenerId::decode(req.payload()).listener_id,
        5
    );
}

#[test]
fn listen_failure_propagates_errno() {
    let mut t = MemTransport::new();
    let mut pl = [0u8; 4];
    ErrPayload { code: 98 }.encode(&mut pl);
    t.push_inbound(&ControlFrame::new(MessageType::ListenErr, 1, &pl));

    let mut s = ArcaSession::new(&mut t);
    let err = s.bind(Endpoint::new([0, 0, 0, 0], 1)).unwrap_err();
    assert_eq!(err, ArcaError::ListenFailed { code: 98 });
}

#[test]
fn connect_failure_propagates_errno() {
    let mut t = MemTransport::new();
    let reply = ControlReply::ConnectErr {
        request_id: 1,
        code: 111,
    };
    t.push_inbound(&reply.to_frame());
    let mut s = ArcaSession::new(&mut t);
    assert_eq!(
        s.connect(Endpoint::new([1, 2, 3, 4], 5)),
        Err(ArcaError::ConnectFailed { code: 111 })
    );
}

#[test]
fn accept_failure_propagates_errno() {
    let mut t = MemTransport::new();
    let refusal = ControlReply::AcceptErr {
        request_id: 1,
        code: 24,
    };
    t.push_inbound(&refusal.to_frame());
    t.push_inbound(&ControlFrame::new(MessageType::AcceptErr, 2, &[1, 2]));
    t.push_inbound(
        &ControlReply::AcceptErr {
            request_id: 3,
            code: 9,
        }
        .to_frame(),
    );
    let mut s = ArcaSession::new(&mut t);
    let listener = ArcaTcpListener { listener_id: 1 };
    assert_eq!(
        s.accept(&listener),
        Err(ArcaError::AcceptFailed { code: 24 })
    );
    assert_eq!(
        s.accept(&listener),
        Err(ArcaError::Codec(CodecError::ShortPayload {
            expected: 4,
            got: 2
        }))
    );
    assert_eq!(
        s.bind(Endpoint::new([127, 0, 0, 1], 80)),
        Err(ArcaError::UnexpectedReply(MessageType::AcceptErr))
    );
}

#[test]
fn session_counts_request_ids_and_refuses_other_ids() {
    let mut t = MemTransport::new();
    t.push_inbound(&listen_ok(1, 3));
    t.push_inbound(&listen_ok(7, 4));
    let mut s = ArcaSession::new(&mut t);
    let ep = Endpoint::new([127, 0, 0, 1], 80);
    assert_eq!(s.bind(ep).unwrap().id(), 3);
    assert_eq!(
        s.bind(ep),
        Err(ArcaError::UnexpectedRequestId {
            expected: 2,
            got: 7
        })
    );
}

#[test]
fn session_refuses_replies_of_another_kind() {
    let mut t = MemTransport::new();
    t.push_inbound(&listen_ok(1, 3));
    t.push_inbound(
        &ControlReply::AcceptErr {
            request_id: 2,
            code: 9,
        }
        .to_frame(),
    );
    t.push_inbound(
        &ControlRequest::Accept {
            request_id: 3,
            listener_id: 1,
        }
        .to_frame(),
    );
    let mut s = ArcaSession::new(&mut t);
    let ep = Endpoint::new([127, 0, 0, 1], 80);
    assert_eq!(
        s.connect(ep),
        Err(ArcaError::UnexpectedReply(MessageType::ListenOk))
    );
    assert_eq!(
        s.connect(ep),
        Err(ArcaError::UnexpectedReply(MessageType::AcceptErr))
    );
    assert_eq!(
        s.bind(ep),
        Err(ArcaError::UnexpectedReply(MessageType::AcceptRequest))
    );
}

#[test]
fn session_reports_codec_errors() {
    let mut short = Halting::new(&[2, 2, 0, 1, 0, 0, 0, 8, 8], 4, 100);
    let ep = Endpoint::new([127, 0, 0, 1], 80);
    assert_eq!(
        ArcaSession::new(&mut short).bind(ep),
        Err(ArcaError::Codec(CodecError::ShortPayload {
            expected: 4,
            got: 2
        }))
    );
    let mut full = Halting::new(&[], 4, 5);
    assert_eq!(
        ArcaSession::new(&mut full).bind(ep),
        Err(ArcaError::Codec(CodecError::Closed))
    );
    assert_eq!(full.taken, vec![1, 6, 0, 1, 0]);
    assert_eq!(ArcaError::from(CodecError::Closed), ArcaError::Codec(CodecError::Closed));
}

#[test]
fn ids_skip_zero() {
    assert_eq!(next_id(1), 2);
    assert_eq!(next_id(u32::MAX - 1), u32::MAX);
    assert_eq!(next_id(u32::MAX), 1);
    let mut t = MemTransport::new();
    t.push_inbound(&listen_ok(u32::MAX, 3));
    t.push_inbound(&listen_ok(1, 4));
    let mut s = ArcaSession::new(&mut t);
    s.next_request_id = u32::MAX;
    let ep = Endpoint::new([127, 0, 0, 1], 80);
    assert_eq!(s.bind(ep).unwrap().id(), 3);
    assert_eq!(s.bind(ep).unwrap().id(), 4);
}
