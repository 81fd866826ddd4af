use arca_networking::pipe::{
    span, BidirectionalPipe, Pipe, PipeError, Read, RingConsumer, RingData, RingHeader,
    RingProducer, RingSpan, SharedMemoryRegion, Side, Write, HEADER_SIZE,
};

fn header(read: u64, write: u64) -> RingHeader {
    RingHeader {
        read_cursor: read,
        write_cursor: write,
        writer_closed: false,
        reader_closed: false,
    }
}

#[test]
fn ring_empty_ring() {
    let h = header(0, 0);
    assert_eq!(h.used_space(), 0);
    assert_eq!(h.free_space(64), 64);
}

#[test]
fn ring_partial_fill() {
    let h = header(10, 40);
    assert_eq!(h.used_space(), 30);
    assert_eq!(h.free_space(64), 34);
}

#[test]
fn ring_full_ring() {
    let h = header(100, 164);
    assert_eq!(h.used_space(), 64);
    assert_eq!(h.free_space(64), 0);
}

#[test]
fn ring_header_empty_ring() {
    let h = RingHeader::new();
    assert_eq!(h.used_space(), 0);
    assert_eq!(h.free_space(64), 64);
}

#[test]
fn ring_header_partial_fill() {
    let mut h = RingHeader::new();
    h.read_cursor = 10;
    h.write_cursor = 40;
    assert_eq!(h.used_space(), 30);
    assert_eq!(h.free_space(64), 34);
}

#[test]
fn ring_header_full_ring() {
    let mut h = RingHeader::new();
    h.read_cursor = 100;
    h.write_cursor = 164;
    assert_eq!(h.used_space(), 64);
    assert_eq!(h.free_space(64), 0);
}

#[test]
fn used_space_survives_cursor_overflow() {
    let h = header(u64::MAX - 1, 4);
    assert_eq!(h.used_space(), 6);
    assert_eq!(h.free_space(8), 2);
}

#[test]
fn data_write_then_read_no_wrap() {
    let mut mem = [0u8; 8];
    let mut rd = RingData::new(&mut mem);
    rd.write_at(0, b"abcd");
    let mut out = [0u8; 4];
    rd.read_at(0, &mut out);
    assert_eq!(&out, b"abcd");
}

#[test]
fn data_write_wraps() {
    let mut mem = [0u8; 8];
    let mut rd = RingData::new(&mut mem);
    rd.write_at(6, b"XYZW");
    assert_eq!(&mem[6..8], b"XY");
    assert_eq!(&mem[..2], b"ZW");
}

#[test]
fn data_read_wraps() {
    let mut mem = *b"cdEFabXY";
    let rd = RingData::new(&mut mem);
    let mut out = [0u8; 6];
    rd.read_at(6, &mut out);
    assert_eq!(&out, b"XYcdEF");
}

#[test]
fn data_size_is_length_of_area() {
    let mut mem = [0u8; 12];
    assert_eq!(RingData::new(&mut mem).size(), 12);
}

#[test]
fn span_splits_at_the_end_of_the_area() {
    assert_eq!(span(22, 8, 5), RingSpan { offset: 6, first: 2, rest: 3 });
    assert_eq!(span(22, 8, 2), RingSpan { offset: 6, first: 2, rest: 0 });
    assert_eq!(span(16, 8, 8), RingSpan { offset: 0, first: 8, rest: 0 });
}

#[test]
fn simple_read() {
    let mut mem = *b"hello...";
    let mut h = header(0, 5);
    let mut c = RingConsumer::new(&mut h, RingData::new(&mut mem));
    let mut out = [0u8; 8];
    assert_eq!(c.read(&mut out).unwrap(), 5);
    assert_eq!(&out[..5], b"hello");
    assert_eq!(h.read_cursor, 5);
}

#[test]
fn partial_read() {
    let mut mem = *b"abcdefgh";
    let mut h = header(0, 8);
    let mut c = RingConsumer::new(&mut h, RingData::new(&mut mem));
    let mut out = [0u8; 3];
    assert_eq!(c.read(&mut out).unwrap(), 3);
    assert_eq!(&out, b"abc");
}

#[test]
fn ring_consumer_wrap_around() {
    let mut mem = *b"WXYZabcd";
    let mut h = header(5, 12);
    let mut c = RingConsumer::new(&mut h, RingData::new(&mut mem));
    let mut out = [0u8; 8];
    assert_eq!(c.read(&mut out).unwrap(), 7);
    assert_eq!(&out[..7], b"bcdWXYZ");
}

#[test]
fn empty_ring_blocks() {
    let mut mem = [0u8; 4];
    let mut h = header(4, 4);
    let mut c = RingConsumer::new(&mut h, RingData::new(&mut mem));
    let mut out = [0u8; 4];
    assert!(matches!(c.read(&mut out), Err(PipeError::WouldBlock)));
}

#[test]
fn zero_length_read_non_empty() {
    let mut mem = *b"data";
    let mut h = header(0, 4);
    let mut c = RingConsumer::new(&mut h, RingData::new(&mut mem));
    let mut out = [0u8; 0];
    assert_eq!(c.read(&mut out).unwrap(), 0);
    assert_eq!(h.read_cursor, 0);
}

#[test]
fn zero_length_read_empty() {
    let mut mem = [0u8; 4];
    let mut h = header(0, 0);
    let mut c = RingConsumer::new(&mut h, RingData::new(&mut mem));
    let mut out = [0u8; 0];
    assert_eq!(c.read(&mut out).unwrap(), 0);
}

#[test]
fn simple_write() {
    let mut h = header(0, 0);
    let mut mem = [0u8; 16];
    let mut p = RingProducer::new(&mut h, RingData::new(&mut mem));
    assert_eq!(p.write(b"hello").unwrap(), 5);
    assert_eq!(&mem[..5], b"hello");
    assert_eq!(h.write_cursor, 5);
}

#[test]
fn fill_to_full() {
    let mut h = header(0, 0);
    let mut mem = [0u8; 8];
    let mut p = RingProducer::new(&mut h, RingData::new(&mut mem));
    assert_eq!(p.write(b"abcdefghij").unwrap(), 8);
    assert_eq!(&mem, b"abcdefgh");
}

#[test]
fn ring_producer_wrap_around() {
    let mut h = header(0, 0);
    h.read_cursor = 5;
    h.write_cursor = 5;
    let mut mem = [0u8; 8];
    let mut p = RingProducer::new(&mut h, RingData::new(&mut mem));
    assert_eq!(p.write(b"XYZW").unwrap(), 4);
    assert_eq!(&mem[5..8], b"XYZ");
    assert_eq!(&mem[..1], b"W");
}

#[test]
fn full_ring_blocks() {
    let mut h = header(0, 0);
    h.write_cursor = 4;
    let mut mem = [0u8; 4];
    let mut p = RingProducer::new(&mut h, RingData::new(&mut mem));
    assert!(matches!(p.write(b"x"), Err(PipeError::WouldBlock)));
}

#[test]
fn empty_write_blocks_on_a_full_ring_only() {
    let mut h = header(0, 4);
    let mut mem = [0u8; 4];
    assert_eq!(
        RingProducer::new(&mut h, RingData::new(&mut mem)).try_write(b""),
        Err(PipeError::WouldBlock)
    );
    h.read_cursor = 1;
    assert_eq!(RingProducer::new(&mut h, RingData::new(&mut mem)).try_write(b""), Ok(0));
}

#[test]
fn bytes_come_out_in_order_across_cursor_overflow() {
    let mut h = header(u64::MAX - 2, u64::MAX - 2);
    let mut mem = [0u8; 8];
    assert_eq!(
        RingProducer::new(&mut h, RingData::new(&mut mem)).write(b"abcdefg"),
        Ok(7)
    );
    assert_eq!(h.write_cursor, 4);
    let mut out = [0u8; 8];
    assert_eq!(
        RingConsumer::new(&mut h, RingData::new(&mut mem)).read(&mut out),
        Ok(7)
    );
    assert_eq!(&out[..7], b"abcdefg");
    assert_eq!(h.read_cursor, 4);
}

#[test]
fn ring_is_first_in_first_out() {
    let mut h = RingHeader::new();
    let mut mem = [0u8; 5];
    let mut got: Vec<u8> = Vec::new();
    let mut sent: Vec<u8> = Vec::new();
    let mut next: u8 = 0;
    for round in 0..40usize {
        let chunk: Vec<u8> = (0..(round % 4)).map(|i| next.wrapping_add(i as u8)).collect();
        if let Ok(n) = RingProducer::new(&mut h, RingData::new(&mut mem)).write(&chunk) {
            sent.extend_from_slice(&chunk[..n]);
            next = next.wrapping_add(n as u8);
        }
        let mut out = vec![0u8; (round * 7) % 3];
        if let Ok(n) = RingConsumer::new(&mut h, RingData::new(&mut mem)).read(&mut out) {
            got.extend_from_slice(&out[..n]);
        }
        assert_eq!(h.used_space() as usize, sent.len() - got.len());
    }
    assert_eq!(&sent[..got.len()], &got[..]);
    assert!(got.len() > 20);
}

#[test]
fn ring_close_flags() {
    let mut h = RingHeader::new();
    let mut mem = [0u8; 4];
    let mut c = RingConsumer::new(&mut h, RingData::new(&mut mem));
    assert!(!c.is_writer_closed());
    c.close_reader();
    assert!(!c.is_closed());
    let mut p = RingProducer::new(&mut h, RingData::new(&mut mem));
    assert!(p.is_reader_closed());
    p.close_writer();
    let c = RingConsumer::new(&mut h, RingData::new(&mut mem));
    assert!(c.is_writer_closed());
    assert!(c.is_closed());
}

#[test]
fn pipe_error_message() {
    assert_eq!(PipeError::WouldBlock.message(), "operation would block");
}

#[test]
fn required_size_matches_layout() {
    let size = BidirectionalPipe::required_size(64);
    assert_eq!(size, 2 * (16 + 64));
}

#[test]
fn round_trip_a_to_b() {
    const RING: u64 = 64;
    let size = BidirectionalPipe::required_size(RING) as usize;
    let mem = vec![0u8; 2 * (16 + 64)];
    assert_eq!(mem.len(), size);

    let region = SharedMemoryRegion::from_raw(mem);
    let mut a = BidirectionalPipe::new(region, RING, Side::A);
    assert_eq!(a.write(b"ping").unwrap(), 4);

    let mut b = BidirectionalPipe::new(a.into_region(), RING, Side::B);
    let mut out = [0u8; 4];
    assert_eq!(b.read(&mut out).unwrap(), 4);
    assert_eq!(&out, b"ping");
}

#[test]
fn round_trip_b_to_a() {
    const RING: u64 = 32;
    let size = BidirectionalPipe::required_size(RING) as usize;
    let mem = vec![0u8; 2 * (16 + 32)];
    assert_eq!(mem.len(), size);

    let region = SharedMemoryRegion::from_raw(mem);
    let mut b = BidirectionalPipe::new(region, RING, Side::B);
    assert_eq!(b.write(b"pong!!").unwrap(), 6);

    let mut a = BidirectionalPipe::new(b.into_region(), RING, Side::A);
    let mut out = [0u8; 6];
    assert_eq!(a.read(&mut out).unwrap(), 6);
    assert_eq!(&out, b"pong!!");
}

#[test]
fn both_directions_independent() {
    const RING: u64 = 32;
    let region = SharedMemoryRegion::from_raw(vec![0u8; 2 * (16 + 32)]);

    let mut a = BidirectionalPipe::new(region, RING, Side::A);
    a.write(b"hello").unwrap();
    let mut b = BidirectionalPipe::new(a.into_region(), RING, Side::B);
    b.write(b"world").unwrap();

    let mut from_a = [0u8; 5];
    let mut from_b = [0u8; 5];
    b.read(&mut from_a).unwrap();
    let mut a = BidirectionalPipe::new(b.into_region(), RING, Side::A);
    a.read(&mut from_b).unwrap();
    assert_eq!(&from_a, b"hello");
    assert_eq!(&from_b, b"world");
}

#[test]
fn data_areas_lie_where_the_layout_says() {
    let region = SharedMemoryRegion::from_raw(vec![0u8; 2 * (16 + 8) + 3]);
    let mut a = BidirectionalPipe::new(region, 8, Side::A);
    a.write(b"AAAAAAAA").unwrap();
    let mut b = BidirectionalPipe::new(a.into_region(), 8, Side::B);
    b.write(b"BBBB").unwrap();
    let mut expected = vec![0u8; 51];
    expected[8] = 8;
    expected[16..24].copy_from_slice(b"AAAAAAAA");
    expected[32] = 4;
    expected[40..44].copy_from_slice(b"BBBB");
    assert_eq!(b.into_region().as_ptr(), &expected[..]);
    assert_eq!(HEADER_SIZE, 16);
}

#[test]
fn cursors_are_read_from_the_memory() {
    let mut mem = vec![0u8; 2 * (16 + 8)];
    mem[0] = 6;
    mem[8] = 10;
    mem[16..24].copy_from_slice(b"cd....ab");
    let mut b = BidirectionalPipe::new(SharedMemoryRegion::from_raw(mem), 8, Side::B);
    let mut out = [0u8; 3];
    assert_eq!(b.read(&mut out), Ok(3));
    assert_eq!(&out, b"abc");
    let region = b.into_region();
    assert_eq!(region.as_ptr()[0], 9);
    let mut b = BidirectionalPipe::new(region, 8, Side::B);
    assert_eq!(b.read(&mut out), Ok(1));
    assert_eq!(b.read(&mut out), Err(PipeError::WouldBlock));
    assert_eq!(b.into_region().as_ptr()[..16], [10, 0, 0, 0, 0, 0, 0, 0, 10, 0, 0, 0, 0, 0, 0, 0]);
}

#[test]
fn region_length() {
    let region = SharedMemoryRegion::from_raw(vec![7u8; 5]);
    assert_eq!(region.len(), 5);
    assert!(!region.is_empty());
    assert_eq!(region.as_ptr(), &[7, 7, 7, 7, 7]);
    assert!(SharedMemoryRegion::from_raw(Vec::new()).is_empty());
}

#[test]
fn split_halves_work_side_by_side() {
    let region = SharedMemoryRegion::from_raw(vec![0u8; 2 * (16 + 8)]);
    let mut b = BidirectionalPipe::new(region, 8, Side::B);
    b.write(b"in").unwrap();
    let mut a = BidirectionalPipe::new(b.into_region(), 8, Side::A);
    let mut out = [0u8; 8];
    {
        let (mut reader, mut writer) = a.split();
        assert_eq!(writer.write(b"out"), Ok(3));
        assert_eq!(reader.read(&mut out), Ok(2));
    }
    assert_eq!(&out[..2], b"in");
    let mut b = BidirectionalPipe::new(a.into_region(), 8, Side::B);
    assert_eq!(b.read(&mut out), Ok(3));
    assert_eq!(&out[..3], b"out");
}

#[test]
fn pipe_blocks_when_full_or_empty() {
    let region = SharedMemoryRegion::from_raw(vec![0u8; 2 * (16 + 4)]);
    let mut a = BidirectionalPipe::new(region, 4, Side::A);
    let mut out = [0u8; 4];
    assert_eq!(a.read(&mut out), Err(PipeError::WouldBlock));
    assert_eq!(a.write(b"abcdef"), Ok(4));
    assert_eq!(a.write(b"e"), Err(PipeError::WouldBlock));
    let region = SharedMemoryRegion::from_raw(vec![0u8; 32]);
    let mut none = BidirectionalPipe::new(region, 0, Side::B);
    assert_eq!(none.write(b"a"), Err(PipeError::WouldBlock));
    assert_eq!(none.read(&mut out), Err(PipeError::WouldBlock));
}

#[test]
fn pipe_close_flags_cross_over() {
    let region = SharedMemoryRegion::from_raw(vec![0u8; 2 * (16 + 8)]);
    let mut a = BidirectionalPipe::new(region, 8, Side::A);
    a.close_write();
    let mut b = BidirectionalPipe::new(a.into_region(), 8, Side::B);
    assert!(b.is_peer_write_closed());
    assert!(!b.is_peer_read_closed());
    b.close_read();
    b.close_write();
    assert!(!b.is_closed());
    let mut a = BidirectionalPipe::new(b.into_region(), 8, Side::A);
    assert!(a.is_peer_read_closed());
    a.close_read();
    assert!(a.is_closed());
}

#[test]
fn old_cursors_are_safe_on_both_sides() {
    // The producer works from a header that it copied before the consumer read.
    let mut h = RingHeader::new();
    let mut mem = [0u8; 8];
    RingProducer::new(&mut h, RingData::new(&mut mem)).write(b"abcdef").unwrap();
    let mut seen_by_producer = h;
    let mut seen_by_consumer = h;
    let mut out = [0u8; 4];
    assert_eq!(
        RingConsumer::new(&mut h, RingData::new(&mut mem)).read(&mut out),
        Ok(4)
    );
    assert_eq!(
        RingProducer::new(&mut seen_by_producer, RingData::new(&mut mem)).write(b"ghij"),
        Ok(2)
    );
    h.write_cursor = seen_by_producer.write_cursor;
    let mut rest = [0u8; 8];
    assert_eq!(
        RingConsumer::new(&mut h, RingData::new(&mut mem)).read(&mut rest),
        Ok(4)
    );
    assert_eq!(&rest[..4], b"efgh");
    // A consumer with the old header finds the old bytes, and no new ones.
    let mut early = [0u8; 8];
    assert_eq!(
        RingConsumer::new(&mut seen_by_consumer, RingData::new(&mut mem)).read(&mut early),
        Ok(6)
    );
    assert_eq!(&early[..6], b"abcdef");
}
