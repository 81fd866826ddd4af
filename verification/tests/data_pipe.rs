use std::cell::RefCell;
use std::rc::Rc;

use arca_networking::data_pipe::{
    AsyncStream, DataFrameHeader, FrameType, RecvProgress, StreamError, SyncStream,
};
use arca_networking::pipe::{
    BidirectionalPipe, Channel, Pipe, PipeError, Read, SharedMemoryRegion, Side, Write,
};

/// One end of a pipe over a region that both ends hold. The region is put back
/// after every operation.
struct End {
    region: Rc<RefCell<Option<SharedMemoryRegion>>>,
    ring: u64,
    side: Side,
}

impl End {
    fn act<R>(&mut self, act: impl FnOnce(&mut BidirectionalPipe) -> R) -> R {
        let region = self.region.borrow_mut().take().unwrap();
        let mut pipe = BidirectionalPipe::new(region, self.ring, self.side);
        let r = act(&mut pipe);
        *self.region.borrow_mut() = Some(pipe.into_region());
        r
    }
}

impl Channel for End {}

impl Read for End {
    fn read(&mut self, buf: &mut [u8]) -> Result<usize, PipeError> {
        self.act(|pipe| pipe.read(buf))
    }
}

impl Write for End {
    fn write(&mut self, buf: &[u8]) -> Result<usize, PipeError> {
        self.act(|pipe| pipe.write(buf))
    }
}

impl Pipe for End {
    fn is_peer_read_closed(&mut self) -> bool {
        self.act(|pipe| pipe.is_peer_read_closed())
    }

    fn is_peer_write_closed(&mut self) -> bool {
        self.act(|pipe| pipe.is_peer_write_closed())
    }

    fn close_write(&mut self) {
        self.act(|pipe| pipe.close_write())
    }

    fn close_read(&mut self) {
        self.act(|pipe| pipe.close_read())
    }

    fn is_closed(&mut self) -> bool {
        self.act(|pipe| pipe.is_closed())
    }
}

fn ends(ring: u64) -> (End, End) {
    let size = BidirectionalPipe::required_size(ring) as usize;
    let region = SharedMemoryRegion::from_raw(vec![0u8; size]);
    let region = Rc::new(RefCell::new(Some(region)));
    let a = End {
        region: region.clone(),
        ring,
        side: Side::A,
    };
    let b = End {
        region,
        ring,
        side: Side::B,
    };
    (a, b)
}

fn stream_pair(ring: u64) -> (SyncStream<End>, SyncStream<End>) {
    let (a, b) = ends(ring);
    (SyncStream::from_pipe(1, a), SyncStream::from_pipe(1, b))
}

#[test]
fn send_recv_data() {
    let (mut a, mut b) = stream_pair(128);
    assert_eq!(a.send(b"hello").unwrap(), 5);
    let mut buf = [0u8; 5];
    assert_eq!(b.recv(&mut buf).unwrap(), 5);
    assert_eq!(&buf, b"hello");
}

#[test]
fn close_write_signals_eof_to_peer() {
    let (mut a, mut b) = stream_pair(64);
    a.close_write();
    let mut buf = [0u8; 8];
    assert_eq!(b.recv(&mut buf).unwrap(), 0);
    assert!(!b.is_closed());
}

#[test]
fn close_both_sides_blocks_peer_ops() {
    let (mut a, mut b) = stream_pair(64);
    b.close_write();
    b.close_read();
    // b has closed its own ends but a hasn't yet, so the pipe is not fully closed
    assert!(!b.is_closed());
    let mut buf = [0u8; 8];
    // a sees EOF because b closed write, and WriteClosed because b closed read
    assert_eq!(a.recv(&mut buf).unwrap(), 0);
    assert!(matches!(a.send(b"x"), Err(StreamError::WriteClosed)));
}

#[test]
fn send_after_peer_closes_read_errors() {
    let (mut a, mut b) = stream_pair(64);
    b.close_read();
    assert!(matches!(a.send(b"x"), Err(StreamError::WriteClosed)));
}

#[test]
fn recv_after_eof_returns_zero() {
    let (mut a, mut b) = stream_pair(64);
    a.close_write();
    let mut buf = [0u8; 8];
    b.recv(&mut buf).unwrap();
    assert_eq!(b.recv(&mut buf).unwrap(), 0);
}

#[test]
fn recv_fills_exact_buffer_size() {
    let (mut a, mut b) = stream_pair(128);
    assert_eq!(a.send(b"hello").unwrap(), 5);
    let mut buf = [0u8; 5];
    assert_eq!(b.recv(&mut buf).unwrap(), 5);
    assert_eq!(&buf, b"hello");
}

#[test]
fn pipe_closed_after_both_sides_close() {
    let (mut a, mut b) = stream_pair(128);
    a.close_write();
    let mut buf = [0u8; 8];
    b.recv(&mut buf).unwrap();
    b.close_write();
    a.recv(&mut buf).unwrap();
    assert!(a.is_closed());
}

#[test]
fn bytes_before_eof_are_delivered() {
    let (mut a, mut b) = stream_pair(16);
    assert_eq!(a.send(b"tail"), Ok(4));
    a.close_write();
    let mut buf = [9u8; 6];
    assert_eq!(b.recv(&mut buf), Ok(4));
    assert_eq!(&buf, b"tail\x09\x09");
    // At the end of the stream the reader closed its end, which the writer sees.
    assert_eq!(a.send(b"more"), Err(StreamError::WriteClosed));
}

#[test]
fn empty_send_and_recv() {
    let (mut a, mut b) = stream_pair(16);
    assert_eq!(a.send(b""), Ok(0));
    assert_eq!(b.recv(&mut []), Ok(0));
    b.close_read();
    assert_eq!(a.send(b""), Err(StreamError::WriteClosed));
    assert_eq!(a.conn_id, 1);
}

#[test]
fn exclusive_pipe_streams() {
    // The stream over a pipe endpoint that holds the region alone.
    let region = SharedMemoryRegion::from_raw(vec![0u8; 2 * (16 + 8)]);
    let mut a = SyncStream::from_pipe(4, BidirectionalPipe::new(region, 8, Side::A));
    assert_eq!(a.send(b"12345678"), Ok(8));
    a.close_write();
    let region = a.pipe.into_region();
    let mut b = SyncStream::from_pipe(4, BidirectionalPipe::new(region, 8, Side::B));
    let mut buf = [0u8; 9];
    assert_eq!(b.recv(&mut buf), Ok(8));
    assert_eq!(&buf[..8], b"12345678");
}

/// A pipe whose peer writes its last bytes and closes right after a read found none.
struct LateClose {
    bytes: Vec<u8>,
    closed: bool,
    read_closed: bool,
}

impl Channel for LateClose {}

impl Read for LateClose {
    fn read(&mut self, buf: &mut [u8]) -> Result<usize, PipeError> {
        if !self.closed {
            self.bytes = b"late".to_vec();
            self.closed = true;
            return Err(PipeError::WouldBlock);
        }
        if self.bytes.is_empty() {
            return Err(PipeError::WouldBlock);
        }
        let n = buf.len().min(self.bytes.len());
        buf[..n].copy_from_slice(&self.bytes[..n]);
        self.bytes.drain(..n);
        Ok(n)
    }
}

impl Write for LateClose {
    fn write(&mut self, buf: &[u8]) -> Result<usize, PipeError> {
        Ok(buf.len())
    }
}

impl Pipe for LateClose {
    fn is_peer_read_closed(&mut self) -> bool {
        false
    }

    fn is_peer_write_closed(&mut self) -> bool {
        self.closed
    }

    fn close_write(&mut self) {}

    fn close_read(&mut self) {
        self.read_closed = true;
    }

    fn is_closed(&mut self) -> bool {
        false
    }
}

fn late_close() -> LateClose {
    LateClose {
        bytes: Vec::new(),
        closed: false,
        read_closed: false,
    }
}

#[test]
fn bytes_that_come_with_the_close_are_not_lost() {
    let mut stream = SyncStream::from_pipe(1, late_close());
    let mut buf = [0u8; 6];
    assert_eq!(stream.recv(&mut buf), Ok(4));
    assert_eq!(&buf[..4], b"late");
    assert!(stream.pipe.read_closed);

    let mut stream = AsyncStream::from_pipe(1, late_close());
    let mut buf = [0u8; 4];
    assert_eq!(stream.poll_recv(&mut buf, 0), (4, RecvProgress::Full));
    assert_eq!(&buf, b"late");
    assert!(!stream.pipe.read_closed);
    let mut more = [0u8; 1];
    assert_eq!(stream.poll_recv(&mut more, 0), (0, RecvProgress::Eof));
    assert!(stream.pipe.read_closed);
}

#[test]
fn poll_send_stops_when_the_ring_is_full() {
    let (a, b) = ends(4);
    let mut a = AsyncStream::from_pipe(2, a);
    let mut b = AsyncStream::from_pipe(2, b);
    assert_eq!(a.begin_send(), Ok(()));
    assert_eq!(a.poll_send(b"abcdef", 0), 4);
    assert_eq!(a.poll_send(b"abcdef", 4), 4);
    let mut buf = [0u8; 5];
    assert_eq!(b.poll_recv(&mut buf, 0), (4, RecvProgress::Pending));
    assert_eq!(a.poll_send(b"abcdef", 4), 6);
    assert_eq!(b.poll_recv(&mut buf, 4), (5, RecvProgress::Full));
    assert_eq!(&buf, b"abcde");
    assert_eq!(b.poll_recv(&mut buf, 5), (5, RecvProgress::Full));
    a.close_write();
    assert_eq!(b.poll_recv(&mut buf, 2), (3, RecvProgress::Eof));
    assert_eq!(&buf, b"abfde");
    assert_eq!(a.begin_send(), Err(StreamError::WriteClosed));
    assert!(!a.is_closed());
    b.close_write();
    a.close_read();
    assert!(a.is_closed());
    assert!(b.is_closed());
}

#[test]
fn frame_types() {
    assert_eq!(FrameType::from_u32(0), Some(FrameType::Data));
    assert_eq!(FrameType::from_u32(1), Some(FrameType::Fin));
    assert_eq!(FrameType::from_u32(2), Some(FrameType::Rst));
    assert_eq!(FrameType::from_u32(3), None);
    for t in [FrameType::Data, FrameType::Fin, FrameType::Rst] {
        assert_eq!(FrameType::from_u32(t.as_u32()), Some(t));
    }
}

#[test]
fn data_frame_header_bytes() {
    let header = DataFrameHeader::new(FrameType::Rst, 0x0102_0304);
    assert_eq!(header.as_bytes(), [2, 0, 0, 0, 4, 3, 2, 1]);
}
