use std::cell::RefCell;
use std::rc::Rc;

use arca_networking::bytes::{
    copy_into, get_u16, get_u32, get_u64, put_u16, put_u32, put_u64,
};
use arca_networking::pipe::{
    BidirectionalPipe, Channel, PipeError, Read, SharedMemoryRegion, Side, Write,
};
use arca_networking::transfer::{
    checksum, chunk_len, pattern, receive_all, send_all, Checkpoints,
};

#[test]
fn pattern_repeats() {
    let p = pattern(600);
    assert_eq!(p.len(), 600);
    assert_eq!(&p[..3], &[1, 2, 3]);
    assert_eq!(p[254], 255);
    assert_eq!(p[255], 1);
    assert_eq!(p[599], 90);
}

#[test]
fn checksum_is_exclusive_or() {
    assert_eq!(checksum(0, &[1, 2, 4], 3), 7);
    assert_eq!(checksum(7, &[1, 2, 4], 2), 4);
    assert_eq!(checksum(9, &[], 0), 9);
    let p = pattern(100);
    assert_eq!(checksum(checksum(0, &p, 40), &p[40..], 60), checksum(0, &p, 100));
}

#[test]
fn chunk_is_cut_at_the_end() {
    assert_eq!(chunk_len(10, 0, 4), 4);
    assert_eq!(chunk_len(10, 8, 4), 2);
    assert_eq!(chunk_len(10, 10, 4), 0);
}

#[test]
fn checkpoints_come_every_tenth() {
    let mut points = Checkpoints::new(95);
    assert_eq!(points.size, 10);
    assert_eq!(points.reached(9), None);
    assert_eq!(points.reached(10), Some(1));
    assert_eq!(points.reached(10), None);
    // A long step gives one report at a time.
    assert_eq!(points.reached(45), Some(2));
    assert_eq!(points.reached(45), Some(3));
}

#[test]
fn both_sides_of_a_transfer_agree() {
    let region = SharedMemoryRegion::from_raw(vec![0u8; 2 * (16 + 256)]);
    let buf = pattern(100);
    let mut a = BidirectionalPipe::new(region, 256, Side::A);
    let sent = send_all(&mut a, &buf, 250);
    let mut room = [0u8; 33];
    let mut b = BidirectionalPipe::new(a.into_region(), 256, Side::B);
    let got = receive_all(&mut b, &mut room, 250);
    assert_eq!(sent, got);
    assert_eq!(sent.0, 250);
    // Twice the whole pattern cancels out; what is left is half of it.
    assert_eq!(sent.1, checksum(0, &buf, 50));
}

/// Takes at most three bytes at a time and says `WouldBlock` every other time.
struct Slow {
    seen: Rc<RefCell<Vec<u8>>>,
    blocked: bool,
}

impl Channel for Slow {}

impl Write for Slow {
    fn write(&mut self, buf: &[u8]) -> Result<usize, PipeError> {
        self.blocked = !self.blocked;
        if self.blocked {
            return Err(PipeError::WouldBlock);
        }
        let n = buf.len().min(3);
        self.seen.borrow_mut().extend_from_slice(&buf[..n]);
        Ok(n)
    }
}

impl Read for Slow {
    fn read(&mut self, buf: &mut [u8]) -> Result<usize, PipeError> {
        self.blocked = !self.blocked;
        if self.blocked {
            return Err(PipeError::WouldBlock);
        }
        let mut seen = self.seen.borrow_mut();
        let n = buf.len().min(3).min(seen.len());
        buf[..n].copy_from_slice(&seen[..n]);
        seen.drain(..n);
        Ok(n)
    }
}

#[test]
fn short_writes_start_over() {
    let seen = Rc::new(RefCell::new(Vec::new()));
    let mut slow = Slow {
        seen: seen.clone(),
        blocked: false,
    };
    let sent = send_all(&mut slow, &[10, 20, 30, 40], 8);
    assert_eq!(*seen.borrow(), vec![10, 20, 30, 10, 20, 30, 10, 20]);
    assert_eq!(sent, (8, 10 ^ 20));
    let mut buf = [0u8; 2];
    assert_eq!(receive_all(&mut slow, &mut buf, 8), sent);
    assert_eq!(send_all(&mut slow, &[], 0), (0, 0));
}

#[test]
fn little_endian_numbers() {
    let mut out = [0u8; 10];
    put_u16(&mut out, 1, 0x0201);
    assert_eq!(&out[..4], &[0, 1, 2, 0]);
    assert_eq!(get_u16(&out, 1), 0x0201);
    put_u32(&mut out, 2, 0xfffe_fdfc);
    assert_eq!(&out[2..6], &[0xfc, 0xfd, 0xfe, 0xff]);
    assert_eq!(get_u32(&out, 2), 0xfffe_fdfc);
    put_u64(&mut out, 2, 0x0807_0605_0403_0201);
    assert_eq!(&out[2..], &[1, 2, 3, 4, 5, 6, 7, 8]);
    assert_eq!(get_u64(&out, 2), 0x0807_0605_0403_0201);
    copy_into(&mut out, 8, &[70, 71]);
    assert_eq!(&out[6..], &[5, 6, 70, 71]);
}
