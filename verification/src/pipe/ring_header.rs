//! Cursors and close flags of one ring.

use vstd::prelude::*;

verus! {

/// How many different values a cursor can have.
pub open spec fn cursor_count() -> int {
    0x1_0000_0000_0000_0000
}

/// Whether a cursor of a ring of `size` bytes can go from the end of the `u64`
/// range to its start without a jump in physical position.
pub open spec fn cursor_wraps_cleanly(size: nat) -> bool {
    cursor_count() % (size as int) == 0
}

/// Header of one single-producer, single-consumer ring.
///
/// Cursors are logical offsets that only grow; they wrap around at the end of
/// the `u64` range. The physical position of a cursor is `cursor % ring_size`.
/// The producer sets `writer_closed`, the consumer sets `reader_closed`.
#[derive(Debug, Clone, Copy, PartialEq, Eq, Structural)]
pub struct RingHeader {
    pub read_cursor: u64,
    pub write_cursor: u64,
    pub writer_closed: bool,
    pub reader_closed: bool,
}

impl RingHeader {
    /// Bytes written and not yet read: the distance from the read cursor to the
    /// write cursor, going upwards and wrapping around.
    pub open spec fn used(self) -> nat {
        ((self.write_cursor - self.read_cursor) % cursor_count()) as nat
    }

    /// The header after `n` more bytes were written.
    pub open spec fn written(self, n: nat) -> RingHeader {
        RingHeader {
            write_cursor: ((self.write_cursor + n) % cursor_count()) as u64,
            ..self
        }
    }

    /// The header after `n` more bytes were read.
    pub open spec fn consumed(self, n: nat) -> RingHeader {
        RingHeader { read_cursor: ((self.read_cursor + n) % cursor_count()) as u64, ..self }
    }

    /// Whether this can be the header of a ring of `size` bytes: no more is used
    /// than there is, and between the two cursors a logical position has one
    /// physical position.
    pub open spec fn fits(self, size: nat) -> bool {
        &&& self.used() <= size
        &&& size == 0 || cursor_wraps_cleanly(size) || self.read_cursor <= self.write_cursor
    }

    /// How many more bytes can be written before a cursor wraps around in a way
    /// that the ring's size does not bear; `None` if there is no limit.
    pub open spec fn endurance(self, size: nat) -> Option<nat> {
        if cursor_wraps_cleanly(size) {
            None
        } else {
            Some((cursor_count() - 1 - self.write_cursor) as nat)
        }
    }

    /// The header of an empty ring that is open at both ends.
    pub fn new() -> (header: Self)
        ensures
            header == (RingHeader {
                read_cursor: 0,
                write_cursor: 0,
                writer_closed: false,
                reader_closed: false,
            }),
    {
        RingHeader { read_cursor: 0, write_cursor: 0, writer_closed: false, reader_closed: false }
    }

    /// Bytes available to read.
    pub fn used_space(&self) -> (used: u64)
        ensures
            used == self.used(),
    {
        self.write_cursor.wrapping_sub(self.read_cursor)
    }

    /// Bytes available to write in a ring of `capacity` bytes.
    pub fn free_space(&self, capacity: u64) -> (free: u64)
        requires
            self.used() <= capacity,
        ensures
            free == capacity - self.used(),
    {
        capacity - self.write_cursor.wrapping_sub(self.read_cursor)
    }
}

} // verus!
