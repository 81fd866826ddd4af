//! The memory that two pipe endpoints share.

use vstd::prelude::*;

use crate::bytes::{get_u64, put_u64, u64_le, u64_of, u64_round_trip};
use crate::pipe::ring::{consume_keeps_order, contents, spliced, window, write_appends};
use crate::pipe::ring_header::{cursor_count, RingHeader};
use crate::pipe::traits::has_room;

verus! {

/// Bytes that the layout sets aside for the cursors of one ring.
pub const HEADER_SIZE: u64 = 16;

/// The two endpoints of a pipe.
#[derive(Debug, Clone, Copy, PartialEq, Eq, Structural)]
pub enum Side {
    A,
    B,
}

impl Side {
    /// The other endpoint.
    pub open spec fn peer(self) -> Side {
        match self {
            Side::A => Side::B,
            Side::B => Side::A,
        }
    }
}

/// Total bytes of memory that a pipe with rings of `ring_size` bytes needs.
pub open spec fn required_bytes(ring_size: nat) -> nat {
    2 * (HEADER_SIZE as nat + ring_size)
}

/// Where the cursors of the ring that `from` writes start.
pub open spec fn header_start(ring_size: nat, from: Side) -> int {
    match from {
        Side::A => 0,
        Side::B => HEADER_SIZE + ring_size,
    }
}

/// Where the data area of the ring that `from` writes starts.
pub open spec fn area_start(ring_size: nat, from: Side) -> int {
    match from {
        Side::A => HEADER_SIZE as int,
        Side::B => HEADER_SIZE + ring_size + HEADER_SIZE,
    }
}

/// `mem` with the data area of A's ring replaced by `a` and that of B's ring by
/// `b`.
pub open spec fn with_areas(mem: Seq<u8>, ring_size: nat, a: Seq<u8>, b: Seq<u8>) -> Seq<u8> {
    let start_a = area_start(ring_size, Side::A);
    let start_b = area_start(ring_size, Side::B);
    mem.subrange(0, start_a) + a + mem.subrange(start_a + ring_size, start_b) + b + mem.subrange(
        start_b + ring_size,
        mem.len() as int,
    )
}

/// `mem` with the data area of the ring that `from` writes replaced by `own`.
pub open spec fn with_area(mem: Seq<u8>, ring_size: nat, from: Side, own: Seq<u8>) -> Seq<u8> {
    match from {
        Side::A => with_areas(mem, ring_size, own, area_of(mem, ring_size, Side::B)),
        Side::B => with_areas(mem, ring_size, area_of(mem, ring_size, Side::A), own),
    }
}

/// The two data areas lie apart: what is put into one is found there, and leaves
/// the other and every byte outside them alone.
pub proof fn areas_are_apart(mem: Seq<u8>, ring_size: nat, a: Seq<u8>, b: Seq<u8>)
    requires
        required_bytes(ring_size) <= mem.len(),
        a.len() == ring_size,
        b.len() == ring_size,
    ensures
        area_start(ring_size, Side::A) + ring_size <= area_start(ring_size, Side::B),
        area_start(ring_size, Side::B) + ring_size == required_bytes(ring_size),
        with_areas(mem, ring_size, a, b).len() == mem.len(),
        area_of(with_areas(mem, ring_size, a, b), ring_size, Side::A) == a,
        area_of(with_areas(mem, ring_size, a, b), ring_size, Side::B) == b,
        forall|i: int|
            0 <= i < mem.len() && !(area_start(ring_size, Side::A) <= i < area_start(
                ring_size,
                Side::A,
            ) + ring_size) && !(area_start(ring_size, Side::B) <= i < area_start(ring_size, Side::B)
                + ring_size) ==> with_areas(mem, ring_size, a, b)[i] == mem[i],
{
    let all = with_areas(mem, ring_size, a, b);
    assert(area_of(all, ring_size, Side::A) =~= a);
    assert(area_of(all, ring_size, Side::B) =~= b);
}

/// Putting back what the data areas hold changes nothing.
pub proof fn areas_in_place(mem: Seq<u8>, ring_size: nat)
    requires
        required_bytes(ring_size) <= mem.len(),
    ensures
        with_areas(
            mem,
            ring_size,
            area_of(mem, ring_size, Side::A),
            area_of(mem, ring_size, Side::B),
        ) == mem,
{
    let a = area_of(mem, ring_size, Side::A);
    let b = area_of(mem, ring_size, Side::B);
    assert(with_areas(mem, ring_size, a, b) =~= mem);
}

/// The data area of the ring that `from` writes.
pub open spec fn area_of(mem: Seq<u8>, ring_size: nat, from: Side) -> Seq<u8> {
    mem.subrange(area_start(ring_size, from), area_start(ring_size, from) + ring_size)
}

/// Which ends of one ring are closed.
#[derive(Debug, Clone, Copy, PartialEq, Eq, Structural)]
pub struct RingFlags {
    pub writer_closed: bool,
    pub reader_closed: bool,
}

/// A memory region that holds one bidirectional pipe.
///
/// The layout is header A, data A to B, header B, data B to A. A header is the read
/// cursor and the write cursor, eight bytes each, least significant first. It has no
/// bytes for the close flags; they stand beside the memory.
pub struct SharedMemoryRegion {
    pub mem: Vec<u8>,
    pub flags_a: RingFlags,
    pub flags_b: RingFlags,
}

impl SharedMemoryRegion {
    /// The close flags of the ring that `from` writes.
    pub open spec fn flags(&self, from: Side) -> RingFlags {
        match from {
            Side::A => self.flags_a,
            Side::B => self.flags_b,
        }
    }

    /// The header of the ring that `from` writes: its cursors as the memory holds
    /// them, and its close flags.
    pub open spec fn header(&self, ring_size: nat, from: Side) -> RingHeader {
        let start = header_start(ring_size, from);
        RingHeader {
            read_cursor: u64_of(self.mem@.subrange(start, start + 8)),
            write_cursor: u64_of(self.mem@.subrange(start + 8, start + 16)),
            writer_closed: self.flags(from).writer_closed,
            reader_closed: self.flags(from).reader_closed,
        }
    }

    /// The data area of the ring that `from` writes.
    pub open spec fn area(&self, ring_size: nat, from: Side) -> Seq<u8> {
        area_of(self.mem@, ring_size, from)
    }

    /// The bytes that `from` has written and that its peer has not read.
    pub open spec fn queued(&self, ring_size: nat, from: Side) -> Seq<u8> {
        contents(self.header(ring_size, from), self.area(ring_size, from))
    }

    /// Take `mem` as a region with every end open. Its cursors are what `mem` holds, so
    /// a region in which no pipe was created yet must be zero.
    pub fn from_raw(mem: Vec<u8>) -> (region: Self)
        ensures
            region.mem@ == mem@,
            forall|from: Side|
                region.flags(from) == (RingFlags { writer_closed: false, reader_closed: false }),
    {
        let open = RingFlags { writer_closed: false, reader_closed: false };
        SharedMemoryRegion { mem, flags_a: open, flags_b: open }
    }

    /// The bytes of the region, from its start.
    pub fn as_ptr(&self) -> (bytes: &[u8])
        ensures
            bytes@ == self.mem@,
    {
        self.mem.as_slice()
    }

    /// The length of the region in bytes.
    pub fn len(&self) -> (len: u64)
        ensures
            len == self.mem@.len(),
    {
        self.mem.len() as u64
    }

    /// True if the region has zero length.
    pub fn is_empty(&self) -> (b: bool)
        ensures
            b == (self.mem@.len() == 0),
    {
        self.mem.len() == 0
    }

    /// Read the header of the ring that `from` writes.
    pub(crate) fn load_header(&self, ring_size: u64, from: Side) -> (header: RingHeader)
        requires
            required_bytes(ring_size as nat) <= self.mem@.len(),
        ensures
            header == self.header(ring_size as nat, from),
    {
        let total: usize = self.mem.len();
        assert(HEADER_SIZE + ring_size <= total);
        let (start, flags): (usize, RingFlags) = match from {
            Side::A => (0, self.flags_a),
            Side::B => ((HEADER_SIZE + ring_size) as usize, self.flags_b),
        };
        RingHeader {
            read_cursor: get_u64(self.mem.as_slice(), start),
            write_cursor: get_u64(self.mem.as_slice(), start + 8),
            writer_closed: flags.writer_closed,
            reader_closed: flags.reader_closed,
        }
    }

    /// Write the header of the ring that `from` writes.
    pub(crate) fn store_header(&mut self, ring_size: u64, from: Side, header: RingHeader)
        requires
            required_bytes(ring_size as nat) <= old(self).mem@.len(),
        ensures
            final(self).mem@.len() == old(self).mem@.len(),
            forall|i: int|
                0 <= i < old(self).mem@.len() && !in_header(ring_size as nat, from, i)
                    ==> #[trigger] final(self).mem@[i] == old(self).mem@[i],
            final(self).header(ring_size as nat, from) == header,
            final(self).flags(from.peer()) == old(self).flags(from.peer()),
    {
        let total: usize = self.mem.len();
        assert(HEADER_SIZE + ring_size <= total);
        let flags = RingFlags {
            writer_closed: header.writer_closed,
            reader_closed: header.reader_closed,
        };
        let start: usize = match from {
            Side::A => {
                self.flags_a = flags;
                0
            },
            Side::B => {
                self.flags_b = flags;
                (HEADER_SIZE + ring_size) as usize
            },
        };
        put_u64(self.mem.as_mut_slice(), start, header.read_cursor);
        put_u64(self.mem.as_mut_slice(), start + 8, header.write_cursor);
        proof {
            let s = start as int;
            u64_round_trip(header.read_cursor);
            u64_round_trip(header.write_cursor);
            assert(self.mem@.subrange(s, s + 8) =~= u64_le(header.read_cursor));
            assert(self.mem@.subrange(s + 8, s + 16) =~= u64_le(header.write_cursor));
        }
    }
}

/// Whether index `i` lies in the header of the ring that `from` writes.
pub open spec fn in_header(ring_size: nat, from: Side, i: int) -> bool {
    header_start(ring_size, from) <= i < header_start(ring_size, from) + HEADER_SIZE
}

/// Memory that is zero holds a pipe in which nothing was written yet.
pub proof fn zeroed_region_is_empty(region: SharedMemoryRegion, ring_size: nat, from: Side)
    requires
        required_bytes(ring_size) <= region.mem@.len(),
        forall|i: int| 0 <= i < region.mem@.len() ==> #[trigger] region.mem@[i] == 0,
    ensures
        region.header(ring_size, from).read_cursor == 0,
        region.header(ring_size, from).write_cursor == 0,
        region.header(ring_size, from).fits(ring_size),
        region.queued(ring_size, from) == Seq::<u8>::empty(),
{
    let start = header_start(ring_size, from);
    let zeros = u64_le(0);
    assert(region.mem@.subrange(start, start + 8) =~= zeros);
    assert(region.mem@.subrange(start + 8, start + 16) =~= zeros);
    u64_round_trip(0);
    assert(region.queued(ring_size, from) =~= Seq::<u8>::empty());
}

/// A write at one side reaches the other side, and nothing else: the bytes that
/// wait for the peer grow by `buf`, and those on their way back stay.
pub proof fn write_reaches_the_peer(
    before: SharedMemoryRegion,
    after: SharedMemoryRegion,
    ring_size: nat,
    from: Side,
    buf: Seq<u8>,
)
    requires
        required_bytes(ring_size) <= before.mem@.len(),
        ring_size < cursor_count(),
        before.header(ring_size, from).fits(ring_size),
        before.header(ring_size, from).used() + buf.len() <= ring_size,
        has_room(before.header(ring_size, from).endurance(ring_size), buf.len()),
        after.header(ring_size, from) == before.header(ring_size, from).written(buf.len()),
        after.header(ring_size, from.peer()) == before.header(ring_size, from.peer()),
        after.area(ring_size, from) == spliced(
            before.area(ring_size, from),
            before.header(ring_size, from).write_cursor as int,
            buf,
        ),
        after.area(ring_size, from.peer()) == before.area(ring_size, from.peer()),
    ensures
        after.queued(ring_size, from) == before.queued(ring_size, from) + buf,
        after.queued(ring_size, from.peer()) == before.queued(ring_size, from.peer()),
{
    write_appends(before.header(ring_size, from), before.area(ring_size, from), buf);
}

/// A read at one side takes the oldest bytes of what the other side wrote, and
/// nothing else.
pub proof fn read_takes_from_the_peer(
    before: SharedMemoryRegion,
    after: SharedMemoryRegion,
    ring_size: nat,
    to: Side,
    n: nat,
)
    requires
        required_bytes(ring_size) <= before.mem@.len(),
        ring_size < cursor_count(),
        before.header(ring_size, to.peer()).fits(ring_size),
        n <= before.header(ring_size, to.peer()).used(),
        after.header(ring_size, to.peer()) == before.header(ring_size, to.peer()).consumed(n),
        after.header(ring_size, to) == before.header(ring_size, to),
        after.area(ring_size, to) == before.area(ring_size, to),
        after.area(ring_size, to.peer()) == before.area(ring_size, to.peer()),
    ensures
        window(
            before.area(ring_size, to.peer()),
            before.header(ring_size, to.peer()).read_cursor as int,
            n,
        ) == before.queued(ring_size, to.peer()).take(n as int),
        after.queued(ring_size, to.peer()) == before.queued(ring_size, to.peer()).skip(n as int),
        after.queued(ring_size, to) == before.queued(ring_size, to),
{
    consume_keeps_order(
        before.header(ring_size, to.peer()),
        before.area(ring_size, to.peer()),
        n,
    );
}

} // verus!
