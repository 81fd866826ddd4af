//! One endpoint of a pipe: the write end of one ring, the read end of the other.

use vstd::prelude::*;

use crate::pipe::error::PipeError;
use crate::pipe::ring::{contents, spliced, RingData};
use crate::pipe::ring_consumer::RingConsumer;
use crate::pipe::ring_header::RingHeader;
use crate::pipe::ring_producer::RingProducer;
use crate::pipe::shared_memory_region::{
    area_of, areas_are_apart, areas_in_place, in_header, required_bytes, with_area, with_areas,
    SharedMemoryRegion, Side, HEADER_SIZE,
};
use crate::pipe::traits::{accepted, Channel, ChannelState, CloseFlags, Pipe, Read, Write};

verus! {

/// One endpoint of a bidirectional pipe.
///
/// An endpoint takes the region over while it acts: it reads the two headers from the
/// memory when it is created and writes them back when it gives the region back by
/// [`BidirectionalPipe::into_region`].
pub struct BidirectionalPipe {
    pub region: SharedMemoryRegion,
    pub ring_size: u64,
    pub side: Side,
    /// Header of the ring that this endpoint writes.
    pub out: RingHeader,
    /// Header of the ring that this endpoint reads.
    pub back: RingHeader,
}

impl BidirectionalPipe {
    /// Whether the region has room for the pipe.
    pub open spec fn laid_out(&self) -> bool {
        required_bytes(self.ring_size as nat) <= self.region.mem@.len()
    }

    /// The data area of the ring that this endpoint writes.
    pub open spec fn out_area(&self) -> Seq<u8> {
        self.region.area(self.ring_size as nat, self.side)
    }

    /// The data area of the ring that this endpoint reads.
    pub open spec fn back_area(&self) -> Seq<u8> {
        self.region.area(self.ring_size as nat, self.side.peer())
    }

    /// Whether this endpoint is what `region` holds, seen from its side.
    pub open spec fn taken_from(&self, region: SharedMemoryRegion) -> bool {
        &&& self.region == region
        &&& self.out == region.header(self.ring_size as nat, self.side)
        &&& self.back == region.header(self.ring_size as nat, self.side.peer())
    }

    /// Whether `region` holds what this endpoint has made of it: its two headers, and
    /// every other byte as the endpoint has it.
    pub open spec fn left_in(&self, region: SharedMemoryRegion) -> bool {
        let ring_size = self.ring_size as nat;
        &&& region.mem@.len() == self.region.mem@.len()
        &&& region.header(ring_size, self.side) == self.out
        &&& region.header(ring_size, self.side.peer()) == self.back
        &&& forall|i: int|
            0 <= i < region.mem@.len() && !in_header(ring_size, Side::A, i) && !in_header(
                ring_size,
                Side::B,
                i,
            ) ==> #[trigger] region.mem@[i] == self.region.mem@[i]
    }

    /// Total bytes of memory needed for rings of `ring_size` bytes.
    pub fn required_size(ring_size: u64) -> (size: u64)
        requires
            required_bytes(ring_size as nat) <= u64::MAX,
        ensures
            size == required_bytes(ring_size as nat),
    {
        2 * (HEADER_SIZE + ring_size)
    }

    /// Create a pipe endpoint over a memory region.
    pub fn new(region: SharedMemoryRegion, ring_size: u64, side: Side) -> (pipe: Self)
        requires
            required_bytes(ring_size as nat) <= region.mem@.len(),
        ensures
            pipe.ring_size == ring_size,
            pipe.side == side,
            pipe.taken_from(region),
            pipe.laid_out(),
            pipe.state().outgoing == region.queued(ring_size as nat, side),
            pipe.state().incoming == region.queued(ring_size as nat, side.peer()),
    {
        let header_a: RingHeader = region.load_header(ring_size, Side::A);
        let header_b: RingHeader = region.load_header(ring_size, Side::B);
        match side {
            Side::A => BidirectionalPipe { region, ring_size, side, out: header_a, back: header_b },
            Side::B => BidirectionalPipe { region, ring_size, side, out: header_b, back: header_a },
        }
    }

    /// Give the region back, for the other endpoint to be created over it.
    pub fn into_region(self) -> (region: SharedMemoryRegion)
        requires
            self.laid_out(),
        ensures
            self.left_in(region),
            region.queued(self.ring_size as nat, self.side) == self.state().outgoing,
            region.queued(self.ring_size as nat, self.side.peer()) == self.state().incoming,
    {
        let ring_size: u64 = self.ring_size;
        let (header_a, header_b): (RingHeader, RingHeader) = match self.side {
            Side::A => (self.out, self.back),
            Side::B => (self.back, self.out),
        };
        let mut region: SharedMemoryRegion = self.region;
        region.store_header(ring_size, Side::A, header_a);
        let ghost first = region;
        region.store_header(ring_size, Side::B, header_b);
        proof {
            let n = ring_size as nat;
            assert(region.mem@.subrange(0, 8) =~= first.mem@.subrange(0, 8));
            assert(region.mem@.subrange(8, 16) =~= first.mem@.subrange(8, 16));
            assert(region.header(n, Side::A) == first.header(n, Side::A));
            assert(region.area(n, Side::A) =~= self.region.area(n, Side::A));
            assert(region.area(n, Side::B) =~= self.region.area(n, Side::B));
        }
        region
    }

    /// Split into independent read and write halves.
    pub fn split<'a>(&'a mut self) -> (halves: (RingConsumer<'a>, RingProducer<'a>))
        requires
            old(self).laid_out(),
        ensures
            halves.1.head() == old(self).out,
            halves.1.area() == old(self).out_area(),
            halves.0.head() == old(self).back,
            halves.0.area() == old(self).back_area(),
            final(self).ring_size == old(self).ring_size,
            final(self).side == old(self).side,
            final(self).out == *final(halves.1.header),
            final(self).back == *final(halves.0.header),
            final(self).region.flags_a == old(self).region.flags_a,
            final(self).region.flags_b == old(self).region.flags_b,
            final(self).region.mem@ == match old(self).side {
                Side::A => with_areas(
                    old(self).region.mem@,
                    old(self).ring_size as nat,
                    final(halves.1.data.mem)@,
                    final(halves.0.data.mem)@,
                ),
                Side::B => with_areas(
                    old(self).region.mem@,
                    old(self).ring_size as nat,
                    final(halves.0.data.mem)@,
                    final(halves.1.data.mem)@,
                ),
            },
    {
        let total: usize = self.region.mem.len();
        assert(self.ring_size <= total);
        let ring: usize = self.ring_size as usize;
        let header: usize = HEADER_SIZE as usize;
        let (_, behind_header_a) = self.region.mem.as_mut_slice().split_at_mut(header);
        let (data_a, behind_a) = behind_header_a.split_at_mut(ring);
        let (_, behind_header_b) = behind_a.split_at_mut(header);
        let (data_b, _) = behind_header_b.split_at_mut(ring);
        assert(data_a@ =~= area_of(old(self).region.mem@, ring as nat, Side::A));
        assert(data_b@ =~= area_of(old(self).region.mem@, ring as nat, Side::B));
        let (out_data, back_data) = match self.side {
            Side::A => (data_a, data_b),
            Side::B => (data_b, data_a),
        };
        (
            RingConsumer::new(&mut self.back, RingData::new(back_data)),
            RingProducer::new(&mut self.out, RingData::new(out_data)),
        )
    }
}

impl Channel for BidirectionalPipe {
    open spec fn wf(&self) -> bool {
        &&& self.laid_out()
        &&& self.out.fits(self.ring_size as nat)
        &&& self.back.fits(self.ring_size as nat)
    }

    open spec fn state(&self) -> ChannelState {
        let ring_size = self.ring_size as nat;
        ChannelState {
            incoming: contents(self.back, self.back_area()),
            outgoing: contents(self.out, self.out_area()),
            room: Some((ring_size - self.out.used()) as nat),
            endurance: self.out.endurance(ring_size),
            hangs_up: false,
            greedy: true,
            closes: self.back.writer_closed,
            origin: Some((ring_size, self.side)),
        }
    }

    open spec fn closed(&self) -> CloseFlags {
        CloseFlags {
            write_closed: self.out.writer_closed,
            read_closed: self.back.reader_closed,
            peer_write_closed: self.back.writer_closed,
            peer_read_closed: self.out.reader_closed,
        }
    }

    open spec fn settled(&self) -> bool {
        true
    }

    open spec fn stalls(&self) -> nat {
        0
    }
}

impl Read for BidirectionalPipe {
    fn read(&mut self, buf: &mut [u8]) -> (r: Result<usize, PipeError>)
        ensures
            r is Err <==> old(self).state().incoming.len() == 0 && old(buf)@.len() > 0,
            r matches Ok(n) ==> n == if old(buf)@.len() <= old(self).state().incoming.len() {
                old(buf)@.len()
            } else {
                old(self).state().incoming.len()
            },
            final(self).region.mem@ == old(self).region.mem@,
            final(self).out == old(self).out,
            r matches Ok(n) ==> final(self).back == old(self).back.consumed(n as nat),
            r is Err ==> final(self).back == old(self).back,
    {
        let (mut reader, _writer) = self.split();
        let r: Result<usize, PipeError> = reader.read(buf);
        proof {
            areas_in_place(old(self).region.mem@, self.ring_size as nat);
        }
        r
    }
}

impl Write for BidirectionalPipe {
    fn write(&mut self, buf: &[u8]) -> (r: Result<usize, PipeError>)
        ensures
            r is Err <==> old(self).state().room == Some(0nat),
            r matches Ok(n) ==> n == accepted(old(self).state().room, buf@.len()),
            final(self).back == old(self).back,
            match r {
                Ok(n) => {
                    &&& final(self).out == old(self).out.written(n as nat)
                    &&& final(self).region.mem@ == with_area(
                        old(self).region.mem@,
                        old(self).ring_size as nat,
                        old(self).side,
                        spliced(
                            old(self).out_area(),
                            old(self).out.write_cursor as int,
                            buf@.take(n as int),
                        ),
                    )
                },
                Err(_) => {
                    &&& final(self).out == old(self).out
                    &&& final(self).region.mem@ == old(self).region.mem@
                },
            },
    {
        let (reader, mut writer) = self.split();
        let r: Result<usize, PipeError> = writer.write(buf);
        let ghost own = writer.area();
        let ghost other = reader.area();
        proof {
            let mem = old(self).region.mem@;
            let ring_size = old(self).ring_size as nat;
            match old(self).side {
                Side::A => areas_are_apart(mem, ring_size, own, other),
                Side::B => areas_are_apart(mem, ring_size, other, own),
            }
            areas_in_place(mem, ring_size);
        }
        r
    }
}

impl Pipe for BidirectionalPipe {
    fn is_peer_read_closed(&mut self) -> (b: bool)
        ensures
            *final(self) == *old(self),
    {
        self.out.reader_closed
    }

    fn is_peer_write_closed(&mut self) -> (b: bool)
        ensures
            *final(self) == *old(self),
    {
        self.back.writer_closed
    }

    fn close_write(&mut self)
        ensures
            *final(self) == (BidirectionalPipe {
                out: RingHeader { writer_closed: true, ..old(self).out },
                ..*old(self)
            }),
    {
        self.out.writer_closed = true;
        assert(self.state() =~= old(self).state());
    }

    fn close_read(&mut self)
        ensures
            *final(self) == (BidirectionalPipe {
                back: RingHeader { reader_closed: true, ..old(self).back },
                ..*old(self)
            }),
    {
        self.back.reader_closed = true;
        assert(self.state() =~= old(self).state());
    }

    fn is_closed(&mut self) -> (b: bool)
        ensures
            *final(self) == *old(self),
    {
        self.out.writer_closed && self.out.reader_closed && self.back.writer_closed
            && self.back.reader_closed
    }
}

/// The two endpoints of a region look at the same bytes and the same flags: what one
/// has handed over when it gives the region back is what the other will be given.
pub proof fn ends_meet(a: BidirectionalPipe, region: SharedMemoryRegion, b: BidirectionalPipe)
    requires
        a.laid_out(),
        a.left_in(region),
        b.taken_from(region),
        a.ring_size == b.ring_size,
        a.side == b.side.peer(),
    ensures
        a.wf() == b.wf(),
        a.state().outgoing == b.state().incoming,
        a.state().incoming == b.state().outgoing,
        a.state().closes == b.closed().write_closed,
        a.closed().write_closed == b.closed().peer_write_closed,
        a.closed().read_closed == b.closed().peer_read_closed,
        a.closed().peer_write_closed == b.closed().write_closed,
        a.closed().peer_read_closed == b.closed().read_closed,
{
    let n = a.ring_size as nat;
    assert(region.area(n, Side::A) =~= a.region.area(n, Side::A));
    assert(region.area(n, Side::B) =~= a.region.area(n, Side::B));
}

} // verus!
