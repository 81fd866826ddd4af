//! What cursors, windows, layouts and effects come to, byte by byte.

use vstd::arithmetic::div_mod::{
    lemma_add_mod_noop, lemma_mod_multiples_vanish, lemma_mod_twice, lemma_small_mod,
    lemma_sub_mod_noop,
};
use vstd::prelude::*;

use crate::bytes::bytes_are_read_little_endian;
use crate::pipe::bidirectional_pipe::BidirectionalPipe;
use crate::pipe::error::PipeError;
use crate::pipe::ring::{contents, placed, spliced, window, RingSpan};
use crate::pipe::ring_consumer::RingConsumer;
use crate::pipe::ring_header::RingHeader;
use crate::pipe::ring_producer::RingProducer;
use crate::pipe::shared_memory_region::{
    area_of, area_start, header_start, in_header, required_bytes, with_area, SharedMemoryRegion,
    Side,
};
use crate::pipe::traits::{
    accepted, after_writing, all_closed, can_send, flags_kept, has_room, read_effect, write_effect,
    Channel, ChannelState, CloseFlags,
};

verus! {

/// Cursors go up and wrap at two to the power of 64; what lies between them is in use.
/// Writing moves the write cursor alone, reading the read cursor alone.
pub proof fn cursors_count_bytes(header: RingHeader, n: nat)
    requires
        n < 0x1_0000_0000_0000_0000,
    ensures
        header.used() == if header.read_cursor <= header.write_cursor {
            header.write_cursor - header.read_cursor
        } else {
            header.write_cursor - header.read_cursor + 0x1_0000_0000_0000_0000
        },
        header.written(n).write_cursor == if header.write_cursor + n < 0x1_0000_0000_0000_0000 {
            header.write_cursor + n
        } else {
            header.write_cursor + n - 0x1_0000_0000_0000_0000
        },
        header.written(n).read_cursor == header.read_cursor,
        header.written(n).writer_closed == header.writer_closed,
        header.written(n).reader_closed == header.reader_closed,
        header.consumed(n).read_cursor == if header.read_cursor + n < 0x1_0000_0000_0000_0000 {
            header.read_cursor + n
        } else {
            header.read_cursor + n - 0x1_0000_0000_0000_0000
        },
        header.consumed(n).write_cursor == header.write_cursor,
        header.consumed(n).writer_closed == header.writer_closed,
        header.consumed(n).reader_closed == header.reader_closed,
{
}

/// A byte at a logical position lies at that position modulo the size of the ring. That
/// is where a window shows it, where the unread bytes lie, and where a splice puts it; a
/// splice leaves every other place.
pub proof fn positions_are_modulo_the_size(
    header: RingHeader,
    mem: Seq<u8>,
    cursor: int,
    n: nat,
    buf: Seq<u8>,
)
    requires
        0 <= cursor,
        0 < mem.len(),
        buf.len() <= mem.len(),
    ensures
        window(mem, cursor, n).len() == n,
        forall|i: int|
            0 <= i < n ==> #[trigger] window(mem, cursor, n)[i] == mem[(cursor + i) % (
            mem.len() as int)],
        contents(header, mem).len() == header.used(),
        forall|i: int|
            0 <= i < header.used() ==> #[trigger] contents(header, mem)[i] == mem[(
            header.read_cursor + i) % (mem.len() as int)],
        spliced(mem, cursor, buf).len() == mem.len(),
        forall|i: int|
            0 <= i < buf.len() ==> #[trigger] buf[i] == spliced(mem, cursor, buf)[(cursor + i) % (
            mem.len() as int)],
        forall|j: int|
            0 <= j < mem.len() && (forall|i: int|
                0 <= i < buf.len() ==> #[trigger] ((cursor + i) % (mem.len() as int)) != j)
                ==> #[trigger] spliced(mem, cursor, buf)[j] == mem[j],
{
    let size = mem.len() as int;
    let after = spliced(mem, cursor, buf);
    assert forall|i: int| 0 <= i < buf.len() implies #[trigger] buf[i] == after[(cursor + i)
        % size] by {
        let j = (cursor + i) % size;
        lemma_sub_mod_noop(cursor + i, cursor, size);
        lemma_sub_mod_noop(j, cursor, size);
        lemma_mod_twice(cursor + i, size);
        lemma_small_mod(i as nat, size as nat);
        assert((j - cursor) % size == i);
    }
    assert forall|j: int|
        0 <= j < mem.len() && (forall|i: int|
            0 <= i < buf.len() ==> #[trigger] ((cursor + i) % size)
                != j) implies #[trigger] after[j] == mem[j] by {
        let k = (j - cursor) % size;
        if k < buf.len() {
            lemma_add_mod_noop(cursor, j - cursor, size);
            lemma_add_mod_noop(cursor, k, size);
            lemma_mod_twice(j - cursor, size);
            lemma_small_mod(j as nat, size as nat);
            assert((cursor + k) % size == j);
        }
    }
}

/// A move goes from the place of its cursor to the end of the ring and on from its start:
/// byte `i` of it lies at logical position `cursor + i`.
pub proof fn a_move_follows_the_ring(place: RingSpan, cursor: u64, size: usize, i: int)
    requires
        0 < size,
        placed(place, cursor, size),
        0 <= i < place.first + place.rest,
    ensures
        (cursor + i) % (size as int) == if i < place.first {
            place.offset + i
        } else {
            i - place.first
        },
{
    let s = size as int;
    lemma_add_mod_noop(cursor as int, i, s);
    lemma_small_mod(i as nat, size as nat);
    lemma_mod_twice(cursor as int, s);
    if i < place.first {
        lemma_small_mod((place.offset + i) as nat, size as nat);
    } else {
        lemma_mod_multiples_vanish(-1, place.offset + i, s);
        lemma_small_mod((i - place.first) as nat, size as nat);
    }
}

/// What a producer writes lands right behind the newest byte, as much of it as there is
/// room for, and no other byte of the ring changes.
pub proof fn a_producer_writes_behind_the_newest(
    before: RingProducer,
    after: RingProducer,
    buf: Seq<u8>,
    r: Result<usize, PipeError>,
)
    requires
        0 < before.area().len() < 0x1_0000_0000_0000_0000,
        before.head().used() <= before.area().len(),
        before.wrote(&after, buf, r),
    ensures
        r is Err <==> before.head().used() == before.area().len(),
        after.area().len() == before.area().len(),
        match r {
            Ok(n) => {
                let size = before.area().len() as int;
                &&& n <= buf.len()
                &&& n <= size - before.head().used()
                &&& n == buf.len() || n == size - before.head().used()
                &&& after.head() == before.head().written(n as nat)
                &&& forall|i: int|
                    0 <= i < n ==> after.area()[(before.head().write_cursor + i) % size]
                        == #[trigger] buf[i]
                &&& forall|j: int|
                    0 <= j < size && (forall|i: int|
                        0 <= i < n ==> #[trigger] ((before.head().write_cursor + i) % size) != j)
                        ==> #[trigger] after.area()[j] == before.area()[j]
            },
            Err(_) => after.head() == before.head() && after.area() == before.area(),
        },
{
    if let Ok(n) = r {
        let taken = buf.take(n as int);
        let cursor = before.head().write_cursor as int;
        positions_are_modulo_the_size(before.head(), before.area(), cursor, 0, taken);
        assert forall|i: int| 0 <= i < n implies after.area()[(cursor + i) % (
        before.area().len() as int)] == #[trigger] buf[i] by {
            assert(taken[i] == buf[i]);
        }
    }
}

/// What a consumer reads are the oldest bytes, as many as wait and as fit, and reading
/// changes no byte of the ring.
pub proof fn a_consumer_reads_the_oldest(
    before: RingConsumer,
    after: RingConsumer,
    buf: Seq<u8>,
    filled: Seq<u8>,
    r: Result<usize, PipeError>,
)
    requires
        0 < before.area().len() < 0x1_0000_0000_0000_0000,
        before.head().used() <= before.area().len(),
        before.gave(&after, buf, filled, r),
    ensures
        r is Err <==> before.head().used() == 0 && buf.len() > 0,
        after.area() == before.area(),
        filled.len() == buf.len(),
        match r {
            Ok(n) => {
                let size = before.area().len() as int;
                &&& n <= buf.len()
                &&& n <= before.head().used()
                &&& n == buf.len() || n == before.head().used()
                &&& after.head() == before.head().consumed(n as nat)
                &&& forall|i: int|
                    0 <= i < n ==> #[trigger] filled[i] == before.area()[(
                    before.head().read_cursor + i) % size]
                &&& forall|i: int| n <= i < buf.len() ==> #[trigger] filled[i] == buf[i]
            },
            Err(_) => after.head() == before.head() && filled == buf,
        },
{
}

/// The layout of a pipe: header A, data A, header B, data B, a header taking sixteen
/// bytes. A header is the read cursor and then the write cursor, least significant byte
/// first.
pub proof fn layout_of_a_region(region: SharedMemoryRegion, ring_size: nat, from: Side)
    requires
        required_bytes(ring_size) <= region.mem@.len(),
    ensures
        required_bytes(ring_size) == 32 + 2 * ring_size,
        header_start(ring_size, Side::A) == 0,
        area_start(ring_size, Side::A) == 16,
        header_start(ring_size, Side::B) == 16 + ring_size,
        area_start(ring_size, Side::B) == 32 + ring_size,
        region.area(ring_size, from).len() == ring_size,
        forall|i: int|
            0 <= i < ring_size ==> #[trigger] region.area(ring_size, from)[i] == region.mem@[i
                + if from == Side::A {
                16
            } else {
                32 + ring_size
            }],
        forall|i: int|
            #![trigger in_header(ring_size, from, i)]
            in_header(ring_size, from, i) <==> (if from == Side::A {
                0
            } else {
                16 + ring_size
            }) <= i < (if from == Side::A {
                16
            } else {
                32 + ring_size
            }),
        ({
            let m = region.mem@;
            let h = if from == Side::A {
                0
            } else {
                16 + ring_size as int
            };
            let header = region.header(ring_size, from);
            &&& header.read_cursor == m[h] + 0x100 * m[h + 1] + 0x1_0000 * m[h + 2] + 0x100_0000
                * m[h + 3] + 0x1_0000_0000 * m[h + 4] + 0x100_0000_0000 * m[h + 5]
                + 0x1_0000_0000_0000 * m[h + 6] + 0x100_0000_0000_0000 * m[h + 7]
            &&& header.write_cursor == m[h + 8] + 0x100 * m[h + 9] + 0x1_0000 * m[h + 10]
                + 0x100_0000 * m[h + 11] + 0x1_0000_0000 * m[h + 12] + 0x100_0000_0000 * m[h + 13]
                + 0x1_0000_0000_0000 * m[h + 14] + 0x100_0000_0000_0000 * m[h + 15]
            &&& header.writer_closed == if from == Side::A {
                region.flags_a.writer_closed
            } else {
                region.flags_b.writer_closed
            }
            &&& header.reader_closed == if from == Side::A {
                region.flags_a.reader_closed
            } else {
                region.flags_b.reader_closed
            }
        }),
{
    let m = region.mem@;
    let h = header_start(ring_size, from);
    let first = m.subrange(h, h + 8);
    let second = m.subrange(h + 8, h + 16);
    let two = m.subrange(0, 2);
    let four = m.subrange(0, 4);
    bytes_are_read_little_endian(two, four, first);
    bytes_are_read_little_endian(two, four, second);
    assert(forall|i: int| 0 <= i < 8 ==> first[i] == m[h + i]);
    assert(forall|i: int| 0 <= i < 8 ==> second[i] == m[h + 8 + i]);
}

/// Replacing the data area of one side puts each byte there and leaves all others.
pub proof fn replacing_an_area(mem: Seq<u8>, ring_size: nat, from: Side, own: Seq<u8>)
    requires
        32 + 2 * ring_size <= mem.len(),
        own.len() == ring_size,
    ensures
        with_area(mem, ring_size, from, own).len() == mem.len(),
        ({
            let start = if from == Side::A {
                16
            } else {
                32 + ring_size as int
            };
            forall|i: int|
                0 <= i < mem.len() ==> #[trigger] with_area(mem, ring_size, from, own)[i]
                    == if start <= i < start + ring_size {
                    own[i - start]
                } else {
                    mem[i]
                }
        }),
{
    let all = with_area(mem, ring_size, from, own);
    let a = area_of(mem, ring_size, Side::A);
    let b = area_of(mem, ring_size, Side::B);
    assert(a.len() == ring_size && b.len() == ring_size);
}

/// What an endpoint has handed over lies unread in the ring that it writes, and what it
/// will be given lies unread in the ring that its peer writes; the room is what is free
/// of its own ring. The close flags are those of the two rings.
pub proof fn an_endpoint_sees_its_rings(pipe: BidirectionalPipe)
    requires
        pipe.wf(),
        0 < pipe.ring_size,
    ensures
        ({
            let size = pipe.ring_size as int;
            let m = pipe.region.mem@;
            let own = if pipe.side == Side::A {
                16
            } else {
                32 + size
            };
            let other = if pipe.side == Side::A {
                32 + size
            } else {
                16
            };
            let state = pipe.state();
            &&& state.outgoing.len() == pipe.out.used()
            &&& forall|i: int|
                0 <= i < pipe.out.used() ==> #[trigger] state.outgoing[i] == m[own + (
                pipe.out.read_cursor + i) % size]
            &&& state.incoming.len() == pipe.back.used()
            &&& forall|i: int|
                0 <= i < pipe.back.used() ==> #[trigger] state.incoming[i] == m[other + (
                pipe.back.read_cursor + i) % size]
            &&& state.room == Some((size - pipe.out.used()) as nat)
            &&& !state.hangs_up
            &&& state.greedy
            &&& pipe.settled()
            &&& state.closes == pipe.back.writer_closed
            &&& state.origin == Some((pipe.ring_size as nat, pipe.side))
        }),
        pipe.closed().write_closed == pipe.out.writer_closed,
        pipe.closed().peer_read_closed == pipe.out.reader_closed,
        pipe.closed().peer_write_closed == pipe.back.writer_closed,
        pipe.closed().read_closed == pipe.back.reader_closed,
{
    let size = pipe.ring_size as nat;
    let region = pipe.region;
    layout_of_a_region(region, size, Side::A);
    layout_of_a_region(region, size, Side::B);
    let out = pipe.out_area();
    let back = pipe.back_area();
    positions_are_modulo_the_size(pipe.out, out, 0, 0, Seq::empty());
    positions_are_modulo_the_size(pipe.back, back, 0, 0, Seq::empty());
    let s = size as int;
    let own = area_start(size, pipe.side);
    let other = area_start(size, pipe.side.peer());
    assert forall|i: int| 0 <= i < pipe.out.used() implies #[trigger] pipe.state().outgoing[i]
        == region.mem@[own + (pipe.out.read_cursor + i) % s] by {
        let k = (pipe.out.read_cursor + i) % s;
        assert(0 <= k < s);
        assert(out[k] == region.mem@[own + k]);
        assert(pipe.state().outgoing[i] == contents(pipe.out, out)[i]);
    }
    assert forall|i: int| 0 <= i < pipe.back.used() implies #[trigger] pipe.state().incoming[i]
        == region.mem@[other + (pipe.back.read_cursor + i) % s] by {
        let k = (pipe.back.read_cursor + i) % s;
        assert(0 <= k < s);
        assert(back[k] == region.mem@[other + k]);
        assert(pipe.state().incoming[i] == contents(pipe.back, back)[i]);
    }
}

/// A read takes the first bytes that are to come, in order, and puts them at the start of
/// the buffer; it changes nothing else. A read that would block changes nothing.
pub proof fn a_read_takes_the_first_bytes(
    before: ChannelState,
    after: ChannelState,
    buf: Seq<u8>,
    filled: Seq<u8>,
    r: Result<usize, PipeError>,
)
    requires
        read_effect(before, after, buf, filled, r),
    ensures
        filled.len() == buf.len(),
        after.outgoing == before.outgoing,
        after.room == before.room,
        after.endurance == before.endurance,
        match r {
            Ok(n) => {
                &&& n <= buf.len()
                &&& forall|i: int| 0 <= i < n ==> #[trigger] filled[i] == before.incoming[i]
                &&& forall|i: int| n <= i < buf.len() ==> #[trigger] filled[i] == buf[i]
                &&& before.incoming.len() == n + after.incoming.len()
                &&& forall|i: int|
                    0 <= i < after.incoming.len() ==> #[trigger] after.incoming[i]
                        == before.incoming[n + i]
                &&& n == 0 && buf.len() > 0 ==> before.incoming.len() == 0 && before.hangs_up
            },
            Err(_) => filled == buf && after == before,
        },
{
}

/// A write hands over the first bytes of the buffer, in order, behind all that was handed
/// over before, within the room there is, and changes nothing else. A write that would
/// block changes nothing.
pub proof fn a_write_appends_the_first_bytes(
    before: ChannelState,
    after: ChannelState,
    buf: Seq<u8>,
    r: Result<usize, PipeError>,
)
    requires
        write_effect(before, after, buf, r),
    ensures
        after.incoming == before.incoming,
        match r {
            Ok(n) => {
                &&& n <= buf.len()
                &&& after.outgoing.len() == before.outgoing.len() + n
                &&& forall|i: int|
                    0 <= i < before.outgoing.len() ==> #[trigger] after.outgoing[i]
                        == before.outgoing[i]
                &&& forall|i: int|
                    0 <= i < n ==> after.outgoing[before.outgoing.len() + i] == #[trigger] buf[i]
                &&& match (before.room, after.room) {
                    (Some(had), Some(has)) => n + has == had,
                    (None, None) => true,
                    _ => false,
                }
                &&& n == 0 && buf.len() > 0 ==> before.room == Some(0nat) && before.hangs_up
            },
            Err(_) => after == before,
        },
{
    if let Ok(n) = r {
        assert forall|i: int| 0 <= i < n implies after.outgoing[before.outgoing.len() + i]
            == #[trigger] buf[i] by {
            assert(buf.take(n as int)[i] == buf[i]);
        }
    }
}

/// Writing all of `bytes` hands over all of them where there is room, and as many of the
/// first as there is room for where there is not; nothing else changes.
pub proof fn writing_all_hands_over_what_fits(before: ChannelState, bytes: Seq<u8>)
    ensures
        ({
            let after = after_writing(before, bytes);
            let n = after.outgoing.len() - before.outgoing.len();
            &&& 0 <= n <= bytes.len()
            &&& before.room is None ==> n == bytes.len() && after.room is None
            &&& before.room matches Some(had) ==> {
                &&& n == if bytes.len() <= had {
                    bytes.len()
                } else {
                    had
                }
                &&& after.room == Some((had - n) as nat)
            }
            &&& has_room(before.room, bytes.len()) <==> n == bytes.len()
            &&& accepted(before.room, bytes.len()) == n
            &&& forall|i: int|
                0 <= i < before.outgoing.len() ==> #[trigger] after.outgoing[i]
                    == before.outgoing[i]
            &&& forall|i: int|
                0 <= i < n ==> after.outgoing[before.outgoing.len() + i] == #[trigger] bytes[i]
            &&& after.incoming == before.incoming
            &&& after.hangs_up == before.hangs_up
            &&& after.closes == before.closes
        }),
        can_send(before, bytes) ==> before.hangs_up || before.room is None || bytes.len()
            <= before.room->0,
{
    let after = after_writing(before, bytes);
    let n = accepted(before.room, bytes.len());
    assert forall|i: int| 0 <= i < n implies after.outgoing[before.outgoing.len() + i]
        == #[trigger] bytes[i] by {
        assert(bytes.take(n as int)[i] == bytes[i]);
    }
}

/// A pipe is closed when both ends of both directions are. No operation but a close
/// changes a flag of the endpoint itself, and no flag goes back.
pub proof fn flags_only_go_up(before: CloseFlags, after: CloseFlags, settled: bool)
    requires
        flags_kept(before, after, settled),
    ensures
        after.write_closed == before.write_closed,
        after.read_closed == before.read_closed,
        before.peer_write_closed ==> after.peer_write_closed,
        before.peer_read_closed ==> after.peer_read_closed,
        settled ==> after == before,
        all_closed(after) <==> after.write_closed && after.read_closed && after.peer_write_closed
            && after.peer_read_closed,
{
}

/// An endpoint on side A writes the ring of header A and reads that of header B, and one on
/// side B the other way round. It changes nothing of the region by being created.
pub proof fn an_endpoint_takes_its_side(pipe: BidirectionalPipe, region: SharedMemoryRegion)
    requires
        pipe.taken_from(region),
    ensures
        pipe.region == region,
        pipe.side == Side::A ==> {
            &&& pipe.out == region.header(pipe.ring_size as nat, Side::A)
            &&& pipe.back == region.header(pipe.ring_size as nat, Side::B)
        },
        pipe.side == Side::B ==> {
            &&& pipe.out == region.header(pipe.ring_size as nat, Side::B)
            &&& pipe.back == region.header(pipe.ring_size as nat, Side::A)
        },
{
}

/// The region that an endpoint gives back holds its two headers where they belong, and
/// every byte outside the sixteen of each header as the endpoint had it.
pub proof fn an_endpoint_leaves_its_side(pipe: BidirectionalPipe, region: SharedMemoryRegion)
    requires
        pipe.left_in(region),
    ensures
        ({
            let n = pipe.ring_size as int;
            &&& region.mem@.len() == pipe.region.mem@.len()
            &&& forall|i: int|
                0 <= i < region.mem@.len() && (16 <= i < 16 + n || 32 + n <= i)
                    ==> #[trigger] region.mem@[i] == pipe.region.mem@[i]
        }),
        pipe.side == Side::A ==> {
            &&& region.header(pipe.ring_size as nat, Side::A) == pipe.out
            &&& region.header(pipe.ring_size as nat, Side::B) == pipe.back
        },
        pipe.side == Side::B ==> {
            &&& region.header(pipe.ring_size as nat, Side::B) == pipe.out
            &&& region.header(pipe.ring_size as nat, Side::A) == pipe.back
        },
{
    let n = pipe.ring_size as nat;
    assert forall|i: int|
        0 <= i < region.mem@.len() && (16 <= i < 16 + n || 32 + n
            <= i) implies #[trigger] region.mem@[i] == pipe.region.mem@[i] by {
        assert(!in_header(n, Side::A, i));
        assert(!in_header(n, Side::B, i));
    }
}

/// What a producer has handed over are the bytes from the read cursor to the write cursor,
/// and its room is the rest of the ring. Its flags are those of the ring.
pub proof fn a_producer_shows_its_ring(producer: RingProducer, i: int)
    requires
        0 <= i < producer.head().used() <= producer.area().len(),
    ensures
        producer.state().outgoing.len() == producer.head().used(),
        producer.state().outgoing[i] == producer.area()[(producer.head().read_cursor + i) % (
        producer.area().len() as int)],
        producer.state().room == Some((producer.area().len() - producer.head().used()) as nat),
        !producer.state().hangs_up,
        producer.state().greedy,
        producer.settled(),
        producer.closed().write_closed == producer.head().writer_closed,
        producer.closed().peer_read_closed == producer.head().reader_closed,
{
}

/// What a consumer is to be given are the bytes from the read cursor to the write cursor.
/// Its flags are those of the ring.
pub proof fn a_consumer_shows_its_ring(consumer: RingConsumer, i: int)
    requires
        0 <= i < consumer.head().used() <= consumer.area().len(),
    ensures
        consumer.state().incoming.len() == consumer.head().used(),
        consumer.state().incoming[i] == consumer.area()[(consumer.head().read_cursor + i) % (
        consumer.area().len() as int)],
        !consumer.state().hangs_up,
        consumer.state().greedy,
        consumer.settled(),
        consumer.state().closes == consumer.head().writer_closed,
        consumer.closed().read_closed == consumer.head().reader_closed,
        consumer.closed().peer_write_closed == consumer.head().writer_closed,
{
}

} // verus!
