//! The data area of one ring, and what its bytes mean.

use vstd::arithmetic::div_mod::{
    lemma_add_mod_noop, lemma_fundamental_div_mod, lemma_mod_mod, lemma_mod_multiples_vanish,
    lemma_mod_twice, lemma_small_mod, lemma_sub_mod_noop,
};
use vstd::prelude::*;

use crate::bytes::copy_into;
use crate::pipe::ring_header::{cursor_count, cursor_wraps_cleanly, RingHeader};
use crate::pipe::traits::{has_room, less};

verus! {

/// The `n` bytes from logical position `cursor` on, in a ring whose data area is
/// `mem`.
pub open spec fn window(mem: Seq<u8>, cursor: int, n: nat) -> Seq<u8> {
    Seq::new(n, |i: int| mem[(cursor + i) % (mem.len() as int)])
}

/// The data area `mem` after `buf` was laid down from logical position `cursor`
/// on. Index `j` lies `(j - cursor) % size` places past the cursor.
pub open spec fn spliced(mem: Seq<u8>, cursor: int, buf: Seq<u8>) -> Seq<u8> {
    Seq::new(
        mem.len(),
        |j: int|
            {
                let k = (j - cursor) % (mem.len() as int);
                if k < buf.len() {
                    buf[k]
                } else {
                    mem[j]
                }
            },
    )
}

/// The bytes that were written and are still to be read, oldest first.
pub open spec fn contents(header: RingHeader, mem: Seq<u8>) -> Seq<u8> {
    window(mem, header.read_cursor as int, header.used())
}

/// Where `n` bytes from one logical position on lie in the data area: `first`
/// bytes at `offset`, then `rest` bytes at its start.
#[derive(Debug, Clone, Copy, PartialEq, Eq, Structural)]
pub struct RingSpan {
    pub offset: usize,
    pub first: usize,
    pub rest: usize,
}

/// Whether `place` is where the bytes from `cursor` on lie in a ring of `size` bytes.
pub open spec fn placed(place: RingSpan, cursor: u64, size: usize) -> bool {
    &&& place.offset == cursor as int % size as int
    &&& place.first <= size - place.offset
    &&& place.rest > 0 ==> place.first == size - place.offset
    &&& place.rest <= place.offset
}

/// Place `n` bytes from `cursor` on in a ring of `size` bytes.
pub fn span(cursor: u64, size: usize, n: usize) -> (place: RingSpan)
    requires
        0 < size,
        n <= size,
    ensures
        placed(place, cursor, size),
        place.first + place.rest == n,
{
    let offset: usize = (cursor % (size as u64)) as usize;
    let first: usize = if n <= size - offset {
        n
    } else {
        size - offset
    };
    RingSpan { offset, first, rest: n - first }
}

/// One move over a ring: which cursor it starts at, where its bytes lie, and where
/// the cursor stands afterwards.
#[derive(Debug, Clone, Copy, PartialEq, Eq, Structural)]
pub struct RingMove {
    pub cursor: u64,
    pub place: RingSpan,
    pub next: u64,
}

impl RingMove {
    /// How many bytes are moved.
    pub open spec fn count(self) -> int {
        self.place.first + self.place.rest
    }

    /// How many bytes are moved.
    pub fn len(&self) -> (n: usize)
        requires
            self.count() <= usize::MAX,
        ensures
            n == self.count(),
    {
        self.place.first + self.place.rest
    }
}

impl RingHeader {
    /// Decide how a write of up to `len` bytes into a ring of `size` bytes goes;
    /// `None` if the ring is full.
    ///
    /// The header may be a copy that is behind: see [`producer_may_lag`].
    pub fn plan_write(&self, size: usize, len: usize) -> (plan: Option<RingMove>)
        requires
            self.used() <= size,
        ensures
            plan is None <==> self.used() == size,
            plan matches Some(m) ==> {
                &&& m.cursor == self.write_cursor
                &&& m.count() == if len <= size - self.used() {
                    len as int
                } else {
                    size - self.used()
                }
                &&& placed(m.place, m.cursor, size)
                &&& m.next == self.written(m.count() as nat).write_cursor
            },
    {
        let free: u64 = self.free_space(size as u64);
        if free == 0 {
            return None;
        }
        let n: usize = if len as u64 <= free {
            len
        } else {
            free as usize
        };
        let cursor: u64 = self.write_cursor;
        Some(RingMove { cursor, place: span(cursor, size, n), next: cursor.wrapping_add(n as u64) })
    }

    /// Decide how a read of up to `len` bytes from a ring of `size` bytes goes;
    /// `None` if the ring is empty.
    ///
    /// The header may be a copy that is behind: see [`consumer_may_lag`].
    pub fn plan_read(&self, size: usize, len: usize) -> (plan: Option<RingMove>)
        requires
            self.used() <= size,
        ensures
            plan is None <==> self.used() == 0,
            plan matches Some(m) ==> {
                &&& m.cursor == self.read_cursor
                &&& m.count() == if len <= self.used() {
                    len as int
                } else {
                    self.used() as int
                }
                &&& placed(m.place, m.cursor, size)
                &&& m.next == self.consumed(m.count() as nat).read_cursor
            },
    {
        let used: u64 = self.used_space();
        if used == 0 {
            return None;
        }
        let n: usize = if len as u64 <= used {
            len
        } else {
            used as usize
        };
        let cursor: u64 = self.read_cursor;
        Some(RingMove { cursor, place: span(cursor, size, n), next: cursor.wrapping_add(n as u64) })
    }
}

/// How far index `j` lies past `cursor` on a ring of `size` bytes.
proof fn distance_past(j: int, cursor: int, size: int)
    requires
        0 <= j < size,
        0 <= cursor,
    ensures
        0 <= cursor % size < size,
        (j - cursor) % size == if j >= cursor % size {
            j - cursor % size
        } else {
            j - cursor % size + size
        },
{
    let offset = cursor % size;
    lemma_sub_mod_noop(j, cursor, size);
    lemma_small_mod(j as nat, size as nat);
    if j >= offset {
        lemma_small_mod((j - offset) as nat, size as nat);
    } else {
        lemma_mod_multiples_vanish(1, j - offset, size);
        lemma_small_mod((j - offset + size) as nat, size as nat);
    }
}

/// The data area of one ring.
pub struct RingData<'a> {
    pub mem: &'a mut [u8],
}

impl<'a> View for RingData<'a> {
    type V = Seq<u8>;

    open spec fn view(&self) -> Seq<u8> {
        self.mem@
    }
}

impl<'a> RingData<'a> {
    /// Take `mem` as the data area of a ring.
    pub fn new(mem: &'a mut [u8]) -> (data: Self)
        ensures
            data@ == old(mem)@,
            final(data.mem)@ == final(mem)@,
    {
        RingData { mem }
    }

    /// The ring's capacity in bytes.
    pub fn size(&self) -> (size: u64)
        ensures
            size == self@.len(),
    {
        self.mem.len() as u64
    }

    /// Write `buf` from logical position `cursor` on, wrapping at the end of the
    /// data area.
    pub fn write_at(&mut self, cursor: u64, buf: &[u8])
        requires
            0 < old(self)@.len(),
            buf@.len() <= old(self)@.len(),
        ensures
            final(self)@ == spliced(old(self)@, cursor as int, buf@),
            final(final(self).mem)@ == final(old(self).mem)@,
    {
        let size: usize = self.mem.len();
        let ghost before = self@;
        let place: RingSpan = span(cursor, size, buf.len());
        copy_into(self.mem, place.offset, &buf[0..place.first]);
        if place.rest > 0 {
            copy_into(self.mem, 0, &buf[place.first..buf.len()]);
        }
        proof {
            assert forall|j: int| 0 <= j < size implies self@[j] == spliced(
                before,
                cursor as int,
                buf@,
            )[j] by {
                distance_past(j, cursor as int, size as int);
            }
            assert(self@ =~= spliced(before, cursor as int, buf@));
        }
    }

    /// Fill `buf` with the bytes from logical position `cursor` on, wrapping at
    /// the end of the data area.
    pub fn read_at(&self, cursor: u64, buf: &mut [u8])
        requires
            0 < self@.len(),
            old(buf)@.len() <= self@.len(),
        ensures
            final(buf)@ == window(self@, cursor as int, old(buf)@.len()),
    {
        let size: usize = self.mem.len();
        let ghost before = buf@;
        let place: RingSpan = span(cursor, size, buf.len());
        copy_into(buf, 0, &self.mem[place.offset..place.offset + place.first]);
        if place.rest > 0 {
            copy_into(buf, place.first, &self.mem[0..place.rest]);
        }
        proof {
            assert forall|i: int| 0 <= i < before.len() implies buf@[i] == window(
                self@,
                cursor as int,
                before.len(),
            )[i] by {
                position_past(cursor as int, i, size as int);
            }
            assert(buf@ =~= window(self@, cursor as int, before.len()));
        }
    }
}

/// The physical position `i` places past `cursor`.
proof fn position_past(cursor: int, i: int, size: int)
    requires
        0 <= cursor,
        0 <= i < size,
    ensures
        0 <= cursor % size < size,
        (cursor + i) % size == if i < size - cursor % size {
            cursor % size + i
        } else {
            cursor % size + i - size
        },
{
    let offset = cursor % size;
    lemma_add_mod_noop(cursor, i, size);
    lemma_small_mod(i as nat, size as nat);
    if i < size - offset {
        lemma_small_mod((offset + i) as nat, size as nat);
    } else {
        lemma_mod_multiples_vanish(-1, offset + i, size);
        lemma_small_mod((offset + i - size) as nat, size as nat);
    }
}

/// Logical positions with one physical position show the same bytes.
proof fn same_position_same_bytes(mem: Seq<u8>, a: int, b: int, n: nat)
    requires
        0 < mem.len(),
        a % (mem.len() as int) == b % (mem.len() as int),
    ensures
        window(mem, a, n) == window(mem, b, n),
{
    let size = mem.len() as int;
    assert forall|i: int| 0 <= i < n implies window(mem, a, n)[i] == window(mem, b, n)[i] by {
        lemma_add_mod_noop(a, i, size);
        lemma_add_mod_noop(b, i, size);
    }
    assert(window(mem, a, n) =~= window(mem, b, n));
}

/// A cursor that wrapped around cleanly has the physical position that it would
/// have had without wrapping.
proof fn clean_wrap_keeps_position(x: int, size: nat)
    requires
        0 < size,
        0 <= x,
        cursor_wraps_cleanly(size) || x < cursor_count(),
    ensures
        (x % cursor_count()) % (size as int) == x % (size as int),
{
    if x < cursor_count() {
        lemma_small_mod(x as nat, cursor_count() as nat);
    } else {
        let times = cursor_count() / (size as int);
        lemma_fundamental_div_mod(cursor_count(), size as int);
        assert(cursor_count() == size * times);
        assert(0 < times) by (nonlinear_arith)
            requires
                0 < size,
                size * times > 0,
        ;
        lemma_mod_mod(x, size as int, times);
    }
}

/// Bytes in use and bytes free make up the ring, whatever is written or read.
pub proof fn used_and_free(header: RingHeader, size: nat, wrote: nat, read: nat)
    requires
        header.fits(size),
        size < cursor_count(),
        header.used() + wrote <= size,
        read <= header.used() + wrote,
    ensures
        header.written(wrote).used() == header.used() + wrote,
        header.written(wrote).consumed(read).used() == header.used() + wrote - read,
{
    let w = header.write_cursor as int;
    let r = header.read_cursor as int;
    let filled = header.written(wrote);
    let drained = filled.consumed(read);
    cursor_moves(w, wrote as int);
    cursor_moves(r, read as int);
    cursors_apart(header);
    cursors_apart(filled);
    cursors_apart(drained);
}

/// How far apart the cursors of a header are.
proof fn cursors_apart(header: RingHeader)
    ensures
        header.used() == if header.write_cursor >= header.read_cursor {
            header.write_cursor - header.read_cursor
        } else {
            header.write_cursor - header.read_cursor + cursor_count()
        },
{
}

/// Where a cursor stands after it moved by `n`.
proof fn cursor_moves(cursor: int, n: int)
    requires
        0 <= cursor < cursor_count(),
        0 <= n < cursor_count(),
    ensures
        (cursor + n) % cursor_count() == if cursor + n < cursor_count() {
            cursor + n
        } else {
            cursor + n - cursor_count()
        },
{
}

/// First in, first out: writing `buf` at the write cursor of a ring that has room
/// for it appends `buf` to the bytes that wait to be read, and changes none of
/// those.
pub proof fn write_appends(header: RingHeader, mem: Seq<u8>, buf: Seq<u8>)
    requires
        header.fits(mem.len()),
        mem.len() < cursor_count(),
        header.used() + buf.len() <= mem.len(),
        has_room(header.endurance(mem.len()), buf.len()),
    ensures
        header.written(buf.len()).fits(mem.len()),
        header.written(buf.len()).endurance(mem.len()) == less(
            header.endurance(mem.len()),
            buf.len(),
        ),
        contents(
            header.written(buf.len()),
            spliced(mem, header.write_cursor as int, buf),
        ) == contents(header, mem) + buf,
{
    let size = mem.len() as int;
    let r = header.read_cursor as int;
    let w = header.write_cursor as int;
    let used = header.used() as int;
    let after = spliced(mem, w, buf);
    let n = header.used() + buf.len();
    used_and_free(header, mem.len(), buf.len(), 0);
    if size > 0 {
        clean_wrap_keeps_position(r + used, mem.len());
    }
    assert((r + used) % cursor_count() == w);
    assert forall|i: int| 0 <= i < n implies window(after, r, n)[i] == (contents(header, mem)
        + buf)[i] by {
        let j = (r + i) % size;
        lemma_sub_mod_noop(r + i, w, size);
        lemma_sub_mod_noop(r + i, r + used, size);
        lemma_sub_mod_noop(j, w, size);
        lemma_mod_twice(r + i, size);
        assert((j - w) % size == (i - used) % size);
        if i < used {
            lemma_mod_multiples_vanish(1, i - used, size);
            lemma_small_mod((i - used + size) as nat, size as nat);
        } else {
            lemma_small_mod((i - used) as nat, size as nat);
        }
    }
    assert(window(after, r, n) =~= contents(header, mem) + buf);
}

/// First in, first out: the bytes found at the read cursor are the oldest ones
/// that wait, and reading `n` of them leaves the others in their order.
pub proof fn consume_keeps_order(header: RingHeader, mem: Seq<u8>, n: nat)
    requires
        header.fits(mem.len()),
        mem.len() < cursor_count(),
        n <= header.used(),
    ensures
        header.consumed(n).fits(mem.len()),
        window(mem, header.read_cursor as int, n) == contents(header, mem).take(n as int),
        contents(header.consumed(n), mem) == contents(header, mem).skip(n as int),
{
    let r = header.read_cursor as int;
    used_and_free(header, mem.len(), 0, n);
    assert(window(mem, r, n) =~= contents(header, mem).take(n as int));
    let left = (header.used() - n) as nat;
    if mem.len() > 0 {
        clean_wrap_keeps_position(r + n, mem.len());
        same_position_same_bytes(mem, r + n, header.consumed(n).read_cursor as int, left);
    }
    assert(window(mem, r + n, left) =~= contents(header, mem).skip(n as int));
}

/// A producer may act on an old read cursor: while it decides and writes, the
/// consumer may read `seen` more bytes, and still no unread byte is overwritten
/// and `buf` comes right behind those that wait.
pub proof fn producer_may_lag(header: RingHeader, mem: Seq<u8>, buf: Seq<u8>, seen: nat)
    requires
        header.fits(mem.len()),
        mem.len() < cursor_count(),
        header.used() + buf.len() <= mem.len(),
        has_room(header.endurance(mem.len()), buf.len()),
        seen <= header.used(),
    ensures
        contents(
            header.consumed(seen).written(buf.len()),
            spliced(mem, header.write_cursor as int, buf),
        ) == contents(header.consumed(seen), mem) + buf,
{
    consume_keeps_order(header, mem, seen);
    used_and_free(header, mem.len(), 0, seen);
    write_appends(header.consumed(seen), mem, buf);
}

/// A consumer may act on an old write cursor: while it decides and reads `n`
/// bytes, the producer may write `buf`, and still the consumer finds the oldest
/// bytes, all of them written before.
pub proof fn consumer_may_lag(header: RingHeader, mem: Seq<u8>, n: nat, buf: Seq<u8>)
    requires
        header.fits(mem.len()),
        mem.len() < cursor_count(),
        header.used() + buf.len() <= mem.len(),
        has_room(header.endurance(mem.len()), buf.len()),
        n <= header.used(),
    ensures
        window(
            spliced(mem, header.write_cursor as int, buf),
            header.read_cursor as int,
            n,
        ) == contents(header, mem).take(n as int),
        contents(
            header.written(buf.len()).consumed(n),
            spliced(mem, header.write_cursor as int, buf),
        ) == contents(header, mem).skip(n as int) + buf,
{
    let after = spliced(mem, header.write_cursor as int, buf);
    write_appends(header, mem, buf);
    used_and_free(header, mem.len(), buf.len(), 0);
    consume_keeps_order(header.written(buf.len()), after, n);
    let all = contents(header, mem) + buf;
    assert(all.take(n as int) =~= contents(header, mem).take(n as int));
    assert(all.skip(n as int) =~= contents(header, mem).skip(n as int) + buf);
}

/// Producer and consumer never touch the same byte: what the producer may write,
/// `free` places past the write cursor, is not what the consumer may read, `used`
/// places past the read cursor. Each may act on an old header: the producer need not
/// have seen the last `unseen_reads` bytes leave, nor the consumer the last
/// `unseen_writes` bytes come.
pub proof fn sides_never_collide(
    header: RingHeader,
    size: nat,
    unseen_reads: nat,
    unseen_writes: nat,
    free: nat,
    used: nat,
)
    requires
        header.fits(size),
        size < cursor_count(),
        free < size - (header.used() + unseen_reads),
        used < header.used() - unseen_writes,
    ensures
        (header.write_cursor + free) % (size as int) != (header.read_cursor + used) % (size as int),
{
    let s = size as int;
    let r = header.read_cursor as int;
    let w = header.write_cursor as int;
    let apart = header.used() + free - used;
    cursors_apart(header);
    cursor_moves(r, header.used() as int);
    clean_wrap_keeps_position(r + header.used(), size);
    assert((r + header.used()) % s == w % s);
    lemma_add_mod_noop(w, free as int, s);
    lemma_add_mod_noop(r + header.used(), free as int, s);
    assert((w + free) % s == (r + header.used() + free) % s);
    if (w + free) % s == (r + used) % s {
        lemma_sub_mod_noop(r + header.used() + free, r + used as int, s);
        assert(((r + header.used() + free) % s - (r + used) % s) % s == 0int % s);
        lemma_small_mod(0, size);
        lemma_small_mod(apart as nat, size);
    }
}

/// Nothing is lost, doubled or reordered: at every time what was read so far, followed
/// by what waits, is what was written so far. A write keeps this so, and so does a
/// read.
pub proof fn stream_is_preserved(
    header: RingHeader,
    mem: Seq<u8>,
    written: Seq<u8>,
    read: Seq<u8>,
    buf: Seq<u8>,
    n: nat,
)
    requires
        header.fits(mem.len()),
        mem.len() < cursor_count(),
        read + contents(header, mem) == written,
        header.used() + buf.len() <= mem.len(),
        has_room(header.endurance(mem.len()), buf.len()),
        n <= header.used(),
    ensures
        read + contents(
            header.written(buf.len()),
            spliced(mem, header.write_cursor as int, buf),
        ) == written + buf,
        read + window(mem, header.read_cursor as int, n) + contents(header.consumed(n), mem)
            == written,
{
    write_appends(header, mem, buf);
    consume_keeps_order(header, mem, n);
    let waiting = contents(header, mem);
    assert(read + (waiting + buf) =~= read + waiting + buf);
    assert(read + waiting.take(n as int) + waiting.skip(n as int) =~= read + waiting);
}

} // verus!
