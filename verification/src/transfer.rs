//! A workload for a ring: a fixed pattern is streamed through it, and both sides
//! keep a checksum.

use vstd::arithmetic::div_mod::{
    lemma_fundamental_div_mod, lemma_mod_add_multiples_vanish, lemma_mod_multiples_vanish,
    lemma_small_mod,
};
use vstd::prelude::*;

use crate::pipe::{continues, has_room, less, ChannelState, PipeError, Read, Write};

verus! {

/// The bytes that are streamed: 1 to 255, over and over.
pub open spec fn pattern_bytes(n: nat) -> Seq<u8> {
    Seq::new(n, |i: int| (i % 255 + 1) as u8)
}

/// The exclusive or of all bytes.
pub open spec fn xor_of(s: Seq<u8>) -> u8
    decreases s.len(),
{
    if s.len() == 0 {
        0
    } else {
        xor_of(s.drop_last()) ^ s.last()
    }
}

/// Prefixes of `buf`, of the lengths in `cuts`, one behind the other.
pub open spec fn prefixes(buf: Seq<u8>, cuts: Seq<nat>) -> Seq<u8>
    decreases cuts.len(),
{
    if cuts.len() == 0 {
        Seq::empty()
    } else {
        prefixes(buf, cuts.drop_last()) + buf.take(cuts.last() as int)
    }
}

/// The checksum of two pieces is the exclusive or of theirs, so it does not depend
/// on how a stream is cut.
pub proof fn xor_of_pieces(a: Seq<u8>, b: Seq<u8>)
    ensures
        xor_of(a + b) == xor_of(a) ^ xor_of(b),
    decreases b.len(),
{
    if b.len() == 0 {
        assert(a + b =~= a);
        let x = xor_of(a);
        assert(x ^ 0 == x) by (bit_vector);
    } else {
        xor_of_pieces(a, b.drop_last());
        assert((a + b).drop_last() =~= a + b.drop_last());
        let x = xor_of(a);
        let y = xor_of(b.drop_last());
        let z = b.last();
        assert((x ^ y) ^ z == x ^ (y ^ z)) by (bit_vector);
    }
}

/// The pattern starts at 1 and counts up, and 1 comes again after 255; it does not depend
/// on how much of it is taken.
pub proof fn pattern_counts_round(n: nat, i: int)
    requires
        0 <= i < n,
    ensures
        pattern_bytes(n).len() == n,
        i == 0 ==> pattern_bytes(n)[i] == 1,
        i > 0 ==> pattern_bytes(n)[i] == if pattern_bytes(n)[i - 1] == 255 {
            1
        } else {
            pattern_bytes(n)[i - 1] + 1
        },
{
}

/// The checksum of no byte is 0, that of one byte is the byte, and that of more is the
/// exclusive or of the first and of the checksum of the others.
pub proof fn xor_is_taken_byte_by_byte(b: u8, rest: Seq<u8>)
    ensures
        xor_of(Seq::empty()) == 0,
        xor_of(seq![b]) == b,
        xor_of(seq![b] + rest) == b ^ xor_of(rest),
{
    let one = seq![b];
    assert(one.drop_last() =~= Seq::<u8>::empty());
    assert(xor_of(Seq::<u8>::empty()) == 0);
    assert(one.last() == b);
    assert(0 ^ b == b) by (bit_vector);
    xor_of_pieces(one, rest);
}

/// The first `n` bytes of the pattern.
pub fn pattern(n: usize) -> (buf: Vec<u8>)
    ensures
        buf@ == pattern_bytes(n as nat),
{
    let mut buf: Vec<u8> = Vec::new();
    let mut i: usize = 0;
    while i < n
        invariant
            i <= n,
            buf@ == pattern_bytes(i as nat),
        decreases n - i,
    {
        buf.push((i % 255 + 1) as u8);
        i = i + 1;
        assert(buf@ =~= pattern_bytes(i as nat));
    }
    buf
}

/// The exclusive or of `start` and the first `n` bytes of `buf`.
pub fn checksum(start: u8, buf: &[u8], n: usize) -> (xor: u8)
    requires
        n <= buf@.len(),
    ensures
        xor == start ^ xor_of(buf@.take(n as int)),
{
    let mut xor: u8 = start;
    let mut i: usize = 0;
    proof {
        assert(start ^ 0 == start) by (bit_vector);
        assert(xor_of(buf@.take(0)) == 0);
    }
    while i < n
        invariant
            i <= n <= buf@.len(),
            xor == start ^ xor_of(buf@.take(i as int)),
        decreases n - i,
    {
        proof {
            let before = buf@.take(i as int);
            let after = buf@.take((i + 1) as int);
            let sum = xor_of(before);
            let next = buf@[i as int];
            assert(after.drop_last() =~= before);
            assert((start ^ sum) ^ next == start ^ (sum ^ next)) by (bit_vector);
        }
        xor = xor ^ buf[i];
        i = i + 1;
    }
    xor
}

/// How many bytes to move next, when `pos` of `transfer_size` bytes are done and
/// `chunk_size` is the most at once.
pub fn chunk_len(transfer_size: u64, pos: u64, chunk_size: usize) -> (len: usize)
    requires
        pos <= transfer_size,
    ensures
        len == if transfer_size - pos <= chunk_size {
            transfer_size - pos
        } else {
            chunk_size as int
        },
{
    if transfer_size - pos <= chunk_size as u64 {
        (transfer_size - pos) as usize
    } else {
        chunk_size
    }
}

/// Write `transfer_size` bytes into the pipe, `buf` over and over, waiting while
/// the pipe is full. Returns how many bytes were written, and their checksum.
///
/// Each write starts at the start of `buf`, also after one that was cut short. A pipe
/// that takes all it has room for is given `buf` over and over.
pub fn send_all<W: Write>(pipe: &mut W, buf: &[u8], transfer_size: u64) -> (done: (u64, u8))
    requires
        old(pipe).wf(),
        buf@.len() > 0 || transfer_size == 0,
        has_room(old(pipe).state().room, transfer_size as nat),
        has_room(old(pipe).state().endurance, transfer_size as nat),
    ensures
        done.0 == transfer_size,
        continues(*old(pipe), *final(pipe)),
        streamed(
            old(pipe).state(),
            final(pipe).state(),
            buf@,
            transfer_size as nat,
            done.1,
        ),
        old(pipe).settled() && old(pipe).state().greedy ==> forall|i: int|
            0 <= i < transfer_size ==> #[trigger] final(pipe).state().outgoing[old(
                pipe,
            ).state().outgoing.len() + i] == buf@[i % (buf@.len() as int)],
{
    let chunk_size: usize = buf.len();
    let mut pos: u64 = 0;
    let mut xor: u8 = 0;
    let ghost mut cuts: Seq<nat> = Seq::empty();
    assert(pipe.state().outgoing + prefixes(buf@, cuts) =~= pipe.state().outgoing);
    while pos < transfer_size
        invariant
            pos <= transfer_size,
            chunk_size == buf@.len(),
            buf@.len() > 0 || transfer_size == 0,
            has_room(old(pipe).state().room, transfer_size as nat),
            has_room(old(pipe).state().endurance, transfer_size as nat),
            continues(*old(pipe), *pipe),
            sent_in_pieces(
                old(pipe).state(),
                pipe.state(),
                buf@,
                cuts,
                pos as nat,
                xor,
            ),
            old(pipe).settled() && old(pipe).state().greedy ==> {
                &&& pos == transfer_size || pos as int % chunk_size as int == 0
                &&& prefixes(buf@, cuts) == repeated(buf@, pos as nat)
            },
        decreases transfer_size - pos, pipe.stalls(),
    {
        let to_write: usize = chunk_len(transfer_size, pos, chunk_size);
        let part: &[u8] = &buf[0..to_write];
        match pipe.write(part) {
            Ok(n) => {
                proof {
                    let before = prefixes(buf@, cuts);
                    let piece = buf@.take(n as int);
                    let more = cuts.push(n as nat);
                    assert(part@.take(n as int) =~= piece);
                    assert(more.drop_last() =~= cuts);
                    assert(prefixes(buf@, more) == before + piece);
                    assert(old(pipe).state().outgoing + before + piece =~= old(
                        pipe,
                    ).state().outgoing + (before + piece));
                    xor_of_pieces(before, piece);
                    if old(pipe).settled() && old(pipe).state().greedy {
                        assert(n == to_write);
                        one_more_time(buf@, pos as nat, n as nat);
                    }
                    cuts = more;
                }
                xor = checksum(xor, buf, n);
                pos = pos + n as u64;
            },
            Err(PipeError::WouldBlock) => {},
        }
    }
    assert(sent_in_pieces(
        old(pipe).state(),
        pipe.state(),
        buf@,
        cuts,
        transfer_size as nat,
        xor,
    ));
    (pos, xor)
}

/// The first `n` bytes of `buf` over and over.
pub open spec fn repeated(buf: Seq<u8>, n: nat) -> Seq<u8> {
    Seq::new(n, |i: int| buf[i % (buf.len() as int)])
}

/// After whole copies of `buf` comes another one, or a part of it.
proof fn one_more_time(buf: Seq<u8>, pos: nat, n: nat)
    requires
        0 < buf.len(),
        n <= buf.len(),
        pos % buf.len() == 0,
    ensures
        repeated(buf, pos) + buf.take(n as int) == repeated(buf, pos + n),
        n == buf.len() ==> (pos + n) % buf.len() == 0,
{
    let size = buf.len() as int;
    assert forall|i: int| pos <= i < pos + n implies #[trigger] (i % size) == i - pos by {
        lemma_fundamental_div_mod(pos as int, size);
        lemma_mod_multiples_vanish(pos as int / size, i - pos, size);
        lemma_small_mod((i - pos) as nat, buf.len());
        assert(i == size * (pos as int / size) + (i - pos));
    }
    if n == buf.len() {
        lemma_mod_add_multiples_vanish(pos as int, size);
    }
    assert(repeated(buf, pos) + buf.take(n as int) =~= repeated(buf, pos + n));
}

/// Whether prefixes of `buf`, `n` bytes in all, were handed over, with checksum
/// `xor`.
pub open spec fn streamed(
    before: ChannelState,
    after: ChannelState,
    buf: Seq<u8>,
    n: nat,
    xor: u8,
) -> bool {
    exists|cuts: Seq<nat>| #[trigger] sent_in_pieces(before, after, buf, cuts, n, xor)
}

/// Whether prefixes of `buf` of the lengths in `cuts`, `n` bytes in all, were handed
/// over, with checksum `xor`.
pub open spec fn sent_in_pieces(
    before: ChannelState,
    after: ChannelState,
    buf: Seq<u8>,
    cuts: Seq<nat>,
    n: nat,
    xor: u8,
) -> bool {
    let sent = prefixes(buf, cuts);
    &&& sent.len() == n
    &&& xor == xor_of(sent)
    &&& forall|i: int| 0 <= i < cuts.len() ==> #[trigger] cuts[i] <= buf.len()
    &&& after == ChannelState {
        outgoing: before.outgoing + sent,
        room: less(before.room, n),
        endurance: less(before.endurance, n),
        ..before
    }
}

/// Read `transfer_size` bytes from the pipe, at most `buf` at once, waiting while
/// the pipe is empty. Returns how many bytes were read, and their checksum.
///
/// Each read starts at the start of `buf`. On a pipe that gives all that it has, the
/// newest bytes are left there, each at its position modulo the size of `buf`.
pub fn receive_all<R: Read>(pipe: &mut R, buf: &mut [u8], transfer_size: u64) -> (done: (u64, u8))
    requires
        old(pipe).wf(),
        old(buf)@.len() > 0 || transfer_size == 0,
        old(pipe).state().incoming.len() >= transfer_size,
    ensures
        done.0 == transfer_size,
        done.1 == xor_of(old(pipe).state().incoming.take(transfer_size as int)),
        continues(*old(pipe), *final(pipe)),
        final(pipe).state() == (ChannelState {
            incoming: old(pipe).state().incoming.skip(transfer_size as int),
            ..old(pipe).state()
        }),
        final(buf)@.len() == old(buf)@.len(),
        old(pipe).settled() && old(pipe).state().greedy ==> forall|i: int|
            0 <= i < transfer_size && transfer_size <= i + old(buf)@.len()
                ==> #[trigger] old(pipe).state().incoming[i] == final(buf)@[i % (
            old(buf)@.len() as int)],
        forall|j: int|
            transfer_size <= j < old(buf)@.len() ==> #[trigger] final(buf)@[j] == old(buf)@[j],
{
    let chunk_size: usize = buf.len();
    let mut pos: u64 = 0;
    let mut xor: u8 = 0;
    let ghost all = pipe.state().incoming;
    assert(all.skip(0) =~= all);
    while pos < transfer_size
        invariant
            pos <= transfer_size <= all.len(),
            chunk_size == buf@.len(),
            chunk_size == old(buf)@.len(),
            buf@.len() > 0 || transfer_size == 0,
            all == old(pipe).state().incoming,
            xor == xor_of(all.take(pos as int)),
            continues(*old(pipe), *pipe),
            pipe.state() == (ChannelState {
                incoming: all.skip(pos as int),
                ..old(pipe).state()
            }),
            forall|j: int|
                transfer_size <= j < chunk_size ==> #[trigger] buf@[j] == old(buf)@[j],
            old(pipe).settled() && old(pipe).state().greedy ==> {
                &&& pos == transfer_size || pos as int % chunk_size as int == 0
                &&& forall|i: int|
                    0 <= i < pos && pos <= i + chunk_size ==> #[trigger] all[i] == buf@[i % (
                    chunk_size as int)]
            },
        decreases transfer_size - pos, pipe.stalls(),
    {
        let ghost had = buf@;
        let to_read: usize = chunk_len(transfer_size, pos, chunk_size);
        let (part, _) = buf.split_at_mut(to_read);
        match pipe.read(part) {
            Ok(n) => {
                proof {
                    let piece = all.skip(pos as int).take(n as int);
                    assert(part@.take(n as int) =~= piece);
                    assert(all.take((pos + n) as int) =~= all.take(pos as int) + piece);
                    xor_of_pieces(all.take(pos as int), piece);
                    assert(all.skip(pos as int).skip(n as int) =~= all.skip((pos + n) as int));
                }
                xor = checksum(xor, part, n);
                proof {
                    assert(buf@ =~= all.skip(pos as int).take(n as int) + had.skip(n as int));
                    if old(pipe).settled() && old(pipe).state().greedy {
                        assert(n == to_read);
                        newest_bytes(all, had, buf@, pos as nat, n as nat);
                    }
                }
                pos = pos + n as u64;
            },
            Err(PipeError::WouldBlock) => {
                assert(buf@ =~= had);
            },
        }
    }
    (pos, xor)
}

/// A buffer that holds the newest bytes, each at its position modulo the buffer's size,
/// does so after the next read too.
proof fn newest_bytes(all: Seq<u8>, had: Seq<u8>, has: Seq<u8>, pos: nat, n: nat)
    requires
        0 < had.len(),
        n <= had.len(),
        pos % had.len() == 0,
        pos + n <= all.len(),
        has == all.skip(pos as int).take(n as int) + had.skip(n as int),
        forall|i: int|
            0 <= i < pos && pos <= i + had.len() ==> #[trigger] all[i] == had[i % (
            had.len() as int)],
    ensures
        n == had.len() ==> (pos + n) % had.len() == 0,
        forall|i: int|
            0 <= i < pos + n && pos + n <= i + had.len() ==> #[trigger] all[i] == has[i % (
            had.len() as int)],
{
    let size = had.len() as int;
    lemma_fundamental_div_mod(pos as int, size);
    assert forall|i: int| 0 <= i < pos + n && pos + n <= i + size implies #[trigger] all[i]
        == has[i % size] by {
        if i < pos {
            lemma_mod_add_multiples_vanish(i, size);
            lemma_mod_multiples_vanish(pos as int / size, i + size - pos, size);
            lemma_small_mod((i + size - pos) as nat, had.len());
            assert(i + size == size * (pos as int / size) + (i + size - pos));
        } else {
            lemma_mod_multiples_vanish(pos as int / size, i - pos, size);
            lemma_small_mod((i - pos) as nat, had.len());
            assert(i == size * (pos as int / size) + (i - pos));
        }
    }
    if n == had.len() {
        lemma_mod_add_multiples_vanish(pos as int, size);
    }
}

/// Both sides of a transfer agree: who reads the bytes that were sent gets the
/// checksum of the sender.
pub proof fn checksums_agree(
    before: ChannelState,
    after: ChannelState,
    buf: Seq<u8>,
    n: nat,
    xor: u8,
    incoming: Seq<u8>,
)
    requires
        streamed(before, after, buf, n, xor),
        incoming.len() >= n,
        before.outgoing + incoming.take(n as int) == after.outgoing,
    ensures
        xor_of(incoming.take(n as int)) == xor,
{
    let cuts = choose|cuts: Seq<nat>| #[trigger]
        sent_in_pieces(before, after, buf, cuts, n, xor);
    assert(incoming.take(n as int) =~= after.outgoing.skip(before.outgoing.len() as int));
    assert(prefixes(buf, cuts) =~= after.outgoing.skip(before.outgoing.len() as int));
}

/// Number of progress reports in one transfer.
pub const CHECKPOINTS: u64 = 10;

/// Decides when progress is reported.
#[derive(Debug, Clone, Copy, PartialEq, Eq, Structural)]
pub struct Checkpoints {
    /// Bytes between two reports.
    pub size: u64,
    /// Bytes at which the next report is due.
    pub next: u64,
}

impl Checkpoints {
    /// Reports for a transfer of `transfer_size` bytes: a tenth of it each, rounded
    /// up.
    pub fn new(transfer_size: u64) -> (points: Self)
        requires
            transfer_size + CHECKPOINTS - 1 <= u64::MAX,
        ensures
            points.size == (transfer_size + CHECKPOINTS - 1) / CHECKPOINTS as int,
            10 * (points.size - 1) < transfer_size <= 10 * points.size,
            points.next == points.size,
    {
        let size: u64 = (transfer_size + (CHECKPOINTS - 1)) / CHECKPOINTS;
        Checkpoints { size, next: size }
    }

    /// Note that `pos` bytes are done. Returns the number of the report that is due
    /// now, if one is.
    pub fn reached(&mut self, pos: u64) -> (due: Option<u64>)
        requires
            old(self).size > 0,
            pos + old(self).size <= u64::MAX,
        ensures
            final(self).size == old(self).size,
            match due {
                Some(number) => {
                    &&& pos >= old(self).next
                    &&& number == old(self).next as int / old(self).size as int
                    &&& final(self).next == old(self).next + old(self).size
                },
                None => pos < old(self).next && final(self).next == old(self).next,
            },
    {
        if pos >= self.next {
            let number: u64 = self.next / self.size;
            self.next = self.next + self.size;
            Some(number)
        } else {
            None
        }
    }
}

/// Who reads what a sender put into a pipe that takes all it has room for finds the
/// sender's buffer over and over, whatever the length of either.
pub proof fn reader_finds_the_buffer_over_and_over(
    before: ChannelState,
    after: ChannelState,
    buf: Seq<u8>,
    n: nat,
    incoming: Seq<u8>,
    i: int,
)
    requires
        buf.len() > 0,
        incoming.len() >= n,
        before.outgoing + incoming.take(n as int) == after.outgoing,
        forall|k: int|
            0 <= k < n ==> #[trigger] after.outgoing[before.outgoing.len() + k] == buf[k % (
            buf.len() as int)],
        0 <= i < n,
    ensures
        incoming[i] == buf[i % (buf.len() as int)],
        i < buf.len() ==> incoming[i] == buf[i],
        i >= buf.len() ==> incoming[i] == incoming[i - buf.len()],
{
    let size = buf.len() as int;
    assert(after.outgoing[before.outgoing.len() + i] == incoming.take(n as int)[i]);
    if i < size {
        lemma_small_mod(i as nat, buf.len());
    } else {
        assert(after.outgoing[before.outgoing.len() + (i - size)] == incoming.take(n as int)[i
            - size]);
        lemma_mod_add_multiples_vanish(i - size, size);
    }
}

} // verus!
