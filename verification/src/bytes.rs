//! Copying byte ranges and laying out little-endian integers.

use vstd::prelude::*;

verus! {

/// `dst` with the bytes from `at` on replaced by `src`.
pub open spec fn overwrite(dst: Seq<u8>, at: int, src: Seq<u8>) -> Seq<u8> {
    dst.subrange(0, at) + src + dst.subrange(at + src.len(), dst.len() as int)
}

/// Copy all of `src` into `dst`, starting at index `at`.
pub fn copy_into(dst: &mut [u8], at: usize, src: &[u8])
    requires
        at + src@.len() <= old(dst)@.len(),
    ensures
        final(dst)@ == overwrite(old(dst)@, at as int, src@),
{
    let n: usize = src.len();
    let total: usize = dst.len();
    let ghost before = dst@;
    let mut i: usize = 0;
    while i < n
        invariant
            n == src@.len(),
            i <= n,
            at + n <= total,
            total == before.len(),
            dst@ == overwrite(before, at as int, src@.take(i as int)),
        decreases n - i,
    {
        dst[at + i] = src[i];
        i = i + 1;
        assert(dst@ =~= overwrite(before, at as int, src@.take(i as int)));
    }
    assert(src@.take(n as int) =~= src@);
}

/// The two bytes of `v`, least significant first.
pub open spec fn u16_le(v: u16) -> Seq<u8> {
    seq![(v % 256) as u8, (v / 256) as u8]
}

/// The four bytes of `v`, least significant first.
pub open spec fn u32_le(v: u32) -> Seq<u8> {
    seq![
        (v % 256) as u8,
        (v / 256 % 256) as u8,
        (v / 65536 % 256) as u8,
        (v / 16777216) as u8,
    ]
}

/// The eight bytes of `v`, least significant first.
pub open spec fn u64_le(v: u64) -> Seq<u8> {
    u32_le((v % 4294967296) as u32) + u32_le((v / 4294967296) as u32)
}

/// The number whose least significant byte is `s[0]` and whose other byte is `s[1]`.
pub open spec fn u16_of(s: Seq<u8>) -> u16 {
    (s[0] + 256 * s[1]) as u16
}

/// The number whose bytes, least significant first, are `s[0]` to `s[3]`.
pub open spec fn u32_of(s: Seq<u8>) -> u32 {
    (s[0] + 256 * s[1] + 65536 * s[2] + 16777216 * s[3]) as u32
}

/// The number whose bytes, least significant first, are `s[0]` to `s[7]`.
pub open spec fn u64_of(s: Seq<u8>) -> u64 {
    (u32_of(s.subrange(0, 4)) + 4294967296 * u32_of(s.subrange(4, 8))) as u64
}

/// Overwriting puts each byte of `src` where it belongs and leaves every other byte.
pub proof fn overwrite_is_exact(dst: Seq<u8>, at: int, src: Seq<u8>)
    requires
        0 <= at,
        at + src.len() <= dst.len(),
    ensures
        overwrite(dst, at, src).len() == dst.len(),
        forall|i: int| 0 <= i < src.len() ==> overwrite(dst, at, src)[at + i] == #[trigger] src[i],
        forall|j: int|
            0 <= j < dst.len() && !(at <= j < at + src.len()) ==> overwrite(dst, at, src)[j]
                == #[trigger] dst[j],
{
    let all = overwrite(dst, at, src);
    assert forall|i: int| 0 <= i < src.len() implies all[at + i] == #[trigger] src[i] by {}
    assert forall|j: int| 0 <= j < dst.len() && !(at <= j < at + src.len()) implies all[j]
        == #[trigger] dst[j] by {}
}

/// The bytes of a number stand for it, the first with weight one, each next one with 256
/// times the weight of the one before.
pub proof fn numbers_are_little_endian(a: u16, b: u32, c: u64)
    ensures
        u16_le(a).len() == 2,
        u16_le(a)[0] + 0x100 * u16_le(a)[1] == a,
        u32_le(b).len() == 4,
        u32_le(b)[0] + 0x100 * u32_le(b)[1] + 0x1_0000 * u32_le(b)[2] + 0x100_0000 * u32_le(b)[3]
            == b,
        u64_le(c).len() == 8,
        u64_le(c)[0] + 0x100 * u64_le(c)[1] + 0x1_0000 * u64_le(c)[2] + 0x100_0000 * u64_le(c)[3]
            + 0x1_0000_0000 * u64_le(c)[4] + 0x100_0000_0000 * u64_le(c)[5] + 0x1_0000_0000_0000
            * u64_le(c)[6] + 0x100_0000_0000_0000 * u64_le(c)[7] == c,
{
    u32_has_its_bytes(b);
    let low = (c % 4294967296) as u32;
    let high = (c / 4294967296) as u32;
    u32_has_its_bytes(low);
    u32_has_its_bytes(high);
    let s = u64_le(c);
    assert(forall|i: int| 0 <= i < 4 ==> s[i] == u32_le(low)[i]);
    assert(forall|i: int| 0 <= i < 4 ==> s[4 + i] == u32_le(high)[i]);
    assert(s[4] == u32_le(high)[0] && s[5] == u32_le(high)[1]);
    assert(s[6] == u32_le(high)[2] && s[7] == u32_le(high)[3]);
    assert(c == low + 0x1_0000_0000 * high);
}

/// The bytes of a four-byte number.
proof fn u32_has_its_bytes(v: u32)
    ensures
        u32_le(v).len() == 4,
        u32_le(v)[0] + 0x100 * u32_le(v)[1] + 0x1_0000 * u32_le(v)[2] + 0x100_0000 * u32_le(v)[3]
            == v,
{
    u32_round_trip(v);
}

/// Reading bytes gives the number for which they stand.
pub proof fn bytes_are_read_little_endian(a: Seq<u8>, b: Seq<u8>, c: Seq<u8>)
    requires
        a.len() == 2,
        b.len() == 4,
        c.len() == 8,
    ensures
        u16_of(a) == a[0] + 0x100 * a[1],
        u32_of(b) == b[0] + 0x100 * b[1] + 0x1_0000 * b[2] + 0x100_0000 * b[3],
        u64_of(c) == c[0] + 0x100 * c[1] + 0x1_0000 * c[2] + 0x100_0000 * c[3] + 0x1_0000_0000
            * c[4] + 0x100_0000_0000 * c[5] + 0x1_0000_0000_0000 * c[6] + 0x100_0000_0000_0000
            * c[7],
{
    let low = c.subrange(0, 4);
    let high = c.subrange(4, 8);
    assert(low[0] == c[0] && low[1] == c[1] && low[2] == c[2] && low[3] == c[3]);
    assert(high[0] == c[4] && high[1] == c[5] && high[2] == c[6] && high[3] == c[7]);
}

/// Reading back the two bytes of a number gives the number.
pub proof fn u16_round_trip(v: u16)
    ensures
        u16_of(u16_le(v)) == v,
{
}

/// Reading back the four bytes of a number gives the number.
pub proof fn u32_round_trip(v: u32)
    ensures
        u32_of(u32_le(v)) == v,
{
}

/// Reading back the eight bytes of a number gives the number.
pub proof fn u64_round_trip(v: u64)
    ensures
        u64_of(u64_le(v)) == v,
{
    let s = u64_le(v);
    u32_round_trip((v % 4294967296) as u32);
    u32_round_trip((v / 4294967296) as u32);
    assert(s.subrange(0, 4) =~= u32_le((v % 4294967296) as u32));
    assert(s.subrange(4, 8) =~= u32_le((v / 4294967296) as u32));
}

/// Writing a number read from two bytes gives the bytes.
pub proof fn u16_bytes_round_trip(s: Seq<u8>)
    requires
        s.len() == 2,
    ensures
        u16_le(u16_of(s)) == s,
{
    assert(u16_le(u16_of(s)) =~= s);
}

/// Writing a number read from four bytes gives the bytes.
pub proof fn u32_bytes_round_trip(s: Seq<u8>)
    requires
        s.len() == 4,
    ensures
        u32_le(u32_of(s)) == s,
{
    let v = u32_of(s);
    let high = s[1] + 256 * s[2] + 65536 * s[3];
    let top = s[2] + 256 * s[3];
    assert(v == s[0] + 256 * high);
    assert(high == s[1] + 256 * top);
    assert(v / 256 == high && v % 256 == s[0]);
    assert(v / 65536 == top && high % 256 == s[1]);
    assert(v / 16777216 == s[3] && top % 256 == s[2]);
    assert(u32_le(v) =~= s);
}

/// Write `v` in two bytes at index `at`.
pub fn put_u16(dst: &mut [u8], at: usize, v: u16)
    requires
        at + 2 <= old(dst)@.len(),
    ensures
        final(dst)@ == overwrite(old(dst)@, at as int, u16_le(v)),
{
    let ghost before = dst@;
    dst[at] = (v % 256) as u8;
    dst[at + 1] = (v / 256) as u8;
    assert(dst@ =~= overwrite(before, at as int, u16_le(v)));
}

/// Write `v` in four bytes at index `at`.
pub fn put_u32(dst: &mut [u8], at: usize, v: u32)
    requires
        at + 4 <= old(dst)@.len(),
    ensures
        final(dst)@ == overwrite(old(dst)@, at as int, u32_le(v)),
{
    let ghost before = dst@;
    dst[at] = (v % 256) as u8;
    dst[at + 1] = (v / 256 % 256) as u8;
    dst[at + 2] = (v / 65536 % 256) as u8;
    dst[at + 3] = (v / 16777216) as u8;
    assert(dst@ =~= overwrite(before, at as int, u32_le(v)));
}

/// Write `v` in eight bytes at index `at`.
pub fn put_u64(dst: &mut [u8], at: usize, v: u64)
    requires
        at + 8 <= old(dst)@.len(),
    ensures
        final(dst)@ == overwrite(old(dst)@, at as int, u64_le(v)),
{
    let ghost before = dst@;
    let total: usize = dst.len();
    assert(at + 8 <= total);
    put_u32(dst, at, (v % 4294967296) as u32);
    put_u32(dst, at + 4, (v / 4294967296) as u32);
    assert(dst@ =~= overwrite(before, at as int, u64_le(v)));
}

/// Read two bytes at index `at`.
pub fn get_u16(src: &[u8], at: usize) -> (v: u16)
    requires
        at + 2 <= src@.len(),
    ensures
        v == u16_of(src@.subrange(at as int, at + 2)),
{
    src[at] as u16 + 256 * (src[at + 1] as u16)
}

/// Read four bytes at index `at`.
pub fn get_u32(src: &[u8], at: usize) -> (v: u32)
    requires
        at + 4 <= src@.len(),
    ensures
        v == u32_of(src@.subrange(at as int, at + 4)),
{
    src[at] as u32 + 256 * (src[at + 1] as u32) + 65536 * (src[at + 2] as u32) + 16777216 * (
    src[at + 3] as u32)
}

/// Read eight bytes at index `at`.
pub fn get_u64(src: &[u8], at: usize) -> (v: u64)
    requires
        at + 8 <= src@.len(),
    ensures
        v == u64_of(src@.subrange(at as int, at + 8)),
{
    let total: usize = src.len();
    assert(at + 8 <= total);
    let low: u32 = get_u32(src, at);
    let high: u32 = get_u32(src, at + 4);
    proof {
        let s = src@.subrange(at as int, at + 8);
        assert(s.subrange(0, 4) =~= src@.subrange(at as int, at + 4));
        assert(s.subrange(4, 8) =~= src@.subrange(at + 4, at + 8));
    }
    low as u64 + 4294967296 * (high as u64)
}

} // verus!
