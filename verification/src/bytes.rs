//! Little-endian integers in byte sequences.

use vstd::prelude::*;

verus! {

/// The four bytes of `n`, least significant first.
pub open spec fn u32_le(n: u32) -> Seq<u8> {
    seq![
        (n % 256) as u8,
        (n / 256 % 256) as u8,
        (n / 65536 % 256) as u8,
        (n / 16777216) as u8,
    ]
}

/// The number that the first four bytes of `b` spell, least significant first.
pub open spec fn u32_of_le(b: Seq<u8>) -> int
    recommends
        b.len() >= 4,
{
    b[0] + 256 * b[1] + 65536 * b[2] + 16777216 * b[3]
}

/// The eight bytes of `n`, least significant first.
pub open spec fn u64_le(n: u64) -> Seq<u8> {
    u32_le((n % 4294967296) as u32) + u32_le((n / 4294967296) as u32)
}

/// The number that the first eight bytes of `b` spell, least significant first.
pub open spec fn u64_of_le(b: Seq<u8>) -> int
    recommends
        b.len() >= 8,
{
    u32_of_le(b) + 4294967296 * u32_of_le(b.skip(4))
}

/// The 32-bit word that stands for a signed integer (two's complement).
pub open spec fn word_of_int(i: i32) -> u32 {
    if i >= 0 {
        i as u32
    } else {
        (i + 4294967296) as u32
    }
}

/// The signed integer that a 32-bit word stands for (two's complement).
pub open spec fn int_of_word(w: u32) -> i32 {
    if w < 2147483648 {
        w as i32
    } else {
        (w - 4294967296) as i32
    }
}

/// Reading back the four bytes of a number gives the number.
pub proof fn lemma_u32_round_trip(n: u32)
    ensures
        u32_le(n).len() == 4,
        u32_of_le(u32_le(n)) == n,
{
    let b = u32_le(n);
    assert(b[0] == n % 256);
    assert(b[1] == n / 256 % 256);
    assert(b[2] == n / 65536 % 256);
    assert(b[3] == n / 16777216);
}

/// Reading back the eight bytes of a number gives the number.
pub proof fn lemma_u64_round_trip(m: u64)
    ensures
        u64_le(m).len() == 8,
        u64_of_le(u64_le(m)) == m,
{
    let lo = (m % 4294967296) as u32;
    let hi = (m / 4294967296) as u32;
    lemma_u32_round_trip(lo);
    lemma_u32_round_trip(hi);
    assert(u64_le(m).skip(4) =~= u32_le(hi));
    assert(u32_of_le(u64_le(m)) == u32_of_le(u32_le(lo)));
}

/// A signed integer is read back from the word that stands for it.
pub proof fn lemma_word_round_trip(i: i32, w: u32)
    ensures
        int_of_word(word_of_int(i)) == i,
        word_of_int(int_of_word(w)) == w,
{
}

/// Four bytes spell a 32-bit number, whose bytes they are.
pub proof fn lemma_u32_bytes(b: Seq<u8>)
    requires
        b.len() == 4,
    ensures
        0 <= u32_of_le(b) <= u32::MAX,
        u32_le(u32_of_le(b) as u32) == b,
{
    let n = u32_of_le(b) as u32;
    assert(n % 256 == b[0]);
    assert(n / 256 % 256 == b[1]);
    assert(n / 65536 % 256 == b[2]);
    assert(n / 16777216 == b[3]);
    assert(u32_le(n) =~= b);
}

/// A number below 2^64 splits into its low and high 32-bit halves.
proof fn lemma_halves(lo: int, hi: int)
    requires
        0 <= lo < 4294967296,
        0 <= hi < 4294967296,
    ensures
        0 <= lo + 4294967296 * hi <= u64::MAX,
        (lo + 4294967296 * hi) % 4294967296 == lo,
        (lo + 4294967296 * hi) / 4294967296 == hi,
{
}

/// Eight bytes spell a 64-bit number, whose bytes they are.
pub proof fn lemma_u64_bytes(b: Seq<u8>)
    requires
        b.len() == 8,
    ensures
        0 <= u64_of_le(b) <= u64::MAX,
        u64_le(u64_of_le(b) as u64) == b,
{
    let lo = b.subrange(0, 4);
    let hi = b.skip(4);
    lemma_u32_bytes(lo);
    lemma_u32_bytes(hi);
    let x = u32_of_le(lo);
    let y = u32_of_le(hi);
    assert(u32_of_le(b) == x) by {
        assert(lo[0] == b[0] && lo[1] == b[1] && lo[2] == b[2] && lo[3] == b[3]);
    }
    lemma_halves(x, y);
    assert(u64_of_le(b) == x + 4294967296 * y);
    assert(lo + hi =~= b);
}

/// Appends the four bytes of `n` to `out`.
pub fn put_u32(out: &mut Vec<u8>, n: u32)
    ensures
        final(out)@ == old(out)@ + u32_le(n),
{
    out.push((n % 256) as u8);
    out.push((n / 256 % 256) as u8);
    out.push((n / 65536 % 256) as u8);
    out.push((n / 16777216) as u8);
    assert(out@ =~= old(out)@ + u32_le(n));
}

/// Appends the eight bytes of `n` to `out`.
pub fn put_u64(out: &mut Vec<u8>, n: u64)
    ensures
        final(out)@ == old(out)@ + u64_le(n),
{
    put_u32(out, (n % 4294967296) as u32);
    put_u32(out, (n / 4294967296) as u32);
    assert(out@ =~= old(out)@ + u64_le(n));
}

/// The number in the four bytes of `b` that start at `at`.
pub fn get_u32(b: &Vec<u8>, at: usize) -> (n: u32)
    requires
        at + 4 <= b.len(),
    ensures
        n == u32_of_le(b@.subrange(at as int, at + 4)),
{
    let ghost s = b@.subrange(at as int, at + 4);
    assert(s[0] == b@[at as int] && s[1] == b@[at + 1] && s[2] == b@[at + 2] && s[3] == b@[at + 3]);
    let b0: u32 = b[at] as u32;
    let b1: u32 = b[at + 1] as u32;
    let b2: u32 = b[at + 2] as u32;
    let b3: u32 = b[at + 3] as u32;
    b0 + 256 * b1 + 65536 * b2 + 16777216 * b3
}

/// The number in the eight bytes of `b` that start at `at`.
pub fn get_u64(b: &Vec<u8>, at: usize) -> (n: u64)
    requires
        at + 8 <= b.len(),
    ensures
        n == u64_of_le(b@.subrange(at as int, at + 8)),
{
    let ghost s = b@.subrange(at as int, at + 8);
    assert(s.subrange(0, 4) =~= b@.subrange(at as int, at + 4));
    assert(s.skip(4) =~= b@.subrange(at + 4, at + 8));
    assert(u32_of_le(s) == u32_of_le(s.subrange(0, 4)));
    let lo: u64 = get_u32(b, at) as u64;
    let hi: u64 = get_u32(b, at + 4) as u64;
    lo + 4294967296 * hi
}

/// Appends the bytes of `src` from `from` up to `to` to `out`.
pub fn put_range(out: &mut Vec<u8>, src: &Vec<u8>, from: usize, to: usize)
    requires
        from <= to <= src.len(),
    ensures
        final(out)@ == old(out)@ + src@.subrange(from as int, to as int),
{
    let mut i: usize = from;
    while i < to
        invariant
            from <= i <= to <= src.len(),
            out@ == old(out)@ + src@.subrange(from as int, i as int),
        decreases to - i,
    {
        out.push(src[i]);
        i += 1;
        assert(out@ =~= old(out)@ + src@.subrange(from as int, i as int));
    }
}

} // verus!
