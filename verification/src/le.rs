//! Little-endian integers in byte sequences.

use vstd::prelude::*;

verus! {

/// The two bytes of `n`, least significant first.
pub open spec fn le16(n: u16) -> Seq<u8> {
    seq![(n as int % 256) as u8, (n as int / 256) as u8]
}

/// The four bytes of `n`, least significant first.
pub open spec fn le32(n: u32) -> Seq<u8> {
    le16((n as int % 0x1_0000) as u16) + le16((n as int / 0x1_0000) as u16)
}

/// The eight bytes of `n`, least significant first.
pub open spec fn le64(n: u64) -> Seq<u8> {
    le32((n as int % 0x1_0000_0000) as u32) + le32((n as int / 0x1_0000_0000) as u32)
}

/// The number whose bytes, least significant first, stand at `at` in `s`.
pub open spec fn value16(s: Seq<u8>, at: int) -> u16 {
    (s[at] + 0x100 * s[at + 1]) as u16
}

/// The number whose bytes, least significant first, stand at `at` in `s`.
#[verifier::opaque]
pub open spec fn value32(s: Seq<u8>, at: int) -> u32 {
    (value16(s, at) + 0x1_0000 * value16(s, at + 2)) as u32
}

/// The number whose bytes, least significant first, stand at `at` in `s`.
#[verifier::opaque]
pub open spec fn value64(s: Seq<u8>, at: int) -> u64 {
    (value32(s, at) + 0x1_0000_0000 * value32(s, at + 4)) as u64
}

/// A signed 32-bit number as the unsigned number with the same bits.
pub open spec fn bits32(n: i32) -> u32 {
    if n < 0 {
        (n + 0x1_0000_0000) as u32
    } else {
        n as u32
    }
}

/// The signed 32-bit number with these bits.
pub open spec fn signed32(n: u32) -> i32 {
    if n >= 0x8000_0000 {
        (n - 0x1_0000_0000) as i32
    } else {
        n as i32
    }
}

/// A signed 16-bit number as the unsigned number with the same bits.
pub open spec fn bits16(n: i16) -> u16 {
    if n < 0 {
        (n + 0x1_0000) as u16
    } else {
        n as u16
    }
}

/// The signed 16-bit number with these bits.
pub open spec fn signed16(n: u16) -> i16 {
    if n >= 0x8000 {
        (n - 0x1_0000) as i16
    } else {
        n as i16
    }
}

/// Reading a 16-bit number gives back the number that was written.
pub proof fn lemma_le16(s: Seq<u8>, at: int, n: u16)
    requires
        0 <= at,
        at + 2 <= s.len(),
    ensures
        s.subrange(at, at + 2) == le16(n) <==> value16(s, at) == n,
{
    let t = s.subrange(at, at + 2);
    assert(t[0] == s[at] && t[1] == s[at + 1]);
    if value16(s, at) == n {
        assert(t =~= le16(n));
    }
}

/// Reading a 32-bit number gives back the number that was written.
pub proof fn lemma_le32(s: Seq<u8>, at: int, n: u32)
    requires
        0 <= at,
        at + 4 <= s.len(),
    ensures
        s.subrange(at, at + 4) == le32(n) <==> value32(s, at) == n,
{
    reveal(value32);
    let t = s.subrange(at, at + 4);
    let lo = (n as int % 0x1_0000) as u16;
    let hi = (n as int / 0x1_0000) as u16;
    lemma_le16(s, at, lo);
    lemma_le16(s, at + 2, hi);
    assert(t.subrange(0, 2) =~= s.subrange(at, at + 2));
    assert(t.subrange(2, 4) =~= s.subrange(at + 2, at + 4));
    if t == le32(n) {
        assert(t.subrange(0, 2) =~= le16(lo));
        assert(t.subrange(2, 4) =~= le16(hi));
    }
    if value32(s, at) == n {
        assert(value16(s, at) == lo);
        assert(value16(s, at + 2) == hi);
        assert(t =~= s.subrange(at, at + 2) + s.subrange(at + 2, at + 4));
    }
}

/// Reading a 64-bit number gives back the number that was written.
pub proof fn lemma_le64(s: Seq<u8>, at: int, n: u64)
    requires
        0 <= at,
        at + 8 <= s.len(),
    ensures
        s.subrange(at, at + 8) == le64(n) <==> value64(s, at) == n,
{
    reveal(value64);
    let t = s.subrange(at, at + 8);
    let lo = (n as int % 0x1_0000_0000) as u32;
    let hi = (n as int / 0x1_0000_0000) as u32;
    lemma_le32(s, at, lo);
    lemma_le32(s, at + 4, hi);
    assert(t.subrange(0, 4) =~= s.subrange(at, at + 4));
    assert(t.subrange(4, 8) =~= s.subrange(at + 4, at + 8));
    if t == le64(n) {
        assert(t.subrange(0, 4) =~= le32(lo));
        assert(t.subrange(4, 8) =~= le32(hi));
    }
    if value64(s, at) == n {
        assert(value32(s, at) == lo);
        assert(value32(s, at + 4) == hi);
        assert(t =~= s.subrange(at, at + 4) + s.subrange(at + 4, at + 8));
    }
}

/// Reads the 16-bit number at `at`.
pub fn read16(s: &[u8], at: usize) -> (n: u16)
    requires
        at + 2 <= s@.len(),
    ensures
        n == value16(s@, at as int),
{
    assert(s@.len() == s.len());
    s[at] as u16 + 0x100 * (s[at + 1] as u16)
}

/// Reads the 32-bit number at `at`.
pub fn read32(s: &[u8], at: usize) -> (n: u32)
    requires
        at + 4 <= s@.len(),
    ensures
        n == value32(s@, at as int),
{
    assert(s@.len() == s.len());
    proof {
        reveal(value32);
    }
    read16(s, at) as u32 + 0x1_0000 * (read16(s, at + 2) as u32)
}

/// Reads the 64-bit number at `at`.
pub fn read64(s: &[u8], at: usize) -> (n: u64)
    requires
        at + 8 <= s@.len(),
    ensures
        n == value64(s@, at as int),
{
    assert(s@.len() == s.len());
    proof {
        reveal(value64);
    }
    read32(s, at) as u64 + 0x1_0000_0000 * (read32(s, at + 4) as u64)
}

/// Reinterprets the bits of an unsigned number as a signed one.
pub fn to_signed32(n: u32) -> (r: i32)
    ensures
        r == signed32(n),
{
    if n >= 0x8000_0000 {
        (n as i64 - 0x1_0000_0000) as i32
    } else {
        n as i32
    }
}

/// Reinterprets the bits of a signed number as an unsigned one.
pub fn to_bits32(n: i32) -> (r: u32)
    ensures
        r == bits32(n),
{
    if n < 0 {
        (n as i64 + 0x1_0000_0000) as u32
    } else {
        n as u32
    }
}

/// Reinterprets the bits of an unsigned number as a signed one.
pub fn to_signed16(n: u16) -> (r: i16)
    ensures
        r == signed16(n),
{
    if n >= 0x8000 {
        (n as i32 - 0x1_0000) as i16
    } else {
        n as i16
    }
}

/// Reinterprets the bits of a signed number as an unsigned one.
pub fn to_bits16(n: i16) -> (r: u16)
    ensures
        r == bits16(n),
{
    if n < 0 {
        (n as i32 + 0x1_0000) as u16
    } else {
        n as u16
    }
}

/// Appends the two bytes of `n`.
pub fn push16(out: &mut Vec<u8>, n: u16)
    ensures
        final(out)@ == old(out)@ + le16(n),
{
    out.push((n % 256) as u8);
    out.push((n / 256) as u8);
    assert(out@ =~= old(out)@ + le16(n));
}

/// Appends the four bytes of `n`.
pub fn push32(out: &mut Vec<u8>, n: u32)
    ensures
        final(out)@ == old(out)@ + le32(n),
{
    push16(out, (n % 0x1_0000) as u16);
    push16(out, (n / 0x1_0000) as u16);
    assert(out@ =~= old(out)@ + le32(n));
}

/// Numbers are stored with their least significant byte first.
pub proof fn law_the_lowest_byte_comes_first(a: u16, b: u32, c: u64)
    ensures
        le16(a).len() == 2,
        le16(a)[0] + 0x100 * le16(a)[1] == a,
        le32(b).len() == 4,
        le32(b)[0] + 0x100 * le32(b)[1] + 0x1_0000 * le32(b)[2] + 0x100_0000 * le32(b)[3] == b,
        le64(c).len() == 8,
        le64(c)[0] + 0x100 * le64(c)[1] + 0x1_0000 * le64(c)[2] + 0x100_0000 * le64(c)[3]
            + 0x1_0000_0000 * le64(c)[4] + 0x100_0000_0000 * le64(c)[5] + 0x1_0000_0000_0000
            * le64(c)[6] + 0x100_0000_0000_0000 * le64(c)[7] == c,
{
    let (lo, hi) = ((c as int % 0x1_0000_0000) as u32, (c as int / 0x1_0000_0000) as u32);
    assert(le64(c).subrange(0, 4) =~= le32(lo));
    assert(le64(c).subrange(4, 8) =~= le32(hi));
    assert(c == lo + 0x1_0000_0000 * hi);
}

/// A signed number has the bits of the unsigned one that differs from it by a full turn, or
/// not at all, and is found again from them.
pub proof fn law_negative_numbers_are_a_full_turn_off(a: i16, b: i32)
    ensures
        bits16(a) == a || bits16(a) == a + 0x1_0000,
        bits32(b) == b || bits32(b) == b + 0x1_0000_0000,
        signed16(bits16(a)) == a,
        signed32(bits32(b)) == b,
{
}

} // verus!
