//! Little-endian integers.
use vstd::prelude::*;

verus! {

/// The two little-endian bytes of `x`.
pub open spec fn le2(x: u16) -> Seq<u8> {
    seq![(x % 256) as u8, (x / 256) as u8]
}

/// The four little-endian bytes of `x`.
pub open spec fn le4(x: u32) -> Seq<u8> {
    le2((x % 0x1_0000) as u16) + le2((x / 0x1_0000) as u16)
}

/// The eight little-endian bytes of `x`.
#[verifier::opaque]
pub open spec fn le8(x: u64) -> Seq<u8> {
    le4((x % 0x1_0000_0000) as u32) + le4((x / 0x1_0000_0000) as u32)
}

/// The number that two little-endian bytes at `at` stand for.
pub open spec fn read2(s: Seq<u8>, at: int) -> u16 {
    (s[at] + 256 * s[at + 1]) as u16
}

/// The number that four little-endian bytes at `at` stand for.
pub open spec fn read4(s: Seq<u8>, at: int) -> u32 {
    (read2(s, at) + 0x1_0000 * read2(s, at + 2)) as u32
}

/// The number that eight little-endian bytes at `at` stand for.
#[verifier::opaque]
pub open spec fn read8(s: Seq<u8>, at: int) -> u64 {
    (read4(s, at) + 0x1_0000_0000 * read4(s, at + 4)) as u64
}

/// Appends the little-endian bytes of `x`.
pub fn push_le2(out: &mut Vec<u8>, x: u16)
    ensures
        final(out)@ == old(out)@ + le2(x),
        final(out)@.len() == old(out)@.len() + 2,
        final(out)@[old(out)@.len() as int] == x % 256,
        final(out)@[old(out)@.len() as int + 1] == x / 256,
{
    out.push((x % 256) as u8);
    out.push((x / 256) as u8);
    assert(out@ =~= old(out)@ + le2(x));
}

/// Appends the little-endian bytes of `x`.
pub fn push_le4(out: &mut Vec<u8>, x: u32)
    ensures
        final(out)@ == old(out)@ + le4(x),
        final(out)@.len() == old(out)@.len() + 4,
        final(out)@[old(out)@.len() as int] == x % 256,
        final(out)@[old(out)@.len() as int + 1] == x / 256 % 256,
        final(out)@[old(out)@.len() as int + 2] == x / 0x1_0000 % 256,
        final(out)@[old(out)@.len() as int + 3] == x / 0x100_0000,
{
    push_le2(out, (x % 0x1_0000) as u16);
    push_le2(out, (x / 0x1_0000) as u16);
    assert(out@ =~= old(out)@ + le4(x));
}

/// Appends the little-endian bytes of `x`.
pub fn push_le8(out: &mut Vec<u8>, x: u64)
    ensures
        final(out)@ == old(out)@ + le8(x),
        final(out)@.len() == old(out)@.len() + 8,
{
    reveal(le8);
    push_le4(out, (x % 0x1_0000_0000) as u32);
    push_le4(out, (x / 0x1_0000_0000) as u32);
    assert(out@ =~= old(out)@ + le8(x));
}

/// Reads two little-endian bytes.
pub fn get_le2(data: &[u8], at: usize) -> (r: u16)
    requires
        at + 2 <= data@.len(),
    ensures
        r == read2(data@, at as int),
        r == data@[at as int] + 256 * data@[at + 1],
{
    data[at] as u16 + 256 * data[at + 1] as u16
}

/// Reads four little-endian bytes.
pub fn get_le4(data: &[u8], at: usize) -> (r: u32)
    requires
        at + 4 <= data@.len(),
    ensures
        r == read4(data@, at as int),
        r == data@[at as int] + 256 * data@[at + 1] + 0x1_0000 * data@[at + 2] + 0x100_0000
            * data@[at + 3],
{
    let n: usize = data.len();
    assert(at + 4 <= n);
    get_le2(data, at) as u32 + 0x1_0000 * get_le2(data, at + 2) as u32
}

/// Reads eight little-endian bytes.
pub fn get_le8(data: &[u8], at: usize) -> (r: u64)
    requires
        at + 8 <= data@.len(),
    ensures
        r == read8(data@, at as int),
        r == data@[at as int] + 256 * data@[at + 1] + 0x1_0000 * data@[at + 2] + 0x100_0000
            * data@[at + 3] + 0x1_0000_0000 * (data@[at + 4] + 256 * data@[at + 5] + 0x1_0000
            * data@[at + 6] + 0x100_0000 * data@[at + 7]),
{
    reveal(read8);
    let n: usize = data.len();
    assert(at + 8 <= n);
    get_le4(data, at) as u64 + 0x1_0000_0000 * get_le4(data, at + 4) as u64
}

pub proof fn lemma_le8_len(x: u64)
    ensures
        le8(x).len() == 8,
{
    reveal(le8);
}

/// Reading the bytes of a number gives the number, wherever they stand.
pub proof fn law_le2_round_trip(s: Seq<u8>, at: int, x: u16)
    requires
        0 <= at,
        at + 2 <= s.len(),
        s.subrange(at, at + 2) == le2(x),
    ensures
        read2(s, at) == x,
{
    let t = s.subrange(at, at + 2);
    assert(t[0] == s[at] && t[1] == s[at + 1]);
}

/// Reading the bytes of a number gives the number, wherever they stand.
pub proof fn law_le4_round_trip(s: Seq<u8>, at: int, x: u32)
    requires
        0 <= at,
        at + 4 <= s.len(),
        s.subrange(at, at + 4) == le4(x),
    ensures
        read4(s, at) == x,
{
    let t = s.subrange(at, at + 4);
    let lo = le2((x % 0x1_0000) as u16);
    let hi = le2((x / 0x1_0000) as u16);
    assert(s.subrange(at, at + 2) =~= lo) by {
        assert(t[0] == s[at] && t[1] == s[at + 1]);
    }
    assert(s.subrange(at + 2, at + 4) =~= hi) by {
        assert(t[2] == s[at + 2] && t[3] == s[at + 3]);
    }
    law_le2_round_trip(s, at, (x % 0x1_0000) as u16);
    law_le2_round_trip(s, at + 2, (x / 0x1_0000) as u16);
}

/// Reading the bytes of a number gives the number, wherever they stand.
pub proof fn law_le8_round_trip(s: Seq<u8>, at: int, x: u64)
    requires
        0 <= at,
        at + 8 <= s.len(),
        s.subrange(at, at + 8) == le8(x),
    ensures
        read8(s, at) == x,
{
    reveal(le8);
    reveal(read8);
    let t = s.subrange(at, at + 8);
    let lo = le4((x % 0x1_0000_0000) as u32);
    let hi = le4((x / 0x1_0000_0000) as u32);
    assert(s.subrange(at, at + 4) =~= lo) by {
        assert forall|i: int| 0 <= i < 4 implies s[at + i] == lo[i] by {
            assert(t[i] == s[at + i]);
        }
    }
    assert(s.subrange(at + 4, at + 8) =~= hi) by {
        assert forall|i: int| 0 <= i < 4 implies s[at + 4 + i] == hi[i] by {
            assert(t[4 + i] == s[at + 4 + i]);
        }
    }
    law_le4_round_trip(s, at, (x % 0x1_0000_0000) as u32);
    law_le4_round_trip(s, at + 4, (x / 0x1_0000_0000) as u32);
}

/// Numbers are written with their lowest byte first.
pub proof fn law_little_endian(x: u16, y: u32, z: u64)
    ensures
        le2(x).len() == 2,
        le2(x)[0] + 256 * le2(x)[1] == x,
        le4(y).len() == 4,
        le4(y)[0] + 256 * le4(y)[1] + 0x1_0000 * le4(y)[2] + 0x100_0000 * le4(y)[3] == y,
        le8(z).len() == 8,
        le8(z)[0] + 256 * le8(z)[1] + 0x1_0000 * le8(z)[2] + 0x100_0000 * le8(z)[3] + 0x1_0000_0000
            * (le8(z)[4] + 256 * le8(z)[5] + 0x1_0000 * le8(z)[6] + 0x100_0000 * le8(z)[7]) == z,
{
    reveal(le8);
}

/// The lowest byte is read first.
pub proof fn law_little_endian_reads(s: Seq<u8>, at: int)
    requires
        0 <= at,
        at + 8 <= s.len(),
    ensures
        read2(s, at) == s[at] + 256 * s[at + 1],
        read4(s, at) == s[at] + 256 * s[at + 1] + 0x1_0000 * s[at + 2] + 0x100_0000 * s[at + 3],
        read8(s, at) == s[at] + 256 * s[at + 1] + 0x1_0000 * s[at + 2] + 0x100_0000 * s[at + 3]
            + 0x1_0000_0000 * (s[at + 4] + 256 * s[at + 5] + 0x1_0000 * s[at + 6] + 0x100_0000
            * s[at + 7]),
{
    reveal(read8);
}

} // verus!
