//! Four-bit formats with `f16` headers: Q4_F16_G64 and the GGML-compatible Q4_K.
use vstd::prelude::*;

#[allow(unused_imports)]
use crate::blocks::{codes_of, concat, law_concat_at, lemma_concat_push};
use crate::bytes::push_le2;
#[allow(unused_imports)]
use crate::bytes::{law_le2_round_trip, le2, read2};
use crate::ieee::f32_to_f16;
#[allow(unused_imports)]
use crate::ieee::truncate16;

verus! {

/// A code brought down to the largest four-bit code.
pub open spec fn nibble(code: u8) -> int {
    if code > 15 {
        15
    } else {
        code as int
    }
}

/// Nibbles whose low half is element `i` of a run of 64 codes and whose high
/// half is element `32 + i`, run behind run.
pub open spec fn split_nibbles(codes: Seq<u8>) -> Seq<u8> {
    Seq::new(
        codes.len() / 2,
        |i: int|
            (nibble(codes[i / 32 * 64 + i % 32]) + 16 * nibble(
                codes[i / 32 * 64 + 32 + i % 32],
            )) as u8,
    )
}

/// Code `j` of split nibbles.
pub open spec fn split_code(bytes: Seq<u8>, j: int) -> int {
    let byte = bytes[j / 64 * 32 + j % 32];
    if j % 64 < 32 {
        byte as int % 16
    } else {
        byte as int / 16
    }
}

/// Split nibbles give back every code.
pub proof fn law_split_nibbles_round_trip(codes: Seq<u8>, j: int)
    requires
        codes.len() % 64 == 0,
        0 <= j < codes.len(),
    ensures
        split_code(split_nibbles(codes), j) == nibble(codes[j]),
{
    let i = j / 64 * 32 + j % 32;
    assert(i / 32 == j / 64 && i % 32 == j % 32);
}

fn low_nibble(code: u8) -> (r: u8)
    ensures
        r == nibble(code),
{
    if code > 15 {
        15
    } else {
        code
    }
}

/// Appends the split nibbles of the `len` codes at `at`.
fn push_split(out: &mut Vec<u8>, codes: &[u8], at: usize, len: usize)
    requires
        at + len <= codes@.len(),
        len % 64 == 0,
    ensures
        final(out)@ == old(out)@ + split_nibbles(codes@.subrange(at as int, at + len)),
{
    let total: usize = codes.len();
    let ghost part = codes@.subrange(at as int, at + len);
    let half: usize = len / 2;
    let mut i: usize = 0;
    while i < half
        invariant
            i <= half,
            half == len / 2,
            len % 64 == 0,
            total == codes@.len(),
            at + len <= total,
            part == codes@.subrange(at as int, at + len),
            out@ =~= old(out)@ + split_nibbles(part).take(i as int),
        decreases half - i,
    {
        let run: usize = i / 32 * 64;
        let lo: u8 = low_nibble(codes[at + run + i % 32]);
        let hi: u8 = low_nibble(codes[at + run + 32 + i % 32]);
        out.push(lo + 16 * hi);
        proof {
            assert(part[run + i % 32] == codes@[at + run + i % 32]);
            assert(part[run + 32 + i % 32] == codes@[at + run + 32 + i % 32]);
            assert(split_nibbles(part).take(i + 1) =~= split_nibbles(part).take(i as int).push(
                split_nibbles(part)[i as int],
            ));
        }
        i = i + 1;
    }
    assert(split_nibbles(part).take(half as int) =~= split_nibbles(part));
}

/// The parameters of a group of 64: a code `q` stands for `scale * q + min`.
#[derive(Clone, Copy, Debug, PartialEq, Eq, Structural)]
pub struct HalfAffine {
    pub scale: u32,
    pub min: u32,
}

/// The bytes of one group of Q4_F16_G64.
pub open spec fn q4f16_block(params: HalfAffine, codes: Seq<u8>) -> Seq<u8> {
    le2(truncate16(params.scale)) + le2(truncate16(params.min)) + split_nibbles(codes)
}

/// The groups of a tensor in Q4_F16_G64.
pub open spec fn q4f16_groups(params: Seq<HalfAffine>, codes: Seq<u8>) -> Seq<Seq<u8>> {
    Seq::new(params.len(), |b: int| q4f16_block(params[b], codes_of(codes, b, 64)))
}

/// Q4_F16_G64: 64 four-bit codes in 36 bytes, an `f16` scale, an `f16` minimum
/// and 32 bytes that pair element `i` with element `32 + i`.
pub fn quantize_q4f16_g64(params: &[HalfAffine], codes: &[u8]) -> (out: Vec<u8>)
    requires
        codes@.len() == params@.len() * 64,
    ensures
        out@ == concat(q4f16_groups(params@, codes@)),
{
    let n: usize = params.len();
    let mut out: Vec<u8> = Vec::new();
    let mut b: usize = 0;
    let ghost all = q4f16_groups(params@, codes@);
    assert(all.take(0) =~= Seq::empty());
    while b < n
        invariant
            b <= n,
            n == params@.len(),
            codes@.len() == n * 64,
            all == q4f16_groups(params@, codes@),
            out@ == concat(all.take(b as int)),
        decreases n - b,
    {
        let total: usize = codes.len();
        push_le2(&mut out, f32_to_f16(params[b].scale));
        push_le2(&mut out, f32_to_f16(params[b].min));
        push_split(&mut out, codes, b * 64, 64);
        proof {
            assert(all.take(b + 1) =~= all.take(b as int).push(all[b as int]));
            lemma_concat_push(all.take(b as int), all[b as int]);
            assert(out@ =~= concat(all.take(b as int)) + all[b as int]);
        }
        b = b + 1;
    }
    assert(all.take(n as int) =~= all);
    out
}

/// The header of a super-block of Q4_K: two `f32` factors, and for each of the
/// eight sub-blocks of 32 a six-bit scale and a six-bit minimum.
#[derive(Debug)]
pub struct SuperBlock {
    pub d: u32,
    pub dmin: u32,
    pub scales: Vec<u8>,
    pub mins: Vec<u8>,
}

impl SuperBlock {
    /// There are eight scales and eight minima, each of six bits.
    pub open spec fn valid(&self) -> bool {
        &&& self.scales@.len() == 8
        &&& self.mins@.len() == 8
        &&& forall|i: int| 0 <= i < 8 ==> #[trigger] self.scales@[i] < 64
        &&& forall|i: int| 0 <= i < 8 ==> #[trigger] self.mins@[i] < 64
    }
}

/// The twelve bytes that hold eight scales and eight minima of six bits: the
/// first four of each stand in bytes 0 to 7 under the top two bits of the last
/// four, whose low four bits share bytes 8 to 11.
pub open spec fn packed_scales(scales: Seq<u8>, mins: Seq<u8>) -> Seq<u8> {
    Seq::new(
        12,
        |i: int|
            (if i < 4 {
                scales[i] % 64 + scales[4 + i] / 16 * 64
            } else if i < 8 {
                mins[i - 4] % 64 + mins[i] / 16 * 64
            } else {
                scales[i - 4] % 16 + mins[i - 4] % 16 * 16
            }) as u8,
    )
}

/// The scale of sub-block `j`, as GGML reads it.
pub open spec fn ggml_scale(q: Seq<u8>, j: int) -> int {
    if j < 4 {
        q[j] as int % 64
    } else {
        q[j + 4] as int % 16 + q[j - 4] as int / 64 * 16
    }
}

/// The minimum of sub-block `j`, as GGML reads it.
pub open spec fn ggml_min(q: Seq<u8>, j: int) -> int {
    if j < 4 {
        q[j + 4] as int % 64
    } else {
        q[j + 4] as int / 16 + q[j] as int / 64 * 16
    }
}

proof fn lemma_two_bits_above(a: int, b: int)
    requires
        0 <= a < 64,
        0 <= b < 64,
    ensures
        0 <= a % 64 + b / 16 * 64 < 256,
        (a % 64 + b / 16 * 64) % 64 == a,
        (a % 64 + b / 16 * 64) / 64 == b / 16,
        b % 16 + b / 16 * 16 == b,
{
}

proof fn lemma_nibbles(a: int, b: int)
    requires
        0 <= a < 16,
        0 <= b < 16,
    ensures
        0 <= a + b * 16 < 256,
        (a + b * 16) % 16 == a,
        (a + b * 16) / 16 == b,
{
}

/// GGML reads every scale and every minimum back.
pub proof fn law_scales_read_back(scales: Seq<u8>, mins: Seq<u8>, j: int)
    requires
        scales.len() == 8,
        mins.len() == 8,
        forall|i: int| 0 <= i < 8 ==> #[trigger] scales[i] < 64,
        forall|i: int| 0 <= i < 8 ==> #[trigger] mins[i] < 64,
        0 <= j < 8,
    ensures
        ggml_scale(packed_scales(scales, mins), j) == scales[j],
        ggml_min(packed_scales(scales, mins), j) == mins[j],
{
    let q = packed_scales(scales, mins);
    let i = if j < 4 {
        j
    } else {
        j - 4
    };
    let (s, t, m, n) = (scales[i], scales[i + 4], mins[i], mins[i + 4]);
    lemma_two_bits_above(s as int, t as int);
    lemma_two_bits_above(m as int, n as int);
    lemma_nibbles(t as int % 16, n as int % 16);
    assert(q[i] == s as int % 64 + t as int / 16 * 64);
    assert(q[i + 4] == m as int % 64 + n as int / 16 * 64);
    assert(q[i + 8] == t as int % 16 + n as int % 16 * 16);
}

/// The bytes of one super-block of Q4_K.
pub open spec fn q4k_block(head: SuperBlock, codes: Seq<u8>) -> Seq<u8> {
    le2(truncate16(head.d)) + le2(truncate16(head.dmin)) + packed_scales(
        head.scales@,
        head.mins@,
    ) + split_nibbles(codes)
}

/// The super-blocks of a tensor in Q4_K.
pub open spec fn q4k_groups(heads: Seq<SuperBlock>, codes: Seq<u8>) -> Seq<Seq<u8>> {
    Seq::new(heads.len(), |b: int| q4k_block(heads[b], codes_of(codes, b, 256)))
}

/// Appends the twelve scale bytes of a super-block.
fn push_scales(out: &mut Vec<u8>, head: &SuperBlock)
    requires
        head.valid(),
    ensures
        final(out)@ == old(out)@ + packed_scales(head.scales@, head.mins@),
{
    let ghost want = packed_scales(head.scales@, head.mins@);
    let mut i: usize = 0;
    while i < 12
        invariant
            i <= 12,
            head.valid(),
            want == packed_scales(head.scales@, head.mins@),
            out@ =~= old(out)@ + want.take(i as int),
        decreases 12 - i,
    {
        let byte: u8 = if i < 4 {
            assert(head.scales@[4 + i] < 64);
            head.scales[i] % 64 + head.scales[4 + i] / 16 * 64
        } else if i < 8 {
            assert(head.mins@[i as int] < 64);
            head.mins[i - 4] % 64 + head.mins[i] / 16 * 64
        } else {
            head.scales[i - 4] % 16 + head.mins[i - 4] % 16 * 16
        };
        out.push(byte);
        assert(want.take(i + 1) =~= want.take(i as int).push(want[i as int]));
        i = i + 1;
    }
    assert(want.take(12) =~= want);
}

/// Q4_K: 256 four-bit codes in 144 bytes, an `f16` factor for the scales, an
/// `f16` factor for the minima, twelve bytes of sub-block scales and minima, and
/// four runs of 32 bytes that pair element `i` of 64 with element `32 + i`.
pub fn quantize_q4k(heads: &[SuperBlock], codes: &[u8]) -> (out: Vec<u8>)
    requires
        codes@.len() == heads@.len() * 256,
        forall|b: int| 0 <= b < heads@.len() ==> (#[trigger] heads@[b]).valid(),
    ensures
        out@ == concat(q4k_groups(heads@, codes@)),
{
    let n: usize = heads.len();
    let mut out: Vec<u8> = Vec::new();
    let mut b: usize = 0;
    let ghost all = q4k_groups(heads@, codes@);
    assert(all.take(0) =~= Seq::empty());
    while b < n
        invariant
            b <= n,
            n == heads@.len(),
            codes@.len() == n * 256,
            forall|i: int| 0 <= i < heads@.len() ==> (#[trigger] heads@[i]).valid(),
            all == q4k_groups(heads@, codes@),
            out@ == concat(all.take(b as int)),
        decreases n - b,
    {
        let total: usize = codes.len();
        let head: &SuperBlock = &heads[b];
        push_le2(&mut out, f32_to_f16(head.d));
        push_le2(&mut out, f32_to_f16(head.dmin));
        push_scales(&mut out, head);
        push_split(&mut out, codes, b * 256, 256);
        proof {
            assert(all.take(b + 1) =~= all.take(b as int).push(all[b as int]));
            lemma_concat_push(all.take(b as int), all[b as int]);
            assert(out@ =~= concat(all.take(b as int)) + all[b as int]);
        }
        b = b + 1;
    }
    assert(all.take(n as int) =~= all);
    out
}

/// A tensor in Q4_F16_G64 can be read back: group `b` stands at 36 times `b`, and
/// gives its scale and its minimum, cut to `f16`, and every code.
pub proof fn law_q4f16_reads_back(params: Seq<HalfAffine>, codes: Seq<u8>, b: int, j: int)
    requires
        codes.len() == params.len() * 64,
        0 <= b < params.len(),
        0 <= j < 64,
    ensures
        ({
            let stream = concat(q4f16_groups(params, codes));
            let block = stream.subrange(b * 36, b * 36 + 36);
            &&& stream.len() == params.len() * 36
            &&& read2(block, 0) == truncate16(params[b].scale)
            &&& read2(block, 2) == truncate16(params[b].min)
            &&& split_code(block.skip(4), j) == nibble(codes[b * 64 + j])
        }),
{
    let all = q4f16_groups(params, codes);
    law_concat_at(all, 36, b);
    let block = all[b];
    let mine = codes_of(codes, b, 64);
    assert(block.subrange(0, 2) =~= le2(truncate16(params[b].scale)));
    assert(block.subrange(2, 4) =~= le2(truncate16(params[b].min)));
    law_le2_round_trip(block, 0, truncate16(params[b].scale));
    law_le2_round_trip(block, 2, truncate16(params[b].min));
    assert(block.skip(4) =~= split_nibbles(mine));
    law_split_nibbles_round_trip(mine, j);
}

/// A tensor in Q4_K can be read back as GGML reads it: super-block `b` stands at 144
/// times `b`, and gives its factors, cut to `f16`, the scale and the minimum of each
/// sub-block, and every code.
pub proof fn law_q4k_reads_back(heads: Seq<SuperBlock>, codes: Seq<u8>, b: int, t: int, j: int)
    requires
        codes.len() == heads.len() * 256,
        forall|i: int| 0 <= i < heads.len() ==> (#[trigger] heads[i]).valid(),
        0 <= b < heads.len(),
        0 <= t < 8,
        0 <= j < 256,
    ensures
        ({
            let stream = concat(q4k_groups(heads, codes));
            let block = stream.subrange(b * 144, b * 144 + 144);
            &&& stream.len() == heads.len() * 144
            &&& read2(block, 0) == truncate16(heads[b].d)
            &&& read2(block, 2) == truncate16(heads[b].dmin)
            &&& ggml_scale(block.subrange(4, 16), t) == heads[b].scales@[t]
            &&& ggml_min(block.subrange(4, 16), t) == heads[b].mins@[t]
            &&& split_code(block.skip(16), j) == nibble(codes[b * 256 + j])
        }),
{
    let all = q4k_groups(heads, codes);
    law_concat_at(all, 144, b);
    let block = all[b];
    let head = heads[b];
    let mine = codes_of(codes, b, 256);
    assert(block.subrange(0, 2) =~= le2(truncate16(head.d)));
    assert(block.subrange(2, 4) =~= le2(truncate16(head.dmin)));
    law_le2_round_trip(block, 0, truncate16(head.d));
    law_le2_round_trip(block, 2, truncate16(head.dmin));
    assert(block.subrange(4, 16) =~= packed_scales(head.scales@, head.mins@));
    law_scales_read_back(head.scales@, head.mins@, t);
    assert(block.skip(16) =~= split_nibbles(mine));
    law_split_nibbles_round_trip(mine, j);
}

// The bytes of the blocks.

/// The bytes of Q4_F16_G64 groups of 36: the scale and the minimum of a group, cut
/// to `f16`, and 32 bytes that each hold two codes, cut to 15: code `j` of the first
/// half in the low bits, the code 32 behind it in the high bits.
pub proof fn law_q4f16_layout(params: Seq<HalfAffine>, codes: Seq<u8>, b: int, j: int)
    requires
        codes.len() == params.len() * 64,
        0 <= b < params.len(),
        0 <= j < 64,
    ensures
        ({
            let out = concat(q4f16_groups(params, codes));
            let byte = out[b * 36 + 4 + j % 32] as int;
            let code = codes[b * 64 + j] as int;
            &&& out.len() == params.len() * 36
            &&& read2(out, b * 36) == truncate16(params[b].scale)
            &&& read2(out, b * 36 + 2) == truncate16(params[b].min)
            &&& (if j < 32 {
                byte % 16
            } else {
                byte / 16
            }) == (if code > 15 {
                15
            } else {
                code
            })
        }),
{
    let out = concat(q4f16_groups(params, codes));
    law_q4f16_reads_back(params, codes, b, j);
    law_concat_at(q4f16_groups(params, codes), 36, b);
    let block = out.subrange(b * 36, b * 36 + 36);
    assert(read2(out, b * 36) == read2(block, 0));
    assert(read2(out, b * 36 + 2) == read2(block, 2));
    assert(j / 64 == 0 && j % 64 == j);
    assert(block.skip(4)[j % 32] == out[b * 36 + 4 + j % 32]);
}

/// The bytes of Q4_K super-blocks of 144: the two factors, cut to `f16`, twelve bytes
/// of six-bit scales and minimums, and 128 bytes that each hold two codes, cut to
/// 15. Of the scales and minimums, the first four take the low six bits of a byte
/// each; the others take four bits of the last four bytes and the two bits that
/// the first eight leave.
pub proof fn law_q4k_layout(heads: Seq<SuperBlock>, codes: Seq<u8>, b: int, t: int, j: int)
    requires
        codes.len() == heads.len() * 256,
        forall|i: int| 0 <= i < heads.len() ==> (#[trigger] heads[i]).valid(),
        0 <= b < heads.len(),
        0 <= t < 4,
        0 <= j < 256,
    ensures
        ({
            let out = concat(q4k_groups(heads, codes));
            let at = b * 144;
            let byte = out[at + 16 + j / 64 * 32 + j % 32] as int;
            let code = codes[b * 256 + j] as int;
            &&& out.len() == heads.len() * 144
            &&& read2(out, at) == truncate16(heads[b].d)
            &&& read2(out, at + 2) == truncate16(heads[b].dmin)
            &&& out[at + 4 + t] as int % 64 == heads[b].scales@[t]
            &&& out[at + 8 + t] as int % 64 == heads[b].mins@[t]
            &&& out[at + 12 + t] as int % 16 + out[at + 4 + t] as int / 64 * 16
                == heads[b].scales@[t + 4]
            &&& out[at + 12 + t] as int / 16 + out[at + 8 + t] as int / 64 * 16
                == heads[b].mins@[t + 4]
            &&& (if j % 64 < 32 {
                byte % 16
            } else {
                byte / 16
            }) == (if code > 15 {
                15
            } else {
                code
            })
        }),
{
    let out = concat(q4k_groups(heads, codes));
    let at = b * 144;
    law_q4k_reads_back(heads, codes, b, t, j);
    law_q4k_reads_back(heads, codes, b, t + 4, j);
    law_concat_at(q4k_groups(heads, codes), 144, b);
    let block = out.subrange(at, at + 144);
    assert(read2(out, at) == read2(block, 0));
    assert(read2(out, at + 2) == read2(block, 2));
    let q = block.subrange(4, 16);
    assert(q[t] == out[at + 4 + t]);
    assert(q[t + 4] == out[at + 8 + t]);
    assert(q[t + 8] == out[at + 12 + t]);
    assert(block.skip(16)[j / 64 * 32 + j % 32] == out[at + 16 + j / 64 * 32 + j % 32]);
}

} // verus!
