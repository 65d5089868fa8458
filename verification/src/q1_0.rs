//! Q1_0, one bit per weight: a group of 128 weights is an `f16` scale and 128
//! sign bits, and Q8_1, the activation format it is multiplied with.
//!
//! Layout of a Q1_0 group, 18 bytes: bytes 0 and 1 hold the scale, bytes 2 to 17
//! hold the bits, the lowest bit of a byte first. A set bit stands for the scale,
//! a clear bit for its negative.
use vstd::arithmetic::power::pow;
use vstd::prelude::*;

use crate::blocks::{from_byte, push_bytes, to_byte};
#[allow(unused_imports)]
use crate::blocks::{byte_of, bytes_of, codes_of, concat, law_concat_at, lemma_concat_push, signed};
use crate::bytes::{get_le2, push_le2};
#[allow(unused_imports)]
use crate::bytes::{law_le2_round_trip, le2, read2};
use crate::ieee::{f16_to_f32, f32_not_negative, f32_to_f16};
#[allow(unused_imports)]
use crate::ieee::{is_nan32, law_half_round_trip, order_key, truncate16, widen};
use crate::pack::{pack, unpack, Width};
#[allow(unused_imports)]
use crate::pack::{
    all_below, clamped, law_bit_position, law_pack_round_trip, law_unpack_round_trip,
    lemma_packed_len, lemma_unpacked_len, packed, unpacked,
};

verus! {

/// Weights in a Q1_0 group.
pub const QK1_0: usize = 128;

/// Bytes of a Q1_0 group.
pub const BLOCK_BYTES_Q1_0: usize = 18;

/// Activations in a Q8_1 block.
pub const QK8_1: usize = 32;

/// Bytes of a Q8_1 block.
pub const BLOCK_BYTES_Q8_1: usize = 36;

/// The sign bit of a weight: 1 where the weight is at least zero, so for both
/// zeros, and 0 where it is negative or no number.
pub open spec fn sign_bit(w: u32) -> u8 {
    if !is_nan32(w) && order_key(w) >= 0 {
        1
    } else {
        0
    }
}

/// The sign bits of weights.
pub open spec fn sign_bits(w: Seq<u32>) -> Seq<u8> {
    Seq::new(w.len(), |j: int| sign_bit(w[j]))
}

/// The bytes of one group with the scale `d`.
pub open spec fn q1_block(w: Seq<u32>, d: u32) -> Seq<u8> {
    le2(truncate16(d)) + packed(sign_bits(w), Width::One)
}

/// An `f32` with the other sign.
pub open spec fn negated(b: u32) -> u32 {
    if b < 0x8000_0000 {
        (b + 0x8000_0000) as u32
    } else {
        (b - 0x8000_0000) as u32
    }
}

/// The bit of weight `j` of a group.
pub open spec fn bit_of(block: Seq<u8>, j: int) -> u8 {
    unpacked(block.subrange(2, 18), Width::One)[j]
}

/// The weights that a group stands for.
pub open spec fn q1_values(block: Seq<u8>) -> Seq<u32> {
    let d = widen(read2(block, 0));
    Seq::new(
        128,
        |j: int|
            if bit_of(block, j) == 1 {
                d
            } else {
                negated(d)
            },
    )
}

proof fn lemma_signs_fit(w: Seq<u32>)
    ensures
        clamped(sign_bits(w), 1) == sign_bits(w),
        all_below(sign_bits(w), 2),
{
    assert(clamped(sign_bits(w), 1) =~= sign_bits(w));
}

/// Lays out one group of 128 weights with the scale `d`, which is the mean of
/// their magnitudes.
pub fn quantize_block(w: &[u32], d: u32) -> (out: Vec<u8>)
    requires
        w@.len() == 128,
    ensures
        out@ == q1_block(w@, d),
        out@.len() == 18,
{
    let mut bits: Vec<u8> = Vec::new();
    let mut j: usize = 0;
    while j < 128
        invariant
            j <= 128,
            w@.len() == 128,
            bits@ =~= sign_bits(w@).take(j as int),
        decreases 128 - j,
    {
        bits.push(
            if f32_not_negative(w[j]) {
                1
            } else {
                0
            },
        );
        assert(sign_bits(w@).take(j + 1) =~= sign_bits(w@).take(j as int).push(
            sign_bit(w@[j as int]),
        ));
        j = j + 1;
    }
    assert(sign_bits(w@).take(128) =~= sign_bits(w@));
    let mut out: Vec<u8> = Vec::new();
    push_le2(&mut out, f32_to_f16(d));
    let data = pack(bits.as_slice(), Width::One);
    push_bytes(&mut out, data.as_slice());
    proof {
        lemma_signs_fit(w@);
        lemma_packed_len(sign_bits(w@), Width::One);
        assert(out@ =~= q1_block(w@, d));
    }
    out
}

fn negate(b: u32) -> (r: u32)
    ensures
        r == negated(b),
{
    if b < 0x8000_0000 {
        b + 0x8000_0000
    } else {
        b - 0x8000_0000
    }
}

/// Appends the weights of the group at `at`.
fn push_values(out: &mut Vec<u32>, data: &[u8], at: usize)
    requires
        at + 18 <= data@.len(),
    ensures
        final(out)@ == old(out)@ + q1_values(data@.subrange(at as int, at + 18)),
{
    let n: usize = data.len();
    let ghost block = data@.subrange(at as int, at + 18);
    let d: u32 = f16_to_f32(get_le2(data, at));
    assert(d == widen(read2(block, 0)));
    let e: u32 = negate(d);
    let mut payload: Vec<u8> = Vec::new();
    let mut i: usize = 0;
    while i < 16
        invariant
            i <= 16,
            n == data@.len(),
            at + 18 <= n,
            block == data@.subrange(at as int, at + 18),
            payload@ =~= block.subrange(2, 2 + i),
        decreases 16 - i,
    {
        payload.push(data[at + 2 + i]);
        assert(block.subrange(2, 2 + (i + 1)) =~= block.subrange(2, 2 + i).push(block[2 + i]));
        i = i + 1;
    }
    let bits = unpack(payload.as_slice(), Width::One);
    proof {
        lemma_unpacked_len(payload@, Width::One);
        assert(bits@.len() == 128);
    }
    let ghost want = q1_values(block);
    let mut j: usize = 0;
    while j < 128
        invariant
            j <= 128,
            bits@.len() == 128,
            bits@ == unpacked(block.subrange(2, 18), Width::One),
            d == widen(read2(block, 0)),
            e == negated(d),
            want == q1_values(block),
            out@ =~= old(out)@ + want.take(j as int),
        decreases 128 - j,
    {
        out.push(
            if bits[j] == 1 {
                d
            } else {
                e
            },
        );
        assert(want.take(j + 1) =~= want.take(j as int).push(want[j as int]));
        j = j + 1;
    }
    assert(want.take(128) =~= want);
}

/// Reads one group.
pub fn dequantize_block(block: &[u8]) -> (out: Vec<u32>)
    requires
        block@.len() == 18,
    ensures
        out@ == q1_values(block@),
{
    let mut out: Vec<u32> = Vec::new();
    push_values(&mut out, block, 0);
    assert(block@.subrange(0, 18) =~= block@);
    out
}

/// The groups of a row.
pub open spec fn q1_groups(w: Seq<u32>, scales: Seq<u32>) -> Seq<Seq<u8>> {
    Seq::new(scales.len(), |b: int| q1_block(codes_of(w, b, 128), scales[b]))
}

/// Lays out a row whose length is a multiple of 128, given the scale of each
/// group.
pub fn quantize_row(w: &[u32], scales: &[u32]) -> (out: Vec<u8>)
    requires
        w@.len() == 128 * scales@.len(),
    ensures
        out@ == concat(q1_groups(w@, scales@)),
{
    let n: usize = scales.len();
    let mut out: Vec<u8> = Vec::new();
    let ghost all = q1_groups(w@, scales@);
    assert(all.take(0) =~= Seq::empty());
    let mut b: usize = 0;
    while b < n
        invariant
            b <= n,
            n == scales@.len(),
            w@.len() == 128 * n,
            all == q1_groups(w@, scales@),
            out@ == concat(all.take(b as int)),
        decreases n - b,
    {
        let total: usize = w.len();
        let ghost mine = codes_of(w@, b as int, 128);
        let mut group: Vec<u32> = Vec::new();
        let mut i: usize = 0;
        while i < 128
            invariant
                i <= 128,
                b < n,
                total == w@.len(),
                total == 128 * n,
                mine == codes_of(w@, b as int, 128),
                group@ =~= mine.take(i as int),
            decreases 128 - i,
        {
            group.push(w[128 * b + i]);
            assert(mine.take(i + 1) =~= mine.take(i as int).push(mine[i as int]));
            i = i + 1;
        }
        assert(group@ =~= mine);
        let block = quantize_block(group.as_slice(), scales[b]);
        push_bytes(&mut out, block.as_slice());
        proof {
            assert(all.take(b + 1) =~= all.take(b as int).push(all[b as int]));
            lemma_concat_push(all.take(b as int), all[b as int]);
        }
        b = b + 1;
    }
    assert(all.take(n as int) =~= all);
    out
}

/// Reads `n` weights, a multiple of 128, out of contiguous groups.
pub fn dequantize_row(data: &[u8], n: usize) -> (out: Vec<u32>)
    requires
        n % 128 == 0,
        data@.len() >= n / 128 * 18,
    ensures
        out@.len() == n,
        forall|j: int|
            0 <= j < n ==> #[trigger] out@[j] == q1_values(
                data@.subrange(j / 128 * 18, j / 128 * 18 + 18),
            )[j % 128],
{
    let count: usize = n / 128;
    let total: usize = data.len();
    let mut out: Vec<u32> = Vec::new();
    let mut b: usize = 0;
    while b < count
        invariant
            b <= count,
            total == data@.len(),
            total >= count * 18,
            out@.len() == b * 128,
            forall|j: int|
                0 <= j < b * 128 ==> #[trigger] out@[j] == q1_values(
                    data@.subrange(j / 128 * 18, j / 128 * 18 + 18),
                )[j % 128],
        decreases count - b,
    {
        let ghost before = out@;
        push_values(&mut out, data, b * 18);
        assert forall|j: int| 0 <= j < (b + 1) * 128 implies #[trigger] out@[j] == q1_values(
            data@.subrange(j / 128 * 18, j / 128 * 18 + 18),
        )[j % 128] by {
            if j < b * 128 {
                assert(out@[j] == before[j]);
            } else {
                assert(j / 128 == b && j % 128 == j - b * 128);
            }
        }
        b = b + 1;
    }
    out
}

/// The bit of weight `j` is bit `j % 8` of byte `2 + j / 8`, the lowest bit first.
pub proof fn law_q1_bit_position(block: Seq<u8>, j: int)
    requires
        block.len() == 18,
        0 <= j < 128,
    ensures
        bit_of(block, j) == block[2 + j / 8] as int / pow(2, (j % 8) as nat) % 2,
{
    let payload = block.subrange(2, 18);
    law_bit_position(payload, j);
    assert(payload[j / 8] == block[2 + j / 8]);
}

/// Reading a group back gives each weight the group's scale, rounded to an
/// `f16`, with the sign of the weight.
pub proof fn law_q1_reads_back(w: Seq<u32>, d: u32, j: int)
    requires
        w.len() == 128,
        0 <= j < 128,
    ensures
        q1_values(q1_block(w, d))[j] == (if sign_bit(w[j]) == 1 {
            widen(truncate16(d))
        } else {
            negated(widen(truncate16(d)))
        }),
{
    let block = q1_block(w, d);
    let bits = sign_bits(w);
    lemma_signs_fit(w);
    lemma_packed_len(bits, Width::One);
    assert(block.subrange(2, 18) =~= packed(bits, Width::One));
    law_pack_round_trip(bits, Width::One);
    assert(block.subrange(0, 2) =~= le2(truncate16(d)));
    law_le2_round_trip(block, 0, truncate16(d));
}

/// Quantizing the weights of a group once more, with the group's own scale,
/// gives the same bytes, provided that the scale is a number above zero.
pub proof fn law_q1_is_idempotent(block: Seq<u8>)
    requires
        block.len() == 18,
        0 < read2(block, 0) <= 0x7c00,
    ensures
        q1_block(q1_values(block), widen(read2(block, 0))) == block,
{
    let h = read2(block, 0);
    let d = widen(h);
    let w = q1_values(block);
    law_half_round_trip(h);
    assert(truncate16(d) == h);
    assert(le2(h) =~= block.subrange(0, 2));
    let payload = block.subrange(2, 18);
    let bits = unpacked(payload, Width::One);
    lemma_unpacked_len(payload, Width::One);
    law_unpack_round_trip(payload, Width::One);
    lemma_positive_half(h);
    assert(sign_bits(w) =~= bits) by {
        assert forall|j: int| 0 <= j < 128 implies sign_bits(w)[j] == #[trigger] bits[j] by {
            assert(bits[j] < 2);
        }
    }
    assert(block =~= le2(h) + payload);
}

proof fn lemma_positive_half(h: u16)
    requires
        0 < h <= 0x7c00,
    ensures
        sign_bit(widen(h)) == 1,
        sign_bit(negated(widen(h))) == 0,
{
    let d = widen(h);
    assert(0 < d <= 0x7f80_0000) by {
        if h < 0x400 {
            assert(crate::ieee::exp16(h) == 0);
        }
    }
}

/// Lays out a Q8_1 block: an `f16` scale, an `f16` sum and 32 signed bytes.
pub fn quantize_block_q8_1(d: u32, s: u32, qs: &[i8]) -> (out: Vec<u8>)
    requires
        qs@.len() == 32,
    ensures
        out@ == le2(truncate16(d)) + le2(truncate16(s)) + bytes_of(qs@),
        out@.len() == 36,
{
    let mut out: Vec<u8> = Vec::new();
    push_le2(&mut out, f32_to_f16(d));
    push_le2(&mut out, f32_to_f16(s));
    let ghost head = out@;
    let mut i: usize = 0;
    while i < 32
        invariant
            i <= 32,
            qs@.len() == 32,
            out@ =~= head + bytes_of(qs@).take(i as int),
        decreases 32 - i,
    {
        out.push(to_byte(qs[i]));
        assert(bytes_of(qs@).take(i + 1) =~= bytes_of(qs@).take(i as int).push(
            byte_of(qs@[i as int]),
        ));
        i = i + 1;
    }
    assert(bytes_of(qs@).take(32) =~= bytes_of(qs@));
    out
}

/// The sum of signed bytes.
pub open spec fn total(qs: Seq<i8>) -> int
    decreases qs.len(),
{
    if qs.len() == 0 {
        0
    } else {
        total(qs.drop_last()) + qs.last()
    }
}

/// The sum of the quants of a block.
pub fn sum_quants(qs: &[i8]) -> (r: i32)
    requires
        qs@.len() <= 0x100_0000,
    ensures
        r == total(qs@),
{
    let n: usize = qs.len();
    let mut r: i32 = 0;
    let mut i: usize = 0;
    while i < n
        invariant
            i <= n,
            n == qs@.len(),
            n <= 0x100_0000,
            r == total(qs@.take(i as int)),
            -128 * i <= r <= 127 * i,
        decreases n - i,
    {
        assert(qs@.take(i + 1).drop_last() =~= qs@.take(i as int));
        r = r + qs[i] as i32;
        i = i + 1;
    }
    assert(qs@.take(n as int) =~= qs@);
    r
}

/// Plus or minus one, by the bit of weight `j`.
pub open spec fn unit_of(block: Seq<u8>, j: int) -> int {
    if bit_of(block, j) == 1 {
        1
    } else {
        -1
    }
}

/// The sum over the first `n` weights of a chunk of 32, each times its
/// activation.
pub open spec fn chunk_sum(weights: Seq<u8>, acts: Seq<u8>, chunk: int, n: int) -> int
    decreases n,
{
    if n <= 0 {
        0
    } else {
        chunk_sum(weights, acts, chunk, n - 1) + unit_of(weights, chunk * 32 + n - 1) * signed(
            acts[chunk * 36 + 4 + n - 1],
        )
    }
}

/// The parts of the dot product of a weight group with four activation blocks:
/// the product is the sum over the chunks of
/// `weight_scale * act_scales[c] * sums[c]`.
#[derive(Debug)]
pub struct BlockDot {
    pub weight_scale: u32,
    pub act_scales: Vec<u32>,
    pub sums: Vec<i32>,
}

/// Multiplies one Q1_0 group with four Q8_1 blocks. The stored sums of the
/// activation blocks are not used: plus and minus the scale cancel any bias.
pub fn vec_dot_block(weight_block: &[u8], act_blocks: &[u8]) -> (r: BlockDot)
    requires
        weight_block@.len() == 18,
        act_blocks@.len() == 144,
    ensures
        r.weight_scale == widen(read2(weight_block@, 0)),
        r.act_scales@.len() == 4,
        r.sums@.len() == 4,
        forall|c: int|
            0 <= c < 4 ==> #[trigger] r.act_scales@[c] == widen(read2(act_blocks@, c * 36)),
        forall|c: int|
            0 <= c < 4 ==> #[trigger] r.sums@[c] == chunk_sum(weight_block@, act_blocks@, c, 32),
{
    let weight_scale: u32 = f16_to_f32(get_le2(weight_block, 0));
    let ghost payload = weight_block@.subrange(2, 18);
    let mut bytes: Vec<u8> = Vec::new();
    let mut i: usize = 0;
    while i < 16
        invariant
            i <= 16,
            weight_block@.len() == 18,
            payload == weight_block@.subrange(2, 18),
            bytes@ =~= payload.take(i as int),
        decreases 16 - i,
    {
        bytes.push(weight_block[2 + i]);
        assert(payload.take(i + 1) =~= payload.take(i as int).push(payload[i as int]));
        i = i + 1;
    }
    assert(bytes@ =~= payload);
    let bits = unpack(bytes.as_slice(), Width::One);
    proof {
        lemma_unpacked_len(payload, Width::One);
        assert(bits@.len() == 128);
    }
    let mut act_scales: Vec<u32> = Vec::new();
    let mut sums: Vec<i32> = Vec::new();
    let mut c: usize = 0;
    while c < 4
        invariant
            c <= 4,
            weight_block@.len() == 18,
            act_blocks@.len() == 144,
            bits@.len() == 128,
            bits@ == unpacked(weight_block@.subrange(2, 18), Width::One),
            act_scales@.len() == c,
            sums@.len() == c,
            forall|k: int|
                0 <= k < c ==> #[trigger] act_scales@[k] == widen(read2(act_blocks@, k * 36)),
            forall|k: int|
                0 <= k < c ==> #[trigger] sums@[k] == chunk_sum(
                    weight_block@,
                    act_blocks@,
                    k,
                    32,
                ),
        decreases 4 - c,
    {
        act_scales.push(f16_to_f32(get_le2(act_blocks, c * 36)));
        let mut sum: i32 = 0;
        let mut j: usize = 0;
        while j < 32
            invariant
                j <= 32,
                c < 4,
                weight_block@.len() == 18,
                act_blocks@.len() == 144,
                bits@.len() == 128,
                bits@ == unpacked(weight_block@.subrange(2, 18), Width::One),
                sum == chunk_sum(weight_block@, act_blocks@, c as int, j as int),
                -128 * j <= sum <= 128 * j,
            decreases 32 - j,
        {
            let a: i32 = from_byte(act_blocks[c * 36 + 4 + j]) as i32;
            assert(a == signed(act_blocks@[c * 36 + 4 + j]));
            proof {
                let u = unit_of(weight_block@, c * 32 + j);
                let v = a as int;
                assert(bits@[c * 32 + j] == bit_of(weight_block@, c * 32 + j));
                assert(u * v == (if u == 1 {
                    v
                } else {
                    -v
                })) by (nonlinear_arith)
                    requires
                        u == 1 || u == -1,
                ;
                assert(chunk_sum(weight_block@, act_blocks@, c as int, j + 1) == sum + u * v);
            }
            if bits[c * 32 + j] == 1 {
                sum = sum + a;
            } else {
                sum = sum - a;
            }
            j = j + 1;
        }
        sums.push(sum);
        c = c + 1;
    }
    BlockDot { weight_scale, act_scales, sums }
}

// The bytes of the groups.

/// The bytes of one-bit groups of 18: the scale of a group, cut to an `f16`, and a
/// bit for each of 128 weights, the lowest bit first, set where the weight is not
/// below zero; minus zero is not, and what is no number has no bit.
pub proof fn law_q1_layout(w: Seq<u32>, scales: Seq<u32>, b: int, j: int)
    requires
        w.len() == 128 * scales.len(),
        0 <= b < scales.len(),
        0 <= j < 128,
    ensures
        ({
            let out = concat(q1_groups(w, scales));
            let x = w[b * 128 + j];
            &&& out.len() == scales.len() * 18
            &&& read2(out, b * 18) == truncate16(scales[b])
            &&& out[b * 18 + 2 + j / 8] as int / pow(2, (j % 8) as nat) % 2 == (if x <= 0x7f80_0000
                || x == 0x8000_0000 {
                1int
            } else {
                0
            })
        }),
{
    let all = q1_groups(w, scales);
    let out = concat(all);
    assert forall|x: int| 0 <= x < all.len() implies (#[trigger] all[x]).len() == 18 by {
        lemma_signs_fit(codes_of(w, x, 128));
        lemma_packed_len(sign_bits(codes_of(w, x, 128)), Width::One);
    }
    law_concat_at(all, 18, b);
    let block = all[b];
    assert(block =~= out.subrange(b * 18, b * 18 + 18));
    let mine = codes_of(w, b, 128);
    let bits = sign_bits(mine);
    lemma_signs_fit(mine);
    lemma_packed_len(bits, Width::One);
    let payload = block.subrange(2, 18);
    assert(payload =~= packed(bits, Width::One));
    law_pack_round_trip(bits, Width::One);
    law_bit_position(payload, j);
    assert(payload[j / 8] == out[b * 18 + 2 + j / 8]);
    assert(block.subrange(0, 2) =~= le2(truncate16(scales[b])));
    law_le2_round_trip(block, 0, truncate16(scales[b]));
    assert(read2(out, b * 18) == read2(block, 0));
    assert(mine[j] == w[b * 128 + j]);
}

/// The weight of a set bit is the scale of its group, of any other bit the scale
/// with its sign turned.
pub proof fn law_q1_values_by_bits(block: Seq<u8>, j: int)
    requires
        block.len() == 18,
        0 <= j < 128,
    ensures
        ({
            let d = widen(read2(block, 0));
            let bit = block[2 + j / 8] as int / pow(2, (j % 8) as nat) % 2;
            &&& q1_values(block).len() == 128
            &&& bit == 1 ==> q1_values(block)[j] == d
            &&& bit != 1 ==> q1_values(block)[j] == (d + 0x8000_0000) % 0x1_0000_0000
        }),
{
    law_q1_bit_position(block, j);
}

/// The sum of a chunk of 32 adds each activation of the chunk where the bit of its
/// weight is set, and takes it off where it is not.
pub proof fn law_chunk_sums_add_signed(weights: Seq<u8>, acts: Seq<u8>, chunk: int, n: int)
    requires
        weights.len() == 18,
        acts.len() == 144,
        0 <= chunk < 4,
        0 <= n < 32,
    ensures
        ({
            let j = chunk * 32 + n;
            let bit = weights[2 + j / 8] as int / pow(2, (j % 8) as nat) % 2;
            let act = signed(acts[chunk * 36 + 4 + n]);
            &&& chunk_sum(weights, acts, chunk, 0) == 0
            &&& bit == 1 ==> chunk_sum(weights, acts, chunk, n + 1) == chunk_sum(
                weights,
                acts,
                chunk,
                n,
            ) + act
            &&& bit != 1 ==> chunk_sum(weights, acts, chunk, n + 1) == chunk_sum(
                weights,
                acts,
                chunk,
                n,
            ) - act
        }),
{
    law_q1_bit_position(weights, chunk * 32 + n);
    let act = signed(acts[chunk * 36 + 4 + n]);
    assert(1 * act == act && -1 * act == -act);
}

/// A sum of numbers is the sum of its parts, whatever they are.
pub proof fn law_totals_add_up(a: Seq<i8>, b: Seq<i8>, q: i8)
    ensures
        total(a + b) == total(a) + total(b),
        total(seq![q]) == q,
    decreases b.len(),
{
    let one = seq![q];
    assert(one.drop_last() =~= Seq::<i8>::empty());
    assert(total(one.drop_last()) == 0);
    if b.len() == 0 {
        assert(a + b =~= a);
    } else {
        assert((a + b).drop_last() =~= a + b.drop_last());
        law_totals_add_up(a, b.drop_last(), q);
    }
}

/// The sizes of the groups: 128 one-bit weights in 18 bytes, and 32 activations in 36.
pub proof fn law_group_sizes()
    ensures
        QK1_0 == 128,
        BLOCK_BYTES_Q1_0 == 18,
        QK8_1 == 32,
        BLOCK_BYTES_Q8_1 == 36,
{
}

} // verus!
