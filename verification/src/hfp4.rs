//! HFP4G32: rows of E2M1 codes with a UE8M0 exponent per 32 elements and an
//! `f16` scale per row. An element is `row scale * 2^(exponent - 127) * code`.
use vstd::arithmetic::power2::*;
use vstd::prelude::*;

use crate::blocks::push_bytes;
#[allow(unused_imports)]
use crate::blocks::{codes_of, concat, law_concat_at, lemma_concat_len, lemma_concat_push};
use crate::bytes::{get_le2, push_le2};
#[allow(unused_imports)]
use crate::bytes::{law_le2_round_trip, le2, read2};
use crate::ieee::{f16_to_f32, f32_to_f16};
#[allow(unused_imports)]
use crate::ieee::{
    exp16, exp32, frac32, is_less, law_truncation_is_toward_zero, law_truncation_loses_little,
    law_widening_is_exact, magnitude32, sign32, truncate16, value32, widen,
};
use crate::minifloat::{e2m1_round, e2m1_to_f32, ue8m0_to_scale};
#[allow(unused_imports)]
use crate::minifloat::{
    block_exponent_of, e2m1, e2m1_code, law_block_exponent_is_smallest,
    law_e2m1_moves_by_half_a_step, ue8m0,
};
use crate::pack::{pack, Width};
#[allow(unused_imports)]
use crate::pack::{
    clamped, digits, lemma_packed_len, number, packed, packed_chunk,
};

verus! {

/// One row before it is laid out: the row scale, and for each block of 32 its
/// exponent byte and its elements, divided by the row scale and by the block
/// scale. Floats are bit patterns.
#[derive(Debug)]
pub struct Fp4Row {
    pub scale: u32,
    pub exponents: Vec<u8>,
    pub scaled: Vec<u32>,
}

impl Fp4Row {
    /// The row has 32 elements per exponent.
    pub open spec fn valid(&self) -> bool {
        self.scaled@.len() == 32 * self.exponents@.len()
    }
}

/// The flag byte of a row without rotation.
pub const PLAIN: u8 = 0;

/// The flag byte of a row that was rotated before it was quantized.
pub const ROTATED: u8 = 5;

/// The sixteen header bytes of a row: the `f16` row scale, an unused second
/// scale, the number of blocks, the flags, and zeros.
pub open spec fn row_header(scale: u32, blocks: int, flags: u8) -> Seq<u8> {
    le2(truncate16(scale)) + le2(0) + le2((blocks % 0x1_0000) as u16) + seq![flags, 0u8] + Seq::new(
        8,
        |i: int| 0u8,
    )
}

/// The E2M1 codes of elements.
pub open spec fn codes_for(scaled: Seq<u32>) -> Seq<u8> {
    Seq::new(scaled.len(), |i: int| e2m1_code(scaled[i]))
}

/// The seventeen bytes of one block.
pub open spec fn fp4_block(exponent: u8, scaled: Seq<u32>) -> Seq<u8> {
    seq![exponent] + packed(codes_for(scaled), Width::Four)
}

/// The blocks of a row.
pub open spec fn fp4_blocks(exponents: Seq<u8>, scaled: Seq<u32>) -> Seq<Seq<u8>> {
    Seq::new(exponents.len(), |b: int| fp4_block(exponents[b], codes_of(scaled, b, 32)))
}

/// The bytes of one row.
pub open spec fn fp4_row(row: Fp4Row, flags: u8) -> Seq<u8> {
    row_header(row.scale, row.exponents@.len() as int, flags) + concat(
        fp4_blocks(row.exponents@, row.scaled@),
    )
}

/// The number of bytes of a row of `k` elements.
pub open spec fn row_bytes(k: int) -> int {
    16 + k / 32 * 17
}

proof fn lemma_codes_fit(scaled: Seq<u32>)
    ensures
        clamped(codes_for(scaled), 15) == codes_for(scaled),
        forall|i: int| 0 <= i < scaled.len() ==> #[trigger] codes_for(scaled)[i] < 16,
{
    assert forall|i: int| 0 <= i < scaled.len() implies #[trigger] codes_for(scaled)[i] < 16 by {
        lemma_code_fits(scaled[i]);
    }
    assert(clamped(codes_for(scaled), 15) =~= codes_for(scaled));
}

proof fn lemma_code_fits(x: u32)
    ensures
        e2m1_code(x) < 16,
{
}

proof fn lemma_block_len(exponent: u8, scaled: Seq<u32>)
    requires
        scaled.len() == 32,
    ensures
        fp4_block(exponent, scaled).len() == 17,
{
    lemma_packed_len(codes_for(scaled), Width::Four);
}

/// Lays out one row with the given flags.
fn write_row(row: &Fp4Row, flags: u8) -> (out: Vec<u8>)
    requires
        row.valid(),
    ensures
        out@ == fp4_row(*row, flags),
{
    let n: usize = row.exponents.len();
    let mut out: Vec<u8> = Vec::new();
    push_le2(&mut out, f32_to_f16(row.scale));
    push_le2(&mut out, 0);
    push_le2(&mut out, (n % 0x1_0000) as u16);
    out.push(flags);
    out.push(0);
    let mut z: usize = 0;
    let ghost before = out@;
    while z < 8
        invariant
            z <= 8,
            out@ =~= before + Seq::new(z as nat, |i: int| 0u8),
        decreases 8 - z,
    {
        out.push(0);
        z = z + 1;
    }
    let ghost head = row_header(row.scale, n as int, flags);
    assert(out@ =~= head);
    let ghost all = fp4_blocks(row.exponents@, row.scaled@);
    assert(all.take(0) =~= Seq::empty());
    assert(head + concat(all.take(0)) =~= head);
    let mut b: usize = 0;
    while b < n
        invariant
            b <= n,
            n == row.exponents@.len(),
            row.valid(),
            all == fp4_blocks(row.exponents@, row.scaled@),
            out@ == head + concat(all.take(b as int)),
        decreases n - b,
    {
        let total: usize = row.scaled.len();
        let ghost mine = codes_of(row.scaled@, b as int, 32);
        let mut codes: Vec<u8> = Vec::new();
        let mut i: usize = 0;
        while i < 32
            invariant
                i <= 32,
                b < n,
                n == row.exponents@.len(),
                total == row.scaled@.len(),
                row.valid(),
                mine == codes_of(row.scaled@, b as int, 32),
                codes@ =~= codes_for(mine).take(i as int),
            decreases 32 - i,
        {
            codes.push(e2m1_round(row.scaled[32 * b + i]));
            assert(codes_for(mine).take(i + 1) =~= codes_for(mine).take(i as int).push(
                e2m1_code(mine[i as int]),
            ));
            i = i + 1;
        }
        assert(codes@ =~= codes_for(mine));
        out.push(row.exponents[b]);
        let data = pack(codes.as_slice(), Width::Four);
        push_bytes(&mut out, data.as_slice());
        proof {
            lemma_codes_fit(mine);
            assert(all.take(b + 1) =~= all.take(b as int).push(all[b as int]));
            lemma_concat_push(all.take(b as int), all[b as int]);
            assert(out@ =~= head + (concat(all.take(b as int)) + all[b as int]));
        }
        b = b + 1;
    }
    assert(all.take(n as int) =~= all);
    out
}

/// Lays out one row of HFP4G32: a header of 16 bytes and 17 bytes per block.
pub fn quantize_hfp4g32_row(row: &Fp4Row) -> (out: Vec<u8>)
    requires
        row.valid(),
    ensures
        out@ == fp4_row(*row, PLAIN),
{
    write_row(row, PLAIN)
}

/// The rows of a matrix, each with the given flags.
pub open spec fn fp4_rows(rows: Seq<Fp4Row>, flags: u8) -> Seq<Seq<u8>> {
    Seq::new(rows.len(), |r: int| fp4_row(rows[r], flags))
}

/// All rows have `k` elements, a multiple of 256.
pub open spec fn is_matrix(rows: Seq<Fp4Row>, k: int) -> bool {
    &&& k % 256 == 0
    &&& forall|r: int|
        0 <= r < rows.len() ==> (#[trigger] rows[r]).valid() && rows[r].scaled@.len() == k
}

fn write_rows(rows: &[Fp4Row], flags: u8, k: usize) -> (out: Vec<u8>)
    requires
        is_matrix(rows@, k as int),
    ensures
        out@ == concat(fp4_rows(rows@, flags)),
{
    let n: usize = rows.len();
    let mut out: Vec<u8> = Vec::new();
    let ghost all = fp4_rows(rows@, flags);
    assert(all.take(0) =~= Seq::empty());
    let mut r: usize = 0;
    while r < n
        invariant
            r <= n,
            n == rows@.len(),
            is_matrix(rows@, k as int),
            all == fp4_rows(rows@, flags),
            out@ == concat(all.take(r as int)),
        decreases n - r,
    {
        assert(rows@[r as int].valid());
        let row = write_row(&rows[r], flags);
        push_bytes(&mut out, row.as_slice());
        proof {
            assert(all.take(r + 1) =~= all.take(r as int).push(all[r as int]));
            lemma_concat_push(all.take(r as int), all[r as int]);
        }
        r = r + 1;
    }
    assert(all.take(n as int) =~= all);
    out
}

/// Lays out a matrix of `k` columns in HFP4G32, row behind row.
pub fn quantize_hfp4g32_2d(rows: &[Fp4Row], k: usize) -> (out: Vec<u8>)
    requires
        is_matrix(rows@, k as int),
    ensures
        out@ == concat(fp4_rows(rows@, PLAIN)),
{
    write_rows(rows, PLAIN, k)
}

/// Lays out a matrix of `k` columns whose rows were rotated: the layout of
/// HFP4G32 with the rotation flag in every row header.
pub fn quantize_mfp4g32_2d(rows: &[Fp4Row], k: usize) -> (out: Vec<u8>)
    requires
        is_matrix(rows@, k as int),
    ensures
        out@ == concat(fp4_rows(rows@, ROTATED)),
{
    write_rows(rows, ROTATED, k)
}

/// What a row of HFP4G32 stands for: element `i` is the product of the row
/// scale, the factor of block `i / 32` and the lattice value `i`.
#[derive(Debug)]
pub struct Fp4Values {
    pub scale: u32,
    pub factors: Vec<u32>,
    pub lattice: Vec<u32>,
}

/// The nibble of element `i` in the bytes of a row.
pub open spec fn nibble_of(row: Seq<u8>, i: int) -> u8 {
    let byte = row[16 + i / 32 * 17 + 1 + i % 32 / 2];
    if i % 2 == 0 {
        (byte % 16) as u8
    } else {
        (byte / 16) as u8
    }
}

/// Reads a row of `k` elements.
pub fn dequant_hfp4g32_row(row: &[u8], k: usize) -> (out: Fp4Values)
    requires
        k % 32 == 0,
        row@.len() == row_bytes(k as int),
    ensures
        out.scale == widen(read2(row@, 0)),
        out.factors@.len() == k / 32,
        forall|b: int|
            0 <= b < k / 32 ==> #[trigger] out.factors@[b] == ue8m0(row@[16 + b * 17]),
        out.lattice@.len() == k,
        forall|i: int| 0 <= i < k ==> #[trigger] out.lattice@[i] == e2m1(nibble_of(row@, i)),
{
    let n: usize = row.len();
    let scale: u32 = f16_to_f32(get_le2(row, 0));
    let count: usize = k / 32;
    let mut factors: Vec<u32> = Vec::new();
    let mut b: usize = 0;
    while b < count
        invariant
            b <= count,
            count == k / 32,
            n == row@.len(),
            n == 16 + count * 17,
            factors@.len() == b,
            forall|j: int| 0 <= j < b ==> #[trigger] factors@[j] == ue8m0(row@[16 + j * 17]),
        decreases count - b,
    {
        factors.push(ue8m0_to_scale(row[16 + b * 17]));
        b = b + 1;
    }
    let mut lattice: Vec<u32> = Vec::new();
    let mut i: usize = 0;
    while i < k
        invariant
            i <= k,
            k % 32 == 0,
            n == row@.len(),
            n == 16 + k / 32 * 17,
            lattice@.len() == i,
            forall|j: int| 0 <= j < i ==> #[trigger] lattice@[j] == e2m1(nibble_of(row@, j)),
        decreases k - i,
    {
        let byte: u8 = row[16 + i / 32 * 17 + 1 + i % 32 / 2];
        let nibble: u8 = if i % 2 == 0 {
            byte % 16
        } else {
            byte / 16
        };
        lattice.push(e2m1_to_f32(nibble));
        i = i + 1;
    }
    Fp4Values { scale, factors, lattice }
}

proof fn lemma_row_len(row: Fp4Row, flags: u8)
    requires
        row.valid(),
    ensures
        row_header(row.scale, row.exponents@.len() as int, flags).len() == 16,
        fp4_row(row, flags).len() == row_bytes(row.scaled@.len() as int),
{
    let all = fp4_blocks(row.exponents@, row.scaled@);
    assert forall|b: int| 0 <= b < all.len() implies (#[trigger] all[b]).len() == 17 by {
        lemma_block_len(row.exponents@[b], codes_of(row.scaled@, b, 32));
    }
    lemma_concat_len(all, 17);
}

proof fn lemma_nibble_of_block(exponent: u8, scaled: Seq<u32>, j: int)
    requires
        scaled.len() == 32,
        0 <= j < 32,
    ensures
        ({
            let byte = fp4_block(exponent, scaled)[1 + j / 2];
            e2m1_code(scaled[j]) == (if j % 2 == 0 {
                byte % 16
            } else {
                byte / 16
            })
        }),
{
    let codes = codes_for(scaled);
    lemma_codes_fit(scaled);
    lemma_pair_at(codes, j / 2);
    lemma_packed_len(codes, Width::Four);
    assert(fp4_block(exponent, scaled)[1 + j / 2] == packed(codes, Width::Four)[j / 2]);
    assert(codes[j] == e2m1_code(scaled[j]));
}

/// Byte `i` of packed nibbles holds the codes `2i` and `2i + 1`.
proof fn lemma_pair_at(codes: Seq<u8>, i: int)
    requires
        codes.len() % 2 == 0,
        0 <= 2 * i < codes.len(),
        forall|j: int| 0 <= j < codes.len() ==> #[trigger] codes[j] < 16,
    ensures
        packed(codes, Width::Four)[i] == codes[2 * i] + 16 * codes[2 * i + 1],
    decreases codes.len(),
{
    let first = codes.take(2);
    let rest = codes.skip(2);
    assert(packed_chunk(first, Width::Four) =~= seq![
        (codes[0] + 16 * codes[1]) as u8,
    ]) by {
        reveal_with_fuel(number, 3);
        reveal_with_fuel(digits, 2);
        assert(first.skip(1)[0] == codes[1]);
        assert(first.skip(1).skip(1).len() == 0);
        let v = codes[0] + 16 * codes[1];
        assert(number(first, 16) == v);
        assert(v < 256);
    }
    if i > 0 {
        assert forall|j: int| 0 <= j < rest.len() implies #[trigger] rest[j] < 16 by {
            assert(rest[j] == codes[j + 2]);
        }
        lemma_pair_at(rest, i - 1);
        lemma_packed_len(rest, Width::Four);
        let chunk = packed_chunk(first, Width::Four);
        let tail = packed(rest, Width::Four);
        assert(chunk.len() == 1);
        assert(packed(codes, Width::Four) == chunk + tail);
        assert((chunk + tail)[i] == tail[i - 1]);
        assert(rest[2 * (i - 1)] == codes[2 * i]);
        assert(rest[2 * (i - 1) + 1] == codes[2 * i + 1]);
    }
}

proof fn lemma_header_reads_back(scale: u32, blocks: int, flags: u8, bytes: Seq<u8>)
    requires
        blocks >= 0,
        bytes.len() >= 16,
        bytes.subrange(0, 16) == row_header(scale, blocks, flags),
    ensures
        read2(bytes, 0) == truncate16(scale),
        read2(bytes, 4) == blocks % 0x1_0000,
        bytes[6] == flags,
{
    let head = row_header(scale, blocks, flags);
    let count = (blocks % 0x1_0000) as u16;
    assert forall|i: int| 0 <= i < 16 implies bytes[i] == #[trigger] head[i] by {
        assert(bytes.subrange(0, 16)[i] == bytes[i]);
    }
    assert(bytes.subrange(0, 2) =~= le2(truncate16(scale))) by {
        assert(bytes[0] == head[0] && bytes[1] == head[1]);
    }
    law_le2_round_trip(bytes, 0, truncate16(scale));
    assert(bytes.subrange(4, 6) =~= le2(count)) by {
        assert(bytes[4] == head[4] && bytes[5] == head[5]);
    }
    law_le2_round_trip(bytes, 4, count);
    assert(bytes[6] == head[6]);
}

proof fn lemma_block_at(row: Fp4Row, flags: u8, b: int, j: int)
    requires
        row.valid(),
        0 <= b < row.exponents@.len(),
        0 <= j < 17,
    ensures
        0 <= 16 + b * 17 + j < fp4_row(row, flags).len(),
        fp4_row(row, flags)[16 + b * 17 + j] == fp4_block(
            row.exponents@[b],
            codes_of(row.scaled@, b, 32),
        )[j],
{
    let all = fp4_blocks(row.exponents@, row.scaled@);
    lemma_row_len(row, flags);
    assert forall|i: int| 0 <= i < all.len() implies (#[trigger] all[i]).len() == 17 by {
        lemma_block_len(row.exponents@[i], codes_of(row.scaled@, i, 32));
    }
    law_concat_at(all, 17, b);
    let body = concat(all);
    assert(body.subrange(b * 17, b * 17 + 17)[j] == body[b * 17 + j]);
}

/// A row can be read back: its scale is the row scale as an `f16`, the factors
/// come from the exponents, and every lattice value is the E2M1 rounding of its
/// element.
pub proof fn law_fp4_row_reads_back(row: Fp4Row, flags: u8, i: int)
    requires
        row.valid(),
        0 <= i < row.scaled@.len(),
    ensures
        fp4_row(row, flags).len() == row_bytes(row.scaled@.len() as int),
        read2(fp4_row(row, flags), 0) == truncate16(row.scale),
        read2(fp4_row(row, flags), 4) == row.exponents@.len() as int % 0x1_0000,
        fp4_row(row, flags)[6] == flags,
        fp4_row(row, flags)[16 + i / 32 * 17] == row.exponents@[i / 32],
        nibble_of(fp4_row(row, flags), i) == e2m1_code(row.scaled@[i]),
{
    let bytes = fp4_row(row, flags);
    let n = row.exponents@.len() as int;
    lemma_row_len(row, flags);
    assert(bytes.subrange(0, 16) =~= row_header(row.scale, n, flags));
    lemma_header_reads_back(row.scale, n, flags, bytes);
    let b = i / 32;
    let j = i % 32;
    let mine = codes_of(row.scaled@, b, 32);
    lemma_block_at(row, flags, b, 0);
    lemma_block_at(row, flags, b, 1 + j / 2);
    lemma_nibble_of_block(row.exponents@[b], mine, j);
    assert(mine[j] == row.scaled@[i]);
    assert(i % 2 == j % 2);
}

// The error of a product of a scale and an element, where the scale was cut down and
// the element rounded: `big` and `cut` are the scale before and after, `x` and `near`
// the element, all counted in units of which `one` make 1.
proof fn lemma_product_error(big: int, cut: int, x: int, near: int, one: int)
    requires
        0 <= cut <= big,
        1024 * (big - cut) <= cut,
        one > 0,
        -one <= near - x <= one,
        -6 * one <= x <= 6 * one,
    ensures
        -(101 * (cut * one)) <= 100 * (cut * near - big * x) <= 101 * (cut * one),
{
    let lost = big - cut;
    assert(cut * near - big * x == cut * (near - x) - lost * x) by (nonlinear_arith)
        requires
            lost == big - cut,
    ;
    assert(-(cut * one) <= cut * (near - x) <= cut * one) by (nonlinear_arith)
        requires
            0 <= cut,
            -one <= near - x <= one,
    ;
    assert(-(6 * (lost * one)) <= lost * x <= 6 * (lost * one)) by (nonlinear_arith)
        requires
            0 <= lost,
            -6 * one <= x <= 6 * one,
    ;
    assert(0 <= lost * one && 1024 * (lost * one) <= cut * one) by (nonlinear_arith)
        requires
            0 <= lost,
            1024 * lost <= cut,
            one > 0,
    ;
    let (whole, part) = (cut * one, lost * one);
    let (moved, shrunk) = (cut * (near - x), lost * x);
    assert(-(101 * whole) <= 100 * (moved - shrunk) <= 101 * whole) by {
        assert(-whole <= moved <= whole);
        assert(-(6 * part) <= shrunk <= 6 * part);
    }
}

// An element within its block lies within the lattice once it is divided by the block
// factor.
proof fn lemma_element_fits(x: u32, v: int, peak: u32)
    requires
        peak < 0x7f80_0000,
        -magnitude32(peak) <= v <= magnitude32(peak),
        value32(x) * pow2(block_exponent_of(peak) as nat) == v * pow2(127),
    ensures
        magnitude32(x) <= 6 * pow2(149),
{
    let e = block_exponent_of(peak) as nat;
    let (m, f, t) = (magnitude32(x) as int, pow2(e) as int, pow2(127) as int);
    let one = pow2(149) as int;
    let w = if v < 0 {
        -v
    } else {
        v
    };
    lemma_pow2_pos(e);
    lemma_pow2_pos(127);
    assert(m * f == w * t) by (nonlinear_arith)
        requires
            value32(x) * f == v * t,
            (value32(x) == m || value32(x) == -m),
            (w == v || w == -v),
            m >= 0,
            w >= 0,
            f > 0,
            t > 0,
    ;
    lemma_pow2_adds(e + 22, 127);
    lemma_pow2_adds(e, 149);
    let c = pow2(e + 22) as int;
    assert(c * t == f * one);
    assert(w <= 6 * c) by {
        if is_less(0, peak) {
            law_block_exponent_is_smallest(peak);
        } else {
            assert(peak == 0);
            assert(exp32(0u32) == 0 && frac32(0u32) == 0);
            lemma_pow2_pos(e + 22);
        }
    }
    assert(m <= 6 * one) by (nonlinear_arith)
        requires
            m * f == w * t,
            w <= 6 * c,
            c * t == f * one,
            f > 0,
            t > 0,
    ;
}

/// A row is read back within half the largest step of the lattice, and a hundredth of
/// that for the cut row scale.
///
/// Element `i` of the row is `row.scale * v`, with `v` counted in units of 2^-149 and
/// not above `peak`, the largest magnitude of its block, and divided exactly by the
/// block factor. What is read back, the product of the stored scale, the block factor
/// `2^(exponent - 127)` and the lattice value, then differs from it by at most 1.01
/// times the stored scale times the block factor. The row scale is within the range of
/// normal `f16` numbers.
#[verifier::rlimit(40)]
pub proof fn law_fp4_error_is_bounded(row: Fp4Row, flags: u8, i: int, v: int, peak: u32)
    requires
        row.valid(),
        0 <= i < row.scaled@.len(),
        sign32(row.scale) == 0,
        113 <= exp32(row.scale) < 143,
        peak < 0x7f80_0000,
        -magnitude32(peak) <= v <= magnitude32(peak),
        row.exponents@[i / 32] == block_exponent_of(peak),
        exp32(row.scaled@[i]) != 0xff,
        value32(row.scaled@[i]) * pow2(row.exponents@[i / 32] as nat) == v * pow2(127),
    ensures
        ({
            let bytes = fp4_row(row, flags);
            let scale = value32(widen(read2(bytes, 0)));
            let factor = pow2(bytes[16 + i / 32 * 17] as nat);
            let lattice = value32(e2m1(nibble_of(bytes, i)));
            let bound = scale * pow2(149) * factor;
            &&& bytes.len() == row_bytes(row.scaled@.len() as int)
            &&& -(101 * bound) <= 100 * (scale * lattice * factor - value32(row.scale) * v * pow2(
                127,
            )) <= 101 * bound
        }),
{
    let bytes = fp4_row(row, flags);
    let x = row.scaled@[i];
    law_fp4_row_reads_back(row, flags, i);
    law_truncation_loses_little(row.scale);
    law_truncation_is_toward_zero(row.scale);
    let stored = truncate16(row.scale);
    assert(exp16(stored) != 0x1f);
    law_widening_is_exact(stored);
    let scale = value32(widen(read2(bytes, 0)));
    let big = value32(row.scale);
    assert(scale == magnitude32(widen(stored)));
    let lattice = value32(e2m1(nibble_of(bytes, i)));
    let one = pow2(149) as int;
    lemma_pow2_pos(149);
    lemma_element_fits(x, v, peak);
    law_e2m1_moves_by_half_a_step(x);
    let y = value32(x);
    lemma_product_error(big, scale, y, lattice, one);
    let f = pow2(row.exponents@[i / 32] as nat) as int;
    lemma_pow2_pos(row.exponents@[i / 32] as nat);
    let t = pow2(127) as int;
    assert(scale * lattice * f - big * v * t == (scale * lattice - big * y) * f)
        by (nonlinear_arith)
        requires
            y * f == v * t,
    ;
    let d = scale * lattice - big * y;
    assert(-(101 * (scale * one * f)) <= 100 * (d * f) <= 101 * (scale * one * f))
        by (nonlinear_arith)
        requires
            -(101 * (scale * one)) <= 100 * d <= 101 * (scale * one),
            f > 0,
    ;
}

// The bytes of the rows.

/// The bytes of an FP4 row: 16 of header, which hold the row scale, cut to an
/// `f16`, the number of blocks at byte 4, the flags at byte 6 and zeros elsewhere,
/// then 17 for each 32 elements: the exponent of the block and its nibbles, the
/// even element in the low half of a byte.
pub proof fn law_fp4_layout(row: Fp4Row, flags: u8, i: int, z: int)
    requires
        row.valid(),
        0 <= i < row.scaled@.len(),
        z == 2 || z == 3 || 7 <= z < 16,
    ensures
        ({
            let out = fp4_row(row, flags);
            let byte = out[16 + i / 32 * 17 + 1 + i % 32 / 2] as int;
            &&& out.len() == 16 + row.exponents@.len() * 17
            &&& read2(out, 0) == truncate16(row.scale)
            &&& read2(out, 4) == row.exponents@.len() as int % 0x1_0000
            &&& out[6] == flags
            &&& out[z] == 0
            &&& out[16 + i / 32 * 17] == row.exponents@[i / 32]
            &&& (if i % 2 == 0 {
                byte % 16
            } else {
                byte / 16
            }) == e2m1_code(row.scaled@[i])
        }),
{
    law_fp4_row_reads_back(row, flags, i);
    let n = row.exponents@.len() as int;
    assert(fp4_row(row, flags)[z] == row_header(row.scale, n, flags)[z]);
}

/// The rows of a matrix stand one behind the other, each in 16 bytes and 17 for
/// every 32 columns. A plain row has the flags zero, a rotated one five.
pub proof fn law_fp4_rows_are_adjacent(rows: Seq<Fp4Row>, flags: u8, k: int, r: int)
    requires
        is_matrix(rows, k),
        k >= 0,
        0 <= r < rows.len(),
    ensures
        ({
            let out = concat(fp4_rows(rows, flags));
            let size = 16 + k / 32 * 17;
            &&& out.len() == rows.len() * size
            &&& 0 <= r * size
            &&& r * size + size <= out.len()
            &&& out.subrange(r * size, r * size + size) == fp4_row(rows[r], flags)
        }),
        PLAIN == 0,
        ROTATED == 5,
{
    let all = fp4_rows(rows, flags);
    let size = 16 + k / 32 * 17;
    assert forall|x: int| 0 <= x < all.len() implies (#[trigger] all[x]).len() == size by {
        assert(rows[x].valid());
        lemma_row_len(rows[x], flags);
    }
    law_concat_at(all, size, r);
}

/// An element of a row is the nibble in its byte: the low half for an even
/// element, the high half for an odd one.
pub proof fn law_fp4_nibbles(row: Seq<u8>, i: int)
    requires
        0 <= i,
    ensures
        i % 2 == 0 ==> nibble_of(row, i) == row[17 + i / 32 * 17 + i % 32 / 2] % 16,
        i % 2 == 1 ==> nibble_of(row, i) == row[17 + i / 32 * 17 + i % 32 / 2] / 16,
{
}

} // verus!
