//! Q8_HFQ: rows with all scales in front of all values, aligned to 128 bytes.
use vstd::prelude::*;
use vstd::slice::slice_subrange;

use crate::blocks::{from_byte, to_byte};
#[allow(unused_imports)]
use crate::blocks::{
    byte_of, bytes_of, codes_of, concat, law_concat_at, law_signed_byte_round_trip,
    lemma_concat_push, signed,
};
use crate::bytes::{get_le2, push_le2};
#[allow(unused_imports)]
use crate::bytes::{law_le2_round_trip, le2, read2};
use crate::ieee::{f16_to_f32, f32_to_f16};
#[allow(unused_imports)]
use crate::ieee::{truncate16, widen};

verus! {

/// The bytes of a row without padding: two per group of 32, and one per value.
pub open spec fn raw_row(k: int) -> int {
    k / 32 * 2 + k
}

/// The bytes of a row with padding.
pub open spec fn stride_of(k: int) -> int {
    (raw_row(k) + 127) / 128 * 128
}

/// The `f16` scales of a row.
pub open spec fn scale_bytes(scales: Seq<u32>) -> Seq<u8> {
    Seq::new(2 * scales.len(), |i: int| le2(truncate16(scales[i / 2]))[i % 2])
}

/// The bytes of a row of `k` values: its scales, the values of its whole groups,
/// and zeros up to the stride.
pub open spec fn q8hfq_row(scales: Seq<u32>, qs: Seq<i8>, k: int) -> Seq<u8> {
    scale_bytes(scales) + bytes_of(qs) + Seq::new(
        (stride_of(k) - 2 * scales.len() - qs.len()) as nat,
        |i: int| 0u8,
    )
}

/// The rows of a matrix.
pub open spec fn q8hfq_rows(scales: Seq<u32>, qs: Seq<i8>, m: int, k: int) -> Seq<Seq<u8>> {
    Seq::new(
        m as nat,
        |r: int|
            q8hfq_row(codes_of(scales, r, k / 32), codes_of(qs, r, k / 32 * 32), k),
    )
}

/// Lays out one row whose scales start at `sat` and whose values start at `qat`.
fn push_row(out: &mut Vec<u8>, scales: &[u32], sat: usize, qs: &[i8], qat: usize, k: usize)
    requires
        raw_row(k as int) + 127 <= usize::MAX,
        sat + k / 32 <= scales@.len(),
        qat + k / 32 * 32 <= qs@.len(),
    ensures
        final(out)@ == old(out)@ + q8hfq_row(
            scales@.subrange(sat as int, sat + k / 32),
            qs@.subrange(qat as int, qat + k / 32 * 32),
            k as int,
        ),
{
    let groups: usize = k / 32;
    let values: usize = groups * 32;
    let stride: usize = (groups * 2 + k + 127) / 128 * 128;
    let pad: usize = stride - 2 * groups - values;
    let ghost s = scales@.subrange(sat as int, sat + groups);
    let ghost q = qs@.subrange(qat as int, qat + values);
    let n: usize = scales.len();
    let len: usize = qs.len();
    let mut g: usize = 0;
    while g < groups
        invariant
            g <= groups,
            n == scales@.len(),
            sat + groups <= n,
            s == scales@.subrange(sat as int, sat + groups),
            out@ =~= old(out)@ + scale_bytes(s).take(2 * g),
        decreases groups - g,
    {
        let ghost before = out@;
        push_le2(out, f32_to_f16(scales[sat + g]));
        proof {
            let two = le2(truncate16(s[g as int]));
            assert(s[g as int] == scales@[sat + g]);
            assert(scale_bytes(s)[2 * g] == two[0]);
            assert(scale_bytes(s)[2 * g + 1] == two[1]);
            assert(scale_bytes(s).take(2 * (g + 1)) =~= scale_bytes(s).take(2 * g) + two);
        }
        g = g + 1;
    }
    assert(scale_bytes(s).take(2 * groups) =~= scale_bytes(s));
    let ghost head = out@;
    let mut i: usize = 0;
    while i < values
        invariant
            i <= values,
            len == qs@.len(),
            qat + values <= len,
            q == qs@.subrange(qat as int, qat + values),
            out@ =~= head + bytes_of(q).take(i as int),
        decreases values - i,
    {
        out.push(to_byte(qs[qat + i]));
        assert(bytes_of(q).take(i + 1) =~= bytes_of(q).take(i as int).push(byte_of(q[i as int])));
        i = i + 1;
    }
    assert(bytes_of(q).take(values as int) =~= bytes_of(q));
    let ghost body = out@;
    let mut z: usize = 0;
    while z < pad
        invariant
            z <= pad,
            out@ =~= body + Seq::new(z as nat, |i: int| 0u8),
        decreases pad - z,
    {
        out.push(0);
        z = z + 1;
    }
    assert(out@ =~= old(out)@ + q8hfq_row(s, q, k as int));
}

/// Lays out `m` rows of `k` values each. Values behind the last whole group of 32
/// of a row are not stored. Returns the bytes and the row stride.
pub fn quantize_q8hfq(scales: &[u32], qs: &[i8], m: usize, k: usize) -> (r: (Vec<u8>, usize))
    requires
        raw_row(k as int) + 127 <= usize::MAX,
        scales@.len() == m * (k / 32),
        qs@.len() == m * (k / 32 * 32),
    ensures
        r.0@ == concat(q8hfq_rows(scales@, qs@, m as int, k as int)),
        r.1 == stride_of(k as int),
{
    let groups: usize = k / 32;
    let values: usize = groups * 32;
    let stride: usize = (groups * 2 + k + 127) / 128 * 128;
    let mut out: Vec<u8> = Vec::new();
    let ghost all = q8hfq_rows(scales@, qs@, m as int, k as int);
    assert(all.take(0) =~= Seq::empty());
    let mut sat: usize = 0;
    let mut qat: usize = 0;
    let mut r: usize = 0;
    assert(0 * groups == 0 && 0 * values == 0) by (nonlinear_arith);
    while r < m
        invariant
            r <= m,
            groups == k / 32,
            values == groups * 32,
            raw_row(k as int) + 127 <= usize::MAX,
            scales@.len() == m * groups,
            qs@.len() == m * values,
            sat == r * groups,
            qat == r * values,
            all == q8hfq_rows(scales@, qs@, m as int, k as int),
            out@ == concat(all.take(r as int)),
        decreases m - r,
    {
        assert(sat + groups <= m * groups && qat + values <= m * values && sat + groups == (r + 1)
            * groups && qat + values == (r + 1) * values) by (nonlinear_arith)
            requires
                sat == r * groups,
                qat == r * values,
                r < m,
        ;
        let n: usize = scales.len();
        let len: usize = qs.len();
        push_row(&mut out, scales, sat, qs, qat, k);
        proof {
            assert(all.take(r + 1) =~= all.take(r as int).push(all[r as int]));
            lemma_concat_push(all.take(r as int), all[r as int]);
        }
        sat = sat + groups;
        qat = qat + values;
        r = r + 1;
    }
    assert(all.take(m as int) =~= all);
    (out, stride)
}

/// Reads row `r` of a matrix with rows of `k` values: the scale of each group,
/// widened, and the values of the whole groups.
pub fn read_q8hfq_row(data: &[u8], r: usize, k: usize) -> (out: (Vec<u32>, Vec<i8>))
    requires
        raw_row(k as int) + 127 <= usize::MAX,
        (r + 1) * stride_of(k as int) <= data@.len(),
    ensures
        ({
            let stride = stride_of(k as int);
            let row = data@.subrange(r * stride, r * stride + stride);
            &&& out.0@.len() == k / 32
            &&& forall|g: int|
                0 <= g < k / 32 ==> #[trigger] out.0@[g] == widen(read2(row, 2 * g))
            &&& out.1@.len() == k / 32 * 32
            &&& forall|i: int|
                0 <= i < k / 32 * 32 ==> #[trigger] out.1@[i] == signed(row[k / 32 * 2 + i])
        }),
{
    let groups: usize = k / 32;
    let values: usize = groups * 32;
    let stride: usize = (groups * 2 + k + 127) / 128 * 128;
    let n: usize = data.len();
    assert(0 <= r * stride && r * stride + stride == (r + 1) * stride) by (nonlinear_arith);
    let at: usize = r * stride;
    let row = slice_subrange(data, at, at + stride);
    let mut scales: Vec<u32> = Vec::new();
    let mut g: usize = 0;
    while g < groups
        invariant
            g <= groups,
            2 * groups <= row@.len() <= usize::MAX,
            scales@.len() == g,
            forall|j: int| 0 <= j < g ==> #[trigger] scales@[j] == widen(read2(row@, 2 * j)),
        decreases groups - g,
    {
        scales.push(f16_to_f32(get_le2(row, 2 * g)));
        g = g + 1;
    }
    let mut qs: Vec<i8> = Vec::new();
    let mut i: usize = 0;
    while i < values
        invariant
            i <= values,
            2 * groups + values <= row@.len() <= usize::MAX,
            qs@.len() == i,
            forall|j: int| 0 <= j < i ==> #[trigger] qs@[j] == signed(row@[groups * 2 + j]),
        decreases values - i,
    {
        qs.push(from_byte(row[groups * 2 + i]));
        i = i + 1;
    }
    (scales, qs)
}

/// Rows stand one stride apart; scale `g` of a row stands at byte `2g`, and value
/// `i` behind all scales. The stride is a multiple of 128 that wastes less than
/// 128 bytes.
pub proof fn law_q8hfq_reads_back(
    scales: Seq<u32>,
    qs: Seq<i8>,
    m: int,
    k: int,
    r: int,
    g: int,
    i: int,
)
    requires
        0 <= k,
        scales.len() == m * (k / 32),
        qs.len() == m * (k / 32 * 32),
        0 <= r < m,
        0 <= g < k / 32,
        0 <= i < k / 32 * 32,
    ensures
        ({
            let stream = concat(q8hfq_rows(scales, qs, m, k));
            let stride = stride_of(k);
            let row = stream.subrange(r * stride, r * stride + stride);
            &&& stride % 128 == 0
            &&& raw_row(k) <= stride < raw_row(k) + 128
            &&& stream.len() == m * stride
            &&& read2(row, 2 * g) == truncate16(scales[r * (k / 32) + g])
            &&& row[k / 32 * 2 + i] == byte_of(qs[r * (k / 32 * 32) + i])
        }),
{
    let all = q8hfq_rows(scales, qs, m, k);
    let stride = stride_of(k);
    let (groups, values) = (k / 32, k / 32 * 32);
    assert forall|j: int| 0 <= j < all.len() implies (#[trigger] all[j]).len() == stride by {
        assert(0 <= j * groups && j * groups + groups <= m * groups && 0 <= j * values && j * values
            + values <= m * values) by (nonlinear_arith)
            requires
                0 <= j < m,
                0 <= groups,
                0 <= values,
        ;
    }
    law_concat_at(all, stride, r);
    assert(0 <= r * groups && r * groups + groups <= m * groups && 0 <= r * values && r * values
        + values <= m * values) by (nonlinear_arith)
        requires
            0 <= r < m,
            0 <= groups,
            0 <= values,
    ;
    let row = all[r];
    let s = codes_of(scales, r, groups);
    let q = codes_of(qs, r, values);
    let two = le2(truncate16(s[g]));
    assert(row.subrange(2 * g, 2 * g + 2) =~= two) by {
        assert(row[2 * g] == scale_bytes(s)[2 * g]);
        assert(row[2 * g + 1] == scale_bytes(s)[2 * g + 1]);
    }
    law_le2_round_trip(row, 2 * g, truncate16(s[g]));
    assert(row[groups * 2 + i] == bytes_of(q)[i]);
}

/// The bytes of Q8_HFQ rows: a row takes the least multiple of 128 bytes that holds
/// two bytes for each 32 columns and one for each column. Its scales, cut to `f16`,
/// stand first, then its values as two's complement bytes, then zeros.
pub proof fn law_q8hfq_layout(
    scales: Seq<u32>,
    qs: Seq<i8>,
    m: int,
    k: int,
    r: int,
    g: int,
    i: int,
    z: int,
)
    requires
        0 <= k,
        scales.len() == m * (k / 32),
        qs.len() == m * (k / 32 * 32),
        0 <= r < m,
        0 <= g < k / 32,
        0 <= i < k / 32 * 32,
        k / 32 * 34 <= z < stride_of(k),
    ensures
        ({
            let out = concat(q8hfq_rows(scales, qs, m, k));
            let at = r * stride_of(k);
            &&& stride_of(k) % 128 == 0
            &&& k / 32 * 2 + k <= stride_of(k) < k / 32 * 2 + k + 128
            &&& out.len() == m * stride_of(k)
            &&& read2(out, at + 2 * g) == truncate16(scales[r * (k / 32) + g])
            &&& out[at + k / 32 * 2 + i] == qs[r * (k / 32 * 32) + i] as int % 256
            &&& out[at + z] == 0
        }),
{
    let all = q8hfq_rows(scales, qs, m, k);
    let out = concat(all);
    let stride = stride_of(k);
    let at = r * stride;
    let (groups, values) = (k / 32, k / 32 * 32);
    law_q8hfq_reads_back(scales, qs, m, k, r, g, i);
    assert forall|j: int| 0 <= j < all.len() implies (#[trigger] all[j]).len() == stride by {
        assert(0 <= j * groups && j * groups + groups <= m * groups && 0 <= j * values && j * values
            + values <= m * values) by (nonlinear_arith)
            requires
                0 <= j < m,
                0 <= groups,
                0 <= values,
        ;
    }
    law_concat_at(all, stride, r);
    assert(0 <= r * groups && r * groups + groups <= m * groups && 0 <= r * values && r * values
        + values <= m * values) by (nonlinear_arith)
        requires
            0 <= r < m,
            0 <= groups,
            0 <= values,
    ;
    let row = out.subrange(at, at + stride);
    assert(row[2 * g] == out[at + 2 * g] && row[2 * g + 1] == out[at + 2 * g + 1]);
    assert(read2(out, at + 2 * g) == read2(row, 2 * g));
    assert(row[groups * 2 + i] == out[at + groups * 2 + i]);
    law_signed_byte_round_trip(qs[r * values + i]);
    assert(row[z] == out[at + z]);
    assert(all[r][z] == 0);
}

/// The stride of a row is the least multiple of 128 that holds two bytes for each 32
/// columns and one for each column.
pub proof fn law_stride_is_least_multiple(k: int)
    requires
        k >= 0,
    ensures
        stride_of(k) % 128 == 0,
        k / 32 * 2 + k <= stride_of(k) < k / 32 * 2 + k + 128,
{
}

} // verus!
