//! Splitting a tensor into groups, and the byte layouts of the groups.
#[allow(unused_imports)]
use vstd::arithmetic::power::pow;
use vstd::prelude::*;
use vstd::slice::slice_subrange;

use crate::bytes::{get_le4, push_le2, push_le4};
#[allow(unused_imports)]
use crate::bytes::{law_le2_round_trip, law_le4_round_trip, le2, le4, read2, read4};
use crate::ieee::{f32_abs, f32_is_nan, f32_less, f32_to_f16};
#[allow(unused_imports)]
use crate::ieee::{abs32, is_less, is_nan32, order_key, truncate16};
use crate::pack::{pack, unpack, Width};
#[allow(unused_imports)]
use crate::pack::{
    base, clamped, in_chunks, law_code_position, law_pack_round_trip, lemma_packed_len,
    lemma_unpacked_len, packed, unpacked,
};

verus! {

// Groups.

/// The number of groups that `n` values fall into; the last one may be short.
pub open spec fn blocks_for(n: int, group: int) -> int {
    n / group + (if n % group == 0 {
        0int
    } else {
        1
    })
}

/// The number of groups that `n` values fall into.
pub fn block_count(n: usize, group: usize) -> (r: usize)
    requires
        group > 0,
    ensures
        r == blocks_for(n as int, group as int),
{
    let whole: usize = n / group;
    if n % group == 0 {
        whole
    } else {
        assert(whole < usize::MAX) by (nonlinear_arith)
            requires
                whole == n / group,
                n % group != 0,
                group > 0,
                n <= usize::MAX,
        ;
        whole + 1
    }
}

/// The groups cover all values, and each of them holds at least one.
pub proof fn law_groups_cover(n: int, group: int, b: int)
    requires
        n >= 0,
        group > 0,
        0 <= b < blocks_for(n, group),
    ensures
        0 <= b * group < n,
        n <= blocks_for(n, group) * group,
{
    let c = blocks_for(n, group);
    assert(0 <= b * group < n && n <= c * group) by (nonlinear_arith)
        requires
            group > 0,
            n >= 0,
            0 <= b < c,
            c == n / group + (if n % group == 0 {
                0int
            } else {
                1
            }),
    ;
}

/// Element `i` of group `b`, or `fill` behind the last value.
pub open spec fn group_element(values: Seq<u32>, b: int, group: int, i: int, fill: u32) -> u32 {
    if b * group + i < values.len() {
        values[b * group + i]
    } else {
        fill
    }
}

/// Group `b`, filled up to the full size behind the last value.
pub fn padded_group(values: &[u32], b: usize, group: usize, fill: u32) -> (out: Vec<u32>)
    requires
        group > 0,
        b < blocks_for(values@.len() as int, group as int),
    ensures
        out@.len() == group,
        forall|i: int|
            0 <= i < group ==> #[trigger] out@[i] == group_element(
                values@,
                b as int,
                group as int,
                i,
                fill,
            ),
        forall|i: int|
            #![trigger out@[i]]
            0 <= i < group && b * group + i < values@.len() ==> out@[i] == values@[b * group + i],
        forall|i: int|
            #![trigger out@[i]]
            0 <= i < group && b * group + i >= values@.len() ==> out@[i] == fill,
{
    let n: usize = values.len();
    proof {
        law_groups_cover(n as int, group as int, b as int);
    }
    let start: usize = b * group;
    let mut out: Vec<u32> = Vec::new();
    let mut i: usize = 0;
    while i < group
        invariant
            i <= group,
            n == values@.len(),
            start == b * group,
            start < n,
            out@.len() == i,
            forall|j: int|
                0 <= j < i ==> #[trigger] out@[j] == group_element(
                    values@,
                    b as int,
                    group as int,
                    j,
                    fill,
                ),
        decreases group - i,
    {
        out.push(
            if i < n - start {
                values[start + i]
            } else {
                fill
            },
        );
        i = i + 1;
    }
    out
}

// The range of a group.

/// The smaller of two numbers; the other one where one is no number, and the
/// first where they are equal.
pub open spec fn min32(a: u32, b: u32) -> u32 {
    if is_nan32(a) || is_less(b, a) {
        b
    } else {
        a
    }
}

/// The larger of two numbers; the other one where one is no number, and the
/// first where they are equal.
pub open spec fn max32(a: u32, b: u32) -> u32 {
    if is_nan32(a) || is_less(a, b) {
        b
    } else {
        a
    }
}

/// Positive infinity.
pub const INFINITY: u32 = 0x7f80_0000;

/// Negative infinity.
pub const NEG_INFINITY: u32 = 0xff80_0000;

/// The smallest value, or infinity where there is no number.
pub open spec fn lowest(s: Seq<u32>) -> u32
    decreases s.len(),
{
    if s.len() == 0 {
        INFINITY
    } else {
        min32(lowest(s.drop_last()), s.last())
    }
}

/// The largest value, or negative infinity where there is no number.
pub open spec fn highest(s: Seq<u32>) -> u32
    decreases s.len(),
{
    if s.len() == 0 {
        NEG_INFINITY
    } else {
        max32(highest(s.drop_last()), s.last())
    }
}

/// The largest magnitude, or zero where there is no number.
pub open spec fn peak(s: Seq<u32>) -> u32
    decreases s.len(),
{
    if s.len() == 0 {
        0
    } else {
        max32(peak(s.drop_last()), abs32(s.last()))
    }
}

/// The smallest and the largest value of a group.
pub fn group_range(values: &[u32]) -> (r: (u32, u32))
    ensures
        r.0 == lowest(values@),
        r.1 == highest(values@),
{
    let n: usize = values.len();
    let mut lo: u32 = INFINITY;
    let mut hi: u32 = NEG_INFINITY;
    let mut i: usize = 0;
    while i < n
        invariant
            i <= n,
            n == values@.len(),
            lo == lowest(values@.take(i as int)),
            hi == highest(values@.take(i as int)),
        decreases n - i,
    {
        let v: u32 = values[i];
        assert(values@.take(i + 1).drop_last() =~= values@.take(i as int));
        if f32_is_nan(lo) || f32_less(v, lo) {
            lo = v;
        }
        if f32_is_nan(hi) || f32_less(hi, v) {
            hi = v;
        }
        i = i + 1;
    }
    assert(values@.take(n as int) =~= values@);
    (lo, hi)
}

/// The largest magnitude of a group.
pub fn group_peak(values: &[u32]) -> (r: u32)
    ensures
        r == peak(values@),
{
    let n: usize = values.len();
    let mut top: u32 = 0;
    let mut i: usize = 0;
    while i < n
        invariant
            i <= n,
            n == values@.len(),
            top == peak(values@.take(i as int)),
        decreases n - i,
    {
        let v: u32 = f32_abs(values[i]);
        assert(values@.take(i + 1).drop_last() =~= values@.take(i as int));
        if f32_is_nan(top) || f32_less(top, v) {
            top = v;
        }
        i = i + 1;
    }
    assert(values@.take(n as int) =~= values@);
    top
}

/// The range of a group holds every number of the group, and its ends are
/// members wherever they are finite.
pub proof fn law_range_holds_group(s: Seq<u32>)
    ensures
        !is_nan32(lowest(s)),
        !is_nan32(highest(s)),
        lowest(s) == INFINITY || s.contains(lowest(s)),
        highest(s) == NEG_INFINITY || s.contains(highest(s)),
        forall|i: int|
            #![trigger s[i]]
            0 <= i < s.len() && !is_nan32(s[i]) ==> order_key(lowest(s)) <= order_key(s[i])
                <= order_key(highest(s)),
    decreases s.len(),
{
    if s.len() > 0 {
        let rest = s.drop_last();
        law_range_holds_group(rest);
        assert(s.last() == s[s.len() - 1]);
        assert forall|x: u32| rest.contains(x) implies s.contains(x) by {
            let i = choose|i: int| 0 <= i < rest.len() && rest[i] == x;
            assert(s[i] == x);
        }
        assert forall|i: int|
            #![trigger s[i]]
            0 <= i < s.len() && !is_nan32(s[i]) implies order_key(lowest(s)) <= order_key(s[i])
            <= order_key(highest(s)) by {
            if i < rest.len() {
                assert(rest[i] == s[i]);
            }
        }
    }
}

/// The peak of a group bounds every magnitude in it and is reached.
pub proof fn law_peak_bounds_group(s: Seq<u32>)
    ensures
        !is_nan32(peak(s)),
        peak(s) < 0x8000_0000,
        peak(s) == 0 || exists|i: int| 0 <= i < s.len() && #[trigger] abs32(s[i]) == peak(s),
        forall|i: int|
            #![trigger s[i]]
            0 <= i < s.len() && !is_nan32(s[i]) ==> abs32(s[i]) <= peak(s),
    decreases s.len(),
{
    if s.len() > 0 {
        let rest = s.drop_last();
        law_peak_bounds_group(rest);
        let last = s.len() - 1;
        assert(s.last() == s[last]);
        if peak(s) != 0 {
            if peak(s) == abs32(s[last]) {
            } else {
                let i = choose|i: int| 0 <= i < rest.len() && #[trigger] abs32(rest[i]) == peak(s);
                assert(abs32(s[i]) == peak(s));
            }
        }
        assert forall|i: int| #![trigger s[i]]
            0 <= i < s.len() && !is_nan32(s[i]) implies abs32(s[i]) <= peak(s) by {
            if i < rest.len() {
                assert(rest[i] == s[i]);
            }
        }
    }
}

// Streams of blocks.

/// Blocks one behind the other.
pub open spec fn concat(blocks: Seq<Seq<u8>>) -> Seq<u8>
    decreases blocks.len(),
{
    if blocks.len() == 0 {
        Seq::empty()
    } else {
        concat(blocks.drop_last()) + blocks.last()
    }
}

/// In a stream of blocks of one size, block `b` stands at `b` times that size.
pub proof fn law_concat_at(blocks: Seq<Seq<u8>>, size: int, b: int)
    requires
        size >= 0,
        forall|i: int| 0 <= i < blocks.len() ==> (#[trigger] blocks[i]).len() == size,
        0 <= b < blocks.len(),
    ensures
        concat(blocks).len() == blocks.len() * size,
        0 <= b * size,
        b * size + size <= concat(blocks).len(),
        concat(blocks).subrange(b * size, b * size + size) == blocks[b],
    decreases blocks.len(),
{
    let rest = blocks.drop_last();
    let n = rest.len() as int;
    lemma_concat_len(rest, size);
    assert(n * size + size == (n + 1) * size) by (nonlinear_arith);
    assert(blocks.last().len() == size) by {
        assert(blocks.last() == blocks[n]);
    }
    if b < n {
        law_concat_at(rest, size, b);
        assert(concat(blocks).subrange(b * size, b * size + size) =~= concat(rest).subrange(
            b * size,
            b * size + size,
        ));
    } else {
        assert(0 <= n * size) by (nonlinear_arith)
            requires
                0 <= n,
                0 <= size,
        ;
        assert(concat(blocks).subrange(n * size, n * size + size) =~= blocks.last());
    }
}

pub proof fn lemma_concat_len(blocks: Seq<Seq<u8>>, size: int)
    requires
        forall|i: int| 0 <= i < blocks.len() ==> (#[trigger] blocks[i]).len() == size,
    ensures
        concat(blocks).len() == blocks.len() * size,
    decreases blocks.len(),
{
    if blocks.len() > 0 {
        let rest = blocks.drop_last();
        let n = rest.len() as int;
        lemma_concat_len(rest, size);
        assert(n * size + size == (n + 1) * size) by (nonlinear_arith);
        assert(blocks.last() == blocks[n]);
    } else {
        assert(0 * size == 0) by (nonlinear_arith);
    }
}

pub proof fn lemma_concat_push(blocks: Seq<Seq<u8>>, block: Seq<u8>)
    ensures
        concat(blocks.push(block)) == concat(blocks) + block,
{
    assert(blocks.push(block).drop_last() =~= blocks);
}

/// Appends the bytes of `data`.
pub fn push_bytes(out: &mut Vec<u8>, data: &[u8])
    ensures
        final(out)@ == old(out)@ + data@,
{
    let n: usize = data.len();
    let mut i: usize = 0;
    while i < n
        invariant
            i <= n,
            n == data@.len(),
            out@ == old(out)@ + data@.take(i as int),
        decreases n - i,
    {
        out.push(data[i]);
        assert(data@.take(i + 1) =~= data@.take(i as int).push(data@[i as int]));
        i = i + 1;
    }
    assert(data@.take(n as int) =~= data@);
}

// Affine blocks: an `f32` scale, an `f32` zero point, packed codes.

/// The parameters of an affine group: a code `q` stands for `scale * q + zero`.
#[derive(Clone, Copy, Debug, PartialEq, Eq, Structural)]
pub struct Affine {
    pub scale: u32,
    pub zero: u32,
}

/// One, as an `f32`.
pub const ONE: u32 = 0x3f80_0000;

/// The parameters of a group between `lo` and `hi` whose levels are `step`
/// apart. A group that spans no range has scale one.
pub open spec fn affine_of(lo: u32, hi: u32, step: u32) -> Affine {
    Affine {
        scale: if is_less(lo, hi) {
            step
        } else {
            ONE
        },
        zero: lo,
    }
}

/// The parameters of a group between `lo` and `hi` whose levels are `step`
/// apart.
pub fn affine_params(lo: u32, hi: u32, step: u32) -> (r: Affine)
    ensures
        r == affine_of(lo, hi, step),
        r.zero == lo,
        is_less(lo, hi) ==> r.scale == step,
        !is_less(lo, hi) ==> r.scale == 0x3f80_0000,
{
    Affine {
        scale: if f32_less(lo, hi) {
            step
        } else {
            ONE
        },
        zero: lo,
    }
}

/// Code 0 of an affine group stands for its smallest value: where a group holds a
/// number, the zero point that its range gives is one of its values, and none is
/// smaller. A group that spans a range has the step as its scale, any other has
/// scale one.
pub proof fn law_zero_point_is_smallest(values: Seq<u32>, step: u32, i: int)
    requires
        0 <= i < values.len(),
        !is_nan32(values[i]),
    ensures
        ({
            let p = affine_of(lowest(values), highest(values), step);
            &&& values.contains(p.zero)
            &&& !is_less(values[i], p.zero)
            &&& forall|j: int|
                #![trigger values[j]]
                0 <= j < values.len() && is_less(values[i], values[j]) ==> p.scale == step
            &&& (forall|j: int|
                0 <= j < values.len() ==> order_key(#[trigger] values[j]) == order_key(values[i]))
                ==> p.scale == 0x3f80_0000
        }),
{
    law_range_holds_group(values);
    let (lo, hi) = (lowest(values), highest(values));
    assert(order_key(lo) <= order_key(values[i]) <= order_key(hi));
    if lo == INFINITY {
        assert(values[i] == INFINITY);
        assert(values.contains(lo));
    }
    if forall|j: int|
        0 <= j < values.len() ==> order_key(#[trigger] values[j]) == order_key(values[i]) {
        let a = choose|a: int| 0 <= a < values.len() && values[a] == lo;
        assert(order_key(values[a]) == order_key(values[i]));
        if hi == NEG_INFINITY {
        } else {
            let b = choose|b: int| 0 <= b < values.len() && values[b] == hi;
            assert(order_key(values[b]) == order_key(values[i]));
        }
    }
}

/// The scale of a group with the largest magnitude `top` whose levels are `step`
/// apart; one where every value of the group is zero.
pub fn peak_scale(top: u32, step: u32) -> (r: u32)
    ensures
        r == (if is_less(0, top) {
            step
        } else {
            0x3f80_0000
        }),
{
    if f32_less(0, top) {
        step
    } else {
        ONE
    }
}

/// The bytes of one affine group.
pub open spec fn affine_block(params: Affine, codes: Seq<u8>, w: Width) -> Seq<u8> {
    le4(params.scale) + le4(params.zero) + packed(clamped(codes, base(w) - 1), w)
}

/// The codes of group `b`.
pub open spec fn codes_of<T>(codes: Seq<T>, b: int, group: int) -> Seq<T> {
    codes.subrange(b * group, b * group + group)
}

/// The affine groups of a tensor.
pub open spec fn affine_groups(
    params: Seq<Affine>,
    codes: Seq<u8>,
    group: int,
    w: Width,
) -> Seq<Seq<u8>> {
    Seq::new(params.len(), |b: int| affine_block(params[b], codes_of(codes, b, group), w))
}

/// The affine groups of a tensor, one behind the other.
pub open spec fn affine_stream(params: Seq<Affine>, codes: Seq<u8>, group: int, w: Width) -> Seq<
    u8,
> {
    concat(affine_groups(params, codes, group, w))
}

proof fn lemma_group_bounds(n: int, group: int, b: int)
    requires
        0 <= b < n,
        0 <= group,
    ensures
        0 <= b * group,
        b * group + group <= n * group,
        b * group + group == (b + 1) * group,
{
    assert(0 <= b * group && b * group + group <= n * group && b * group + group == (b + 1) * group)
        by (nonlinear_arith)
        requires
            0 <= b < n,
            0 <= group,
    ;
}

/// The part of `data` from `from` to `to`.
fn copy_range(data: &[u8], from: usize, to: usize) -> (out: Vec<u8>)
    requires
        from <= to <= data@.len(),
    ensures
        out@ == data@.subrange(from as int, to as int),
{
    let mut out: Vec<u8> = Vec::new();
    let mut i: usize = from;
    while i < to
        invariant
            from <= i <= to <= data@.len(),
            out@ == data@.subrange(from as int, i as int),
        decreases to - i,
    {
        out.push(data[i]);
        assert(data@.subrange(from as int, i + 1) =~= data@.subrange(from as int, i as int).push(
            data@[i as int],
        ));
        i = i + 1;
    }
    out
}

/// Lays out affine groups of `group` codes each.
fn write_affine(params: &[Affine], codes: &[u8], group: usize, w: Width) -> (out: Vec<u8>)
    requires
        codes@.len() == params@.len() * group,
        in_chunks(group as int, w),
    ensures
        out@ == affine_stream(params@, codes@, group as int, w),
{
    let n: usize = params.len();
    let mut out: Vec<u8> = Vec::new();
    let mut b: usize = 0;
    let mut at: usize = 0;
    let ghost all = affine_groups(params@, codes@, group as int, w);
    assert(all.take(0) =~= Seq::empty());
    assert(0 * group == 0) by (nonlinear_arith);
    while b < n
        invariant
            b <= n,
            n == params@.len(),
            at == b * group,
            codes@.len() == n * group,
            in_chunks(group as int, w),
            all == affine_groups(params@, codes@, group as int, w),
            out@ == concat(all.take(b as int)),
        decreases n - b,
    {
        proof {
            lemma_group_bounds(n as int, group as int, b as int);
        }
        let total: usize = codes.len();
        let part = copy_range(codes, at, at + group);
        push_le4(&mut out, params[b].scale);
        push_le4(&mut out, params[b].zero);
        let data = pack(part.as_slice(), w);
        push_bytes(&mut out, data.as_slice());
        proof {
            assert(all.take(b + 1) =~= all.take(b as int).push(all[b as int]));
            lemma_concat_push(all.take(b as int), all[b as int]);
            assert(out@ =~= concat(all.take(b as int)) + all[b as int]);
        }
        at = at + group;
        b = b + 1;
    }
    assert(all.take(n as int) =~= all);
    out
}

/// HFQ4-G256: 256 four-bit codes in 136 bytes.
pub fn quantize_hfq4g256(params: &[Affine], codes: &[u8]) -> (out: Vec<u8>)
    requires
        codes@.len() == params@.len() * 256,
    ensures
        out@ == affine_stream(params@, codes@, 256, Width::Four),
{
    write_affine(params, codes, 256, Width::Four)
}

/// HFQ4-G128: 128 four-bit codes in 72 bytes.
pub fn quantize_hfq4g128(params: &[Affine], codes: &[u8]) -> (out: Vec<u8>)
    requires
        codes@.len() == params@.len() * 128,
    ensures
        out@ == affine_stream(params@, codes@, 128, Width::Four),
{
    write_affine(params, codes, 128, Width::Four)
}

/// HFQ2-G256: 256 two-bit codes in 72 bytes.
pub fn quantize_hfq2g256(params: &[Affine], codes: &[u8]) -> (out: Vec<u8>)
    requires
        codes@.len() == params@.len() * 256,
    ensures
        out@ == affine_stream(params@, codes@, 256, Width::Two),
{
    write_affine(params, codes, 256, Width::Two)
}

/// HFQ2-G128: 128 two-bit codes in 40 bytes.
pub fn quantize_hfq2g128(params: &[Affine], codes: &[u8]) -> (out: Vec<u8>)
    requires
        codes@.len() == params@.len() * 128,
    ensures
        out@ == affine_stream(params@, codes@, 128, Width::Two),
{
    write_affine(params, codes, 128, Width::Two)
}

/// HFQ3-G256: 256 three-bit codes in 104 bytes.
pub fn quantize_hfq3g256(params: &[Affine], codes: &[u8]) -> (out: Vec<u8>)
    requires
        codes@.len() == params@.len() * 256,
    ensures
        out@ == affine_stream(params@, codes@, 256, Width::Three),
{
    write_affine(params, codes, 256, Width::Three)
}

/// HFQ3-G128: 128 three-bit codes in 56 bytes.
pub fn quantize_hfq3g128(params: &[Affine], codes: &[u8]) -> (out: Vec<u8>)
    requires
        codes@.len() == params@.len() * 128,
    ensures
        out@ == affine_stream(params@, codes@, 128, Width::Three),
{
    write_affine(params, codes, 128, Width::Three)
}

/// HFQ6-G256: 256 six-bit codes in 200 bytes.
pub fn quantize_hfq6g256(params: &[Affine], codes: &[u8]) -> (out: Vec<u8>)
    requires
        codes@.len() == params@.len() * 256,
    ensures
        out@ == affine_stream(params@, codes@, 256, Width::Six),
{
    write_affine(params, codes, 256, Width::Six)
}

/// MQ4-G256: the layout of HFQ4-G256 on rotated groups.
pub fn quantize_mq4g256(params: &[Affine], codes: &[u8]) -> (out: Vec<u8>)
    requires
        codes@.len() == params@.len() * 256,
    ensures
        out@ == affine_stream(params@, codes@, 256, Width::Four),
{
    write_affine(params, codes, 256, Width::Four)
}

/// MQ6-G256: the layout of HFQ6-G256 on rotated groups.
pub fn quantize_mq6g256(params: &[Affine], codes: &[u8]) -> (out: Vec<u8>)
    requires
        codes@.len() == params@.len() * 256,
    ensures
        out@ == affine_stream(params@, codes@, 256, Width::Six),
{
    write_affine(params, codes, 256, Width::Six)
}

/// MQ3-G256: the layout of HFQ3-G256 on rotated groups.
pub fn quantize_mq3g256(params: &[Affine], codes: &[u8]) -> (out: Vec<u8>)
    requires
        codes@.len() == params@.len() * 256,
    ensures
        out@ == affine_stream(params@, codes@, 256, Width::Three),
{
    write_affine(params, codes, 256, Width::Three)
}

/// MQ2-G256: the layout of HFQ2-G256 on rotated groups.
pub fn quantize_mq2g256(params: &[Affine], codes: &[u8]) -> (out: Vec<u8>)
    requires
        codes@.len() == params@.len() * 256,
    ensures
        out@ == affine_stream(params@, codes@, 256, Width::Two),
{
    write_affine(params, codes, 256, Width::Two)
}

/// The size in bytes of an affine group of `group` codes.
pub open spec fn affine_size(group: int, w: Width) -> int {
    match w {
        Width::One => 8 + group / 8,
        Width::Two => 8 + group / 4,
        Width::Three => 8 + group / 8 * 3,
        Width::Four => 8 + group / 2,
        Width::Six => 8 + group / 4 * 3,
    }
}

proof fn lemma_affine_block_len(params: Affine, codes: Seq<u8>, w: Width)
    requires
        in_chunks(codes.len() as int, w),
    ensures
        affine_block(params, codes, w).len() == affine_size(codes.len() as int, w),
{
    let c = clamped(codes, base(w) - 1);
    lemma_packed_len(c, w);
}

/// A tensor of affine groups can be read back: group `b` stands at `b` times
/// the block size, and gives its scale, its zero point and its codes.
pub proof fn law_affine_reads_back(
    params: Seq<Affine>,
    codes: Seq<u8>,
    group: int,
    w: Width,
    b: int,
)
    requires
        group >= 0,
        codes.len() == params.len() * group,
        in_chunks(group, w),
        0 <= b < params.len(),
    ensures
        ({
            let size = affine_size(group, w);
            let stream = affine_stream(params, codes, group, w);
            let block = stream.subrange(b * size, b * size + size);
            &&& stream.len() == params.len() * size
            &&& 0 <= b * size
            &&& b * size + size <= stream.len()
            &&& read4(block, 0) == params[b].scale
            &&& read4(block, 4) == params[b].zero
            &&& unpacked(block.skip(8), w) == clamped(codes_of(codes, b, group), base(w) - 1)
        }),
{
    let size = affine_size(group, w);
    let all = affine_groups(params, codes, group, w);
    assert forall|i: int| 0 <= i < all.len() implies (#[trigger] all[i]).len() == size by {
        lemma_group_bounds(params.len() as int, group, i);
        lemma_affine_block_len(params[i], codes_of(codes, i, group), w);
    }
    law_concat_at(all, size, b);
    let block = all[b];
    lemma_group_bounds(params.len() as int, group, b);
    let mine = clamped(codes_of(codes, b, group), base(w) - 1);
    law_pack_round_trip(mine, w);
    assert(block.subrange(0, 4) =~= le4(params[b].scale));
    assert(block.subrange(4, 8) =~= le4(params[b].zero));
    law_le4_round_trip(block, 0, params[b].scale);
    law_le4_round_trip(block, 4, params[b].zero);
    assert(block.skip(8) =~= packed(mine, w));
}

proof fn lemma_affine_code(
    params: Seq<Affine>,
    codes: Seq<u8>,
    group: int,
    w: Width,
    b: int,
    i: int,
)
    requires
        group == 128 || group == 256,
        codes.len() == params.len() * group,
        0 <= b < params.len(),
        0 <= i < group,
    ensures
        ({
            let out = affine_stream(params, codes, group, w);
            let size = affine_size(group, w);
            let code = codes[b * group + i] as int;
            &&& out.len() == params.len() * size
            &&& 0 <= b * size
            &&& b * size + size <= out.len()
            &&& read4(out, b * size) == params[b].scale
            &&& read4(out, b * size + 4) == params[b].zero
            &&& unpacked(out.subrange(b * size + 8, b * size + size), w)[i] == (if code > base(w)
                - 1 {
                base(w) - 1
            } else {
                code
            })
        }),
{
    let out = affine_stream(params, codes, group, w);
    let size = affine_size(group, w);
    law_affine_reads_back(params, codes, group, w, b);
    let block = out.subrange(b * size, b * size + size);
    assert(read4(out, b * size) == read4(block, 0));
    assert(read4(out, b * size + 4) == read4(block, 4));
    lemma_group_bounds(params.len() as int, group, b);
    assert(codes_of(codes, b, group)[i] == codes[b * group + i]);
    assert(block.skip(8) =~= out.subrange(b * size + 8, b * size + size));
    assert(unpacked(block.skip(8), w)[i] == clamped(codes_of(codes, b, group), base(w) - 1)[i]);
}

/// The bytes of a tensor of two-bit affine groups, four codes to a byte: the scale of a group
/// stands first, its zero point at byte 4, and its codes, cut to the largest that
/// fits, from byte 8 on, the first in the lowest bits.
pub proof fn law_two_bit_layout(
    params: Seq<Affine>,
    codes: Seq<u8>,
    group: int,
    b: int,
    i: int,
)
    requires
        group == 128 || group == 256,
        codes.len() == params.len() * group,
        0 <= b < params.len(),
        0 <= i < group,
    ensures
        ({
            let out = affine_stream(params, codes, group, Width::Two);
            let at = b * (8 + group / 4);
            let p = at + 8 + i / 4;
            let code = codes[b * group + i] as int;
            &&& out.len() == params.len() * (8 + group / 4)
            &&& read4(out, at) == params[b].scale
            &&& read4(out, at + 4) == params[b].zero
            &&& out[p] as int / pow(4, (i % 4) as nat) % 4 == (if code > 3 {
                3
            } else {
                code
            })
        }),
{
    let out = affine_stream(params, codes, group, Width::Two);
    let size = 8 + group / 4;
    let at = b * size;
    let tail = out.subrange(at + 8, at + size);
    lemma_affine_code(params, codes, group, Width::Two, b, i);
    law_code_position(tail, Width::Two, i);
    assert(tail[i / 4] == out[at + 8 + i / 4]);
}

/// The bytes of a tensor of three-bit affine groups, eight codes to three bytes: the scale of a group
/// stands first, its zero point at byte 4, and its codes, cut to the largest that
/// fits, from byte 8 on, the first in the lowest bits.
pub proof fn law_three_bit_layout(
    params: Seq<Affine>,
    codes: Seq<u8>,
    group: int,
    b: int,
    i: int,
)
    requires
        group == 128 || group == 256,
        codes.len() == params.len() * group,
        0 <= b < params.len(),
        0 <= i < group,
    ensures
        ({
            let out = affine_stream(params, codes, group, Width::Three);
            let at = b * (8 + group / 8 * 3);
            let p = at + 8 + i / 8 * 3;
            let code = codes[b * group + i] as int;
            &&& out.len() == params.len() * (8 + group / 8 * 3)
            &&& read4(out, at) == params[b].scale
            &&& read4(out, at + 4) == params[b].zero
            &&& (out[p] + 256 * out[p + 1] + 0x1_0000 * out[p + 2]) / pow(
                8,
                (i % 8) as nat,
            ) % 8 == (if code > 7 {
                7
            } else {
                code
            })
        }),
{
    let out = affine_stream(params, codes, group, Width::Three);
    let size = 8 + group / 8 * 3;
    let at = b * size;
    let tail = out.subrange(at + 8, at + size);
    lemma_affine_code(params, codes, group, Width::Three, b, i);
    law_code_position(tail, Width::Three, i);
    assert(tail[i / 8 * 3] == out[at + 8 + i / 8 * 3]);
    assert(tail[i / 8 * 3 + 1] == out[at + 8 + i / 8 * 3 + 1]);
    assert(tail[i / 8 * 3 + 2] == out[at + 8 + i / 8 * 3 + 2]);
}

/// The bytes of a tensor of four-bit affine groups, two codes to a byte: the scale of a group
/// stands first, its zero point at byte 4, and its codes, cut to the largest that
/// fits, from byte 8 on, the first in the lowest bits.
pub proof fn law_four_bit_layout(
    params: Seq<Affine>,
    codes: Seq<u8>,
    group: int,
    b: int,
    i: int,
)
    requires
        group == 128 || group == 256,
        codes.len() == params.len() * group,
        0 <= b < params.len(),
        0 <= i < group,
    ensures
        ({
            let out = affine_stream(params, codes, group, Width::Four);
            let at = b * (8 + group / 2);
            let p = at + 8 + i / 2;
            let code = codes[b * group + i] as int;
            &&& out.len() == params.len() * (8 + group / 2)
            &&& read4(out, at) == params[b].scale
            &&& read4(out, at + 4) == params[b].zero
            &&& out[p] as int / pow(16, (i % 2) as nat) % 16 == (if code > 15 {
                15
            } else {
                code
            })
        }),
{
    let out = affine_stream(params, codes, group, Width::Four);
    let size = 8 + group / 2;
    let at = b * size;
    let tail = out.subrange(at + 8, at + size);
    lemma_affine_code(params, codes, group, Width::Four, b, i);
    law_code_position(tail, Width::Four, i);
    assert(tail[i / 2] == out[at + 8 + i / 2]);
}

/// The bytes of a tensor of six-bit affine groups, four codes to three bytes: the scale of a group
/// stands first, its zero point at byte 4, and its codes, cut to the largest that
/// fits, from byte 8 on, the first in the lowest bits.
pub proof fn law_six_bit_layout(
    params: Seq<Affine>,
    codes: Seq<u8>,
    group: int,
    b: int,
    i: int,
)
    requires
        group == 128 || group == 256,
        codes.len() == params.len() * group,
        0 <= b < params.len(),
        0 <= i < group,
    ensures
        ({
            let out = affine_stream(params, codes, group, Width::Six);
            let at = b * (8 + group / 4 * 3);
            let p = at + 8 + i / 4 * 3;
            let code = codes[b * group + i] as int;
            &&& out.len() == params.len() * (8 + group / 4 * 3)
            &&& read4(out, at) == params[b].scale
            &&& read4(out, at + 4) == params[b].zero
            &&& (out[p] + 256 * out[p + 1] + 0x1_0000 * out[p + 2]) / pow(
                64,
                (i % 4) as nat,
            ) % 64 == (if code > 63 {
                63
            } else {
                code
            })
        }),
{
    let out = affine_stream(params, codes, group, Width::Six);
    let size = 8 + group / 4 * 3;
    let at = b * size;
    let tail = out.subrange(at + 8, at + size);
    lemma_affine_code(params, codes, group, Width::Six, b, i);
    law_code_position(tail, Width::Six, i);
    assert(tail[i / 4 * 3] == out[at + 8 + i / 4 * 3]);
    assert(tail[i / 4 * 3 + 1] == out[at + 8 + i / 4 * 3 + 1]);
    assert(tail[i / 4 * 3 + 2] == out[at + 8 + i / 4 * 3 + 2]);
}

/// Reads group `b` of a tensor in HFQ4: its parameters and its codes. By
/// `law_affine_reads_back` they are those that were written.
pub fn read_hfq4(data: &[u8], b: usize, group: usize) -> (r: (Affine, Vec<u8>))
    requires
        group == 128 || group == 256,
        (b + 1) * affine_size(group as int, Width::Four) <= data@.len(),
    ensures
        ({
            let size = affine_size(group as int, Width::Four);
            let block = data@.subrange(b * size, b * size + size);
            &&& r.0.scale == read4(block, 0)
            &&& r.0.zero == read4(block, 4)
            &&& r.1@ == unpacked(block.skip(8), Width::Four)
            &&& r.1@.len() == group
        }),
        ({
            let at = b * (8 + group as int / 2);
            &&& r.0.scale == read4(data@, at)
            &&& r.0.zero == read4(data@, at + 4)
            &&& forall|i: int|
                #![trigger r.1@[i]]
                0 <= i < group ==> r.1@[i] == (if i % 2 == 0 {
                    data@[at + 8 + i / 2] as int % 16
                } else {
                    data@[at + 8 + i / 2] as int / 16
                })
        }),
{
    let size: usize = 8 + group / 2;
    let n: usize = data.len();
    assert(0 <= b * size && b * size + size == (b + 1) * size) by (nonlinear_arith);
    let at: usize = b * size;
    let ghost block = data@.subrange(at as int, at + size);
    let codes = slice_subrange(data, at + 8, at + size);
    assert(codes@ =~= block.skip(8));
    let scale = get_le4(data, at);
    let zero = get_le4(data, at + 4);
    proof {
        lemma_unpacked_len(codes@, Width::Four);
    }
    let out = unpack(codes, Width::Four);
    proof {
        assert forall|i: int| #![trigger out@[i]] 0 <= i < group implies out@[i] == (if i % 2 == 0 {
            data@[at + 8 + i / 2] as int % 16
        } else {
            data@[at + 8 + i / 2] as int / 16
        }) by {
            law_code_position(codes@, Width::Four, i);
            reveal_with_fuel(pow, 2);
            assert(codes@[i / 2] == data@[at + 8 + i / 2]);
        }
    }
    (Affine { scale, zero }, out)
}

// Blocks of signed bytes under an `f16` scale.

/// The two's complement byte of `q`.
pub open spec fn byte_of(q: i8) -> u8 {
    if q < 0 {
        (q + 256) as u8
    } else {
        q as u8
    }
}

/// The number that a two's complement byte stands for.
pub open spec fn signed(byte: u8) -> int {
    if byte < 128 {
        byte as int
    } else {
        byte - 256
    }
}

/// The byte of a signed number stands for that number.
pub proof fn law_signed_byte_round_trip(q: i8)
    ensures
        signed(byte_of(q)) == q,
        byte_of(q) == q as int % 256,
{
}

/// A byte stands for the number between -128 and 127 that it is congruent to.
pub proof fn law_signed_byte_values(byte: u8)
    ensures
        -128 <= signed(byte) <= 127,
        signed(byte) % 256 == byte,
{
}

/// The bytes of signed numbers.
pub open spec fn bytes_of(qs: Seq<i8>) -> Seq<u8> {
    Seq::new(qs.len(), |i: int| byte_of(qs[i]))
}

/// The bytes of one group of signed bytes.
pub open spec fn scaled_block(scale: u32, qs: Seq<i8>) -> Seq<u8> {
    le2(truncate16(scale)) + bytes_of(qs)
}

/// The groups of signed bytes of a tensor.
pub open spec fn scaled_groups(scales: Seq<u32>, qs: Seq<i8>, group: int) -> Seq<Seq<u8>> {
    Seq::new(scales.len(), |b: int| scaled_block(scales[b], codes_of(qs, b, group)))
}

/// The two's complement byte of `q`.
pub fn to_byte(q: i8) -> (r: u8)
    ensures
        r == byte_of(q),
        r == q as int % 256,
{
    if q < 0 {
        (q as i16 + 256) as u8
    } else {
        q as u8
    }
}

/// The number that a two's complement byte stands for.
pub fn from_byte(byte: u8) -> (r: i8)
    ensures
        r == signed(byte),
        r as int % 256 == byte,
{
    if byte < 128 {
        byte as i8
    } else {
        (byte as i16 - 256) as i8
    }
}

/// Appends the bytes of `qs` from `from` to `to`.
fn push_signed(out: &mut Vec<u8>, qs: &[i8], from: usize, to: usize)
    requires
        from <= to <= qs@.len(),
    ensures
        final(out)@ == old(out)@ + bytes_of(qs@.subrange(from as int, to as int)),
{
    let mut i: usize = from;
    while i < to
        invariant
            from <= i <= to <= qs@.len(),
            out@ =~= old(out)@ + bytes_of(qs@.subrange(from as int, i as int)),
        decreases to - i,
    {
        out.push(to_byte(qs[i]));
        assert(bytes_of(qs@.subrange(from as int, i + 1)) =~= bytes_of(
            qs@.subrange(from as int, i as int),
        ).push(byte_of(qs@[i as int])));
        i = i + 1;
    }
}

/// Lays out groups of `group` signed bytes each.
fn write_scaled(scales: &[u32], qs: &[i8], group: usize) -> (out: Vec<u8>)
    requires
        qs@.len() == scales@.len() * group,
    ensures
        out@ == concat(scaled_groups(scales@, qs@, group as int)),
{
    let n: usize = scales.len();
    let mut out: Vec<u8> = Vec::new();
    let mut b: usize = 0;
    let mut at: usize = 0;
    let ghost all = scaled_groups(scales@, qs@, group as int);
    assert(all.take(0) =~= Seq::empty());
    assert(0 * group == 0) by (nonlinear_arith);
    while b < n
        invariant
            b <= n,
            n == scales@.len(),
            at == b * group,
            qs@.len() == n * group,
            all == scaled_groups(scales@, qs@, group as int),
            out@ == concat(all.take(b as int)),
        decreases n - b,
    {
        proof {
            lemma_group_bounds(n as int, group as int, b as int);
        }
        let total: usize = qs.len();
        push_le2(&mut out, f32_to_f16(scales[b]));
        push_signed(&mut out, qs, at, at + group);
        proof {
            assert(all.take(b + 1) =~= all.take(b as int).push(all[b as int]));
            lemma_concat_push(all.take(b as int), all[b as int]);
            assert(out@ =~= concat(all.take(b as int)) + all[b as int]);
        }
        at = at + group;
        b = b + 1;
    }
    assert(all.take(n as int) =~= all);
    out
}

/// Q8_0: 32 signed bytes in 34 bytes.
pub fn quantize_q8f16(scales: &[u32], qs: &[i8]) -> (out: Vec<u8>)
    requires
        qs@.len() == scales@.len() * 32,
    ensures
        out@ == concat(scaled_groups(scales@, qs@, 32)),
{
    write_scaled(scales, qs, 32)
}

/// The numbers brought into the four-bit range, -8 to 7.
pub open spec fn four_bit(qs: Seq<i8>) -> Seq<i8> {
    Seq::new(qs.len(), |i: int| if qs[i] < -8 {
        -8i8
    } else if qs[i] > 7 {
        7
    } else {
        qs[i]
    })
}

/// A number outside the four-bit range is brought to the nearer end of it; every
/// other one stays.
pub proof fn law_four_bit_numbers(qs: Seq<i8>, i: int)
    requires
        0 <= i < qs.len(),
    ensures
        four_bit(qs).len() == qs.len(),
        -8 <= four_bit(qs)[i] <= 7,
        -8 <= qs[i] <= 7 ==> four_bit(qs)[i] == qs[i],
        qs[i] < -8 ==> four_bit(qs)[i] == -8,
        qs[i] > 7 ==> four_bit(qs)[i] == 7,
{
}

/// Four-bit numbers, -8 to 7, in the layout of Q8_0.
pub fn quantize_q4_as_q8(scales: &[u32], qs: &[i8]) -> (out: Vec<u8>)
    requires
        qs@.len() == scales@.len() * 32,
    ensures
        out@ == concat(scaled_groups(scales@, four_bit(qs@), 32)),
{
    let n: usize = qs.len();
    let mut small: Vec<i8> = Vec::new();
    let mut i: usize = 0;
    while i < n
        invariant
            i <= n,
            n == qs@.len(),
            small@ == four_bit(qs@).take(i as int),
        decreases n - i,
    {
        let q: i8 = qs[i];
        small.push(
            if q < -8 {
                -8
            } else if q > 7 {
                7
            } else {
                q
            },
        );
        assert(four_bit(qs@).take(i + 1) =~= four_bit(qs@).take(i as int).push(
            four_bit(qs@)[i as int],
        ));
        i = i + 1;
    }
    assert(four_bit(qs@).take(n as int) =~= four_bit(qs@));
    write_scaled(scales, small.as_slice(), 32)
}

/// MQ8-G256: 256 signed bytes in 258 bytes, on rotated groups.
pub fn quantize_mq8g256(scales: &[u32], qs: &[i8]) -> (out: Vec<u8>)
    requires
        qs@.len() == scales@.len() * 256,
    ensures
        out@ == concat(scaled_groups(scales@, qs@, 256)),
{
    write_scaled(scales, qs, 256)
}

/// A tensor of signed groups can be read back: group `b` stands at `b` times the
/// block size, and gives its scale, cut to an `f16`, and its numbers.
pub proof fn law_scaled_reads_back(scales: Seq<u32>, qs: Seq<i8>, group: int, b: int, i: int)
    requires
        qs.len() == scales.len() * group,
        0 <= b < scales.len(),
        0 <= i < group,
    ensures
        ({
            let size = 2 + group;
            let stream = concat(scaled_groups(scales, qs, group));
            let block = stream.subrange(b * size, b * size + size);
            &&& stream.len() == scales.len() * size
            &&& 0 <= b * size
            &&& b * size + size <= stream.len()
            &&& read2(block, 0) == truncate16(scales[b])
            &&& signed(block[2 + i]) == qs[b * group + i]
        }),
{
    let all = scaled_groups(scales, qs, group);
    assert forall|j: int| 0 <= j < all.len() implies (#[trigger] all[j]).len() == 2 + group by {
        lemma_group_bounds(scales.len() as int, group, j);
    }
    law_concat_at(all, 2 + group, b);
    lemma_group_bounds(scales.len() as int, group, b);
    let block = all[b];
    assert(block.subrange(0, 2) =~= le2(truncate16(scales[b])));
    law_le2_round_trip(block, 0, truncate16(scales[b]));
    law_signed_byte_round_trip(qs[b * group + i]);
    assert(block[2 + i] == byte_of(qs[b * group + i]));
}

/// Signed numbers are written one to a byte, in their order.
pub proof fn law_signed_numbers_are_bytes(qs: Seq<i8>, i: int)
    requires
        0 <= i < qs.len(),
    ensures
        bytes_of(qs).len() == qs.len(),
        bytes_of(qs)[i] == qs[i] as int % 256,
{
}

/// A group without a number has an empty range, from infinity down to minus infinity,
/// and the magnitude zero.
pub proof fn law_empty_range(s: Seq<u32>)
    requires
        forall|i: int| 0 <= i < s.len() ==> is_nan32(#[trigger] s[i]),
    ensures
        lowest(s) == 0x7f80_0000,
        highest(s) == 0xff80_0000,
        peak(s) == 0,
{
    law_range_holds_group(s);
    law_peak_bounds_group(s);
    if s.contains(lowest(s)) {
        let i = choose|i: int| 0 <= i < s.len() && s[i] == lowest(s);
        assert(is_nan32(s[i]));
    }
    if s.contains(highest(s)) {
        let i = choose|i: int| 0 <= i < s.len() && s[i] == highest(s);
        assert(is_nan32(s[i]));
    }
    if peak(s) != 0 {
        let i = choose|i: int| 0 <= i < s.len() && #[trigger] abs32(s[i]) == peak(s);
        assert(is_nan32(s[i]));
    }
}

} // verus!
