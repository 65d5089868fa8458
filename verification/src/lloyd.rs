//! Codebook quantization by Lloyd's algorithm: seeding, assignment, when to
//! stop, the canonical codebook, and the byte layout.
//!
//! Distances and means are floating-point and come from the caller; what is
//! decided from them is decided here.
#[allow(unused_imports)]
use vstd::arithmetic::power::pow;
use vstd::prelude::*;

#[allow(unused_imports)]
use crate::blocks::{blocks_for, codes_of, concat, law_concat_at, lemma_concat_push};
use crate::blocks::{block_count, push_bytes};
use crate::bytes::{get_le2, push_le2};
#[allow(unused_imports)]
use crate::bytes::{law_le2_round_trip, le2, read2};
use crate::ieee::{f16_to_f32, f32_less, f32_to_fp16_bits};
#[allow(unused_imports)]
use crate::ieee::{
    half_key, is_less, is_nan32, law_rounding_keeps_order, nearest16, order_key, widen,
};
use crate::order::{order_by, FloatKeys};
#[allow(unused_imports)]
use crate::order::{before, float_less, is_order, law_order_is_permutation, Keys};
use crate::pack::{pack, unpack, Width};
#[allow(unused_imports)]
use crate::pack::{
    all_below, base, clamped, law_code_position, law_pack_round_trip, lemma_packed_len,
    lemma_unpacked_len, packed, unpacked,
};

verus! {

/// The most rounds a fit takes.
pub const MAX_ROUNDS: u8 = 8;

// Seeding.

/// The values in the order of a sorted list of positions.
pub open spec fn arranged(values: Seq<u32>, order: Seq<usize>) -> Seq<u32> {
    Seq::new(order.len(), |i: int| values[order[i] as int])
}

/// The values from the smallest to the largest, with the order that sorts them.
pub fn sorted_values(values: &[u32]) -> (r: (Vec<usize>, Vec<u32>))
    ensures
        is_order(float_less(values@), values@.len(), r.0@),
        r.1@ == arranged(values@, r.0@),
        r.1@.len() == values@.len(),
        forall|i: int, j: int|
            #![trigger r.1@[i], r.1@[j]]
            0 <= i < j < r.1@.len() ==> !is_less(r.1@[j], r.1@[i]),
        forall|i: int| #![trigger r.1@[i]] 0 <= i < r.1@.len() ==> r.1@[i] == values@[r.0@[i] as int],
{
    let keys = FloatKeys { values };
    let order = order_by(&keys, values.len());
    let n: usize = order.len();
    let mut out: Vec<u32> = Vec::new();
    let mut i: usize = 0;
    while i < n
        invariant
            i <= n,
            n == order@.len(),
            is_order(float_less(values@), values@.len(), order@),
            out@ =~= arranged(values@, order@).take(i as int),
        decreases n - i,
    {
        out.push(values[order[i]]);
        assert(arranged(values@, order@).take(i + 1) =~= arranged(values@, order@).take(
            i as int,
        ).push(values@[order@[i as int] as int]));
        i = i + 1;
    }
    assert(arranged(values@, order@).take(n as int) =~= arranged(values@, order@));
    proof {
        assert forall|a: int, b: int|
            #![trigger out@[a], out@[b]]
            0 <= a < b < out@.len() implies !is_less(out@[b], out@[a]) by {
            assert(before(float_less(values@), order@[a], order@[b]));
        }
    }
    (order, out)
}

/// The rank, among 256 sorted values, that seeds centroid `c` of `k`: the
/// fraction `(2c + 1) / 2k` of 255, rounded to the nearest.
pub open spec fn seed_rank(c: int, k: int) -> int {
    ((2 * c + 1) * 255 + k) / (2 * k)
}

proof fn lemma_seed_rank(c: int, k: int, r: int)
    requires
        k > 0,
        2 * k * r <= (2 * c + 1) * 255 + k < 2 * k * r + 2 * k,
    ensures
        seed_rank(c, k) == r,
{
    let a = (2 * c + 1) * 255 + k;
    assert(a / (2 * k) == r) by (nonlinear_arith)
        requires
            k > 0,
            2 * k * r <= a < 2 * k * r + 2 * k,
    ;
}

/// The first centroids of a group: evenly spaced percentiles of its sorted
/// values.
pub fn seed_centroids(sorted: &[u32], k: usize) -> (out: Vec<u32>)
    requires
        sorted@.len() == 256,
        0 < k <= 256,
    ensures
        out@.len() == k,
        forall|c: int| 0 <= c < k ==> 0 <= #[trigger] seed_rank(c, k as int) < 256,
        forall|c: int| 0 <= c < k ==> #[trigger] out@[c] == sorted@[seed_rank(c, k as int)],
        k == 4 ==> out@ == seq![sorted@[32], sorted@[96], sorted@[159], sorted@[223]],
        k == 8 ==> out@ == seq![
            sorted@[16],
            sorted@[48],
            sorted@[80],
            sorted@[112],
            sorted@[143],
            sorted@[175],
            sorted@[207],
            sorted@[239],
        ],
{
    let mut out: Vec<u32> = Vec::new();
    let mut c: usize = 0;
    while c < k
        invariant
            c <= k,
            0 < k <= 256,
            sorted@.len() == 256,
            out@.len() == c,
            forall|i: int| 0 <= i < c ==> 0 <= #[trigger] seed_rank(i, k as int) < 256,
            forall|i: int| 0 <= i < c ==> #[trigger] out@[i] == sorted@[seed_rank(i, k as int)],
        decreases k - c,
    {
        let rank: usize = ((2 * c + 1) * 255 + k) / (2 * k);
        assert(0 <= rank < 256) by (nonlinear_arith)
            requires
                rank == ((2 * c + 1) * 255 + k) / (2 * k),
                0 <= c < k,
        ;
        out.push(sorted[rank]);
        c = c + 1;
    }
    proof {
        if k == 4 {
            lemma_seed_rank(0, 4, 32);
            lemma_seed_rank(1, 4, 96);
            lemma_seed_rank(2, 4, 159);
            lemma_seed_rank(3, 4, 223);
            assert(out@ =~= seq![sorted@[32], sorted@[96], sorted@[159], sorted@[223]]);
        }
        if k == 8 {
            lemma_seed_rank(0, 8, 16);
            lemma_seed_rank(1, 8, 48);
            lemma_seed_rank(2, 8, 80);
            lemma_seed_rank(3, 8, 112);
            lemma_seed_rank(4, 8, 143);
            lemma_seed_rank(5, 8, 175);
            lemma_seed_rank(6, 8, 207);
            lemma_seed_rank(7, 8, 239);
            assert(out@ =~= seq![
                sorted@[16],
                sorted@[48],
                sorted@[80],
                sorted@[112],
                sorted@[143],
                sorted@[175],
                sorted@[207],
                sorted@[239],
            ]);
        }
    }
    out
}

/// The seeds are evenly spaced: centroid `c` of `k` starts at the rank that lies
/// within half a rank of the middle of the `c`-th of `k` equal parts of the group,
/// and the ranks ascend and mirror each other.
pub proof fn law_seeds_are_evenly_spaced(c: int, k: int)
    requires
        0 <= c < k <= 256,
    ensures
        -k <= 2 * k * seed_rank(c, k) - (2 * c + 1) * 255 <= k,
        0 <= seed_rank(c, k) < 256,
        c + 1 < k ==> seed_rank(c, k) <= seed_rank(c + 1, k),
        254 <= seed_rank(c, k) + seed_rank(k - 1 - c, k) <= 256,
{
    let a = (2 * c + 1) * 255 + k;
    let r = seed_rank(c, k);
    assert(2 * k * r <= a < 2 * k * r + 2 * k) by (nonlinear_arith)
        requires
            r == a / (2 * k),
            k > 0,
    ;
    assert(0 <= r < 256) by (nonlinear_arith)
        requires
            2 * k * r <= a < 2 * k * r + 2 * k,
            a == (2 * c + 1) * 255 + k,
            0 <= c < k,
    ;
    if c + 1 < k {
        let b = (2 * (c + 1) + 1) * 255 + k;
        assert(a / (2 * k) <= b / (2 * k)) by (nonlinear_arith)
            requires
                a <= b,
                k > 0,
        ;
    }
    let d = k - 1 - c;
    let e = (2 * d + 1) * 255 + k;
    let s = seed_rank(d, k);
    assert(2 * k * s <= e < 2 * k * s + 2 * k) by (nonlinear_arith)
        requires
            s == e / (2 * k),
            k > 0,
    ;
    assert(a + e == 2 * k * 256) by (nonlinear_arith)
        requires
            a == (2 * c + 1) * 255 + k,
            e == (2 * d + 1) * 255 + k,
            d == k - 1 - c,
    ;
    assert(254 <= r + s <= 256) by (nonlinear_arith)
        requires
            2 * k * r <= a < 2 * k * r + 2 * k,
            2 * k * s <= e < 2 * k * s + 2 * k,
            a + e == 2 * k * 256,
            k > 0,
    ;
}

/// Whether a group, given by its sorted values, has centroids to fit: its least
/// value is below its greatest. A constant group keeps its first centroids.
pub fn needs_fit(sorted: &[u32]) -> (r: bool)
    requires
        sorted@.len() == 256,
    ensures
        r == is_less(sorted@[0], sorted@[255]),
{
    f32_less(sorted[0], sorted[255])
}

/// Of numbers in ascending order, a group needs no fit if and only if all its
/// values are equal.
pub proof fn law_only_constant_groups_need_no_fit(sorted: Seq<u32>)
    requires
        sorted.len() == 256,
        forall|i: int| 0 <= i < 256 ==> !is_nan32(#[trigger] sorted[i]),
        forall|i: int, j: int|
            0 <= i <= j < 256 ==> !is_less(#[trigger] sorted[j], #[trigger] sorted[i]),
    ensures
        !is_less(sorted[0], sorted[255]) <==> forall|i: int|
            0 <= i < 256 ==> order_key(#[trigger] sorted[i]) == order_key(sorted[0]),
{
    assert forall|i: int| 0 <= i < 256 implies order_key(sorted[0]) <= order_key(
        #[trigger] sorted[i],
    ) <= order_key(sorted[255]) by {
        assert(!is_less(sorted[i], sorted[0]));
        assert(!is_less(sorted[255], sorted[i]));
    }
}

// Assignment.

/// The position of the smallest distance; the first of equal ones. A distance
/// that is no number is never smaller.
pub open spec fn nearest(distances: Seq<u32>) -> int
    decreases distances.len(),
{
    if distances.len() <= 1 {
        0
    } else {
        let p = nearest(distances.drop_last());
        if is_less(distances.last(), distances[p]) {
            distances.len() - 1
        } else {
            p
        }
    }
}

proof fn lemma_nearest_in_range(distances: Seq<u32>)
    requires
        distances.len() > 0,
    ensures
        0 <= nearest(distances) < distances.len(),
    decreases distances.len(),
{
    if distances.len() > 1 {
        lemma_nearest_in_range(distances.drop_last());
    }
}

/// No distance is smaller than the nearest, and none before it is as small.
pub proof fn law_nearest_is_first_smallest(distances: Seq<u32>, i: int)
    requires
        distances.len() > 0,
        forall|j: int| 0 <= j < distances.len() ==> !is_nan32(#[trigger] distances[j]),
        0 <= i < distances.len(),
    ensures
        0 <= nearest(distances) < distances.len(),
        order_key(distances[nearest(distances)]) <= order_key(distances[i]),
        i < nearest(distances) ==> order_key(distances[nearest(distances)]) < order_key(
            distances[i],
        ),
    decreases distances.len(),
{
    lemma_nearest_in_range(distances);
    if distances.len() > 1 {
        let rest = distances.drop_last();
        assert forall|j: int| 0 <= j < rest.len() implies !is_nan32(#[trigger] rest[j]) by {
            assert(rest[j] == distances[j]);
        }
        if i < rest.len() {
            law_nearest_is_first_smallest(rest, i);
        } else {
            lemma_nearest_in_range(rest);
            assert(!is_nan32(distances[i]));
        }
        assert(!is_nan32(distances[distances.len() - 1]));
        assert(!is_nan32(distances[nearest(rest)]));
    }
}

proof fn lemma_nearest_among_all(distances: Seq<u32>, i: int)
    requires
        0 <= i < distances.len(),
    ensures
        0 <= nearest(distances) < distances.len(),
        !is_less(distances[i], distances[nearest(distances)]),
        i < nearest(distances) && !is_nan32(distances[i]) ==> is_less(
            distances[nearest(distances)],
            distances[i],
        ),
        is_nan32(distances[0]) ==> nearest(distances) == 0,
        nearest(distances) > 0 ==> !is_nan32(distances[nearest(distances)]),
    decreases distances.len(),
{
    lemma_nearest_in_range(distances);
    if distances.len() > 1 {
        let rest = distances.drop_last();
        lemma_nearest_in_range(rest);
        if i < rest.len() {
            lemma_nearest_among_all(rest, i);
        } else {
            lemma_nearest_among_all(rest, 0);
        }
    }
}

/// The position of the smallest distance.
pub fn nearest_centroid(distances: &[u32]) -> (r: usize)
    requires
        distances@.len() > 0,
    ensures
        r == nearest(distances@),
        r < distances@.len(),
        forall|i: int|
            #![trigger distances@[i]]
            0 <= i < distances@.len() ==> !is_less(distances@[i], distances@[r as int]) && (i < r
                && !is_nan32(distances@[i]) ==> is_less(distances@[r as int], distances@[i])),
{
    let n: usize = distances.len();
    let mut best: usize = 0;
    let mut i: usize = 1;
    assert(distances@.take(1).len() == 1);
    while i < n
        invariant
            1 <= i <= n,
            n == distances@.len(),
            best < i,
            best == nearest(distances@.take(i as int)),
        decreases n - i,
    {
        assert(distances@.take(i + 1).drop_last() =~= distances@.take(i as int));
        if f32_less(distances[i], distances[best]) {
            best = i;
        }
        i = i + 1;
    }
    assert(distances@.take(n as int) =~= distances@);
    proof {
        assert forall|j: int|
            #![trigger distances@[j]]
            0 <= j < distances@.len() implies !is_less(distances@[j], distances@[best as int]) && (j
            < best && !is_nan32(distances@[j]) ==> is_less(
            distances@[best as int],
            distances@[j],
        )) by {
            lemma_nearest_among_all(distances@, j);
        }
    }
    best
}

/// The nearest centroid of each value, given the `k` distances of each.
pub open spec fn assignment(distances: Seq<u32>, k: int, n: int) -> Seq<u8> {
    Seq::new(n as nat, |i: int| nearest(codes_of(distances, i, k)) as u8)
}

/// Assigns each of `n` values to the nearest of `k` centroids. The distances of
/// value `i` stand at `k * i`.
pub fn assign(distances: &[u32], k: usize, n: usize) -> (out: Vec<u8>)
    requires
        0 < k <= 256,
        distances@.len() == n * k,
    ensures
        out@ == assignment(distances@, k as int, n as int),
        out@.len() == n,
        forall|i: int| 0 <= i < n ==> #[trigger] out@[i] < k,
        forall|i: int, c: int|
            #![trigger out@[i], distances@[i * k + c]]
            0 <= i < n && 0 <= c < k ==> !is_less(
                distances@[i * k + c],
                distances@[i * k + out@[i]],
            ) && (c < out@[i] && !is_nan32(distances@[i * k + c]) ==> is_less(
                distances@[i * k + out@[i]],
                distances@[i * k + c],
            )),
{
    let total: usize = distances.len();
    let mut out: Vec<u8> = Vec::new();
    let mut i: usize = 0;
    let mut at: usize = 0;
    assert(0 * k == 0) by (nonlinear_arith);
    while i < n
        invariant
            i <= n,
            0 < k <= 256,
            total == distances@.len(),
            total == n * k,
            at == i * k,
            out@ =~= assignment(distances@, k as int, n as int).take(i as int),
            forall|j: int| 0 <= j < i ==> #[trigger] out@[j] < k,
        decreases n - i,
    {
        assert(at + k <= n * k && at + k == (i + 1) * k) by (nonlinear_arith)
            requires
                at == i * k,
                i < n,
        ;
        let ghost mine = codes_of(distances@, i as int, k as int);
        let mut row: Vec<u32> = Vec::new();
        let mut c: usize = 0;
        while c < k
            invariant
                c <= k,
                total == distances@.len(),
                at + k <= total,
                at == i * k,
                mine == codes_of(distances@, i as int, k as int),
                row@ =~= mine.take(c as int),
            decreases k - c,
        {
            row.push(distances[at + c]);
            assert(mine.take(c + 1) =~= mine.take(c as int).push(mine[c as int]));
            c = c + 1;
        }
        assert(row@ =~= mine);
        let best: usize = nearest_centroid(row.as_slice());
        let ghost old_out = out@;
        out.push(best as u8);
        proof {
            let all = assignment(distances@, k as int, n as int);
            assert(all.take(i + 1) =~= all.take(i as int).push(all[i as int]));
            assert forall|j: int| 0 <= j < i + 1 implies #[trigger] out@[j] < k by {
                if j < i {
                    assert(out@[j] == old_out[j]);
                }
            }
        }
        at = at + k;
        i = i + 1;
    }
    let ghost all = assignment(distances@, k as int, n as int);
    assert(all.take(n as int) =~= all);
    proof {
        assert forall|i: int, c: int|
            #![trigger out@[i], distances@[i * k + c]]
            0 <= i < n && 0 <= c < k implies !is_less(
            distances@[i * k + c],
            distances@[i * k + out@[i]],
        ) && (c < out@[i] && !is_nan32(distances@[i * k + c]) ==> is_less(
            distances@[i * k + out@[i]],
            distances@[i * k + c],
        )) by {
            law_assigned_centroid_is_nearest(distances@, k as int, n as int, i, c);
        }
    }
    out
}

/// Every value is given the nearest of all `k` centroids, the first of equally
/// near ones: no distance of value `i`, which stand at `i * k`, is smaller than
/// the one to its centroid, and none before it is as small. Where the first
/// distance is no number, the first centroid stays.
pub proof fn law_assigned_centroid_is_nearest(
    distances: Seq<u32>,
    k: int,
    n: int,
    i: int,
    c: int,
)
    requires
        0 < k <= 256,
        distances.len() == n * k,
        0 <= i < n,
        0 <= c < k,
    ensures
        assignment(distances, k, n).len() == n,
        0 <= assignment(distances, k, n)[i] < k,
        !is_less(distances[i * k + c], distances[i * k + assignment(distances, k, n)[i]]),
        c < assignment(distances, k, n)[i] && !is_nan32(distances[i * k + c]) ==> is_less(
            distances[i * k + assignment(distances, k, n)[i]],
            distances[i * k + c],
        ),
        is_nan32(distances[i * k]) ==> assignment(distances, k, n)[i] == 0,
        assignment(distances, k, n)[i] > 0 ==> !is_nan32(
            distances[i * k + assignment(distances, k, n)[i]],
        ),
{
    let row = codes_of(distances, i, k);
    assert(0 <= i * k && i * k + k <= n * k) by (nonlinear_arith)
        requires
            0 <= i < n,
            k > 0,
    ;
    lemma_nearest_among_all(row, c);
    let p = nearest(row);
    assert(row[p] == distances[i * k + p]);
    assert(row[c] == distances[i * k + c]);
    assert(row[0] == distances[i * k + 0]);
}

/// How many values are assigned to centroid `c`.
pub open spec fn members(assigned: Seq<u8>, c: int) -> nat
    decreases assigned.len(),
{
    if assigned.len() == 0 {
        0
    } else {
        members(assigned.drop_last(), c) + (if assigned.last() == c {
            1nat
        } else {
            0
        })
    }
}

/// The members of a centroid are the values that are assigned to it, wherever
/// they stand.
pub proof fn law_members_are_occurrences(assigned: Seq<u8>, c: u8)
    ensures
        members(assigned, c as int) == assigned.to_multiset().count(c),
    decreases assigned.len(),
{
    assigned.to_multiset_ensures();
    if assigned.len() > 0 {
        let rest = assigned.drop_last();
        law_members_are_occurrences(rest, c);
        rest.to_multiset_ensures();
        assert(rest.push(assigned.last()) =~= assigned);
    } else {
        assert(assigned.to_multiset().len() == 0);
    }
}

/// Counts the values of each of `k` centroids.
pub fn count_members(assigned: &[u8], k: usize) -> (out: Vec<usize>)
    requires
        0 < k <= 256,
    ensures
        out@.len() == k,
        forall|c: int| 0 <= c < k ==> #[trigger] out@[c] == members(assigned@, c),
{
    let n: usize = assigned.len();
    let mut out: Vec<usize> = Vec::new();
    let mut c: usize = 0;
    while c < k
        invariant
            c <= k,
            n == assigned@.len(),
            k <= 256,
            out@.len() == c,
            forall|x: int| 0 <= x < c ==> #[trigger] out@[x] == members(assigned@, x),
        decreases k - c,
    {
        let mut count: usize = 0;
        let mut i: usize = 0;
        while i < n
            invariant
                i <= n,
                n == assigned@.len(),
                c < 256,
                count == members(assigned@.take(i as int), c as int),
                count <= i,
            decreases n - i,
        {
            assert(assigned@.take(i + 1).drop_last() =~= assigned@.take(i as int));
            if assigned[i] as usize == c {
                count = count + 1;
            }
            i = i + 1;
        }
        assert(assigned@.take(n as int) =~= assigned@);
        out.push(count);
        c = c + 1;
    }
    out
}

// Rounds.

/// What to do after an assignment.
#[derive(Clone, Copy, Debug, PartialEq, Eq, Structural)]
pub enum Step {
    /// Nothing changed: keep the centroids and stop.
    Settled,
    /// Move the centroids to the means of their members and assign once more.
    Again,
    /// Move the centroids to the means of their members and stop.
    Last,
}

/// The progress of a fit: how many assignments were made, and the last of them.
#[derive(Debug)]
pub struct Fit {
    pub rounds: u8,
    pub assigned: Vec<u8>,
}

/// The step that follows when a fit with these rounds and this assignment gets
/// the assignment `next`.
pub open spec fn step_after(rounds: u8, assigned: Seq<u8>, next: Seq<u8>) -> Step {
    if rounds > 0 && next == assigned {
        Step::Settled
    } else if rounds + 1 >= MAX_ROUNDS {
        Step::Last
    } else {
        Step::Again
    }
}

impl Fit {
    /// A fit before its first assignment.
    pub fn start() -> (r: Fit)
        ensures
            r.rounds == 0,
            r.assigned@.len() == 0,
    {
        Fit { rounds: 0, assigned: Vec::new() }
    }

    /// Takes the next assignment and says what to do.
    pub fn advance(&mut self, next: Vec<u8>) -> (r: Step)
        requires
            old(self).rounds < MAX_ROUNDS,
        ensures
            r == step_after(old(self).rounds, old(self).assigned@, next@),
            r == Step::Settled <==> old(self).rounds > 0 && next@ == old(self).assigned@,
            r == Step::Last <==> old(self).rounds == 7 && next@ != old(self).assigned@,
            final(self).assigned@ == next@,
            final(self).rounds == old(self).rounds + 1,
            r == Step::Again ==> final(self).rounds < MAX_ROUNDS,
    {
        let n: usize = next.len();
        let mut same: bool = self.assigned.len() == n;
        let mut i: usize = 0;
        while same && i < n
            invariant
                i <= n,
                n == next@.len(),
                same ==> self.assigned@.len() == n,
                same ==> self.assigned@.take(i as int) =~= next@.take(i as int),
                !same ==> self.assigned@ != next@,
                self.rounds == old(self).rounds,
                self.assigned@ == old(self).assigned@,
            decreases n - i,
        {
            if self.assigned[i] != next[i] {
                same = false;
            } else {
                assert(next@.take(i + 1) =~= next@.take(i as int).push(next@[i as int]));
                assert(self.assigned@.take(i + 1) =~= self.assigned@.take(i as int).push(
                    self.assigned@[i as int],
                ));
            }
            i = i + 1;
        }
        proof {
            if same {
                assert(next@.take(n as int) =~= next@);
                assert(self.assigned@.take(n as int) =~= self.assigned@);
            }
        }
        let first: bool = self.rounds == 0;
        let step = if !first && same {
            Step::Settled
        } else if self.rounds + 1 >= MAX_ROUNDS {
            Step::Last
        } else {
            Step::Again
        };
        self.assigned = next;
        self.rounds = self.rounds + 1;
        step
    }
}

// The canonical codebook.

/// A codebook in canonical form: the centroids ascend, and the indices point to
/// the same values as before.
#[derive(Debug)]
pub struct Codebook {
    pub centroids: Vec<u32>,
    pub indices: Vec<u8>,
}

impl Codebook {
    /// A codebook of `k` centroids for a whole group.
    pub open spec fn valid(&self, k: int) -> bool {
        &&& self.centroids@.len() == k
        &&& self.indices@.len() == 256
        &&& all_below(self.indices@, k)
    }
}

/// Sorts the centroids and lets every index follow its centroid. Equal centroids
/// keep their order.
pub fn canonical(centroids: &[u32], indices: &[u8]) -> (r: (Vec<usize>, Codebook))
    requires
        0 < centroids@.len() <= 256,
        all_below(indices@, centroids@.len() as int),
    ensures
        is_order(float_less(centroids@), centroids@.len(), r.0@),
        r.1.centroids@ == arranged(centroids@, r.0@),
        r.1.indices@.len() == indices@.len(),
        all_below(r.1.indices@, centroids@.len() as int),
        forall|i: int|
            #![trigger r.1.indices@[i]]
            0 <= i < indices@.len() ==> r.0@[r.1.indices@[i] as int] == indices@[i],
        forall|i: int|
            #![trigger r.1.indices@[i]]
            0 <= i < indices@.len() ==> r.1.centroids@[r.1.indices@[i] as int]
                == centroids@[indices@[i] as int],
{
    let k: usize = centroids.len();
    let (order, sorted) = sorted_values(centroids);
    let mut inv: Vec<u8> = Vec::new();
    let mut c: usize = 0;
    while c < k
        invariant
            c <= k,
            k == centroids@.len(),
            k <= 256,
            is_order(float_less(centroids@), centroids@.len(), order@),
            inv@.len() == c,
            forall|x: int|
                #![trigger inv@[x]]
                0 <= x < c ==> inv@[x] < k && order@[inv@[x] as int] == x,
        decreases k - c,
    {
        let mut p: usize = 0;
        proof {
            FloatKeys { values: centroids }.compares();
            law_order_is_permutation(float_less(centroids@), centroids@.len(), order@, c);
        }
        let ghost want = choose|i: int| 0 <= i < order@.len() && order@[i] == c;
        while order[p] != c
            invariant
                p <= want < k,
                k == order@.len(),
                order@[want] == c,
            decreases want - p,
        {
            p = p + 1;
        }
        let ghost old_inv = inv@;
        inv.push(p as u8);
        proof {
            assert forall|x: int|
                #![trigger inv@[x]]
                0 <= x < c + 1 implies inv@[x] < k && order@[inv@[x] as int] == x by {
                if x < c {
                    assert(inv@[x] == old_inv[x]);
                }
            }
        }
        c = c + 1;
    }
    let n: usize = indices.len();
    let mut out: Vec<u8> = Vec::new();
    let mut i: usize = 0;
    while i < n
        invariant
            i <= n,
            n == indices@.len(),
            k == centroids@.len(),
            k == order@.len(),
            inv@.len() == k,
            all_below(indices@, k as int),
            forall|x: int|
                #![trigger inv@[x]]
                0 <= x < k ==> inv@[x] < k && order@[inv@[x] as int] == x,
            out@.len() == i,
            forall|x: int|
                #![trigger out@[x]]
                0 <= x < i ==> out@[x] < k && order@[out@[x] as int] == indices@[x],
        decreases n - i,
    {
        let old_index: u8 = indices[i];
        assert(indices@[i as int] < k);
        let ghost old_out = out@;
        out.push(inv[old_index as usize]);
        proof {
            assert forall|x: int|
                #![trigger out@[x]]
                0 <= x < i + 1 implies out@[x] < k && order@[out@[x] as int] == indices@[x] by {
                if x < i {
                    assert(out@[x] == old_out[x]);
                }
            }
        }
        i = i + 1;
    }
    (order, Codebook { centroids: sorted, indices: out })
}

/// The centroids of a canonical codebook ascend.
pub proof fn law_canonical_ascends(centroids: Seq<u32>, order: Seq<usize>, i: int, j: int)
    requires
        is_order(float_less(centroids), centroids.len(), order),
        0 <= i <= j < order.len(),
    ensures
        order_key(arranged(centroids, order)[i]) <= order_key(arranged(centroids, order)[j]),
{
    if i < j {
        assert(before(float_less(centroids), order[i], order[j]));
    }
}

// Importance weights.

/// Where the column weights of group `b` start, for rows of `columns` columns.
pub open spec fn column_start(b: int, columns: int) -> int {
    b % (columns / 256) * 256
}

/// Where the column weights of group `b` start.
pub fn column_offset(b: usize, columns: usize) -> (r: usize)
    requires
        columns >= 256,
    ensures
        r == column_start(b as int, columns as int),
        r + 256 <= columns,
        r % 256 == 0,
        columns % 256 == 0 ==> r == b * 256 % columns as int,
{
    let per_row: usize = columns / 256;
    let r: usize = b % per_row;
    assert(r < per_row);
    proof {
        if columns % 256 == 0 {
            law_columns_follow_groups(b as int, columns as int);
        }
    }
    r * 256
}

/// Where groups of 256 fill the rows, the column weights of a group start at the
/// column at which the group itself starts.
pub proof fn law_columns_follow_groups(b: int, columns: int)
    requires
        b >= 0,
        columns > 0,
        columns % 256 == 0,
    ensures
        column_start(b, columns) == b * 256 % columns,
{
    let per_row = columns / 256;
    let q = b / per_row;
    let r = b % per_row;
    assert(columns == per_row * 256);
    assert(b == per_row * q + r && 0 <= r < per_row) by (nonlinear_arith)
        requires
            per_row > 0,
            q == b / per_row,
            r == b % per_row,
    ;
    assert(b * 256 == q * columns + r * 256) by (nonlinear_arith)
        requires
            b == per_row * q + r,
            columns == per_row * 256,
    ;
    vstd::arithmetic::div_mod::lemma_fundamental_div_mod_converse(
        b * 256,
        columns,
        q,
        r * 256,
    );
}

// Layout.

/// The centroids as `f16` values.
pub open spec fn centroid_bytes(centroids: Seq<u32>) -> Seq<u8> {
    Seq::new(2 * centroids.len(), |i: int| le2(nearest16(centroids[i / 2]))[i % 2])
}

/// The bytes of one group: its centroids and its packed indices.
pub open spec fn codebook_block(book: Codebook, w: Width) -> Seq<u8> {
    centroid_bytes(book.centroids@) + packed(book.indices@, w)
}

/// The groups of a tensor.
pub open spec fn codebook_blocks(books: Seq<Codebook>, w: Width) -> Seq<Seq<u8>> {
    Seq::new(books.len(), |b: int| codebook_block(books[b], w))
}

fn write_codebook(book: &Codebook, w: Width) -> (out: Vec<u8>)
    requires
        book.valid(base(w)),
    ensures
        out@ == codebook_block(*book, w),
{
    let k: usize = book.centroids.len();
    let ghost head = centroid_bytes(book.centroids@);
    let mut out: Vec<u8> = Vec::new();
    let mut c: usize = 0;
    while c < k
        invariant
            c <= k,
            k == book.centroids@.len(),
            head == centroid_bytes(book.centroids@),
            out@ =~= head.take(2 * c),
        decreases k - c,
    {
        push_le2(&mut out, f32_to_fp16_bits(book.centroids[c]));
        proof {
            let two = le2(nearest16(book.centroids@[c as int]));
            assert(head[2 * c] == two[0]);
            assert(head[2 * c + 1] == two[1]);
            assert(head.take(2 * (c + 1)) =~= head.take(2 * c) + two);
        }
        c = c + 1;
    }
    assert(head.take(2 * k) =~= head);
    let data = pack(book.indices.as_slice(), w);
    assert(clamped(book.indices@, base(w) - 1) =~= book.indices@);
    push_bytes(&mut out, data.as_slice());
    out
}

fn write_codebooks(books: &[Codebook], w: Width) -> (out: Vec<u8>)
    requires
        forall|b: int| 0 <= b < books@.len() ==> (#[trigger] books@[b]).valid(base(w)),
    ensures
        out@ == concat(codebook_blocks(books@, w)),
{
    let n: usize = books.len();
    let mut out: Vec<u8> = Vec::new();
    let ghost all = codebook_blocks(books@, w);
    assert(all.take(0) =~= Seq::empty());
    let mut b: usize = 0;
    while b < n
        invariant
            b <= n,
            n == books@.len(),
            forall|i: int| 0 <= i < books@.len() ==> (#[trigger] books@[i]).valid(base(w)),
            all == codebook_blocks(books@, w),
            out@ == concat(all.take(b as int)),
        decreases n - b,
    {
        let block = write_codebook(&books[b], w);
        push_bytes(&mut out, block.as_slice());
        proof {
            assert(all.take(b + 1) =~= all.take(b as int).push(all[b as int]));
            lemma_concat_push(all.take(b as int), all[b as int]);
        }
        b = b + 1;
    }
    assert(all.take(n as int) =~= all);
    out
}

/// MQ2-G256-Lloyd: four `f16` centroids and 256 two-bit indices in 72 bytes.
pub fn quantize_mq2g256_lloyd(books: &[Codebook]) -> (out: Vec<u8>)
    requires
        forall|b: int| 0 <= b < books@.len() ==> (#[trigger] books@[b]).valid(4),
    ensures
        out@ == concat(codebook_blocks(books@, Width::Two)),
{
    write_codebooks(books, Width::Two)
}

/// MQ3-G256-Lloyd: eight `f16` centroids and 256 three-bit indices in 112 bytes.
pub fn quantize_mq3g256_lloyd(books: &[Codebook]) -> (out: Vec<u8>)
    requires
        forall|b: int| 0 <= b < books@.len() ==> (#[trigger] books@[b]).valid(8),
    ensures
        out@ == concat(codebook_blocks(books@, Width::Three)),
{
    write_codebooks(books, Width::Three)
}

/// The index of weight `i` of a 72-byte group.
pub open spec fn index_in(block: Seq<u8>, i: int) -> int {
    unpacked(block.subrange(8, 72), Width::Two)[i] as int
}

/// The weights, still rotated, that a 72-byte group stands for.
pub open spec fn lloyd_values(block: Seq<u8>) -> Seq<u32> {
    Seq::new(256, |i: int| widen(read2(block, 2 * index_in(block, i))))
}

/// Reads MQ2-G256-Lloyd groups for `n` weights. The weights of each group are
/// still rotated, and the last group is whole.
pub fn dequantize_mq2g256_lloyd_to_f32(data: &[u8], n: usize) -> (out: Vec<u32>)
    requires
        data@.len() == blocks_for(n as int, 256) * 72,
    ensures
        out@.len() == blocks_for(n as int, 256) * 256,
        forall|j: int|
            0 <= j < out@.len() ==> #[trigger] out@[j] == lloyd_values(
                data@.subrange(j / 256 * 72, j / 256 * 72 + 72),
            )[j % 256],
{
    let count: usize = block_count(n, 256);
    let total: usize = data.len();
    let mut out: Vec<u32> = Vec::new();
    let mut b: usize = 0;
    while b < count
        invariant
            b <= count,
            count == blocks_for(n as int, 256),
            total == data@.len(),
            total == count * 72,
            out@.len() == b * 256,
            forall|j: int|
                0 <= j < b * 256 ==> #[trigger] out@[j] == lloyd_values(
                    data@.subrange(j / 256 * 72, j / 256 * 72 + 72),
                )[j % 256],
        decreases count - b,
    {
        let at: usize = b * 72;
        let ghost block = data@.subrange(at as int, at + 72);
        let mut payload: Vec<u8> = Vec::new();
        let mut i: usize = 0;
        while i < 64
            invariant
                i <= 64,
                total == data@.len(),
                at + 72 <= total,
                block == data@.subrange(at as int, at + 72),
                payload@ =~= block.subrange(8, 8 + i),
            decreases 64 - i,
        {
            payload.push(data[at + 8 + i]);
            assert(block.subrange(8, 8 + (i + 1)) =~= block.subrange(8, 8 + i).push(block[8 + i]));
            i = i + 1;
        }
        let indices = unpack(payload.as_slice(), Width::Two);
        proof {
            lemma_unpacked_len(payload@, Width::Two);
            assert(indices@.len() == 256);
        }
        let ghost before_out = out@;
        let ghost want = lloyd_values(block);
        let mut j: usize = 0;
        while j < 256
            invariant
                j <= 256,
                total == data@.len(),
                at + 72 <= total,
                block == data@.subrange(at as int, at + 72),
                indices@.len() == 256,
                indices@ == unpacked(block.subrange(8, 72), Width::Two),
                all_below(indices@, 4),
                want == lloyd_values(block),
                out@ =~= before_out + want.take(j as int),
            decreases 256 - j,
        {
            let index: usize = indices[j] as usize;
            assert(indices@[j as int] < 4);
            out.push(f16_to_f32(get_le2(data, at + 2 * index)));
            proof {
                assert(index == index_in(block, j as int));
                assert(read2(block, 2 * index) == read2(data@, at + 2 * index));
                assert(want.take(j + 1) =~= want.take(j as int).push(want[j as int]));
            }
            j = j + 1;
        }
        assert(want.take(256) =~= want);
        assert forall|x: int| 0 <= x < (b + 1) * 256 implies #[trigger] out@[x] == lloyd_values(
            data@.subrange(x / 256 * 72, x / 256 * 72 + 72),
        )[x % 256] by {
            if x < b * 256 {
                assert(out@[x] == before_out[x]);
            } else {
                assert(x / 256 == b && x % 256 == x - b * 256);
            }
        }
        b = b + 1;
    }
    out
}

/// A group of MQ2-G256-Lloyd takes 72 bytes and gives back, for each weight, its
/// centroid rounded to an `f16`.
pub proof fn law_lloyd_reads_back(book: Codebook, i: int)
    requires
        book.valid(4),
        0 <= i < 256,
    ensures
        codebook_block(book, Width::Two).len() == 72,
        lloyd_values(codebook_block(book, Width::Two))[i] == widen(
            nearest16(book.centroids@[book.indices@[i] as int]),
        ),
{
    let block = codebook_block(book, Width::Two);
    lemma_packed_len(book.indices@, Width::Two);
    assert(block.len() == 72);
    law_pack_round_trip(book.indices@, Width::Two);
    assert(block.subrange(8, 72) =~= packed(book.indices@, Width::Two));
    let c = book.indices@[i] as int;
    assert(book.indices@[i] < 4);
    lemma_centroid_at(book, Width::Two, c);
}

/// A group of MQ3-G256-Lloyd takes 112 bytes and holds its centroids, rounded to
/// `f16`, and its indices.
pub proof fn law_lloyd3_reads_back(book: Codebook, c: int)
    requires
        book.valid(8),
        0 <= c < 8,
    ensures
        codebook_block(book, Width::Three).len() == 112,
        read2(codebook_block(book, Width::Three), 2 * c) == nearest16(book.centroids@[c]),
        unpacked(codebook_block(book, Width::Three).subrange(16, 112), Width::Three)
            == book.indices@,
{
    let block = codebook_block(book, Width::Three);
    lemma_packed_len(book.indices@, Width::Three);
    assert(block.len() == 112);
    law_pack_round_trip(book.indices@, Width::Three);
    assert(block.subrange(16, 112) =~= packed(book.indices@, Width::Three));
    lemma_centroid_at(book, Width::Three, c);
}

proof fn lemma_centroid_at(book: Codebook, w: Width, c: int)
    requires
        w == Width::Two || w == Width::Three,
        book.valid(base(w)),
        0 <= c < base(w),
    ensures
        read2(codebook_block(book, w), 2 * c) == nearest16(book.centroids@[c]),
{
    let block = codebook_block(book, w);
    let head = centroid_bytes(book.centroids@);
    let two = le2(nearest16(book.centroids@[c]));
    assert(block.subrange(2 * c, 2 * c + 2) =~= two) by {
        assert(block[2 * c] == head[2 * c]);
        assert(block[2 * c + 1] == head[2 * c + 1]);
    }
    law_le2_round_trip(block, 2 * c, nearest16(book.centroids@[c]));
}

/// The header of a group that stores a canonical codebook ascends: rounding the
/// centroids to `f16` keeps their order.
pub proof fn law_stored_centroids_ascend(
    centroids: Seq<u32>,
    order: Seq<usize>,
    book: Codebook,
    w: Width,
    i: int,
    j: int,
)
    requires
        is_order(float_less(centroids), centroids.len(), order),
        book.centroids@ == arranged(centroids, order),
        w == Width::Two || w == Width::Three,
        book.valid(base(w)),
        0 <= i <= j < base(w),
    ensures
        half_key(read2(codebook_block(book, w), 2 * i)) <= half_key(
            read2(codebook_block(book, w), 2 * j),
        ),
{
    lemma_centroid_at(book, w, i);
    lemma_centroid_at(book, w, j);
    law_canonical_ascends(centroids, order, i, j);
    law_rounding_keeps_order(book.centroids@[i], book.centroids@[j]);
}

/// The bytes of MQ2-G256-Lloyd groups of 72: the 4 centroids of a group, each rounded
/// to an `f16`, and from byte 8 on the index of each weight, the first in the lowest
/// bits.
pub proof fn law_mq2_lloyd_layout(books: Seq<Codebook>, b: int, c: int, i: int)
    requires
        forall|x: int| 0 <= x < books.len() ==> (#[trigger] books[x]).valid(4),
        0 <= b < books.len(),
        0 <= c < 4,
        0 <= i < 256,
    ensures
        ({
            let out = concat(codebook_blocks(books, Width::Two));
            let p = b * 72 + 8 + i / 4;
            &&& out.len() == books.len() * 72
            &&& read2(out, b * 72 + 2 * c) == nearest16(books[b].centroids@[c])
            &&& out[p] as int / pow(4, (i % 4) as nat) % 4 == books[b].indices@[i]
        }),
{
    let all = codebook_blocks(books, Width::Two);
    let out = concat(all);
    assert forall|x: int| 0 <= x < all.len() implies (#[trigger] all[x]).len() == 72 by {
        assert(books[x].valid(4));
        lemma_packed_len(books[x].indices@, Width::Two);
    }
    law_concat_at(all, 72, b);
    assert(books[b].valid(4));
    let block = all[b];
    assert(block =~= out.subrange(b * 72, b * 72 + 72));
    lemma_centroid_at(books[b], Width::Two, c);
    assert(read2(out, b * 72 + 2 * c) == read2(block, 2 * c));
    law_pack_round_trip(books[b].indices@, Width::Two);
    let tail = block.subrange(8, 72);
    assert(tail =~= packed(books[b].indices@, Width::Two));
    law_code_position(tail, Width::Two, i);
    assert(tail[i / 4] == out[b * 72 + 8 + i / 4]);
}

/// The bytes of MQ3-G256-Lloyd groups of 112: the 8 centroids of a group, each rounded
/// to an `f16`, and from byte 16 on the index of each weight, the first in the lowest
/// bits.
pub proof fn law_mq3_lloyd_layout(books: Seq<Codebook>, b: int, c: int, i: int)
    requires
        forall|x: int| 0 <= x < books.len() ==> (#[trigger] books[x]).valid(8),
        0 <= b < books.len(),
        0 <= c < 8,
        0 <= i < 256,
    ensures
        ({
            let out = concat(codebook_blocks(books, Width::Three));
            let p = b * 112 + 16 + i / 8 * 3;
            &&& out.len() == books.len() * 112
            &&& read2(out, b * 112 + 2 * c) == nearest16(books[b].centroids@[c])
            &&& (out[p] + 256 * out[p + 1] + 0x1_0000 * out[p + 2]) / pow(8, (i % 8) as nat) % 8 == books[b].indices@[i]
        }),
{
    let all = codebook_blocks(books, Width::Three);
    let out = concat(all);
    assert forall|x: int| 0 <= x < all.len() implies (#[trigger] all[x]).len() == 112 by {
        assert(books[x].valid(8));
        lemma_packed_len(books[x].indices@, Width::Three);
    }
    law_concat_at(all, 112, b);
    assert(books[b].valid(8));
    let block = all[b];
    assert(block =~= out.subrange(b * 112, b * 112 + 112));
    lemma_centroid_at(books[b], Width::Three, c);
    assert(read2(out, b * 112 + 2 * c) == read2(block, 2 * c));
    law_pack_round_trip(books[b].indices@, Width::Three);
    let tail = block.subrange(16, 112);
    assert(tail =~= packed(books[b].indices@, Width::Three));
    law_code_position(tail, Width::Three, i);
    assert(tail[i / 8 * 3] == out[b * 112 + 16 + i / 8 * 3]);
    assert(tail[i / 8 * 3 + 1] == out[b * 112 + 16 + i / 8 * 3 + 1]);
    assert(tail[i / 8 * 3 + 2] == out[b * 112 + 16 + i / 8 * 3 + 2]);
}

/// A weight of a 72-byte group is the centroid that its two index bits point to.
pub proof fn law_lloyd_values_are_centroids(block: Seq<u8>, i: int)
    requires
        block.len() == 72,
        0 <= i < 256,
    ensures
        lloyd_values(block).len() == 256,
        lloyd_values(block)[i] == widen(
            read2(block, 2 * (block[8 + i / 4] as int / pow(4, (i % 4) as nat) % 4)),
        ),
{
    let tail = block.subrange(8, 72);
    law_code_position(tail, Width::Two, i);
    assert(tail[i / 4] == block[8 + i / 4]);
}

} // verus!
