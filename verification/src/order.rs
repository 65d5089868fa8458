//! Stable ordering by keys.
use vstd::prelude::*;

#[allow(unused_imports)]
use crate::ieee::{is_nan32, order_key};

verus! {

/// A relation that says of two positions whether the first has the smaller key.
pub type Less = spec_fn(int, int) -> bool;

/// Position `a` comes before position `b`: its key is smaller, or the keys are
/// equal and it stands first.
pub open spec fn before(less: Less, a: usize, b: usize) -> bool {
    less(a as int, b as int) || (!less(b as int, a as int) && a < b)
}

/// The positions come in order.
pub open spec fn is_sorted(less: Less, order: Seq<usize>) -> bool {
    forall|i: int, j: int| 0 <= i < j < order.len() ==> before(less, order[i], order[j])
}

/// All positions lie from `from` to below `to`.
pub open spec fn within(order: Seq<usize>, from: int, to: int) -> bool {
    forall|i: int| 0 <= i < order.len() ==> from <= #[trigger] order[i] < to
}

/// `order` lists all `n` positions, in order.
pub open spec fn is_order(less: Less, n: nat, order: Seq<usize>) -> bool {
    &&& order.len() == n
    &&& within(order, 0, n as int)
    &&& is_sorted(less, order)
}

/// Keys can be compared: no key is smaller than a key that is smaller than it, and
/// being smaller carries over.
pub open spec fn is_comparison(less: Less) -> bool {
    &&& forall|a: int, b: int| #[trigger] less(a, b) ==> !less(b, a)
    &&& forall|a: int, b: int, c: int|
        #[trigger] less(a, c) ==> #[trigger] less(a, b) || #[trigger] less(b, c)
}

/// An order lists every position once.
pub proof fn law_order_is_permutation(less: Less, n: nat, order: Seq<usize>, p: usize)
    requires
        is_comparison(less),
        is_order(less, n, order),
        p < n,
    ensures
        order.no_duplicates(),
        order.contains(p),
{
    assert forall|i: int, j: int| 0 <= i < order.len() && 0 <= j < order.len() && i != j implies
        order[i] != order[j] by {
        if i < j {
            assert(before(less, order[i], order[j]));
        } else {
            assert(before(less, order[j], order[i]));
        }
    }
    if !order.contains(p) {
        let ints = order.map(|i: int, x: usize| x as int);
        assert(ints.no_duplicates());
        ints.unique_seq_to_set();
        let range = vstd::set_lib::set_int_range(0, n as int);
        vstd::set_lib::lemma_int_range(0, n as int);
        let rest = range.remove(p as int);
        assert(ints.to_set().subset_of(rest)) by {
            assert forall|x: int| ints.to_set().contains(x) implies rest.contains(x) by {
                let i = choose|i: int| 0 <= i < ints.len() && ints[i] == x;
                assert(order[i] == x);
                assert(order.contains(order[i]));
            }
        }
        vstd::set_lib::lemma_len_subset(ints.to_set(), rest);
    }
}

/// There is only one order: two of them agree everywhere.
pub proof fn law_order_is_unique(less: Less, n: nat, p: Seq<usize>, q: Seq<usize>)
    requires
        is_comparison(less),
        is_order(less, n, p),
        is_order(less, n, q),
    ensures
        p == q,
{
    assert forall|i: int| 0 <= i < p.len() implies p[i] == q[i] by {
        lemma_agree_at(less, n, p, q, i);
    }
    assert(p =~= q);
}

proof fn lemma_agree_at(less: Less, n: nat, p: Seq<usize>, q: Seq<usize>, i: int)
    requires
        is_comparison(less),
        is_order(less, n, p),
        is_order(less, n, q),
        0 <= i < p.len(),
    ensures
        p[i] == q[i],
    decreases i,
{
    assert forall|j: int| 0 <= j < i implies #[trigger] p[j] == q[j] by {
        lemma_agree_at(less, n, p, q, j);
    }
    law_order_is_permutation(less, n, p, q[i]);
    law_order_is_permutation(less, n, q, p[i]);
    if p[i] != q[i] {
        let a = choose|a: int| 0 <= a < p.len() && p[a] == q[i];
        let b = choose|b: int| 0 <= b < q.len() && q[b] == p[i];
        if a < i {
            assert(q[a] == q[i]);
            assert(before(less, q[a], q[i]));
        } else if b < i {
            assert(p[b] == p[i]);
            assert(before(less, p[b], p[i]));
        } else {
            assert(before(less, p[i], p[a]));
            assert(before(less, q[i], q[b]));
        }
    }
}

/// Something whose positions have keys.
pub trait Keys {
    /// The number of positions.
    spec fn count(&self) -> nat;

    /// How keys compare.
    spec fn less(&self) -> Less;

    /// Keys can be compared.
    proof fn compares(&self)
        ensures
            is_comparison(self.less()),
    ;

    /// Whether the key at `a` is smaller than the key at `b`.
    fn is_less(&self, a: usize, b: usize) -> (r: bool)
        requires
            a < self.count(),
            b < self.count(),
        ensures
            r == (self.less())(a as int, b as int),
    ;
}

/// Merges two sorted lists, the first of lower positions than the second.
fn merge<K: Keys>(keys: &K, a: &Vec<usize>, b: &Vec<usize>) -> (out: Vec<usize>)
    requires
        within(a@, 0, keys.count() as int),
        within(b@, 0, keys.count() as int),
        is_sorted(keys.less(), a@),
        is_sorted(keys.less(), b@),
        forall|i: int, j: int| 0 <= i < a@.len() && 0 <= j < b@.len() ==> a@[i] < b@[j],
        a@.len() + b@.len() <= usize::MAX,
    ensures
        out@.len() == a@.len() + b@.len(),
        is_sorted(keys.less(), out@),
        forall|i: int|
            #![trigger out@[i]]
            0 <= i < out@.len() ==> a@.contains(out@[i]) || b@.contains(out@[i]),
{
    let n: usize = a.len();
    let m: usize = b.len();
    let mut out: Vec<usize> = Vec::new();
    let mut i: usize = 0;
    let mut j: usize = 0;
    let ghost less = keys.less();
    proof {
        keys.compares();
    }
    while i < n || j < m
        invariant
            i <= n,
            j <= m,
            n == a@.len(),
            m == b@.len(),
            n + m <= usize::MAX,
            less == keys.less(),
            is_comparison(less),
            within(a@, 0, keys.count() as int),
            within(b@, 0, keys.count() as int),
            is_sorted(less, a@),
            is_sorted(less, b@),
            forall|x: int, y: int| 0 <= x < n && 0 <= y < m ==> a@[x] < b@[y],
            out@.len() == i + j,
            is_sorted(less, out@),
            forall|x: int|
                #![trigger out@[x]]
                0 <= x < out@.len() ==> a@.contains(out@[x]) || b@.contains(out@[x]),
            forall|x: int, y: int|
                0 <= x < out@.len() && i <= y < n ==> before(less, out@[x], a@[y]),
            forall|x: int, y: int|
                0 <= x < out@.len() && j <= y < m ==> before(less, out@[x], b@[y]),
        decreases n + m - i - j,
    {
        let first: bool = if i < n {
            if j < m {
                !keys.is_less(b[j], a[i])
            } else {
                true
            }
        } else {
            false
        };
        let ghost old_out = out@;
        if first {
            let p: usize = a[i];
            out.push(p);
            proof {
                assert(a@.contains(a@[i as int]));
                assert forall|y: int| j <= y < m implies before(less, p, b@[y]) by {
                    assert(a@[i as int] < b@[y]);
                    let (pa, pj, py) = (p as int, b@[j as int] as int, b@[y] as int);
                    if j < y {
                        assert(before(less, b@[j as int], b@[y]));
                        assert(less(py, pa) ==> less(py, pj) || less(pj, pa));
                    }
                }
            }
            i = i + 1;
        } else {
            let p: usize = b[j];
            out.push(p);
            proof {
                assert(b@.contains(b@[j as int]));
                assert forall|y: int| i <= y < n implies before(less, p, a@[y]) by {
                    let (pb, pi, py) = (p as int, a@[i as int] as int, a@[y] as int);
                    if i < y {
                        assert(before(less, a@[i as int], a@[y]));
                        assert(less(pb, pi) ==> less(pb, py) || less(py, pi));
                    }
                }
            }
            j = j + 1;
        }
        proof {
            assert forall|x: int|
                #![trigger out@[x]]
                0 <= x < out@.len() implies a@.contains(out@[x]) || b@.contains(out@[x]) by {
                if x < old_out.len() {
                    assert(out@[x] == old_out[x]);
                }
            }
        }
    }
    out
}

/// Sorts the positions from `from` to below `to`.
fn sort_range<K: Keys>(keys: &K, from: usize, to: usize) -> (out: Vec<usize>)
    requires
        from <= to <= keys.count(),
    ensures
        out@.len() == to - from,
        within(out@, from as int, to as int),
        is_sorted(keys.less(), out@),
    decreases to - from,
{
    let mut out: Vec<usize> = Vec::new();
    if to - from == 0 {
        out
    } else if to - from == 1 {
        out.push(from);
        out
    } else {
        let mid: usize = from + (to - from) / 2;
        let a = sort_range(keys, from, mid);
        let b = sort_range(keys, mid, to);
        let merged = merge(keys, &a, &b);
        proof {
            assert forall|i: int| 0 <= i < merged@.len() implies from <= #[trigger] merged@[i]
                < to by {
                if a@.contains(merged@[i]) {
                    let x = choose|x: int| 0 <= x < a@.len() && a@[x] == merged@[i];
                    assert(from <= a@[x] < mid);
                } else {
                    let x = choose|x: int| 0 <= x < b@.len() && b@[x] == merged@[i];
                    assert(mid <= b@[x] < to);
                }
            }
        }
        merged
    }
}

/// The `n` positions from the smallest key to the largest; equal keys keep their
/// order.
pub fn order_by<K: Keys>(keys: &K, n: usize) -> (out: Vec<usize>)
    requires
        n == keys.count(),
    ensures
        is_order(keys.less(), n as nat, out@),
{
    sort_range(keys, 0, n)
}

/// How `f32` values compare: by value, both zeros equal, and a bit pattern that is
/// no number beyond the infinity of its sign.
pub open spec fn float_less(values: Seq<u32>) -> Less {
    |a: int, b: int| order_key(values[a]) < order_key(values[b])
}

/// The keys of `f32` values.
pub struct FloatKeys<'a> {
    pub values: &'a [u32],
}

impl<'a> Keys for FloatKeys<'a> {
    open spec fn count(&self) -> nat {
        self.values@.len()
    }

    open spec fn less(&self) -> Less {
        float_less(self.values@)
    }

    proof fn compares(&self) {
    }

    fn is_less(&self, a: usize, b: usize) -> (r: bool) {
        let (x, y): (u32, u32) = (self.values[a], self.values[b]);
        if x < 0x8000_0000 {
            y < 0x8000_0000 && x < y
        } else if y < 0x8000_0000 {
            x > 0x8000_0000 || y > 0
        } else {
            y < x
        }
    }
}

/// On numbers the order is that of `f32` comparison.
pub proof fn law_float_order_is_comparison(values: Seq<u32>, a: int, b: int)
    requires
        !is_nan32(values[a]),
        !is_nan32(values[b]),
    ensures
        float_less(values)(a, b) == crate::ieee::is_less(values[a], values[b]),
{
}

/// The order key of the bits of an `f64`: both zeros are equal.
pub open spec fn double_key(b: u64) -> int {
    if b < 0x8000_0000_0000_0000 {
        b as int
    } else {
        0x8000_0000_0000_0000 - b
    }
}

/// How scores, `f64` values by their bits, compare from the largest down.
pub open spec fn score_less(scores: Seq<u64>) -> Less {
    |a: int, b: int| double_key(scores[a]) > double_key(scores[b])
}

/// The keys of scores, the largest first.
pub struct ScoreKeys<'a> {
    pub scores: &'a [u64],
}

impl<'a> Keys for ScoreKeys<'a> {
    open spec fn count(&self) -> nat {
        self.scores@.len()
    }

    open spec fn less(&self) -> Less {
        score_less(self.scores@)
    }

    proof fn compares(&self) {
    }

    fn is_less(&self, a: usize, b: usize) -> (r: bool) {
        let (x, y): (u64, u64) = (self.scores[b], self.scores[a]);
        if x < 0x8000_0000_0000_0000 {
            y < 0x8000_0000_0000_0000 && x < y
        } else if y < 0x8000_0000_0000_0000 {
            x > 0x8000_0000_0000_0000 || y > 0
        } else {
            y < x
        }
    }
}

/// Bytes compare like words in a dictionary.
pub open spec fn bytes_less(a: Seq<u8>, b: Seq<u8>) -> bool
    decreases a.len(),
{
    if b.len() == 0 {
        false
    } else if a.len() == 0 {
        true
    } else if a[0] != b[0] {
        a[0] < b[0]
    } else {
        bytes_less(a.skip(1), b.skip(1))
    }
}

pub proof fn lemma_bytes_less(a: Seq<u8>, b: Seq<u8>, c: Seq<u8>)
    ensures
        bytes_less(a, b) ==> !bytes_less(b, a),
        bytes_less(a, c) ==> bytes_less(a, b) || bytes_less(b, c),
    decreases a.len() + b.len(),
{
    if a.len() > 0 && b.len() > 0 {
        lemma_bytes_less(a.skip(1), b.skip(1), c.skip(1));
    }
}

/// Whether `a` comes before `b` in a dictionary.
pub fn compare_bytes(a: &[u8], b: &[u8]) -> (r: bool)
    ensures
        r == bytes_less(a@, b@),
{
    let n: usize = a.len();
    let m: usize = b.len();
    let mut i: usize = 0;
    assert(a@.skip(0) =~= a@ && b@.skip(0) =~= b@);
    while i < n && i < m
        invariant
            i <= n,
            i <= m,
            n == a@.len(),
            m == b@.len(),
            bytes_less(a@, b@) == bytes_less(a@.skip(i as int), b@.skip(i as int)),
        decreases n - i,
    {
        assert(a@.skip(i as int)[0] == a@[i as int] && b@.skip(i as int)[0] == b@[i as int]);
        assert(a@.skip(i as int).skip(1) =~= a@.skip(i + 1));
        assert(b@.skip(i as int).skip(1) =~= b@.skip(i + 1));
        if a[i] != b[i] {
            return a[i] < b[i];
        }
        i = i + 1;
    }
    i < m
}

// What an order promises.

/// In an order nothing stands behind what it is below, and of two things of which
/// neither is below the other the one with the smaller position comes first.
pub proof fn law_order_is_sorted_and_stable(
    less: Less,
    n: nat,
    order: Seq<usize>,
    i: int,
    j: int,
)
    requires
        is_order(less, n, order),
        0 <= i < j < n,
    ensures
        order.len() == n,
        order[i] < n,
        !less(order[j] as int, order[i] as int) || less(order[i] as int, order[j] as int),
        !less(order[i] as int, order[j] as int) ==> order[i] < order[j],
{
    assert(before(less, order[i], order[j]));
    assert(within(order, 0, n as int));
    assert(order[i] < n);
}

/// Scores order from the largest to the smallest: a score that is not negative
/// counts by its bits, a negative one the other way round, and minus zero is zero.
pub proof fn law_scores_descend(scores: Seq<u64>, a: int, b: int)
    ensures
        scores[a] < 0x8000_0000_0000_0000 && scores[b] < 0x8000_0000_0000_0000 ==> (score_less(
            scores,
        )(a, b) <==> scores[a] > scores[b]),
        scores[a] >= 0x8000_0000_0000_0000 && scores[b] >= 0x8000_0000_0000_0000 ==> (score_less(
            scores,
        )(a, b) <==> scores[a] < scores[b]),
        scores[a] >= 0x8000_0000_0000_0000 && scores[b] < 0x8000_0000_0000_0000 ==> !score_less(
            scores,
        )(a, b),
        scores[a] < 0x8000_0000_0000_0000 && scores[b] >= 0x8000_0000_0000_0000 ==> (score_less(
            scores,
        )(a, b) <==> scores[a] > 0 || scores[b] > 0x8000_0000_0000_0000),
{
}

/// Bytes order as words in a dictionary: by the first byte in which two differ, and
/// where one is the beginning of the other, the shorter comes first.
pub proof fn law_bytes_order_as_words(a: Seq<u8>, b: Seq<u8>, p: int)
    requires
        0 <= p <= a.len(),
        p <= b.len(),
        forall|i: int| 0 <= i < p ==> #[trigger] a[i] == b[i],
    ensures
        p < a.len() && p < b.len() && a[p] < b[p] ==> bytes_less(a, b),
        p < a.len() && p < b.len() && a[p] > b[p] ==> !bytes_less(a, b),
        p == a.len() && p < b.len() ==> bytes_less(a, b),
        p == b.len() ==> !bytes_less(a, b),
    decreases a.len(),
{
    if p > 0 {
        let (x, y) = (a.skip(1), b.skip(1));
        assert(a[0] == b[0]);
        assert forall|i: int| 0 <= i < p - 1 implies #[trigger] x[i] == y[i] by {
            assert(a[i + 1] == b[i + 1]);
        }
        law_bytes_order_as_words(x, y, p - 1);
    }
}

} // verus!
