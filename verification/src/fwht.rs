//! The Walsh-Hadamard rotation of groups of 256: its sign tables, its butterfly
//! schedule, and why it can be undone.
//!
//! The additions themselves are floating-point and are done by the caller, in
//! the order of the schedule. What the schedule computes is stated over exact
//! integers.
use vstd::arithmetic::div_mod::*;
use vstd::arithmetic::power2::*;
use vstd::prelude::*;

use crate::blocks::ONE;

verus! {

/// Minus one, as an `f32`.
pub const MINUS_ONE: u32 = 0xbf80_0000;

// Sign tables.

/// The state of the sign generator behind `state`.
pub open spec fn next_state(state: int) -> int {
    (state * 1103515245 + 12345) % 0x8000_0000
}

/// The state of the sign generator after `i` steps.
pub open spec fn state_after(seed: int, i: nat) -> int
    decreases i,
{
    if i == 0 {
        seed
    } else {
        next_state(state_after(seed, (i - 1) as nat))
    }
}

/// Sign `i` of the table of a seed: plus one where bit 16 of the state is set.
pub open spec fn sign_of(seed: int, i: int) -> u32 {
    if state_after(seed, (i + 1) as nat) / 0x1_0000 % 2 == 1 {
        ONE
    } else {
        MINUS_ONE
    }
}

/// The table of `n` signs of a seed.
pub fn gen_fwht_signs(seed: u32, n: usize) -> (out: Vec<u32>)
    ensures
        out@.len() == n,
        forall|i: int| 0 <= i < n ==> #[trigger] out@[i] == sign_of(seed as int, i),
{
    let mut state: u64 = seed as u64;
    let mut out: Vec<u32> = Vec::new();
    let mut i: usize = 0;
    while i < n
        invariant
            i <= n,
            state <= 0xffff_ffff,
            state == state_after(seed as int, i as nat),
            out@.len() == i,
            forall|j: int| 0 <= j < i ==> #[trigger] out@[j] == sign_of(seed as int, j),
        decreases n - i,
    {
        state = (state * 1103515245 + 12345) % 0x8000_0000;
        assert(state == state_after(seed as int, (i + 1) as nat));
        out.push(
            if state / 0x1_0000 % 2 == 1 {
                ONE
            } else {
                MINUS_ONE
            },
        );
        i = i + 1;
    }
    out
}

/// The signs of a seed come from the linear congruential generator that starts at
/// the seed: along its states `x`, sign `i` is plus one where bit 16 of the state
/// after step `i` is set, and minus one elsewhere.
pub proof fn law_signs_follow_generator(seed: u32, x: Seq<int>, i: int)
    requires
        0 <= i < x.len() - 1,
        x[0] == seed,
        forall|j: int, l: int|
            #![trigger x[j], x[l]]
            0 <= j < x.len() - 1 && l == j + 1 ==> x[l] == (1103515245 * x[j] + 12345)
                % 0x8000_0000,
    ensures
        x[i + 1] / 0x1_0000 % 2 == 1 ==> sign_of(seed as int, i) == 0x3f80_0000u32,
        x[i + 1] / 0x1_0000 % 2 != 1 ==> sign_of(seed as int, i) == 0xbf80_0000u32,
{
    lemma_states(seed, x, i + 1);
}

proof fn lemma_states(seed: u32, x: Seq<int>, i: int)
    requires
        0 <= i < x.len(),
        x[0] == seed,
        forall|j: int, l: int|
            #![trigger x[j], x[l]]
            0 <= j < x.len() - 1 && l == j + 1 ==> x[l] == (1103515245 * x[j] + 12345)
                % 0x8000_0000,
    ensures
        x[i] == state_after(seed as int, i as nat),
    decreases i,
{
    if i > 0 {
        lemma_states(seed, x, i - 1);
        assert(x[i] == (1103515245 * x[i - 1] + 12345) % 0x8000_0000);
    }
}

/// The tables of the two seeds that the engine uses begin with these signs.
pub proof fn law_engine_tables_begin()
    ensures
        sign_of(42, 0) == 0x3f80_0000u32,
        sign_of(42, 1) == 0x3f80_0000u32,
        sign_of(42, 2) == 0x3f80_0000u32,
        sign_of(42, 3) == 0x3f80_0000u32,
        sign_of(42, 4) == 0xbf80_0000u32,
        sign_of(42, 5) == 0x3f80_0000u32,
        sign_of(42, 6) == 0x3f80_0000u32,
        sign_of(42, 7) == 0xbf80_0000u32,
        sign_of(1042, 0) == 0x3f80_0000u32,
        sign_of(1042, 1) == 0xbf80_0000u32,
        sign_of(1042, 2) == 0xbf80_0000u32,
        sign_of(1042, 3) == 0xbf80_0000u32,
        sign_of(1042, 4) == 0xbf80_0000u32,
        sign_of(1042, 5) == 0x3f80_0000u32,
        sign_of(1042, 6) == 0x3f80_0000u32,
        sign_of(1042, 7) == 0xbf80_0000u32,
{
    assert(state_after(42, 0) == 42);
    assert(state_after(42, 1) == 1250496027) by {
        assert(state_after(42, 1) == next_state(state_after(42, 0)));
    }
    assert(state_after(42, 2) == 1116302264) by {
        assert(state_after(42, 2) == next_state(state_after(42, 1)));
    }
    assert(state_after(42, 3) == 1000676753) by {
        assert(state_after(42, 3) == next_state(state_after(42, 2)));
    }
    assert(state_after(42, 4) == 1668674806) by {
        assert(state_after(42, 4) == next_state(state_after(42, 3)));
    }
    assert(state_after(42, 5) == 908095735) by {
        assert(state_after(42, 5) == next_state(state_after(42, 4)));
    }
    assert(state_after(42, 6) == 71666532) by {
        assert(state_after(42, 6) == next_state(state_after(42, 5)));
    }
    assert(state_after(42, 7) == 896336333) by {
        assert(state_after(42, 7) == next_state(state_after(42, 6)));
    }
    assert(state_after(42, 8) == 1736731266) by {
        assert(state_after(42, 8) == next_state(state_after(42, 7)));
    }
    assert(state_after(1042, 0) == 1042);
    assert(state_after(1042, 1) == 959145955) by {
        assert(state_after(1042, 1) == next_state(state_after(1042, 0)));
    }
    assert(state_after(1042, 2) == 229938656) by {
        assert(state_after(1042, 2) == next_state(state_after(1042, 1)));
    }
    assert(state_after(1042, 3) == 651051161) by {
        assert(state_after(1042, 3) == next_state(state_after(1042, 2)));
    }
    assert(state_after(1042, 4) == 752242526) by {
        assert(state_after(1042, 4) == next_state(state_after(1042, 3)));
    }
    assert(state_after(1042, 5) == 606248767) by {
        assert(state_after(1042, 5) == next_state(state_after(1042, 4)));
    }
    assert(state_after(1042, 6) == 419246092) by {
        assert(state_after(1042, 6) == next_state(state_after(1042, 5)));
    }
    assert(state_after(1042, 7) == 2109295957) by {
        assert(state_after(1042, 7) == next_state(state_after(1042, 6)));
    }
    assert(state_after(1042, 8) == 1647575914) by {
        assert(state_after(1042, 8) == next_state(state_after(1042, 7)));
    }
}

// The transform.

/// One stage of butterflies at the distance `s`: of two values that stand `s`
/// apart, the first becomes their sum and the second their difference.
pub open spec fn stage(x: Seq<int>, s: int) -> Seq<int> {
    Seq::new(
        x.len(),
        |t: int|
            if t / s % 2 == 0 {
                x[t] + x[t + s]
            } else {
                x[t - s] - x[t]
            },
    )
}

/// The first `k` stages, at the distances 1, 2, 4 and so on.
pub open spec fn stages(x: Seq<int>, k: nat) -> Seq<int>
    decreases k,
{
    if k == 0 {
        x
    } else {
        stage(stages(x, (k - 1) as nat), pow2((k - 1) as nat) as int)
    }
}

/// The transform of 256 values.
pub open spec fn transform(x: Seq<int>) -> Seq<int> {
    stages(x, 8)
}

/// One butterfly.
pub open spec fn butterfly(x: Seq<int>, pair: (usize, usize)) -> Seq<int> {
    let (a, b) = (pair.0 as int, pair.1 as int);
    x.update(a, x[a] + x[b]).update(b, x[a] - x[b])
}

/// Butterflies in order.
pub open spec fn apply(x: Seq<int>, pairs: Seq<(usize, usize)>) -> Seq<int>
    decreases pairs.len(),
{
    if pairs.len() == 0 {
        x
    } else {
        butterfly(apply(x, pairs.drop_last()), pairs.last())
    }
}

/// The number of the butterfly, within its stage, that touches position `t`.
spec fn pair_id(t: int, s: int) -> int {
    t / (2 * s) * s + t % s
}

/// A stage whose first `done` butterflies are done.
spec fn partial(x: Seq<int>, s: int, done: int) -> Seq<int> {
    Seq::new(
        x.len(),
        |t: int|
            if pair_id(t, s) < done {
                stage(x, s)[t]
            } else {
                x[t]
            },
    )
}

/// The distance of a stage of a transform of 256 values.
spec fn is_stride(s: int) -> bool {
    exists|k: nat| k < 8 && s == #[trigger] pow2(k)
}

proof fn lemma_stride(s: int)
    requires
        is_stride(s),
    ensures
        s > 0,
        exists|m: int| m > 0 && #[trigger] (s * m) == 128,
{
    let k = choose|k: nat| k < 8 && s == #[trigger] pow2(k);
    lemma_pow2_pos(k);
    let r = (7 - k) as nat;
    lemma_pow2_pos(r);
    lemma_pow2_adds(k, r);
    lemma2_to64();
    assert(s * pow2(r) == 128);
}

/// How the halves of a position behave under a step of `s`.
proof fn lemma_step(t: int, s: int)
    requires
        s > 0,
        t >= 0,
    ensures
        (t + s) / s == t / s + 1,
        t >= s ==> (t - s) / s == t / s - 1,
        t / s % 2 == 1 ==> t >= s,
        (t + s) % s == t % s,
        t >= s ==> (t - s) % s == t % s,
        t / (2 * s) == t / s / 2,
        t == s * (t / s) + t % s,
        0 <= t % s < s,
{
    lemma_fundamental_div_mod(t, s);
    lemma_mod_bound(t, s);
    let q = t / s;
    let e = t % s;
    assert(t + s == (q + 1) * s + e && t - s == (q - 1) * s + e && t == q * s + e)
        by (nonlinear_arith)
        requires
            t == s * q + e,
    ;
    lemma_fundamental_div_mod_converse(t + s, s, q + 1, e);
    if t >= s {
        lemma_fundamental_div_mod_converse(t - s, s, q - 1, e);
    } else {
        assert(q == 0) by (nonlinear_arith)
            requires
                t == s * q + e,
                0 <= t < s,
                0 <= e < s,
        ;
    }
    lemma_div_denominator(t, s, 2);
    assert(s * 2 == 2 * s);
}

/// A partner always stands within the 256 values.
proof fn lemma_partner_in_range(t: int, s: int)
    requires
        is_stride(s),
        0 <= t < 256,
    ensures
        t / s % 2 == 0 ==> t + s < 256,
        t / s % 2 == 1 ==> t - s >= 0,
{
    lemma_stride(s);
    let m = choose|m: int| m > 0 && #[trigger] (s * m) == 128;
    lemma_step(t, s);
    let q = t / s;
    let e = t % s;
    if q % 2 == 0 {
        assert(q < 2 * m) by (nonlinear_arith)
            requires
                t == s * q + e,
                0 <= e,
                t < 256,
                s * m == 128,
                s > 0,
        ;
        assert(t + s < 256) by (nonlinear_arith)
            requires
                t == s * q + e,
                e < s,
                q + 2 <= 2 * m,
                s * m == 128,
                s > 0,
        ;
    }
}

/// Butterfly `p` of a stage pairs the two positions with its number.
proof fn lemma_pair(p: int, s: int)
    requires
        s > 0,
        p >= 0,
    ensures
        ({
            let a = p / s * (2 * s) + p % s;
            &&& a >= 0
            &&& a / s % 2 == 0
            &&& (a + s) / s % 2 == 1
            &&& pair_id(a, s) == p
            &&& pair_id(a + s, s) == p
        }),
{
    let q = p / s;
    let e = p % s;
    lemma_step(p, s);
    assert(q >= 0) by (nonlinear_arith)
        requires
            q == p / s,
            p >= 0,
            s > 0,
    ;
    let a = q * (2 * s) + e;
    assert(a == (2 * q) * s + e && a >= 0) by (nonlinear_arith)
        requires
            a == q * (2 * s) + e,
            q >= 0,
            e >= 0,
            s > 0,
    ;
    lemma_fundamental_div_mod_converse(a, s, 2 * q, e);
    lemma_step(a, s);
    lemma_step(a + s, s);
    assert(q * s + e == p) by (nonlinear_arith)
        requires
            p == s * q + e,
    ;
}

/// A position with the number of a butterfly is one of its two positions.
proof fn lemma_pair_unique(t: int, p: int, s: int)
    requires
        s > 0,
        t >= 0,
        p >= 0,
        pair_id(t, s) == p,
    ensures
        t == p / s * (2 * s) + p % s || t == p / s * (2 * s) + p % s + s,
{
    lemma_step(t, s);
    let h = t / (2 * s);
    let e = t % s;
    let q = t / s;
    lemma_fundamental_div_mod_converse(p, s, h, e);
    assert(q == 2 * h || q == 2 * h + 1);
    assert(t == h * (2 * s) + e || t == h * (2 * s) + e + s) by (nonlinear_arith)
        requires
            t == s * q + e,
            q == 2 * h || q == 2 * h + 1,
    ;
}

/// One more butterfly of a stage.
proof fn lemma_partial_step(x: Seq<int>, s: int, p: int, a: usize, b: usize)
    requires
        x.len() == 256,
        is_stride(s),
        0 <= p < 128,
        a == p / s * (2 * s) + p % s,
        b == a + s,
        b < 256,
    ensures
        partial(x, s, p + 1) == butterfly(partial(x, s, p), (a, b)),
{
    lemma_stride(s);
    lemma_pair(p, s);
    let y = partial(x, s, p);
    let z = butterfly(y, (a, b));
    let want = partial(x, s, p + 1);
    assert forall|t: int| 0 <= t < 256 implies z[t] == want[t] by {
        if pair_id(t, s) == p {
            lemma_pair_unique(t, p, s);
        }
    }
    assert(want =~= z);
}

proof fn lemma_pair_id_bound(t: int, s: int)
    requires
        is_stride(s),
        0 <= t < 256,
    ensures
        0 <= pair_id(t, s) < 128,
{
    lemma_stride(s);
    let m = choose|m: int| m > 0 && #[trigger] (s * m) == 128;
    lemma_step(t, s);
    let h = t / (2 * s);
    let q = t / s;
    let e = t % s;
    assert(0 <= h < m && 0 <= h * s && h * s + s <= m * s) by (nonlinear_arith)
        requires
            t == s * q + e,
            0 <= t < 256,
            0 <= e < s,
            h == q / 2,
            s * m == 128,
            s > 0,
    ;
    assert(m * s == 128) by (nonlinear_arith)
        requires
            s * m == 128,
    ;
}

proof fn lemma_pair_position(p: int, s: int)
    requires
        is_stride(s),
        0 <= p < 128,
    ensures
        0 <= p / s * (2 * s) + p % s,
        p / s * (2 * s) + p % s + s < 256,
{
    lemma_stride(s);
    let m = choose|m: int| m > 0 && #[trigger] (s * m) == 128;
    lemma_step(p, s);
    let q = p / s;
    let e = p % s;
    assert(0 <= q < m) by (nonlinear_arith)
        requires
            p == s * q + e,
            0 <= p < 128,
            0 <= e < s,
            s * m == 128,
            s > 0,
    ;
    assert(0 <= q * (2 * s) + e && q * (2 * s) + e + s < 256) by (nonlinear_arith)
        requires
            0 <= q,
            q + 1 <= m,
            s * m == 128,
            0 <= e < s,
            s > 0,
    ;
}

proof fn lemma_partial_ends(x: Seq<int>, s: int)
    requires
        x.len() == 256,
        is_stride(s),
    ensures
        partial(x, s, 0) == x,
        partial(x, s, 128) == stage(x, s),
{
    assert forall|t: int| 0 <= t < 256 implies 0 <= #[trigger] pair_id(t, s) < 128 by {
        lemma_pair_id_bound(t, s);
    }
    assert(partial(x, s, 0) =~= x);
    assert(partial(x, s, 128) =~= stage(x, s));
}

proof fn lemma_apply_push(x: Seq<int>, pairs: Seq<(usize, usize)>, pair: (usize, usize))
    ensures
        apply(x, pairs.push(pair)) == butterfly(apply(x, pairs), pair),
{
    assert(pairs.push(pair).drop_last() =~= pairs);
}

proof fn lemma_stages_len(x: Seq<int>, k: nat)
    ensures
        stages(x, k).len() == x.len(),
    decreases k,
{
    if k > 0 {
        lemma_stages_len(x, (k - 1) as nat);
    }
}

/// Butterfly `i` of all: each stage has 128, and they come in the order of their
/// first position.
spec fn is_pair(pair: (usize, usize), i: int) -> bool {
    let s = pow2((i / 128) as nat) as int;
    &&& pair.0 == i % 128 / s * (2 * s) + i % 128 % s
    &&& pair.1 == pair.0 + s
}

/// The butterflies of the transform of 256 values, in the order in which they
/// are done.
pub fn butterflies() -> (out: Vec<(usize, usize)>)
    ensures
        out@.len() == 1024,
        forall|i: int|
            #![trigger out@[i]]
            0 <= i < out@.len() ==> out@[i].0 < out@[i].1 < 256,
        forall|i: int|
            #![trigger out@[i]]
            0 <= i < out@.len() ==> ({
                let s = pow2((i / 128) as nat) as int;
                &&& out@[i].0 == i % 128 / s * (2 * s) + i % 128 % s
                &&& out@[i].1 == out@[i].0 + s
            }),
        forall|x: Seq<int>|
            x.len() == 256 ==> #[trigger] apply(x, out@) == transform(x),
{
    let mut out: Vec<(usize, usize)> = Vec::new();
    let mut k: usize = 0;
    let mut s: usize = 1;
    proof {
        lemma2_to64();
    }
    while k < 8
        invariant
            k <= 8,
            s == pow2(k as nat),
            s <= 256,
            out@.len() == 128 * k,
            forall|i: int|
                #![trigger out@[i]]
                0 <= i < out@.len() ==> out@[i].0 < out@[i].1 < 256,
            forall|i: int| #![trigger out@[i]] 0 <= i < out@.len() ==> is_pair(out@[i], i),
            forall|x: Seq<int>|
                x.len() == 256 ==> #[trigger] apply(x, out@) == stages(x, k as nat),
        decreases 8 - k,
    {
        assert(is_stride(s as int));
        let mut p: usize = 0;
        proof {
            lemma_stride(s as int);
            assert forall|x: Seq<int>| x.len() == 256 implies #[trigger] apply(x, out@) == partial(
                stages(x, k as nat),
                s as int,
                0,
            ) by {
                lemma_stages_len(x, k as nat);
                lemma_partial_ends(stages(x, k as nat), s as int);
            }
        }
        while p < 128
            invariant
                p <= 128,
                k < 8,
                0 < s <= 256,
                s == pow2(k as nat),
                is_stride(s as int),
                out@.len() == 128 * k + p,
                forall|i: int|
                    #![trigger out@[i]]
                    0 <= i < out@.len() ==> out@[i].0 < out@[i].1 < 256,
                forall|i: int| #![trigger out@[i]] 0 <= i < out@.len() ==> is_pair(out@[i], i),
                forall|x: Seq<int>|
                    x.len() == 256 ==> #[trigger] apply(x, out@) == partial(
                        stages(x, k as nat),
                        s as int,
                        p as int,
                    ),
            decreases 128 - p,
        {
            proof {
                lemma_pair_position(p as int, s as int);
                assert(0 <= p / s * (2 * s) <= p / s * (2 * s) + p % s);
            }
            let a: usize = p / s * (2 * s) + p % s;
            let b: usize = a + s;
            let ghost old_out = out@;
            out.push((a, b));
            proof {
                assert forall|i: int| #![trigger out@[i]]
                    0 <= i < out@.len() implies out@[i].0 < out@[i].1 < 256 by {
                    if i < old_out.len() {
                        assert(out@[i] == old_out[i]);
                    }
                }
                assert forall|i: int| #![trigger out@[i]] 0 <= i < out@.len() implies is_pair(
                    out@[i],
                    i,
                ) by {
                    if i < old_out.len() {
                        assert(out@[i] == old_out[i]);
                    } else {
                        assert(i / 128 == k && i % 128 == p);
                    }
                }
                assert forall|x: Seq<int>| x.len() == 256 implies #[trigger] apply(x, out@)
                    == partial(stages(x, k as nat), s as int, p + 1) by {
                    lemma_stages_len(x, k as nat);
                    assert(apply(x, old_out) == partial(stages(x, k as nat), s as int, p as int));
                    lemma_apply_push(x, old_out, (a, b));
                    lemma_partial_step(stages(x, k as nat), s as int, p as int, a, b);
                }
            }
            p = p + 1;
        }
        proof {
            assert forall|x: Seq<int>| x.len() == 256 implies #[trigger] apply(x, out@) == stages(
                x,
                (k + 1) as nat,
            ) by {
                lemma_stages_len(x, k as nat);
                lemma_partial_ends(stages(x, k as nat), s as int);
            }
            lemma_pow2_adds(1, k as nat);
            lemma2_to64();
            if k < 7 {
                lemma_pow2_strictly_increases((k + 1) as nat, 8);
            }
        }
        k = k + 1;
        s = 2 * s;
    }
    out
}

// Undoing the transform.

/// Every value times `c`.
pub open spec fn scaled(x: Seq<int>, c: int) -> Seq<int> {
    Seq::new(x.len(), |i: int| x[i] * c)
}

/// A stage done twice doubles every value.
proof fn lemma_stage_twice(x: Seq<int>, s: int)
    requires
        x.len() == 256,
        is_stride(s),
    ensures
        stage(stage(x, s), s) == scaled(x, 2),
{
    lemma_stride(s);
    let y = stage(x, s);
    assert forall|t: int| 0 <= t < 256 implies stage(y, s)[t] == x[t] * 2 by {
        lemma_partner_in_range(t, s);
        lemma_step(t, s);
    }
    assert(stage(y, s) =~= scaled(x, 2));
}

/// How a step of `s` and a step of `r` get along, where `r` is a larger distance.
proof fn lemma_two_steps(t: int, s: int, r: int, m: int)
    requires
        s > 0,
        m > 0,
        r == s * (2 * m),
        t >= 0,
    ensures
        t / s % 2 == 0 ==> (t + s) / r == t / r,
        t / s % 2 == 1 ==> (t - s) / r == t / r,
        (t + r) / s % 2 == t / s % 2,
        t >= r ==> (t - r) / s % 2 == t / s % 2,
{
    let q = t / s;
    lemma_step(t, s);
    lemma_div_denominator(t, s, 2 * m);
    lemma_div_denominator(t + s, s, 2 * m);
    lemma_div_denominator(q, 2, m);
    lemma_div_denominator(q + 1, 2, m);
    if q % 2 == 0 {
        assert((q + 1) / 2 == q / 2);
    } else {
        lemma_div_denominator(t - s, s, 2 * m);
        lemma_div_denominator(q - 1, 2, m);
        assert((q - 1) / 2 == q / 2);
    }
    let e = t % s;
    assert(t + r == (q + 2 * m) * s + e && t - r == (q - 2 * m) * s + e) by (nonlinear_arith)
        requires
            t == s * q + e,
            r == s * (2 * m),
    ;
    lemma_fundamental_div_mod_converse(t + r, s, q + 2 * m, e);
    if t >= r {
        lemma_fundamental_div_mod_converse(t - r, s, q - 2 * m, e);
    }
}

/// Two stages at different distances can be done in either order.
proof fn lemma_stages_commute(x: Seq<int>, i: nat, j: nat)
    requires
        x.len() == 256,
        i < j < 8,
    ensures
        stage(stage(x, pow2(i) as int), pow2(j) as int) == stage(
            stage(x, pow2(j) as int),
            pow2(i) as int,
        ),
{
    let s = pow2(i) as int;
    let r = pow2(j) as int;
    let m = pow2((j - i - 1) as nat) as int;
    lemma_pow2_pos(i);
    lemma_pow2_pos((j - i - 1) as nat);
    lemma_pow2_adds(1, (j - i - 1) as nat);
    lemma_pow2_adds(i, (j - i) as nat);
    lemma2_to64();
    assert(r == s * (2 * m));
    assert(is_stride(s));
    assert(is_stride(r));
    let a = stage(stage(x, s), r);
    let b = stage(stage(x, r), s);
    assert forall|t: int| 0 <= t < 256 implies a[t] == b[t] by {
        lemma_stride(s);
        lemma_stride(r);
        lemma_partner_in_range(t, s);
        lemma_partner_in_range(t, r);
        lemma_two_steps(t, s, r, m);
        lemma_step(t, s);
        lemma_step(t, r);
        if t / r % 2 == 0 {
            lemma_partner_in_range(t + r, s);
        } else {
            lemma_partner_in_range(t - r, s);
        }
        if t / s % 2 == 0 {
            lemma_partner_in_range(t + s, r);
        } else {
            lemma_partner_in_range(t - s, r);
        }
    }
    assert(a =~= b);
}

/// A later stage can be done before the first `k` stages.
proof fn lemma_stage_moves_forward(x: Seq<int>, k: nat, j: nat)
    requires
        x.len() == 256,
        k <= j < 8,
    ensures
        stages(stage(x, pow2(j) as int), k) == stage(stages(x, k), pow2(j) as int),
    decreases k,
{
    if k > 0 {
        let i = (k - 1) as nat;
        lemma_stage_moves_forward(x, i, j);
        lemma_stages_len(x, i);
        lemma_stages_commute(stages(x, i), i, j);
    }
}

proof fn lemma_stages_twice(x: Seq<int>, k: nat)
    requires
        x.len() == 256,
        k <= 8,
    ensures
        stages(stages(x, k), k) == scaled(x, pow2(k) as int),
    decreases k,
{
    lemma2_to64();
    if k == 0 {
        assert(scaled(x, 1) =~= x);
    } else {
        let i = (k - 1) as nat;
        let s = pow2(i) as int;
        assert(is_stride(s));
        lemma_stages_len(x, i);
        let y = stages(x, i);
        lemma_stage_moves_forward(y, i, i);
        lemma_stages_twice(x, i);
        let z = scaled(x, s);
        lemma_stage_twice(z, s);
        lemma_pow2_adds(1, i);
        assert forall|t: int| 0 <= t < 256 implies #[trigger] scaled(z, 2)[t] == x[t] * pow2(
            k,
        ) by {
            assert((x[t] * s) * 2 == x[t] * (2 * s)) by (nonlinear_arith);
        }
        assert(scaled(z, 2) =~= scaled(x, pow2(k) as int));
    }
}

/// The transform done twice multiplies every value by 256.
pub proof fn law_transform_is_involutory(x: Seq<int>)
    requires
        x.len() == 256,
    ensures
        transform(transform(x)) == scaled(x, 256),
{
    lemma_stages_twice(x, 8);
    lemma2_to64();
}

// Dot products.

/// The dot product of two sequences.
pub open spec fn dot(x: Seq<int>, y: Seq<int>) -> int
    decreases x.len(),
{
    if x.len() == 0 {
        0
    } else {
        dot(x.drop_last(), y.drop_last()) + x.last() * y.last()
    }
}

proof fn lemma_dot_update(x: Seq<int>, y: Seq<int>, a: int, v: int)
    requires
        x.len() == y.len(),
        0 <= a < x.len(),
    ensures
        dot(x.update(a, v), y) == dot(x, y) + (v - x[a]) * y[a],
    decreases x.len(),
{
    let z = x.update(a, v);
    if a == x.len() - 1 {
        assert(z.drop_last() =~= x.drop_last());
        let (p, q) = (x[a], y[a]);
        assert(v * q == p * q + (v - p) * q) by (nonlinear_arith);
    } else {
        assert(z.drop_last() =~= x.drop_last().update(a, v));
        lemma_dot_update(x.drop_last(), y.drop_last(), a, v);
    }
}

proof fn lemma_dot_commutes(x: Seq<int>, y: Seq<int>)
    requires
        x.len() == y.len(),
    ensures
        dot(x, y) == dot(y, x),
    decreases x.len(),
{
    if x.len() > 0 {
        lemma_dot_commutes(x.drop_last(), y.drop_last());
        let (p, q) = (x.last(), y.last());
        assert(p * q == q * p) by (nonlinear_arith);
    }
}

/// A butterfly on both sides adds the products at its two positions.
proof fn lemma_dot_butterfly(x: Seq<int>, y: Seq<int>, a: usize, b: usize)
    requires
        x.len() == y.len(),
        a < x.len(),
        b < x.len(),
        a != b,
    ensures
        dot(butterfly(x, (a, b)), butterfly(y, (a, b))) == dot(x, y) + x[a as int] * y[a as int]
            + x[b as int] * y[b as int],
{
    let (i, j) = (a as int, b as int);
    let (p, q, r, s) = (x[i], x[j], y[i], y[j]);
    let x1 = x.update(i, p + q);
    let x2 = x1.update(j, p - q);
    let y1 = y.update(i, r + s);
    let y2 = y1.update(j, r - s);
    lemma_dot_update(x, y2, i, p + q);
    lemma_dot_update(x1, y2, j, p - q);
    lemma_dot_commutes(x, y2);
    lemma_dot_update(y, x, i, r + s);
    lemma_dot_update(y1, x, j, r - s);
    lemma_dot_commutes(y, x);
    assert(y2[i] == r + s && y2[j] == r - s);
    assert(x1[j] == q && y1[j] == s);
    assert((r + s - r) * p + (r - s - s) * q + (p + q - p) * (r + s) + (p - q - q) * (r - s) == p
        * r + q * s) by (nonlinear_arith);
}

/// The values whose butterfly has a number below `done`, zeros elsewhere.
spec fn masked(x: Seq<int>, s: int, done: int) -> Seq<int> {
    Seq::new(
        x.len(),
        |t: int|
            if pair_id(t, s) < done {
                x[t]
            } else {
                0
            },
    )
}

proof fn lemma_dot_zero(x: Seq<int>, y: Seq<int>)
    requires
        x.len() == y.len(),
        forall|i: int| 0 <= i < x.len() ==> #[trigger] x[i] == 0,
    ensures
        dot(x, y) == 0,
    decreases x.len(),
{
    if x.len() > 0 {
        let rest = x.drop_last();
        assert forall|i: int| 0 <= i < rest.len() implies #[trigger] rest[i] == 0 by {
            assert(rest[i] == x[i]);
        }
        lemma_dot_zero(rest, y.drop_last());
        assert(x.last() == x[x.len() - 1]);
        let q = y.last();
        assert(0 * q == 0) by (nonlinear_arith);
    }
}

proof fn lemma_dot_partial(x: Seq<int>, y: Seq<int>, s: int, p: int)
    requires
        x.len() == 256,
        y.len() == 256,
        is_stride(s),
        0 <= p <= 128,
    ensures
        dot(partial(x, s, p), partial(y, s, p)) == dot(x, y) + dot(masked(x, s, p), y),
    decreases p,
{
    if p == 0 {
        lemma_partial_ends(x, s);
        lemma_partial_ends(y, s);
        assert forall|i: int| 0 <= i < 256 implies #[trigger] masked(x, s, 0)[i] == 0 by {
            lemma_pair_id_bound(i, s);
        }
        lemma_dot_zero(masked(x, s, 0), y);
    } else {
        let d = p - 1;
        lemma_dot_partial(x, y, s, d);
        lemma_stride(s);
        lemma_pair(d, s);
        lemma_pair_position(d, s);
        let i = d / s * (2 * s) + d % s;
        let j = i + s;
        let (a, b) = (i as usize, j as usize);
        lemma_partial_step(x, s, d, a, b);
        lemma_partial_step(y, s, d, a, b);
        let (u, v) = (partial(x, s, d), partial(y, s, d));
        lemma_dot_butterfly(u, v, a, b);
        assert(u[i] == x[i] && u[j] == x[j] && v[i] == y[i] && v[j] == y[j]);
        let m0 = masked(x, s, d);
        let m1 = m0.update(i, x[i]);
        let m2 = m1.update(j, x[j]);
        assert(masked(x, s, p) =~= m2) by {
            assert forall|t: int| 0 <= t < 256 implies masked(x, s, p)[t] == m2[t] by {
                if pair_id(t, s) == d {
                    lemma_pair_unique(t, d, s);
                }
            }
        }
        lemma_dot_update(m0, y, i, x[i]);
        lemma_dot_update(m1, y, j, x[j]);
        assert(m0[i] == 0 && m1[j] == 0);
    }
}

proof fn lemma_stage_dot(x: Seq<int>, y: Seq<int>, s: int)
    requires
        x.len() == 256,
        y.len() == 256,
        is_stride(s),
    ensures
        dot(stage(x, s), stage(y, s)) == 2 * dot(x, y),
{
    lemma_dot_partial(x, y, s, 128);
    lemma_partial_ends(x, s);
    lemma_partial_ends(y, s);
    assert forall|t: int| 0 <= t < 256 implies #[trigger] masked(x, s, 128)[t] == x[t] by {
        lemma_pair_id_bound(t, s);
    }
    assert(masked(x, s, 128) =~= x);
}

proof fn lemma_stages_dot(x: Seq<int>, y: Seq<int>, k: nat)
    requires
        x.len() == 256,
        y.len() == 256,
        k <= 8,
    ensures
        dot(stages(x, k), stages(y, k)) == pow2(k) * dot(x, y),
    decreases k,
{
    lemma2_to64();
    let d = dot(x, y);
    if k == 0 {
        assert(1 * d == d);
    } else {
        let i = (k - 1) as nat;
        lemma_stages_dot(x, y, i);
        lemma_stages_len(x, i);
        lemma_stages_len(y, i);
        assert(is_stride(pow2(i) as int));
        lemma_stage_dot(stages(x, i), stages(y, i), pow2(i) as int);
        lemma_pow2_adds(1, i);
        let h = pow2(i) as int;
        assert(2 * (h * d) == (2 * h) * d) by (nonlinear_arith);
    }
}

/// The transform multiplies every dot product by 256.
pub proof fn law_transform_is_orthogonal(x: Seq<int>, y: Seq<int>)
    requires
        x.len() == 256,
        y.len() == 256,
    ensures
        dot(transform(x), transform(y)) == 256 * dot(x, y),
{
    lemma_stages_dot(x, y, 8);
    lemma2_to64();
}

// The rotation.

/// Plus or minus one.
pub open spec fn unit(sign: u32) -> int {
    if sign == ONE {
        1
    } else {
        -1
    }
}

/// Every value times its sign.
pub open spec fn signed_by(x: Seq<int>, signs: Seq<u32>) -> Seq<int> {
    Seq::new(x.len(), |i: int| x[i] * unit(signs[i]))
}

/// Sixteen times the rotation of a group: first signs, transform, second signs.
pub open spec fn rotated(x: Seq<int>, signs1: Seq<u32>, signs2: Seq<u32>) -> Seq<int> {
    signed_by(transform(signed_by(x, signs1)), signs2)
}

/// Sixteen times the inverse rotation: the signs change places.
pub open spec fn unrotated(x: Seq<int>, signs1: Seq<u32>, signs2: Seq<u32>) -> Seq<int> {
    rotated(x, signs2, signs1)
}

proof fn lemma_signs_twice(x: Seq<int>, signs: Seq<u32>)
    ensures
        signed_by(signed_by(x, signs), signs) == x,
{
    assert forall|i: int| 0 <= i < x.len() implies #[trigger] signed_by(
        signed_by(x, signs),
        signs,
    )[i] == x[i] by {
        let (v, u) = (x[i], unit(signs[i]));
        assert((v * u) * u == v) by (nonlinear_arith)
            requires
                u == 1 || u == -1,
        ;
    }
    assert(signed_by(signed_by(x, signs), signs) =~= x);
}

proof fn lemma_signs_keep_dot(x: Seq<int>, y: Seq<int>, signs: Seq<u32>)
    requires
        x.len() == y.len(),
    ensures
        dot(signed_by(x, signs), signed_by(y, signs)) == dot(x, y),
    decreases x.len(),
{
    if x.len() > 0 {
        let (a, b) = (signed_by(x, signs), signed_by(y, signs));
        assert(a.drop_last() =~= signed_by(x.drop_last(), signs));
        assert(b.drop_last() =~= signed_by(y.drop_last(), signs));
        lemma_signs_keep_dot(x.drop_last(), y.drop_last(), signs);
        let n = x.len() - 1;
        let (p, q, u) = (x[n], y[n], unit(signs[n]));
        assert((p * u) * (q * u) == p * q) by (nonlinear_arith)
            requires
                u == 1 || u == -1,
        ;
    }
}

/// Rotating both sides keeps every dot product: sixteen times each rotation
/// gives 256 times the product.
pub proof fn law_rotation_keeps_dot(
    x: Seq<int>,
    y: Seq<int>,
    signs1: Seq<u32>,
    signs2: Seq<u32>,
)
    requires
        x.len() == 256,
        y.len() == 256,
    ensures
        dot(rotated(x, signs1, signs2), rotated(y, signs1, signs2)) == 256 * dot(x, y),
{
    let (a, b) = (signed_by(x, signs1), signed_by(y, signs1));
    lemma_stages_len(a, 8);
    lemma_stages_len(b, 8);
    lemma_signs_keep_dot(transform(a), transform(b), signs2);
    law_transform_is_orthogonal(a, b);
    lemma_signs_keep_dot(x, y, signs1);
}

/// The inverse rotation undoes the rotation: sixteen times each gives 256 times
/// the group.
pub proof fn law_rotation_can_be_undone(x: Seq<int>, signs1: Seq<u32>, signs2: Seq<u32>)
    requires
        x.len() == 256,
    ensures
        unrotated(rotated(x, signs1, signs2), signs1, signs2) == scaled(x, 256),
{
    let a = signed_by(x, signs1);
    lemma_stages_len(a, 8);
    lemma_signs_twice(transform(a), signs2);
    law_transform_is_involutory(a);
    let z = scaled(a, 256);
    assert(signed_by(z, signs1) =~= scaled(x, 256)) by {
        assert forall|i: int| 0 <= i < 256 implies #[trigger] signed_by(z, signs1)[i] == x[i]
            * 256 by {
            let (v, u) = (x[i], unit(signs1[i]));
            assert(((v * u) * 256) * u == v * 256) by (nonlinear_arith)
                requires
                    u == 1 || u == -1,
            ;
        }
    }
}

} // verus!
