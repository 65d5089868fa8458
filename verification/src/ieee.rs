//! IEEE-754 numbers by their bit patterns: conversions between the 16-bit and
//! 32-bit formats, and comparisons.
use vstd::arithmetic::power2::*;
use vstd::prelude::*;

verus! {

/// Sign bit of an `f32`.
pub open spec fn sign32(b: u32) -> int {
    b as int / 0x8000_0000
}

/// Exponent field of an `f32`.
pub open spec fn exp32(b: u32) -> int {
    b as int / 0x80_0000 % 0x100
}

/// Fraction field of an `f32`.
pub open spec fn frac32(b: u32) -> int {
    b as int % 0x80_0000
}

/// The `f32` with these fields.
pub open spec fn join32(sign: int, exp: int, frac: int) -> u32 {
    (sign * 0x8000_0000 + exp * 0x80_0000 + frac) as u32
}

/// Sign bit of an `f16`.
pub open spec fn sign16(h: u16) -> int {
    h as int / 0x8000
}

/// Exponent field of an `f16`.
pub open spec fn exp16(h: u16) -> int {
    h as int / 0x400 % 0x20
}

/// Fraction field of an `f16`.
pub open spec fn frac16(h: u16) -> int {
    h as int % 0x400
}

/// The bit pattern is no number.
pub open spec fn is_nan32(b: u32) -> bool {
    exp32(b) == 0xff && frac32(b) != 0
}

/// The bit pattern is no number.
pub open spec fn is_nan16(h: u16) -> bool {
    exp16(h) == 0x1f && frac16(h) != 0
}

/// The `f32` that a subnormal `f16` with the fraction `frac` widens to.
pub open spec fn widen_subnormal(sign: int, frac: int) -> u32 {
    if frac >= 0x200 {
        join32(sign, 112, (frac - 0x200) * 0x4000)
    } else if frac >= 0x100 {
        join32(sign, 111, (frac - 0x100) * 0x8000)
    } else if frac >= 0x80 {
        join32(sign, 110, (frac - 0x80) * 0x1_0000)
    } else if frac >= 0x40 {
        join32(sign, 109, (frac - 0x40) * 0x2_0000)
    } else if frac >= 0x20 {
        join32(sign, 108, (frac - 0x20) * 0x4_0000)
    } else if frac >= 0x10 {
        join32(sign, 107, (frac - 0x10) * 0x8_0000)
    } else if frac >= 8 {
        join32(sign, 106, (frac - 8) * 0x10_0000)
    } else if frac >= 4 {
        join32(sign, 105, (frac - 4) * 0x20_0000)
    } else if frac >= 2 {
        join32(sign, 104, (frac - 2) * 0x40_0000)
    } else {
        join32(sign, 103, 0)
    }
}

/// The `f32` that an `f16` widens to. A NaN keeps its payload and gets its
/// lowest bit set.
pub open spec fn widen(h: u16) -> u32 {
    let (s, e, f) = (sign16(h), exp16(h), frac16(h));
    if e == 0 {
        if f == 0 {
            join32(s, 0, 0)
        } else {
            widen_subnormal(s, f)
        }
    } else if e == 0x1f {
        join32(s, 0xff, if f == 0 { 0 } else { f * 0x2000 + 1 })
    } else {
        join32(s, e + 112, f * 0x2000)
    }
}

/// How many units of an `f32` fraction make one unit of a subnormal `f16`, for
/// an `f32` with the exponent field `exp`.
pub open spec fn subnormal_unit(exp: int) -> int {
    if exp == 112 {
        0x4000
    } else if exp == 111 {
        0x8000
    } else if exp == 110 {
        0x1_0000
    } else if exp == 109 {
        0x2_0000
    } else if exp == 108 {
        0x4_0000
    } else if exp == 107 {
        0x8_0000
    } else if exp == 106 {
        0x10_0000
    } else if exp == 105 {
        0x20_0000
    } else if exp == 104 {
        0x40_0000
    } else if exp == 103 {
        0x80_0000
    } else {
        0x100_0000
    }
}

/// The magnitude of an `f32` with these fields, as a fraction whose integer
/// part is the magnitude of an `f16` bit pattern: the numerator.
pub open spec fn half_num(exp: int, frac: int) -> int {
    if exp <= 112 {
        0x80_0000 + frac
    } else {
        (exp - 112) * 0x80_0000 + frac
    }
}

/// The denominator that goes with `half_num`.
pub open spec fn half_den(exp: int) -> int {
    if exp <= 112 {
        subnormal_unit(exp)
    } else {
        0x2000
    }
}

/// `num / den`, rounded to the nearest integer, ties to the even one.
pub open spec fn round_half_even(num: int, den: int) -> int {
    let q = num / den;
    let lost = num % den;
    if 2 * lost > den || (2 * lost == den && q % 2 == 1) {
        q + 1
    } else {
        q
    }
}

/// `x` with its lowest bit set.
pub open spec fn set_low_bit(x: int) -> int {
    if x % 2 == 0 {
        x + 1
    } else {
        x
    }
}

/// The `f16` that an `f32` is cut down to, toward zero. Magnitudes from 2^16 on
/// become infinite, a NaN stays one.
pub open spec fn truncate16(b: u32) -> u16 {
    let (s, e, f) = (sign32(b), exp32(b), frac32(b));
    let magnitude = if e == 0xff {
        0x7c00 + (if f == 0 { 0 } else { set_low_bit(f / 0x2000) })
    } else if e >= 143 {
        0x7c00
    } else if e < 102 {
        0
    } else {
        half_num(e, f) / half_den(e)
    };
    (s * 0x8000 + magnitude) as u16
}

/// The `f16` nearest to an `f32`, ties to the even bit pattern. What rounds to
/// 2^16 or more becomes infinite, a NaN becomes the quiet NaN of its sign.
pub open spec fn nearest16(b: u32) -> u16 {
    let (s, e, f) = (sign32(b), exp32(b), frac32(b));
    let magnitude = if e == 0xff {
        0x7c00 + (if f == 0 { 0int } else { 0x200 })
    } else if e >= 143 {
        0x7c00
    } else if e < 102 {
        0
    } else {
        round_half_even(half_num(e, f), half_den(e))
    };
    (s * 0x8000 + magnitude) as u16
}

/// Widens an `f16` to the `f32` of the same value.
pub fn f16_to_f32(bits: u16) -> (r: u32)
    ensures
        r == widen(bits),
{
    let b: u32 = bits as u32;
    let sign: u32 = b / 0x8000;
    let exp: u32 = b / 0x400 % 0x20;
    let frac: u32 = b % 0x400;
    let top: u32 = sign * 0x8000_0000;
    if exp == 0 {
        if frac == 0 {
            return top;
        }
        return if frac >= 0x200 {
            top + 112 * 0x80_0000 + (frac - 0x200) * 0x4000
        } else if frac >= 0x100 {
            top + 111 * 0x80_0000 + (frac - 0x100) * 0x8000
        } else if frac >= 0x80 {
            top + 110 * 0x80_0000 + (frac - 0x80) * 0x1_0000
        } else if frac >= 0x40 {
            top + 109 * 0x80_0000 + (frac - 0x40) * 0x2_0000
        } else if frac >= 0x20 {
            top + 108 * 0x80_0000 + (frac - 0x20) * 0x4_0000
        } else if frac >= 0x10 {
            top + 107 * 0x80_0000 + (frac - 0x10) * 0x8_0000
        } else if frac >= 8 {
            top + 106 * 0x80_0000 + (frac - 8) * 0x10_0000
        } else if frac >= 4 {
            top + 105 * 0x80_0000 + (frac - 4) * 0x20_0000
        } else if frac >= 2 {
            top + 104 * 0x80_0000 + (frac - 2) * 0x40_0000
        } else {
            top + 103 * 0x80_0000
        };
    }
    if exp == 0x1f {
        let payload: u32 = if frac == 0 {
            0
        } else {
            frac * 0x2000 + 1
        };
        return top + 0xff * 0x80_0000 + payload;
    }
    top + (exp + 112) * 0x80_0000 + frac * 0x2000
}

/// Widens a `bf16` to the `f32` of the same value: the upper half of its bits.
pub fn bf16_to_f32(bits: u16) -> (r: u32)
    ensures
        r == bits as int * 0x1_0000,
{
    bits as u32 * 0x1_0000
}

fn half_fraction(exp: u32, frac: u32) -> (r: (u32, u32))
    requires
        102 <= exp < 143,
        frac < 0x80_0000,
    ensures
        r.0 == half_num(exp as int, frac as int),
        r.1 == half_den(exp as int),
        r.1 >= 0x2000,
        r.1 % 2 == 0,
        r.0 / r.1 < 0x7c00,
{
    if exp > 112 {
        return ((exp - 112) * 0x80_0000 + frac, 0x2000);
    }
    let den: u32 = if exp == 112 {
        0x4000
    } else if exp == 111 {
        0x8000
    } else if exp == 110 {
        0x1_0000
    } else if exp == 109 {
        0x2_0000
    } else if exp == 108 {
        0x4_0000
    } else if exp == 107 {
        0x8_0000
    } else if exp == 106 {
        0x10_0000
    } else if exp == 105 {
        0x20_0000
    } else if exp == 104 {
        0x40_0000
    } else if exp == 103 {
        0x80_0000
    } else {
        0x100_0000
    };
    let num: u32 = 0x80_0000 + frac;
    assert(num / den < 0x7c00) by (nonlinear_arith)
        requires
            num < 0x100_0000,
            den >= 0x4000,
    ;
    (num, den)
}

/// Converts an `f32` to an `f16`, toward zero.
pub fn f32_to_f16(bits: u32) -> (r: u16)
    ensures
        r == truncate16(bits),
{
    let sign: u32 = bits / 0x8000_0000;
    let exp: u32 = bits / 0x80_0000 % 0x100;
    let frac: u32 = bits % 0x80_0000;
    let top: u32 = sign * 0x8000;
    if exp == 0xff {
        let payload: u32 = if frac == 0 {
            0
        } else {
            let p: u32 = frac / 0x2000;
            if p % 2 == 0 {
                p + 1
            } else {
                p
            }
        };
        return (top + 0x7c00 + payload) as u16;
    }
    if exp >= 143 {
        return (top + 0x7c00) as u16;
    }
    if exp < 102 {
        return top as u16;
    }
    let (num, den) = half_fraction(exp, frac);
    (top + num / den) as u16
}

/// Converts an `f32` to the nearest `f16`, ties to even.
pub fn f32_to_fp16_bits(bits: u32) -> (r: u16)
    ensures
        r == nearest16(bits),
{
    let sign: u32 = bits / 0x8000_0000;
    let exp: u32 = bits / 0x80_0000 % 0x100;
    let frac: u32 = bits % 0x80_0000;
    let top: u32 = sign * 0x8000;
    if exp == 0xff {
        let payload: u32 = if frac == 0 {
            0
        } else {
            0x200
        };
        return (top + 0x7c00 + payload) as u16;
    }
    if exp >= 143 {
        return (top + 0x7c00) as u16;
    }
    if exp < 102 {
        return top as u16;
    }
    let (num, den) = half_fraction(exp, frac);
    let q: u32 = num / den;
    let lost: u32 = num % den;
    let half: u32 = den / 2;
    if lost > half || (lost == half && q % 2 == 1) {
        (top + q + 1) as u16
    } else {
        (top + q) as u16
    }
}

/// Position of an `f32` in the order of the numbers; both zeros have the
/// position 0.
pub open spec fn order_key(b: u32) -> int {
    if b < 0x8000_0000 {
        b as int
    } else {
        0x8000_0000 - b
    }
}

/// `a` and `b` are numbers and `a` is below `b`.
pub open spec fn is_less(a: u32, b: u32) -> bool {
    !is_nan32(a) && !is_nan32(b) && order_key(a) < order_key(b)
}

/// The bit pattern without its sign.
pub open spec fn abs32(b: u32) -> u32 {
    (b as int % 0x8000_0000) as u32
}

/// Whether an `f32` is no number.
pub fn f32_is_nan(bits: u32) -> (r: bool)
    ensures
        r == is_nan32(bits),
{
    bits / 0x80_0000 % 0x100 == 0xff && bits % 0x80_0000 != 0
}

/// Whether the `f32` `a` is below the `f32` `b`; false if one is no number.
pub fn f32_less(a: u32, b: u32) -> (r: bool)
    ensures
        r == is_less(a, b),
{
    if f32_is_nan(a) || f32_is_nan(b) {
        return false;
    }
    if a < 0x8000_0000 {
        b < 0x8000_0000 && a < b
    } else if b < 0x8000_0000 {
        a > 0x8000_0000 || b > 0
    } else {
        a > b
    }
}

/// The absolute value of an `f32`.
pub fn f32_abs(bits: u32) -> (r: u32)
    ensures
        r == abs32(bits),
{
    bits % 0x8000_0000
}

/// Whether an `f32` is a number and not below zero; true for both zeros.
pub fn f32_not_negative(bits: u32) -> (r: bool)
    ensures
        r == (!is_nan32(bits) && order_key(bits) >= 0),
{
    !f32_is_nan(bits) && bits <= 0x8000_0000
}

/// The magnitude of a finite `f32`, counted in units of 2^-149.
pub open spec fn magnitude32(b: u32) -> nat {
    if exp32(b) == 0 {
        frac32(b) as nat
    } else {
        (0x80_0000 + frac32(b)) as nat * pow2((exp32(b) - 1) as nat)
    }
}

/// The magnitude of a finite `f16`, counted in units of 2^-149. The bit pattern
/// of infinity, read the same way, has the magnitude 2^16.
pub open spec fn magnitude16(h: u16) -> nat {
    if exp16(h) == 0 {
        frac16(h) as nat * pow2(125)
    } else {
        (0x400 + frac16(h)) as nat * pow2((exp16(h) + 124) as nat)
    }
}

proof fn lemma_scale(f: nat, c: nat, a: nat, b: nat)
    requires
        c == pow2(a),
    ensures
        (f * c) * pow2(b) == f * pow2(a + b),
{
    lemma_pow2_adds(a, b);
    let p = pow2(b);
    assert((f * c) * p == f * (c * p)) by (nonlinear_arith);
}

proof fn lemma_join32(s: int, e: int, f: int)
    requires
        0 <= s <= 1,
        0 <= e < 0x100,
        0 <= f < 0x80_0000,
    ensures
        sign32(join32(s, e, f)) == s,
        exp32(join32(s, e, f)) == e,
        frac32(join32(s, e, f)) == f,
{
}

#[verifier::rlimit(40)]
proof fn lemma_widen_subnormal_fields(s: int, f: int)
    requires
        0 <= s <= 1,
        0 < f < 0x400,
    ensures
        ({
            let r = widen_subnormal(s, f);
            let c = subnormal_unit(exp32(r));
            &&& sign32(r) == s
            &&& 103 <= exp32(r) <= 112
            &&& 0x80_0000 + frac32(r) == f * c
        }),
{
}

proof fn lemma_zero_half(h: u16)
    requires
        exp16(h) == 0,
        frac16(h) == 0,
    ensures
        magnitude16(h) == 0,
{
    let (f, p) = (frac16(h) as nat, pow2(125));
    assert(f * p == 0) by (nonlinear_arith)
        requires
            f == 0,
    ;
}

/// Widening is exact: the `f32` has the sign and the magnitude of the `f16`.
pub proof fn law_widening_is_exact(h: u16)
    requires
        exp16(h) != 0x1f,
    ensures
        sign32(widen(h)) == sign16(h),
        magnitude32(widen(h)) == magnitude16(h),
{
    let (s, e, f) = (sign16(h), exp16(h), frac16(h));
    lemma2_to64();
    if e == 0 {
        if f == 0 {
            lemma_zero_half(h);
            lemma_join32(s, 0, 0);
        } else {
            lemma_widen_subnormal_fields(s, f);
            let r = widen(h);
            let k = exp32(r) - 103;
            let c = subnormal_unit(exp32(r)) as nat;
            assert(c == pow2((23 - k) as nat));
            lemma_scale(f as nat, c, (23 - k) as nat, (102 + k) as nat);
        }
    } else {
        lemma_join32(s, e + 112, f * 0x2000);
        lemma_scale((0x400 + f) as nat, 0x2000, 13, (e + 111) as nat);
    }
}

/// Cutting down and rounding both take a widened `f16` back to itself, unless it
/// is no number; then it stays none.
pub proof fn law_half_round_trip(h: u16)
    ensures
        !is_nan16(h) ==> truncate16(widen(h)) == h && nearest16(widen(h)) == h,
        is_nan16(h) ==> is_nan16(truncate16(widen(h))) && is_nan16(nearest16(widen(h))),
{
    let (s, e, f) = (sign16(h), exp16(h), frac16(h));
    assert(h == s * 0x8000 + e * 0x400 + f);
    if e == 0 {
        if f != 0 {
            lemma_widen_subnormal_fields(s, f);
            let r = widen(h);
            let c = subnormal_unit(exp32(r));
            assert((f * c) / c == f) by (nonlinear_arith)
                requires
                    c > 0,
            ;
            assert((f * c) % c == 0) by (nonlinear_arith)
                requires
                    c > 0,
            ;
        }
    } else if e == 0x1f {
        lemma_join32(s, 0xff, if f == 0 { 0 } else { f * 0x2000 + 1 });
    } else {
        lemma_join32(s, e + 112, f * 0x2000);
    }
}

/// The bit pattern of the magnitude alone.
pub open spec fn unsigned16(h: u16) -> u16 {
    (h as int % 0x8000) as u16
}

// For a finite `f32` below 2^16: its magnitude lies `half_num % half_den` units
// above that of the `f16` it is cut down to, and the next `f16` lies `half_den`
// units above that one.
proof fn lemma_between_halves(b: u32)
    requires
        102 <= exp32(b) < 143,
    ensures
        ({
            let (e, f) = (exp32(b), frac32(b));
            let q = half_num(e, f) / half_den(e);
            let unit = pow2((e - 1) as nat);
            &&& 0 <= q < 0x7c00
            &&& unit > 0
            &&& half_den(e) > 0
            &&& magnitude32(b) - magnitude16(q as u16) == (half_num(e, f) % half_den(e)) * unit
            &&& magnitude16((q + 1) as u16) - magnitude16(q as u16) == half_den(e) * unit
        }),
{
    let (e, f) = (exp32(b), frac32(b));
    let num = half_num(e, f);
    let den = half_den(e);
    let q = num / den;
    let lost = num % den;
    let unit = pow2((e - 1) as nat);
    lemma2_to64();
    lemma_pow2_pos((e - 1) as nat);
    if e <= 112 {
        let a = (126 - e) as nat;
        assert(den == pow2(a));
        assert(num == q * den + lost && 0 <= q < 0x400) by (nonlinear_arith)
            requires
                q == num / den,
                lost == num % den,
                0x4000 <= den,
                0x80_0000 <= num < 0x100_0000,
        ;
        lemma_scale(q as nat, den as nat, a, (e - 1) as nat);
        lemma_scale((q + 1) as nat, den as nat, a, (e - 1) as nat);
        assert(magnitude16(q as u16) == (q * den) * unit);
        assert(magnitude16((q + 1) as u16) == ((q + 1) * den) * unit) by {
            if q + 1 == 0x400 {
                assert(exp16(0x400u16) == 1 && frac16(0x400u16) == 0);
            }
        }
        assert((q * den + lost) * unit - (q * den) * unit == lost * unit) by (nonlinear_arith);
        assert(((q + 1) * den) * unit - (q * den) * unit == den * unit) by (nonlinear_arith);
    } else {
        let m = f / 0x2000;
        assert(num == ((e - 112) * 0x400 + m) * 0x2000 + f % 0x2000);
        assert(den == 0x2000 && q == num / 0x2000 && lost == num % 0x2000);
        assert(q == (e - 112) * 0x400 + m && lost == f % 0x2000);
        assert(exp16(q as u16) == e - 112 && frac16(q as u16) == m);
        lemma_scale((0x400 + m) as nat, 0x2000, 13, (e - 1) as nat);
        lemma_scale((0x400 + m + 1) as nat, 0x2000, 13, (e - 1) as nat);
        assert(magnitude16(q as u16) == ((0x400 + m) * 0x2000) * unit);
        assert(magnitude16((q + 1) as u16) == ((0x400 + m + 1) * 0x2000) * unit) by {
            if m + 1 == 0x400 {
                assert(exp16((q + 1) as u16) == e - 111 && frac16((q + 1) as u16) == 0);
                lemma_pow2_unfold((e + 13) as nat);
                let p = pow2((e + 12) as nat);
                assert(0x400 * (2 * p) == 0x800 * p) by (nonlinear_arith);
            } else {
                assert(exp16((q + 1) as u16) == e - 112 && frac16((q + 1) as u16) == m + 1);
            }
        }
        assert((0x80_0000 + f) * unit - ((0x400 + m) * 0x2000) * unit == lost * unit)
            by (nonlinear_arith)
            requires
                f == m * 0x2000 + lost,
        ;
        assert(((0x400 + m + 1) * 0x2000) * unit - ((0x400 + m) * 0x2000) * unit == 0x2000 * unit)
            by (nonlinear_arith);
    }
}

proof fn lemma_tiny_below_first_half(b: u32)
    requires
        exp32(b) < 102,
    ensures
        2 * magnitude32(b) < magnitude16(1),
{
    let (e, f) = (exp32(b), frac32(b));
    lemma2_to64();
    assert(magnitude16(1u16) == pow2(125)) by {
        let (f, p) = (frac16(1u16) as nat, pow2(125));
        assert(exp16(1u16) == 0 && f == 1);
        assert(f * p == p) by (nonlinear_arith)
            requires
                f == 1,
        ;
    }
    lemma_pow2_adds(24, 101);
    lemma_pow2_pos(101);
    lemma_pow2_unfold(101);
    let p = pow2(100);
    if e == 0 {
        assert(0x100_0000 * (2 * p) > 2 * f) by (nonlinear_arith)
            requires
                f < 0x80_0000,
                p > 0,
        ;
    } else {
        let u = pow2((e - 1) as nat);
        if e - 1 < 100 {
            lemma_pow2_strictly_increases((e - 1) as nat, 100);
        }
        assert(2 * ((0x80_0000 + f) * u) < 0x100_0000 * (2 * p)) by (nonlinear_arith)
            requires
                0 <= f < 0x80_0000,
                0 <= u <= p,
                p > 0,
        ;
    }
}

/// Cutting a finite `f32` below 2^16 down to an `f16` goes to the largest `f16`
/// magnitude that is not above it, and keeps the sign.
pub proof fn law_truncation_is_toward_zero(b: u32)
    requires
        exp32(b) < 143,
    ensures
        ({
            let h = truncate16(b);
            &&& sign16(h) == sign32(b)
            &&& unsigned16(h) < 0x7c00
            &&& magnitude16(unsigned16(h)) <= magnitude32(b) < magnitude16(
                (unsigned16(h) + 1) as u16,
            )
        }),
{
    let (e, f) = (exp32(b), frac32(b));
    if e < 102 {
        lemma_tiny_below_first_half(b);
        lemma_zero_half(0);
        assert(unsigned16(truncate16(b)) == 0);
    } else {
        lemma_between_halves(b);
        let den = half_den(e);
        let lost = half_num(e, f) % den;
        let unit = pow2((e - 1) as nat);
        assert(0 <= lost < den);
        assert(0 <= lost * unit < den * unit) by (nonlinear_arith)
            requires
                0 <= lost < den,
                unit > 0,
        ;
        assert(unsigned16(truncate16(b)) == half_num(e, f) / den);
    }
}

/// Within the range of normal `f16` numbers, cutting down loses at most one part in 1024.
pub proof fn law_truncation_loses_little(b: u32)
    requires
        113 <= exp32(b) < 143,
    ensures
        ({
            let cut = magnitude32(widen(truncate16(b)));
            &&& cut <= magnitude32(b)
            &&& 1024 * (magnitude32(b) - cut) <= cut
        }),
{
    let (e, f) = (exp32(b), frac32(b));
    let h = truncate16(b);
    let unit = pow2((e - 1) as nat) as int;
    lemma_pow2_pos((e - 1) as nat);
    lemma2_to64();
    let m = f / 0x2000;
    let q = (e - 112) * 0x400 + m;
    assert(half_num(e, f) == q * 0x2000 + f % 0x2000);
    assert(half_num(e, f) / 0x2000 == q);
    assert(h == sign32(b) * 0x8000 + q);
    assert(exp16(h) == e - 112 && frac16(h) == m);
    law_widening_is_exact(h);
    lemma_scale((0x400 + m) as nat, 0x2000, 13, (e - 1) as nat);
    let cut = magnitude32(widen(h)) as int;
    assert(cut == ((0x400 + m) * 0x2000) * unit);
    let lost = f % 0x2000;
    assert(magnitude32(b) - cut == lost * unit) by (nonlinear_arith)
        requires
            magnitude32(b) == (0x80_0000 + f) * unit,
            cut == ((0x400 + m) * 0x2000) * unit,
            f == m * 0x2000 + lost,
    ;
    assert(0 <= lost * unit && 1024 * (lost * unit) <= cut) by (nonlinear_arith)
        requires
            cut == ((0x400 + m) * 0x2000) * unit,
            0 <= lost < 0x2000,
            0 <= m,
            unit > 0,
    ;
}

proof fn lemma_next_half_is_larger(h: u16)
    requires
        h < 0x7c00,
    ensures
        magnitude16(h) < magnitude16((h + 1) as u16),
{
    let (e, f) = (exp16(h), frac16(h));
    let n = (h + 1) as u16;
    lemma_pow2_pos(125);
    if e == 0 {
        if f + 1 == 0x400 {
            assert(exp16(n) == 1 && frac16(n) == 0);
        } else {
            assert(exp16(n) == 0 && frac16(n) == f + 1);
        }
        let p = pow2(125);
        assert(f * p < (f + 1) * p) by (nonlinear_arith)
            requires
                p > 0,
        ;
    } else {
        let p = pow2((e + 124) as nat);
        lemma_pow2_pos((e + 124) as nat);
        if f + 1 == 0x400 {
            assert(exp16(n) == e + 1 && frac16(n) == 0);
            lemma_pow2_unfold((e + 125) as nat);
            assert((0x400 + f) * p < 0x400 * (2 * p)) by (nonlinear_arith)
                requires
                    p > 0,
                    f + 1 == 0x400,
            ;
        } else {
            assert(exp16(n) == e && frac16(n) == f + 1);
            assert((0x400 + f) * p < (0x400 + f + 1) * p) by (nonlinear_arith)
                requires
                    p > 0,
            ;
        }
    }
}

/// The magnitudes of the `f16` bit patterns up to infinity are in their order.
pub proof fn law_half_order(g: u16, h: u16)
    requires
        g <= h <= 0x7c00,
    ensures
        magnitude16(g) <= magnitude16(h),
        g < h ==> magnitude16(g) < magnitude16(h),
    decreases h - g,
{
    if g < h {
        lemma_next_half_is_larger(g);
        law_half_order((g + 1) as u16, h);
    }
}

/// Distance of two magnitudes.
pub open spec fn distance(a: nat, b: nat) -> nat {
    if a <= b {
        (b - a) as nat
    } else {
        (a - b) as nat
    }
}

// Of two neighbours around `x`, the nearer one is as near as any.
proof fn lemma_nearer_neighbour(q: int, r: int, h: int, lo: nat, hi: nat, other: nat, x: nat)
    requires
        lo <= x < hi,
        r == q || r == q + 1,
        r == q ==> x - lo <= hi - x,
        r == q + 1 ==> hi - x <= x - lo,
        x - lo == hi - x ==> r % 2 == 0,
        h == q ==> other == lo,
        h == q + 1 ==> other == hi,
        h < q ==> other < lo,
        h > q + 1 ==> other > hi,
    ensures
        distance(if r == q { lo } else { hi }, x) <= distance(other, x),
        distance(if r == q { lo } else { hi }, x) == distance(other, x) && r != h ==> r % 2 == 0,
{
}

// The rounded quotient goes with the smaller of the two distances.
proof fn lemma_rounding_side(num: int, den: int, unit: int)
    requires
        den > 0,
        unit > 0,
    ensures
        ({
            let q = num / den;
            let r = round_half_even(num, den);
            let below = (num % den) * unit;
            let above = den * unit - below;
            &&& 0 <= below
            &&& 0 < above
            &&& r == q || r == q + 1
            &&& r == q ==> below <= above
            &&& r == q + 1 ==> above <= below
            &&& below == above ==> r % 2 == 0
        }),
{
    let lost = num % den;
    let below = lost * unit;
    let above = den * unit - below;
    assert(0 <= lost < den) by (nonlinear_arith)
        requires
            den > 0,
            lost == num % den,
    ;
    assert(above == (den - lost) * unit) by (nonlinear_arith)
        requires
            below == lost * unit,
            above == den * unit - below,
    ;
    assert(0 <= below && 0 < above) by (nonlinear_arith)
        requires
            below == lost * unit,
            above == (den - lost) * unit,
            0 <= lost < den,
            unit > 0,
    ;
    assert(2 * lost < den ==> below < above) by (nonlinear_arith)
        requires
            below == lost * unit,
            above == (den - lost) * unit,
            unit > 0,
    ;
    assert(2 * lost > den ==> below > above) by (nonlinear_arith)
        requires
            below == lost * unit,
            above == (den - lost) * unit,
            unit > 0,
    ;
    assert(2 * lost == den ==> below == above) by (nonlinear_arith)
        requires
            below == lost * unit,
            above == (den - lost) * unit,
            unit > 0,
    ;
}

/// Rounding a finite `f32` below 2^16 goes to an `f16` of the same sign to which
/// no other is nearer, where infinity counts as 2^16; of two that are equally
/// near it is the one with the even bit pattern.
#[verifier::rlimit(40)]
pub proof fn law_rounding_is_to_nearest(b: u32, h: u16)
    requires
        exp32(b) < 143,
        h <= 0x7c00,
    ensures
        ({
            let r = unsigned16(nearest16(b));
            let x = magnitude32(b);
            &&& sign16(nearest16(b)) == sign32(b)
            &&& r <= 0x7c00
            &&& distance(magnitude16(r), x) <= distance(magnitude16(h), x)
            &&& (distance(magnitude16(r), x) == distance(magnitude16(h), x) && r != h) ==> r % 2
                == 0
        }),
{
    let (e, f) = (exp32(b), frac32(b));
    let x = magnitude32(b);
    if e < 102 {
        lemma_tiny_below_first_half(b);
        lemma_zero_half(0);
        assert(unsigned16(nearest16(b)) == 0);
        if h > 0 {
            law_half_order(1, h);
        }
    } else {
        lemma_between_halves(b);
        let num = half_num(e, f);
        let den = half_den(e);
        let q = num / den;
        let unit = pow2((e - 1) as nat);
        let r = round_half_even(num, den);
        lemma_rounding_side(num, den, unit as int);
        assert(unsigned16(nearest16(b)) == r);
        if h < q {
            law_half_order(h, q as u16);
        } else if h > q + 1 {
            law_half_order((q + 1) as u16, h);
        }
        lemma_nearer_neighbour(
            q,
            r,
            h as int,
            magnitude16(q as u16),
            magnitude16((q + 1) as u16),
            magnitude16(h),
            x,
        );
    }
}

proof fn lemma_next_single_is_larger(b: u32)
    requires
        b < 0x7f80_0000,
    ensures
        magnitude32(b) < magnitude32((b + 1) as u32),
{
    let (e, f) = (exp32(b), frac32(b));
    let n = (b + 1) as u32;
    if e == 0 {
        if f + 1 == 0x80_0000 {
            assert(exp32(n) == 1 && frac32(n) == 0);
            lemma2_to64();
            let (m, p) = ((0x80_0000 + frac32(n)) as nat, pow2(0));
            assert(m * p == m) by (nonlinear_arith)
                requires
                    p == 1,
            ;
        } else {
            assert(exp32(n) == 0 && frac32(n) == f + 1);
        }
    } else {
        let p = pow2((e - 1) as nat);
        lemma_pow2_pos((e - 1) as nat);
        if f + 1 == 0x80_0000 {
            assert(exp32(n) == e + 1 && frac32(n) == 0);
            lemma_pow2_unfold(e as nat);
            assert((0x80_0000 + f) * p < 0x80_0000 * (2 * p)) by (nonlinear_arith)
                requires
                    p > 0,
                    f + 1 == 0x80_0000,
            ;
        } else {
            assert(exp32(n) == e && frac32(n) == f + 1);
            assert((0x80_0000 + f) * p < (0x80_0000 + f + 1) * p) by (nonlinear_arith)
                requires
                    p > 0,
            ;
        }
    }
}

/// The magnitudes of the `f32` bit patterns without a sign, up to infinity, are
/// in their order.
pub proof fn law_single_order(a: u32, b: u32)
    requires
        a <= b <= 0x7f80_0000,
    ensures
        magnitude32(a) <= magnitude32(b),
        a < b ==> magnitude32(a) < magnitude32(b),
    decreases b - a,
{
    if a < b {
        lemma_next_single_is_larger(a);
        law_single_order((a + 1) as u32, b);
    }
}

/// The value of a finite `f32`, counted in units of 2^-149.
pub open spec fn value32(b: u32) -> int {
    if sign32(b) == 0 {
        magnitude32(b) as int
    } else {
        -magnitude32(b)
    }
}

/// The comparison by bit patterns is the comparison of the values.
pub proof fn law_comparison_is_by_value(a: u32, b: u32)
    requires
        exp32(a) != 0xff,
        exp32(b) != 0xff,
    ensures
        is_less(a, b) <==> value32(a) < value32(b),
{
    let (x, y) = (abs32(a), abs32(b));
    assert(exp32(x) == exp32(a) && frac32(x) == frac32(a));
    assert(exp32(y) == exp32(b) && frac32(y) == frac32(b));
    assert(magnitude32(0u32) == 0) by {
        assert(exp32(0u32) == 0 && frac32(0u32) == 0);
    }
    law_single_order(0, x);
    law_single_order(0, y);
    if x <= y {
        law_single_order(x, y);
    } else {
        law_single_order(y, x);
    }
}

/// Position of an `f16` in the order of the numbers; both zeros have the position 0,
/// and a NaN has one beyond the infinity of its sign.
pub open spec fn half_key(h: u16) -> int {
    if h < 0x8000 {
        h as int
    } else {
        0x8000 - h
    }
}

/// The bit pattern that a magnitude is rounded to.
proof fn lemma_rounded_magnitude(a: u32)
    requires
        a < 0x8000_0000,
    ensures
        a <= 0x7f80_0000 ==> nearest16(a) <= 0x7c00,
        a <= 0x7f80_0000 && exp32(a) >= 143 ==> nearest16(a) == 0x7c00,
        a > 0x7f80_0000 ==> nearest16(a) == 0x7e00,
        nearest16((a + 0x8000_0000) as u32) == nearest16(a) + 0x8000,
{
    let b = (a + 0x8000_0000) as u32;
    assert(sign32(a) == 0 && sign32(b) == 1);
    assert(exp32(a) == exp32(b) && frac32(a) == frac32(b));
    if exp32(a) < 143 {
        law_rounding_is_to_nearest(a, 0);
        law_rounding_is_to_nearest(b, 0);
        assert(unsigned16(nearest16(a)) <= 0x7c00);
        assert(sign16(nearest16(a)) == 0);
        assert(sign16(nearest16(b)) == 1);
        let m = if exp32(a) < 102 {
            0
        } else {
            round_half_even(half_num(exp32(a), frac32(a)), half_den(exp32(a)))
        };
        assert(0 <= m <= 0x7c00) by {
            if exp32(a) >= 102 {
                lemma_round_fits(exp32(a), frac32(a));
            }
        }
        assert(nearest16(a) == m as u16);
        assert(nearest16(b) == (0x8000 + m) as u16);
    } else if exp32(a) == 0xff {
        assert(frac32(a) == a - 0x7f80_0000);
    }
}

proof fn lemma_round_fits(e: int, f: int)
    requires
        102 <= e < 143,
        0 <= f < 0x80_0000,
    ensures
        0 <= round_half_even(half_num(e, f), half_den(e)) <= 0x7c00,
{
    let (num, den) = (half_num(e, f), half_den(e));
    if e > 112 {
        assert(num / den < 0x7c00);
    } else {
        assert(0 <= num / den < 0x7c00) by (nonlinear_arith)
            requires
                0 <= num < 0x100_0000,
                den >= 0x4000,
        ;
    }
}

// Two magnitudes that are nearest to crossed neighbours are the midpoint of these.
proof fn lemma_crossed_neighbours(x: nat, y: nat, lo: nat, hi: nat)
    requires
        x <= y,
        lo < hi,
        distance(hi, x) <= distance(lo, x),
        distance(lo, y) <= distance(hi, y),
    ensures
        x == y,
{
}

// Magnitudes that are not rounded to infinity outright.
proof fn lemma_nearest_facts(a: u32, h: u16)
    requires
        a <= 0x7f80_0000,
        exp32(a) < 143,
        h <= 0x7c00,
    ensures
        nearest16(a) <= 0x7c00,
        distance(magnitude16(nearest16(a)), magnitude32(a)) <= distance(
            magnitude16(h),
            magnitude32(a),
        ),
{
    lemma_rounded_magnitude(a);
    law_rounding_is_to_nearest(a, h);
    assert(unsigned16(nearest16(a)) == nearest16(a));
}

#[verifier::spinoff_prover]
proof fn lemma_rounding_keeps_magnitudes(a: u32, b: u32)
    requires
        a <= b < 0x8000_0000,
    ensures
        nearest16(a) <= nearest16(b),
{
    lemma_rounded_magnitude(a);
    lemma_rounded_magnitude(b);
    if exp32(b) < 143 {
        assert(exp32(a) < 143) by {
            assert(a < 143 * 0x80_0000);
        }
        let (r, q) = (nearest16(a), nearest16(b));
        if r > q {
            lemma_nearest_facts(a, q);
            lemma_nearest_facts(b, r);
            law_half_order(q, r);
            law_single_order(a, b);
            lemma_crossed_neighbours(
                magnitude32(a),
                magnitude32(b),
                magnitude16(q),
                magnitude16(r),
            );
        }
    }
}

/// Rounding to `f16` keeps the order: what is not above stays not above. A NaN counts
/// as beyond the infinity of its sign, before and after.
pub proof fn law_rounding_keeps_order(a: u32, b: u32)
    requires
        order_key(a) <= order_key(b),
    ensures
        half_key(nearest16(a)) <= half_key(nearest16(b)),
{
    let (x, y) = (abs32(a), abs32(b));
    assert(exp32(x) == exp32(a) && frac32(x) == frac32(a));
    assert(exp32(y) == exp32(b) && frac32(y) == frac32(b));
    lemma_rounded_magnitude(x);
    lemma_rounded_magnitude(y);
    if a < 0x8000_0000 {
        assert(x == a);
    } else {
        assert(a == (x + 0x8000_0000) as u32);
    }
    if b < 0x8000_0000 {
        assert(y == b);
    } else {
        assert(b == (y + 0x8000_0000) as u32);
    }
    if x <= y {
        lemma_rounding_keeps_magnitudes(x, y);
    } else {
        lemma_rounding_keeps_magnitudes(y, x);
    }
    lemma_rounding_keeps_magnitudes(0, x);
    lemma_rounding_keeps_magnitudes(0, y);
}

// The bits of the conversions.

/// The fields of a number: its sign, exponent and fraction are its top bit, the
/// bits below it, and the rest.
pub proof fn law_fields_make_up_bits(b: u32, h: u16)
    ensures
        b == sign32(b) * 0x8000_0000 + exp32(b) * 0x80_0000 + frac32(b),
        0 <= sign32(b) <= 1,
        0 <= exp32(b) < 0x100,
        0 <= frac32(b) < 0x80_0000,
        h == sign16(h) * 0x8000 + exp16(h) * 0x400 + frac16(h),
        0 <= sign16(h) <= 1,
        0 <= exp16(h) < 0x20,
        0 <= frac16(h) < 0x400,
        is_nan32(b) <==> b % 0x8000_0000 > 0x7f80_0000,
        is_nan16(h) <==> h % 0x8000 > 0x7c00,
{
}

/// How an `f16` widens, by its bits: a normal one keeps its fraction and gets its
/// exponent moved by 112, a subnormal one is normalized, and zeros, infinities and
/// NaNs stay what they are, all with their sign.
pub proof fn law_widening_by_bits(h: u16)
    ensures
        ({
            let a = h as int % 0x8000;
            let r = widen(h) as int % 0x8000_0000;
            &&& widen(h) / 0x8000_0000 == h / 0x8000
            &&& a == 0 ==> r == 0
            &&& 0x400 <= a < 0x7c00 ==> r == a * 0x2000 + 0x3800_0000
            &&& a == 0x7c00 ==> r == 0x7f80_0000
            &&& a > 0x7c00 ==> r > 0x7f80_0000
            &&& 0 < a < 0x400 ==> 103 <= r / 0x80_0000 <= 112 && (0x80_0000 + r % 0x80_0000)
                * pow2((r / 0x80_0000 - 103) as nat) == a * 0x80_0000
        }),
{
    lemma2_to64();
    let a = h as int % 0x8000;
    let r = widen(h) as int % 0x8000_0000;
    if 0 < a < 0x400 {
        let p = pow2((r / 0x80_0000 - 103) as nat) as int;
        let m = 0x80_0000 + r % 0x80_0000;
        assert(m * p == a * 0x80_0000) by (nonlinear_arith)
            requires
                (a >= 0x200 && m == a * 0x4000 && p == 512) || (a >= 0x100 && m == a * 0x8000 && p
                    == 256) || (m == a * 0x1_0000 && p == 128) || (m == a * 0x2_0000 && p == 64)
                    || (m == a * 0x4_0000 && p == 32) || (m == a * 0x8_0000 && p == 16) || (m == a
                    * 0x10_0000 && p == 8) || (m == a * 0x20_0000 && p == 4) || (m == a * 0x40_0000
                    && p == 2) || (m == a * 0x80_0000 && p == 1),
        ;
    }
}

/// How an `f32` becomes an `f16`, by its bits: in the range of normal halves the low
/// thirteen bits are cut off, or rounded to the nearest with ties to even. What is
/// too large becomes infinite, what is too small zero, and a NaN stays one, all
/// with their sign.
pub proof fn law_narrowing_by_bits(b: u32)
    ensures
        ({
            let a = b as int % 0x8000_0000;
            let cut = truncate16(b) as int % 0x8000;
            let near = nearest16(b) as int % 0x8000;
            let rest = a % 0x2000;
            &&& truncate16(b) / 0x8000 == b / 0x8000_0000
            &&& nearest16(b) / 0x8000 == b / 0x8000_0000
            &&& 0x3880_0000 <= a < 0x4780_0000 ==> cut == (a - 0x3800_0000) / 0x2000
            &&& 0x3880_0000 <= a < 0x4780_0000 && rest < 0x1000 ==> near == cut
            &&& 0x3880_0000 <= a < 0x4780_0000 && rest > 0x1000 ==> near == cut + 1
            &&& 0x3880_0000 <= a < 0x4780_0000 && rest == 0x1000 ==> near == cut + cut % 2
            &&& 0x4780_0000 <= a <= 0x7f80_0000 ==> cut == 0x7c00 && near == 0x7c00
            &&& a > 0x7f80_0000 ==> cut > 0x7c00 && near > 0x7c00
            &&& a < 0x3300_0000 ==> cut == 0 && near == 0
        }),
{
    let (e, f) = (exp32(b), frac32(b));
    if 113 <= e < 143 {
        assert(half_num(e, f) == b as int % 0x8000_0000 - 0x3800_0000);
        assert(half_den(e) == 0x2000);
    }
}

/// Comparing, taking the magnitude, and telling what is no number, by the bits:
/// two numbers of which neither is negative compare by their bits, two negative
/// ones the other way round, and minus zero equals zero.
pub proof fn law_comparison_by_bits(a: u32, b: u32)
    requires
        a % 0x8000_0000 <= 0x7f80_0000,
        b % 0x8000_0000 <= 0x7f80_0000,
    ensures
        a < 0x8000_0000 && b < 0x8000_0000 ==> (is_less(a, b) <==> a < b),
        a >= 0x8000_0000 && b >= 0x8000_0000 ==> (is_less(a, b) <==> a > b),
        a < 0x8000_0000 && b >= 0x8000_0000 ==> !is_less(a, b),
        a >= 0x8000_0000 && b < 0x8000_0000 ==> (is_less(a, b) <==> a > 0x8000_0000 || b > 0),
        abs32(a) == a % 0x8000_0000,
        order_key(a) == order_key(b) <==> !is_less(a, b) && !is_less(b, a),
        is_less(a, b) <==> order_key(a) < order_key(b),
{
}

/// What is no number is below nothing, and nothing is below it.
pub proof fn law_nan_compares_to_nothing(a: u32, b: u32)
    requires
        a % 0x8000_0000 > 0x7f80_0000,
    ensures
        !is_less(a, b),
        !is_less(b, a),
{
}

/// What the bits of a number stand for, in units of the smallest one: a subnormal
/// number for its fraction, a normal one for its fraction with the leading one,
/// doubled as often as its exponent says.
pub proof fn law_magnitude_by_bits(b: u32)
    ensures
        b % 0x8000_0000 < 0x80_0000 ==> magnitude32(b) == b % 0x8000_0000,
        0x80_0000 <= b % 0x8000_0000 < 0x100_0000 ==> magnitude32(b) == b % 0x8000_0000,
        0x80_0000 <= b % 0x8000_0000 < 0x7f00_0000 ==> magnitude32((b + 0x80_0000) as u32) == 2
            * magnitude32(b),
{
    lemma2_to64();
    let (e, f) = (exp32(b), frac32(b));
    if 0x80_0000 <= b % 0x8000_0000 < 0x7f00_0000 {
        let c = (b + 0x80_0000) as u32;
        assert(exp32(c) == e + 1 && frac32(c) == f);
        lemma_pow2_adds(1, (e - 1) as nat);
        let p = pow2((e - 1) as nat);
        let m = (0x80_0000 + f) as nat;
        assert(m * (2 * p) == 2 * (m * p)) by (nonlinear_arith);
    }
    if 0x80_0000 <= b % 0x8000_0000 < 0x100_0000 {
        assert(e == 1);
        let m = (0x80_0000 + f) as nat;
        let p = pow2((e - 1) as nat);
        assert(p == 1);
        assert(m * p == m) by (nonlinear_arith)
            requires
                p == 1,
        ;
    }
}

} // verus!
