//! Four-bit and eight-bit floating-point formats: E2M1, E4M3 and UE8M0.
use vstd::arithmetic::power2::*;
use vstd::prelude::*;

use crate::ieee::{f32_abs, f32_is_nan, f32_less};
#[allow(unused_imports)]
use crate::ieee::{
    abs32, distance, exp32, frac32, is_less, is_nan32, join32, law_single_order, magnitude32, sign32,
    value32,
};

verus! {

/// The magnitude of an E2M1 code, counted in halves: 0, 0.5, 1, 1.5, 2, 3, 4
/// and 6.
pub open spec fn e2m1_halves(code: int) -> nat {
    if code < 5 {
        code as nat
    } else if code == 5 {
        6
    } else if code == 6 {
        8
    } else {
        12
    }
}

/// The `f32` of the magnitude of an E2M1 code.
pub open spec fn e2m1_magnitude(code: int) -> u32 {
    if code == 0 {
        0
    } else if code == 1 {
        0x3f00_0000
    } else if code == 2 {
        0x3f80_0000
    } else if code == 3 {
        0x3fc0_0000
    } else if code == 4 {
        0x4000_0000
    } else if code == 5 {
        0x4040_0000
    } else if code == 6 {
        0x4080_0000
    } else {
        0x40c0_0000
    }
}

/// The `f32` that the low four bits of `nibble` stand for: a sign above a
/// three-bit magnitude code.
pub open spec fn e2m1(nibble: u8) -> u32 {
    let n = nibble as int % 16;
    (e2m1_magnitude(n % 8) + n / 8 * 0x8000_0000) as u32
}

/// Converts one E2M1 nibble (sign, two exponent bits, one fraction bit) to an
/// `f32`. The high half of the byte is ignored.
pub fn e2m1_to_f32(nibble: u8) -> (r: u32)
    ensures
        r == e2m1(nibble),
{
    let n: u8 = nibble % 16;
    let code: u8 = n % 8;
    let magnitude: u32 = if code == 0 {
        0
    } else if code == 1 {
        0x3f00_0000
    } else if code == 2 {
        0x3f80_0000
    } else if code == 3 {
        0x3fc0_0000
    } else if code == 4 {
        0x4000_0000
    } else if code == 5 {
        0x4040_0000
    } else if code == 6 {
        0x4080_0000
    } else {
        0x40c0_0000
    };
    if n >= 8 {
        magnitude + 0x8000_0000
    } else {
        magnitude
    }
}

/// How many of the midpoints 0.25, 0.75, 1.25, 1.75, 2.5, 3.5 and 5 between
/// neighbouring E2M1 magnitudes do not lie above the `f32` magnitude `a`.
pub open spec fn e2m1_nearest(a: u32) -> int {
    if a < 0x3e80_0000 {
        0
    } else if a < 0x3f40_0000 {
        1
    } else if a < 0x3fa0_0000 {
        2
    } else if a < 0x3fe0_0000 {
        3
    } else if a < 0x4020_0000 {
        4
    } else if a < 0x4060_0000 {
        5
    } else if a < 0x40a0_0000 {
        6
    } else {
        7
    }
}

/// The E2M1 code that an `f32` rounds to. What rounds to zero gets the positive
/// zero, and so does a NaN.
pub open spec fn e2m1_code(x: u32) -> u8 {
    let code = e2m1_nearest(abs32(x));
    if is_nan32(x) || code == 0 {
        0
    } else {
        (code + 8 * sign32(x)) as u8
    }
}

/// Rounds an `f32` to the nearest of the sixteen E2M1 codes. Ties go away from
/// zero; magnitudes above 6 go to 6.
pub fn e2m1_round(x: u32) -> (r: u8)
    ensures
        r == e2m1_code(x),
        r < 16,
{
    if f32_is_nan(x) {
        return 0;
    }
    let a: u32 = f32_abs(x);
    let code: u8 = if a < 0x3e80_0000 {
        0
    } else if a < 0x3f40_0000 {
        1
    } else if a < 0x3fa0_0000 {
        2
    } else if a < 0x3fe0_0000 {
        3
    } else if a < 0x4020_0000 {
        4
    } else if a < 0x4060_0000 {
        5
    } else if a < 0x40a0_0000 {
        6
    } else {
        7
    };
    if code == 0 {
        0
    } else if x >= 0x8000_0000 {
        code + 8
    } else {
        code
    }
}

/// The `f32` that an E4M3 byte stands for: a sign, four exponent bits and three
/// fraction bits. Both zeros and the NaN code give the positive zero.
pub open spec fn e4m3(byte: u8) -> u32 {
    let s = byte as int / 128;
    let e = byte as int / 8 % 16;
    let m = byte as int % 8;
    if e == 15 && m == 7 {
        0
    } else if e == 0 {
        if m == 0 {
            0
        } else if m == 1 {
            join32(s, 118, 0)
        } else if m < 4 {
            join32(s, 119, (m - 2) * 0x40_0000)
        } else {
            join32(s, 120, (m - 4) * 0x20_0000)
        }
    } else {
        join32(s, e + 120, m * 0x10_0000)
    }
}

/// Converts an E4M3 byte to an `f32`.
pub fn e4m3_to_f32(byte: u8) -> (r: u32)
    ensures
        r == e4m3(byte),
{
    let b: u32 = byte as u32;
    let top: u32 = b / 128 * 0x8000_0000;
    let exp: u32 = b / 8 % 16;
    let mant: u32 = b % 8;
    if exp == 15 && mant == 7 {
        return 0;
    }
    if exp == 0 {
        return if mant == 0 {
            0
        } else if mant == 1 {
            top + 118 * 0x80_0000
        } else if mant < 4 {
            top + 119 * 0x80_0000 + (mant - 2) * 0x40_0000
        } else {
            top + 120 * 0x80_0000 + (mant - 4) * 0x20_0000
        };
    }
    top + (exp + 120) * 0x80_0000 + mant * 0x10_0000
}

/// The `f32` scale 2^(byte - 127). The byte 0 gives a subnormal, the byte 255
/// gives infinity.
pub open spec fn ue8m0(byte: u8) -> u32 {
    if byte == 0 {
        0x40_0000
    } else {
        (byte * 0x80_0000) as u32
    }
}

/// Converts a UE8M0 exponent byte to an `f32` scale.
pub fn ue8m0_to_scale(byte: u8) -> (r: u32)
    ensures
        r == ue8m0(byte),
{
    if byte == 0 {
        0x40_0000
    } else {
        byte as u32 * 0x80_0000
    }
}

/// The exponent byte for a block of E2M1 codes whose largest magnitude is `x`;
/// zero where `x` is not above zero.
pub open spec fn block_exponent_of(x: u32) -> u8 {
    if !is_less(0, x) {
        0
    } else if exp32(x) == 0xff {
        254
    } else {
        let e = exp32(x) - (if frac32(x) <= 0x40_0000 {
            2int
        } else {
            1
        });
        if e < 0 {
            0
        } else {
            e as u8
        }
    }
}

/// Chooses the exponent byte for a block of E2M1 codes whose largest magnitude
/// is `x`.
pub fn block_exponent(x: u32) -> (r: u8)
    ensures
        r == block_exponent_of(x),
{
    if !f32_less(0, x) {
        return 0;
    }
    let exp: u32 = x / 0x80_0000 % 0x100;
    let frac: u32 = x % 0x80_0000;
    if exp == 0xff {
        254
    } else if frac <= 0x40_0000 {
        if exp < 2 {
            0
        } else {
            (exp - 2) as u8
        }
    } else if exp < 1 {
        0
    } else {
        (exp - 1) as u8
    }
}

/// Magnitudes up to `x` fit under the largest code, 6, at the exponent `e`:
/// `x <= 6 * 2^(e - 127)`.
pub open spec fn covers(e: int, x: u32) -> bool {
    magnitude32(x) <= 6 * pow2((e + 22) as nat)
}

/// The exponent byte of a finite block covers the block, and it is the smallest
/// byte that does.
pub proof fn law_block_exponent_is_smallest(x: u32)
    requires
        is_less(0, x),
        exp32(x) < 0xff,
    ensures
        covers(block_exponent_of(x) as int, x),
        block_exponent_of(x) > 0 ==> !covers(block_exponent_of(x) - 1, x),
{
    let r = block_exponent_of(x) as int;
    let (k, f) = (exp32(x), frac32(x));
    lemma2_to64();
    lemma_pow2_adds(22, r as nat);
    let q = pow2(r as nat);
    lemma_pow2_pos(r as nat);
    assert(6 * pow2((r + 22) as nat) == 0x180_0000 * q) by (nonlinear_arith)
        requires
            pow2((r + 22) as nat) == 0x40_0000 * q,
    ;
    if k == 0 {
        assert(0x180_0000 * q >= 0x180_0000) by (nonlinear_arith)
            requires
                q >= 1,
        ;
    } else if k == 1 {
        assert(pow2(0) == 1);
        assert((0x80_0000 + f) * 1 == 0x80_0000 + f);
        assert(0x180_0000 * q >= 0x180_0000) by (nonlinear_arith)
            requires
                q >= 1,
        ;
    } else {
        let u = pow2((k - 1) as nat);
        let m = 0x80_0000 + f;
        if f <= 0x40_0000 {
            lemma_pow2_adds(1, r as nat);
            assert(u == 2 * q);
            assert(m * u <= 0x180_0000 * q) by (nonlinear_arith)
                requires
                    u == 2 * q,
                    0 <= m <= 0xc0_0000,
                    q >= 1,
            ;
            if r > 0 {
                lemma_pow2_adds(1, (r - 1) as nat);
                lemma_pow2_adds(22, (r - 1) as nat);
                let h = pow2((r - 1) as nat);
                lemma_pow2_pos((r - 1) as nat);
                assert(m * u > 6 * (0x40_0000 * h)) by (nonlinear_arith)
                    requires
                        u == 2 * q,
                        q == 2 * h,
                        m >= 0x80_0000,
                        h >= 1,
                ;
            }
        } else {
            assert(u == q);
            assert(m * u <= 0x180_0000 * q) by (nonlinear_arith)
                requires
                    u == q,
                    0 <= m < 0x100_0000,
                    q >= 1,
            ;
            lemma_pow2_adds(1, (r - 1) as nat);
            lemma_pow2_adds(22, (r - 1) as nat);
            let h = pow2((r - 1) as nat);
            lemma_pow2_pos((r - 1) as nat);
            assert(m * u > 6 * (0x40_0000 * h)) by (nonlinear_arith)
                requires
                    u == 2 * h,
                    m > 0xc0_0000,
                    h >= 1,
            ;
        }
    }
}

proof fn lemma_e2m1_magnitude(code: int)
    requires
        0 <= code < 8,
    ensures
        magnitude32(e2m1_magnitude(code)) == e2m1_halves(code) * pow2(148),
        e2m1_magnitude(code) < 0x8000_0000,
{
    let b = e2m1_magnitude(code);
    let (e, f) = (exp32(b), frac32(b));
    let h = e2m1_halves(code);
    let p = pow2(148);
    if code == 0 {
        assert(e == 0 && f == 0);
        assert(h * p == 0) by (nonlinear_arith)
            requires
                h == 0,
        ;
    } else {
        let k = if code < 2 {
            126int
        } else if code < 4 {
            127
        } else if code < 6 {
            128
        } else {
            129
        };
        assert(e == k);
        let u = pow2((k - 1) as nat);
        let a = (149 - k) as nat;
        lemma2_to64();
        lemma_pow2_adds(a, (k - 1) as nat);
        let c = pow2(a);
        assert((0x80_0000 + f) == h * c) by (nonlinear_arith)
            requires
                (h == 1 && c == 0x80_0000 && f == 0)
                    || (h == 2 && c == 0x40_0000 && f == 0)
                    || (h == 3 && c == 0x40_0000 && f == 0x40_0000)
                    || (h == 4 && c == 0x20_0000 && f == 0)
                    || (h == 6 && c == 0x20_0000 && f == 0x40_0000)
                    || (h == 8 && c == 0x10_0000 && f == 0)
                    || (h == 12 && c == 0x10_0000 && f == 0x40_0000),
        ;
        assert((h * c) * u == h * (c * u)) by (nonlinear_arith);
    }
}

/// The `f32` of an E2M1 nibble has the sign in its upper bit and the magnitude
/// of the lower three: 0, 0.5, 1, 1.5, 2, 3, 4 or 6.
pub proof fn law_e2m1_values(nibble: u8)
    requires
        nibble < 16,
    ensures
        sign32(e2m1(nibble)) == nibble / 8,
        magnitude32(e2m1(nibble)) == e2m1_halves(nibble as int % 8) * pow2(148),
{
    let code = nibble as int % 8;
    lemma_e2m1_magnitude(code);
    let m = e2m1_magnitude(code);
    let b = e2m1(nibble);
    assert(exp32(b) == exp32(m) && frac32(b) == frac32(m));
}

proof fn lemma_midpoint(bits: u32, quarters: nat, k: int)
    requires
        125 <= k <= 129,
        exp32(bits) == k,
        0x80_0000 + frac32(bits) == quarters * pow2((148 - k) as nat),
    ensures
        magnitude32(bits) == quarters * pow2(147),
{
    let u = pow2((k - 1) as nat);
    let a = (148 - k) as nat;
    lemma_pow2_adds(a, (k - 1) as nat);
    let c = pow2(a);
    assert((quarters * c) * u == quarters * (c * u)) by (nonlinear_arith);
}

// The order of `a` against a midpoint is the order of the magnitudes.
proof fn lemma_against_midpoint(a: u32, bits: u32, quarters: nat, k: int)
    requires
        a <= 0x7f80_0000,
        bits < 0x7f80_0000,
        125 <= k <= 129,
        exp32(bits) == k,
        0x80_0000 + frac32(bits) == quarters * pow2((148 - k) as nat),
    ensures
        a < bits ==> magnitude32(a) < quarters * pow2(147),
        a >= bits ==> magnitude32(a) >= quarters * pow2(147),
{
    lemma_midpoint(bits, quarters, k);
    if a < bits {
        law_single_order(a, bits);
    } else {
        law_single_order(bits, a);
    }
}

/// The cell of an E2M1 code: the magnitudes, counted in units of `q`, that are rounded
/// to it.
spec fn in_cell(code: int, m: int, q: int) -> bool {
    &&& 0 <= code < 8
    &&& code == 0 ==> m < 1 * q
    &&& code == 1 ==> 1 * q <= m < 3 * q
    &&& code == 2 ==> 3 * q <= m < 5 * q
    &&& code == 3 ==> 5 * q <= m < 7 * q
    &&& code == 4 ==> 7 * q <= m < 10 * q
    &&& code == 5 ==> 10 * q <= m < 14 * q
    &&& code == 6 ==> 14 * q <= m < 20 * q
    &&& code == 7 ==> 20 * q <= m
}

// A finite `f32` lies in the cell of its code.
proof fn lemma_e2m1_cell(x: u32)
    requires
        exp32(x) != 0xff,
    ensures
        in_cell(e2m1_nearest(abs32(x)), magnitude32(x) as int, pow2(147) as int),
{
    let a = abs32(x);
    assert(exp32(a) == exp32(x) && frac32(a) == frac32(x));
    assert(magnitude32(a) == magnitude32(x));
    lemma2_to64();
    lemma_against_midpoint(a, 0x3e80_0000, 1, 125);
    lemma_against_midpoint(a, 0x3f40_0000, 3, 126);
    lemma_against_midpoint(a, 0x3fa0_0000, 5, 127);
    lemma_against_midpoint(a, 0x3fe0_0000, 7, 127);
    lemma_against_midpoint(a, 0x4020_0000, 10, 128);
    lemma_against_midpoint(a, 0x4060_0000, 14, 128);
    lemma_against_midpoint(a, 0x40a0_0000, 20, 129);
}

/// Rounding a finite `f32` goes to an E2M1 magnitude to which no other is
/// nearer, and of two that are equally near to the larger one. The sign is
/// kept, unless the code is zero.
pub proof fn law_e2m1_rounding_is_to_nearest(x: u32, other: u8)
    requires
        exp32(x) != 0xff,
        other < 8,
    ensures
        ({
            let r = e2m1_code(x);
            let unit = pow2(148);
            let near = distance(e2m1_halves(r as int % 8) * unit, magnitude32(x));
            let far = distance(e2m1_halves(other as int) * unit, magnitude32(x));
            &&& near <= far
            &&& near == far ==> e2m1_halves(other as int) <= e2m1_halves(r as int % 8)
            &&& r == 0 || r / 8 == sign32(x)
        }),
{
    lemma_e2m1_cell(x);
    lemma_pow2_unfold(148);
    lemma_pow2_pos(147);
    let q = pow2(147) as int;
    let unit = pow2(148) as int;
    assert(unit == 2 * q);
    let m = magnitude32(x) as int;
    let r = e2m1_code(x);
    let code = e2m1_nearest(abs32(x));
    assert(r as int % 8 == code);
    lemma_e2m1_sides(m, q, code, other as int);
    let (h, g) = (e2m1_halves(code) as int, e2m1_halves(other as int) as int);
    assert(h * unit == (2 * h) * q) by (nonlinear_arith)
        requires
            unit == 2 * q,
    ;
    assert(g * unit == (2 * g) * q) by (nonlinear_arith)
        requires
            unit == 2 * q,
    ;
}

// The code whose cell holds `m` is the nearest one.
proof fn lemma_e2m1_sides(m: int, q: int, code: int, other: int)
    requires
        q > 0,
        m >= 0,
        0 <= code < 8,
        0 <= other < 8,
        code == 0 ==> m < 1 * q,
        code == 1 ==> 1 * q <= m < 3 * q,
        code == 2 ==> 3 * q <= m < 5 * q,
        code == 3 ==> 5 * q <= m < 7 * q,
        code == 4 ==> 7 * q <= m < 10 * q,
        code == 5 ==> 10 * q <= m < 14 * q,
        code == 6 ==> 14 * q <= m < 20 * q,
        code == 7 ==> 20 * q <= m,
    ensures
        ({
            let near = (2 * e2m1_halves(code) as int) * q;
            let far = (2 * e2m1_halves(other) as int) * q;
            let dn = if near <= m { m - near } else { near - m };
            let df = if far <= m { m - far } else { far - m };
            &&& dn <= df
            &&& dn == df ==> e2m1_halves(other) <= e2m1_halves(code)
        }),
{
    assert(forall|c: int| 0 <= c < 8 ==> #[trigger] e2m1_halves(c) == (if c == 0 {
        0nat
    } else if c == 1 {
        1
    } else if c == 2 {
        2
    } else if c == 3 {
        3
    } else if c == 4 {
        4
    } else if c == 5 {
        6
    } else if c == 6 {
        8
    } else {
        12
    }));
    let (h, g) = (2 * e2m1_halves(code) as int, 2 * e2m1_halves(other) as int);
    assert(h * q == (if code == 0 {
        0
    } else if code == 1 {
        2 * q
    } else if code == 2 {
        4 * q
    } else if code == 3 {
        6 * q
    } else if code == 4 {
        8 * q
    } else if code == 5 {
        12 * q
    } else if code == 6 {
        16 * q
    } else {
        24 * q
    })) by (nonlinear_arith)
        requires
            code == 0 ==> h == 0,
            code == 1 ==> h == 2,
            code == 2 ==> h == 4,
            code == 3 ==> h == 6,
            code == 4 ==> h == 8,
            code == 5 ==> h == 12,
            code == 6 ==> h == 16,
            code < 0 || code > 6 ==> h == 24,
    ;
    assert(g * q == (if other == 0 {
        0
    } else if other == 1 {
        2 * q
    } else if other == 2 {
        4 * q
    } else if other == 3 {
        6 * q
    } else if other == 4 {
        8 * q
    } else if other == 5 {
        12 * q
    } else if other == 6 {
        16 * q
    } else {
        24 * q
    })) by (nonlinear_arith)
        requires
            other == 0 ==> g == 0,
            other == 1 ==> g == 2,
            other == 2 ==> g == 4,
            other == 3 ==> g == 6,
            other == 4 ==> g == 8,
            other == 5 ==> g == 12,
            other == 6 ==> g == 16,
            other < 0 || other > 6 ==> g == 24,
    ;
}

/// An E4M3 byte other than the NaN code stands for fraction/8 * 2^-6 where its
/// exponent is zero, otherwise for (1 + fraction/8) * 2^(exponent - 7), with its
/// sign unless it is zero.
pub proof fn law_e4m3_values(byte: u8)
    requires
        byte % 128 != 127,
    ensures
        ({
            let e = byte as int / 8 % 16;
            let m = byte as int % 8;
            let x = e4m3(byte);
            &&& magnitude32(x) == (if e == 0 {
                m as nat * pow2(140)
            } else {
                (8 + m) as nat * pow2((e + 139) as nat)
            })
            &&& x == 0 || sign32(x) == byte / 128
        }),
{
    let e = byte as int / 8 % 16;
    let m = byte as int % 8;
    let x = e4m3(byte);
    let (k, f) = (exp32(x), frac32(x));
    lemma2_to64();
    if e == 0 && m == 0 {
        let p = pow2(140);
        assert(m as nat * p == 0) by (nonlinear_arith)
            requires
                m == 0,
        ;
    } else if e == 0 {
        assert(k == (if m == 1 {
            118int
        } else if m < 4 {
            119
        } else {
            120
        }));
        let a = (141 - k) as nat;
        let u = pow2((k - 1) as nat);
        let c = pow2(a);
        lemma_pow2_adds(a, (k - 1) as nat);
        assert(0x80_0000 + f == m * c) by (nonlinear_arith)
            requires
                (m == 1 && c == 0x80_0000 && f == 0) || (m == 2 && c == 0x40_0000 && f == 0)
                    || (m == 3 && c == 0x40_0000 && f == 0x40_0000)
                    || (4 <= m < 8 && c == 0x20_0000 && f == (m - 4) * 0x20_0000),
        ;
        assert((m * c) * u == m * (c * u)) by (nonlinear_arith);
    } else {
        assert(k == e + 120 && f == m * 0x10_0000);
        let u = pow2((k - 1) as nat);
        lemma_pow2_adds(20, (k - 1) as nat);
        let c = pow2(20);
        assert(((8 + m) * c) * u == (8 + m) * (c * u)) by (nonlinear_arith);
        assert(0x80_0000 + f == (8 + m) * c);
    }
}

/// A UE8M0 byte below 255 stands for 2^(byte - 127).
pub proof fn law_ue8m0_values(byte: u8)
    requires
        byte < 255,
    ensures
        sign32(ue8m0(byte)) == 0,
        magnitude32(ue8m0(byte)) == pow2((byte + 22) as nat),
{
    lemma2_to64();
    let x = ue8m0(byte);
    if byte > 0 {
        assert(exp32(x) == byte && frac32(x) == 0);
        lemma_pow2_adds(23, (byte - 1) as nat);
    }
}

/// Half the step between the E2M1 magnitudes around `m`, a magnitude up to 6 counted in
/// units of 2^-149: 0.25 up to 2, 0.5 up to 4, and 1 above.
pub open spec fn e2m1_half_step(m: nat) -> nat {
    if m <= 2 * pow2(149) {
        pow2(147)
    } else if m <= 4 * pow2(149) {
        pow2(148)
    } else {
        pow2(149)
    }
}

// In its cell, a magnitude up to 24 quarters is at most half a step from its code.
proof fn lemma_cell_width(code: int, m: int, q: int)
    requires
        q > 0,
        in_cell(code, m, q),
        0 <= m <= 24 * q,
    ensures
        ({
            let c = (2 * e2m1_halves(code) as int) * q;
            let d = if c <= m { m - c } else { c - m };
            &&& m <= 8 * q ==> d <= q
            &&& m <= 16 * q ==> d <= 2 * q
            &&& d <= 4 * q
        }),
{
    let h = 2 * e2m1_halves(code) as int;
    assert(h * q == (if code == 0 {
        0
    } else if code == 1 {
        2 * q
    } else if code == 2 {
        4 * q
    } else if code == 3 {
        6 * q
    } else if code == 4 {
        8 * q
    } else if code == 5 {
        12 * q
    } else if code == 6 {
        16 * q
    } else {
        24 * q
    })) by (nonlinear_arith)
        requires
            code == 0 ==> h == 0,
            code == 1 ==> h == 2,
            code == 2 ==> h == 4,
            code == 3 ==> h == 6,
            code == 4 ==> h == 8,
            code == 5 ==> h == 12,
            code == 6 ==> h == 16,
            code < 0 || code > 6 ==> h == 24,
    ;
}

/// Rounding moves an `f32` of magnitude up to 6 by at most half the step between the
/// E2M1 magnitudes around it, so by at most 1.
pub proof fn law_e2m1_moves_by_half_a_step(x: u32)
    requires
        exp32(x) != 0xff,
        magnitude32(x) <= 6 * pow2(149),
    ensures
        ({
            let moved = value32(e2m1(e2m1_code(x))) - value32(x);
            let bound = e2m1_half_step(magnitude32(x));
            &&& -bound <= moved <= bound
            &&& bound <= pow2(149)
        }),
{
    let q = pow2(147) as int;
    lemma_pow2_pos(147);
    lemma_pow2_unfold(148);
    lemma_pow2_unfold(149);
    let m = magnitude32(x) as int;
    let r = e2m1_code(x);
    let code = e2m1_nearest(abs32(x));
    assert(r < 16 && r as int % 8 == code);
    lemma_e2m1_cell(x);
    lemma_cell_width(code, m, q);
    law_e2m1_values(r);
    let h = e2m1_halves(code) as int;
    assert(h * pow2(148) == (2 * h) * q) by (nonlinear_arith)
        requires
            pow2(148) == 2 * q,
    ;
    assert(magnitude32(e2m1(r)) == (2 * h) * q);
    if code == 0 {
        assert(magnitude32(e2m1(r)) == 0) by (nonlinear_arith)
            requires
                magnitude32(e2m1(r)) == (2 * h) * q,
                h == 0,
        ;
    } else {
        assert(sign32(e2m1(r)) == sign32(x));
    }
}

// The values by their fields.

/// A nibble has a sign, two exponent bits and one fraction bit: with exponent zero
/// it stands for half its fraction, otherwise for (1 + fraction/2) * 2^(exponent -
/// 1), in units of a half.
pub proof fn law_e2m1_by_fields(nibble: u8)
    requires
        nibble < 16,
    ensures
        ({
            let e = nibble as int / 2 % 4;
            let m = nibble as int % 2;
            &&& sign32(e2m1(nibble)) == nibble / 8
            &&& magnitude32(e2m1(nibble)) == (if e == 0 {
                m as nat
            } else {
                (2 + m) as nat * pow2((e - 1) as nat)
            }) * pow2(148)
        }),
{
    law_e2m1_values(nibble);
    lemma2_to64();
    let e = nibble as int / 2 % 4;
    let m = nibble as int % 2;
    if e > 0 {
        let p = pow2((e - 1) as nat);
        assert((2 + m) as nat * p == e2m1_halves(nibble as int % 8)) by (nonlinear_arith)
            requires
                (e == 1 && p == 1 && e2m1_halves(nibble as int % 8) == 2 + m) || (e == 2 && p == 2
                    && e2m1_halves(nibble as int % 8) == 4 + 2 * m) || (e == 3 && p == 4
                    && e2m1_halves(nibble as int % 8) == 8 + 4 * m),
                0 <= m,
        ;
    }
}

/// The codes that stand for no number read as zero, a scale byte of 255 as
/// infinity, and only the low half of a byte makes a nibble.
pub proof fn law_special_codes(byte: u8)
    ensures
        byte % 128 == 127 ==> e4m3(byte) == 0,
        byte % 128 == 0 ==> e4m3(byte) == 0,
        ue8m0(255) == 0x7f80_0000u32,
        e2m1(byte) == e2m1((byte % 16) as u8),
{
}

/// What is no number rounds to the nibble zero, as do all numbers that round to a
/// zero of either sign; infinities round to the largest nibble of their sign.
pub proof fn law_e2m1_rounding_of_specials(x: u32)
    ensures
        x % 0x8000_0000 > 0x7f80_0000 ==> e2m1_code(x) == 0,
        x % 0x8000_0000 < 0x3e80_0000 ==> e2m1_code(x) == 0,
        x == 0x7f80_0000 ==> e2m1_code(x) == 7,
        x == 0xff80_0000 ==> e2m1_code(x) == 15,
        e2m1_code(x) < 16,
        e2m1_code(x) != 8,
        x % 0x8000_0000 <= 0x7f80_0000 && e2m1_code(x) != 0 ==> e2m1_code(x) / 8 == x / 0x8000_0000,
{
}

/// A block without a positive magnitude has exponent zero, one with an infinite
/// magnitude the largest.
pub proof fn law_block_exponent_of_specials(x: u32)
    ensures
        x == 0 ==> block_exponent_of(x) == 0,
        x >= 0x8000_0000 ==> block_exponent_of(x) == 0,
        x % 0x8000_0000 > 0x7f80_0000 ==> block_exponent_of(x) == 0,
        x == 0x7f80_0000 ==> block_exponent_of(x) == 254,
        block_exponent_of(x) <= 254,
{
}

} // verus!
