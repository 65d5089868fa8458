use hipfire_quantize::bytes::{get_le2, get_le4, get_le8, push_le2, push_le4, push_le8};
use hipfire_quantize::decimal::{format_usize, parse_usize};
use hipfire_quantize::ieee::{
    bf16_to_f32, f16_to_f32, f32_abs, f32_is_nan, f32_less, f32_not_negative, f32_to_f16,
    f32_to_fp16_bits,
};
use hipfire_quantize::order::{order_by, FloatKeys, ScoreKeys};

fn widened(h: u16) -> f32 {
    f32::from_bits(f16_to_f32(h))
}

#[test]
fn halves_widen_exactly() {
    assert_eq!(widened(0x3c00), 1.0);
    assert_eq!(widened(0xc000), -2.0);
    assert_eq!(widened(0x7bff), 65504.0);
    assert_eq!(widened(0x0400), 2f32.powi(-14));
    assert_eq!(widened(0x0001), 2f32.powi(-24));
    assert_eq!(widened(0x03ff), 1023.0 * 2f32.powi(-24));
    assert_eq!(widened(0x7c00), f32::INFINITY);
    assert_eq!(f16_to_f32(0x8000), 0x8000_0000);
    assert!(widened(0x7e00).is_nan());
    assert!(widened(0xfc01).is_nan());
    assert_eq!(f32::from_bits(bf16_to_f32(0x3f80)), 1.0);
    assert_eq!(f32::from_bits(bf16_to_f32(0xc2f7)), -123.5);
}

#[test]
fn every_half_survives_both_conversions() {
    for h in 0..=u16::MAX {
        let wide = f16_to_f32(h);
        if f32::from_bits(wide).is_nan() {
            assert_eq!(f32_to_f16(wide) & 0x7c00, 0x7c00);
            assert!(widened(f32_to_f16(wide)).is_nan());
            assert!(widened(f32_to_fp16_bits(wide)).is_nan());
        } else {
            assert_eq!(f32_to_f16(wide), h);
            assert_eq!(f32_to_fp16_bits(wide), h);
        }
    }
}

#[test]
fn one_conversion_truncates_and_one_rounds() {
    // Between the halves 1 and 1 + 2^-10.
    let tie = 1.0f32 + 2f32.powi(-11);
    assert_eq!(f32_to_f16(tie.to_bits()), 0x3c00);
    assert_eq!(f32_to_fp16_bits(tie.to_bits()), 0x3c00);
    let above = 1.0f32 + 2f32.powi(-11) + 2f32.powi(-20);
    assert_eq!(f32_to_f16(above.to_bits()), 0x3c00);
    assert_eq!(f32_to_fp16_bits(above.to_bits()), 0x3c01);
    let odd_tie = 1.0f32 + 3.0 * 2f32.powi(-11);
    assert_eq!(f32_to_f16(odd_tie.to_bits()), 0x3c01);
    assert_eq!(f32_to_fp16_bits(odd_tie.to_bits()), 0x3c02);
    assert_eq!(f32_to_f16(65535.0f32.to_bits()), 0x7bff);
    assert_eq!(f32_to_fp16_bits(65535.0f32.to_bits()), 0x7c00);
    assert_eq!(f32_to_f16((-70000.0f32).to_bits()), 0xfc00);
    assert_eq!(f32_to_fp16_bits(f32::NEG_INFINITY.to_bits()), 0xfc00);
    assert_eq!(f32_to_fp16_bits(f32::NAN.to_bits()), 0x7e00);
    assert_eq!(f32_to_f16(2f32.powi(-25).to_bits()), 0);
    assert_eq!(f32_to_fp16_bits((1.5 * 2f32.powi(-25)).to_bits()), 1);
    assert_eq!(f32_to_fp16_bits(1e-30f32.to_bits()), 0);
}

#[test]
fn comparisons_agree_with_floats() {
    let values = [
        0.0f32,
        -0.0,
        1.0,
        -1.0,
        f32::MIN_POSITIVE,
        1e-45,
        -1e-45,
        f32::MAX,
        f32::INFINITY,
        f32::NEG_INFINITY,
        f32::NAN,
        -f32::NAN,
    ];
    for a in values {
        assert_eq!(f32_is_nan(a.to_bits()), a.is_nan());
        assert_eq!(f32_abs(a.to_bits()), a.abs().to_bits());
        assert_eq!(f32_not_negative(a.to_bits()), a >= 0.0);
        for b in values {
            assert_eq!(f32_less(a.to_bits(), b.to_bits()), a < b, "{} {}", a, b);
        }
    }
}

#[test]
fn orders_are_stable() {
    let values: Vec<u32> =
        [3.0f32, -1.0, 3.0, 0.0, -0.0].iter().map(|v| v.to_bits()).collect();
    assert_eq!(order_by(&FloatKeys { values: &values }, 5), vec![1, 3, 4, 0, 2]);
    let scores: Vec<u64> = [3.0f64, -1.0, 7.5, 3.0].iter().map(|v| v.to_bits()).collect();
    assert_eq!(order_by(&ScoreKeys { scores: &scores }, 4), vec![2, 0, 3, 1]);
}

#[test]
fn bytes_are_little_endian() {
    let mut out: Vec<u8> = vec![9];
    push_le2(&mut out, 0x1234);
    push_le4(&mut out, 0xdead_beef);
    push_le8(&mut out, 0x0102_0304_0506_0708);
    assert_eq!(
        out,
        vec![9, 0x34, 0x12, 0xef, 0xbe, 0xad, 0xde, 8, 7, 6, 5, 4, 3, 2, 1]
    );
    assert_eq!(get_le2(&out, 1), 0x1234);
    assert_eq!(get_le4(&out, 3), 0xdead_beef);
    assert_eq!(get_le8(&out, 7), 0x0102_0304_0506_0708);
}

#[test]
fn decimals_are_read_as_rust_reads_them() {
    let texts = ["0", "7", "+7", "007", "", "+", "-1", " 1", "1 ", "1_0", "x", "18446744073709551615",
        "18446744073709551616", "99999999999999999999999999", "++1", "\u{663}"];
    for t in texts {
        assert_eq!(parse_usize(t), t.parse::<usize>().ok(), "{:?}", t);
    }
    for n in [0usize, 9, 10, 12345, usize::MAX] {
        assert_eq!(format_usize(n), n.to_string());
        assert_eq!(parse_usize(&format_usize(n)), Some(n));
    }
}

#[test]
fn rounding_keeps_order() {
    let key = |h: u16| if h < 0x8000 { h as i32 } else { 0x8000 - h as i32 };
    let mut values: Vec<f32> = (-2000..2000).map(|i| i as f32 * 0.003_7).collect();
    values.extend([65504.0, 65519.0, 65520.0, 1e30, f32::INFINITY, -65520.0, -1e30, 1e-8, -1e-8]);
    values.sort_by(|a, b| a.total_cmp(b));
    for pair in values.windows(2) {
        let (a, b) = (pair[0].to_bits(), pair[1].to_bits());
        assert!(key(f32_to_fp16_bits(a)) <= key(f32_to_fp16_bits(b)));
    }
}

#[test]
fn truncation_loses_little() {
    for i in 0..5000u32 {
        let x = 2f32.powi(-14) * (1.0 + i as f32 * 0.37);
        let cut = widened(f32_to_f16(x.to_bits()));
        assert!(cut <= x && 1024.0 * (x - cut) <= cut);
    }
}
