use hipfire_quantize::blocks::{group_peak, peak_scale};
use hipfire_quantize::fwht::{butterflies, gen_fwht_signs};
use hipfire_quantize::hfp4::{
    dequant_hfp4g32_row, quantize_hfp4g32_2d, quantize_hfp4g32_row, quantize_mfp4g32_2d, Fp4Row,
};
use hipfire_quantize::ieee::f16_to_f32;
use hipfire_quantize::minifloat::{
    block_exponent, e2m1_round, e2m1_to_f32, e4m3_to_f32, ue8m0_to_scale,
};

const E2M1_LUT: [f32; 16] = [
    0.0, 0.5, 1.0, 1.5, 2.0, 3.0, 4.0, 6.0, -0.0, -0.5, -1.0, -1.5, -2.0, -3.0, -4.0, -6.0,
];

fn bits(values: &[f32]) -> Vec<u32> {
    values.iter().map(|v| v.to_bits()).collect()
}

fn round(x: f32) -> u8 {
    e2m1_round(x.to_bits())
}

fn scale_row(row: &[f32]) -> Fp4Row {
    let peak = group_peak(&bits(row));
    let row_max_abs = f32::from_bits(peak);
    let scale = peak_scale(peak, (row_max_abs / 6.0).to_bits());
    let inv_row = if row_max_abs > 0.0 { 1.0 / f32::from_bits(scale) } else { 0.0 };
    let mut exponents = Vec::new();
    let mut scaled = Vec::new();
    for block in row.chunks(32) {
        let block_max = f32::from_bits(group_peak(&bits(block))) * inv_row;
        let exponent = block_exponent(block_max.to_bits());
        let factor = f32::from_bits(ue8m0_to_scale(exponent));
        let inv_block = if factor > 0.0 { 1.0 / factor } else { 0.0 };
        exponents.push(exponent);
        for v in block {
            scaled.push((v * inv_row * inv_block).to_bits());
        }
    }
    Fp4Row { scale, exponents, scaled }
}

fn quantize(row: &[f32]) -> Vec<u8> {
    quantize_hfp4g32_row(&scale_row(row))
}

fn dequantize(packed: &[u8], k: usize) -> Vec<f32> {
    let v = dequant_hfp4g32_row(packed, k);
    let scale = f32::from_bits(v.scale);
    (0..k)
        .map(|i| scale * f32::from_bits(v.factors[i / 32]) * f32::from_bits(v.lattice[i]))
        .collect()
}

fn rotate(x: &mut [f32], signs1: &[u32], signs2: &[u32]) {
    for i in 0..256 {
        x[i] *= f32::from_bits(signs1[i]);
    }
    for (a, b) in butterflies() {
        let (p, q) = (x[a], x[b]);
        x[a] = p + q;
        x[b] = p - q;
    }
    for i in 0..256 {
        x[i] *= 0.0625 * f32::from_bits(signs2[i]);
    }
}

#[test]
fn e2m1_round_matches_lattice() {
    for (i, &val) in E2M1_LUT.iter().enumerate() {
        let nibble = round(val);
        if val.abs() < 1e-6 {
            assert!(nibble == 0 || nibble == 8, "zero rounds to nibble {}", nibble);
        } else {
            assert_eq!(nibble, i as u8, "code {} rounded to nibble {} not {}", i, nibble, i);
        }
    }
}

#[test]
fn e2m1_round_midpoint() {
    let n = round(1.25);
    assert!(n == 2 || n == 3, "midpoint rounded to {}", n);
    let n = round(5.0);
    assert!(n == 6 || n == 7, "5.0 rounded to {}", n);
}

#[test]
fn e2m1_ties_go_away_from_zero() {
    assert_eq!(round(0.25), 1);
    assert_eq!(round(-0.25), 9);
    assert_eq!(round(1.25), 3);
    assert_eq!(round(5.0), 7);
    assert_eq!(round(-5.0), 15);
    assert_eq!(round(0.24), 0);
    assert_eq!(round(-0.1), 0);
    assert_eq!(round(100.0), 7);
    assert_eq!(round(f32::NAN), 0);
}

#[test]
fn round_trip_constant_row() {
    let row = vec![1.0f32; 64];
    let packed = quantize(&row);
    let recovered = dequantize(&packed, 64);
    for (i, &v) in recovered.iter().enumerate() {
        assert!((v - 1.0).abs() < 1e-2, "elem {} recovered to {}", i, v);
    }
}

#[test]
fn round_trip_mixed_magnitudes() {
    let row: Vec<f32> = (0..64).map(|i| E2M1_LUT[i % 16] * 6.0).collect();
    let packed = quantize(&row);
    let recovered = dequantize(&packed, 64);
    for (i, (&got, &want)) in recovered.iter().zip(row.iter()).enumerate() {
        let rel_err = (got - want).abs() / want.abs().max(1.0);
        assert!(rel_err < 0.1, "elem {}: got {} want {} rel_err {}", i, got, want, rel_err);
    }
}

#[test]
fn round_trip_per_block_error_bound() {
    let mut rng_state: u64 = 0xdead_beef_dead_beef;
    let mut next_uniform = || -> f32 {
        rng_state ^= rng_state << 13;
        rng_state ^= rng_state >> 7;
        rng_state ^= rng_state << 17;
        ((rng_state & 0x00FF_FFFF) as f32 / 0x0100_0000 as f32).max(1e-7)
    };
    let row: Vec<f32> = (0..512)
        .flat_map(|_| {
            let u1 = next_uniform();
            let u2 = next_uniform();
            let r = (-2.0 * u1.ln()).sqrt();
            let t = 2.0 * std::f32::consts::PI * u2;
            [r * t.cos() * 0.5, r * t.sin() * 0.5]
        })
        .collect();

    let k = row.len();
    let packed = quantize(&row);
    let recovered = dequantize(&packed, k);

    let row_scale_a = f32::from_bits(f16_to_f32(u16::from_le_bytes([packed[0], packed[1]])));

    for b in 0..(k / 32) {
        let payload_off = 16 + b * 17;
        let block_e = packed[payload_off] as i32;
        let block_scale = ((block_e - 127) as f32).exp2();
        let bound = row_scale_a * block_scale * 1.0 * 1.01 + 1e-5;
        for i in 0..32 {
            let idx = b * 32 + i;
            let err = (recovered[idx] - row[idx]).abs();
            assert!(
                err <= bound,
                "block {} elem {} err {} exceeds bound {} (block_e={}, row_scale_a={}, block_scale={})",
                b,
                i,
                err,
                bound,
                block_e,
                row_scale_a,
                block_scale
            );
        }
    }
}

#[test]
fn header_layout_matches_spec() {
    let row = vec![3.0f32; 64];
    let packed = quantize(&row);
    assert_eq!(packed.len(), 50);
    let bc = u16::from_le_bytes([packed[4], packed[5]]);
    assert_eq!(bc, 2);
    assert_eq!(packed[6] & 0x0F, 0);
    let rs_bits = u16::from_le_bytes([packed[0], packed[1]]);
    assert_ne!(rs_bits, 0);
}

#[test]
fn mfp4_stamps_rotation_flag() {
    let m = 3;
    let k = 256;
    let signs1 = gen_fwht_signs(42, 256);
    let signs2 = gen_fwht_signs(1042, 256);
    let f32_data: Vec<f32> = (0..m * k).map(|i| (i as f32 * 0.001).sin()).collect();
    let rows: Vec<Fp4Row> = f32_data
        .chunks(k)
        .map(|r| {
            let mut row = r.to_vec();
            rotate(&mut row, &signs1, &signs2);
            scale_row(&row)
        })
        .collect();
    let packed = quantize_mfp4g32_2d(&rows, k);
    let row_bytes = 16 + 17 * (k / 32);
    assert_eq!(packed.len(), m * row_bytes, "MFP4G32 byte length mismatch");
    for r in 0..m {
        let off = r * row_bytes;
        assert_eq!(
            packed[off + 6],
            0x05,
            "row {} format_flags expected 0x05, got {:#x}",
            r,
            packed[off + 6]
        );
        let bc = u16::from_le_bytes([packed[off + 4], packed[off + 5]]);
        assert_eq!(bc as usize, k / 32);
    }
}

#[test]
fn hfp4_rows_differ_from_mfp4_rows_in_the_flag() {
    let rows = vec![scale_row(&vec![2.0f32; 256]), scale_row(&vec![0.0f32; 256])];
    let plain = quantize_hfp4g32_2d(&rows, 256);
    let mut rotated = quantize_mfp4g32_2d(&rows, 256);
    assert_eq!(plain.len(), 2 * 152);
    assert_eq!(plain[6], 0);
    rotated[6] = 0;
    rotated[152 + 6] = 0;
    assert_eq!(plain, rotated);
    // A row of zeros has scale one, exponent zero and zero codes.
    assert_eq!(&plain[152..154], &[0x00, 0x3c]);
    assert_eq!(&plain[152 + 16..152 + 33], &[0u8; 17]);
}

#[test]
fn hfp4_row_bytes_are_exact() {
    let mut row = vec![0.0f32; 32];
    row[0] = 6.0;
    row[1] = -0.5;
    row[31] = 1.5;
    let packed = quantize(&row);
    assert_eq!(packed.len(), 33);
    assert_eq!(&packed[0..8], &[0x00, 0x3c, 0, 0, 1, 0, 0, 0]);
    assert_eq!(packed[16], 127);
    assert_eq!(packed[17], 0x97);
    assert_eq!(packed[32], 0x30);
    assert_eq!(dequantize(&packed, 32), row);
}

#[test]
fn block_exponent_is_the_smallest_that_covers() {
    assert_eq!(block_exponent(6.0f32.to_bits()), 127);
    assert_eq!(block_exponent(f32::from_bits(6.0f32.to_bits() + 1).to_bits()), 128);
    assert_eq!(block_exponent(3.0f32.to_bits()), 126);
    assert_eq!(block_exponent(3.5f32.to_bits()), 127);
    assert_eq!(block_exponent(0.0f32.to_bits()), 0);
    assert_eq!(block_exponent(f32::MIN_POSITIVE.to_bits()), 0);
    assert_eq!(block_exponent(f32::NAN.to_bits()), 0);
    assert_eq!(block_exponent(f32::INFINITY.to_bits()), 254);
    assert_eq!(block_exponent(f32::MAX.to_bits()), 253);
    // Just above 6 * 2^4, where a logarithm in single precision would round down.
    assert_eq!(block_exponent(96.0f32.to_bits()), 131);
    assert_eq!(block_exponent(96.0f32.to_bits() + 1), 132);
}

#[test]
fn e2m1_lookup_matches_ocp_spec() {
    let expected: &[(u8, f32)] = &[
        (0x0, 0.0),
        (0x1, 0.5),
        (0x2, 1.0),
        (0x3, 1.5),
        (0x4, 2.0),
        (0x5, 3.0),
        (0x6, 4.0),
        (0x7, 6.0),
        (0x8, -0.0),
        (0x9, -0.5),
        (0xA, -1.0),
        (0xB, -1.5),
        (0xC, -2.0),
        (0xD, -3.0),
        (0xE, -4.0),
        (0xF, -6.0),
    ];
    for &(nib, want) in expected {
        let got = f32::from_bits(e2m1_to_f32(nib));
        assert_eq!(got, want, "e2m1_to_f32(0x{:x}) = {} want {}", nib, got, want);
    }
}

#[test]
fn e4m3_and_ue8m0_values() {
    let e4m3 = |b: u8| f32::from_bits(e4m3_to_f32(b));
    for b in 0u8..=255 {
        let exp = ((b >> 3) & 15) as i32;
        let mant = (b & 7) as f32;
        let sign = if b & 0x80 != 0 { -1.0f32 } else { 1.0 };
        let want = if exp == 15 && mant == 7.0 {
            0.0
        } else if exp == 0 {
            sign * 2.0f32.powi(-6) * (mant / 8.0)
        } else {
            sign * 2.0f32.powi(exp - 7) * (1.0 + mant / 8.0)
        };
        assert_eq!(e4m3(b), want);
    }
    assert_eq!(f32::from_bits(ue8m0_to_scale(127)), 1.0);
    assert_eq!(f32::from_bits(ue8m0_to_scale(130)), 8.0);
    assert_eq!(f32::from_bits(ue8m0_to_scale(255)), f32::INFINITY);
    assert_eq!(f32::from_bits(ue8m0_to_scale(0)), 2.0f32.powi(-126) / 2.0);
}

#[test]
fn e2m1_moves_by_half_a_step() {
    for i in -6000..=6000 {
        let x = i as f32 / 1000.0;
        let moved = (f32::from_bits(e2m1_to_f32(round(x))) - x).abs();
        let bound = if x.abs() <= 2.0 {
            0.25
        } else if x.abs() <= 4.0 {
            0.5
        } else {
            1.0
        };
        assert!(moved <= bound, "{} moved by {}", x, moved);
    }
    assert_eq!(f32::from_bits(e2m1_to_f32(round(5.0))), 6.0);
}

#[test]
fn fp4_error_is_bounded_where_arithmetic_is_exact() {
    // The peak is 6, so the row scale is 1, and every factor is a power of two.
    let mut row: Vec<f32> = (0..64).map(|i| (i as f32 - 32.0) / 32.0 * 6.0).collect();
    for v in row[32..].iter_mut() {
        *v /= 16.0;
    }
    let packed = quantize(&row);
    let back = dequantize(&packed, 64);
    for i in 0..64 {
        let factor = f32::from_bits(ue8m0_to_scale(packed[16 + i / 32 * 17]));
        assert!((back[i] - row[i]).abs() <= 1.01 * factor);
    }
}
