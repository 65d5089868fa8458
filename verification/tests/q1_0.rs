use hipfire_quantize::blocks::group_peak;
use hipfire_quantize::ieee::{f16_to_f32, f32_to_f16};
use hipfire_quantize::q1_0::{
    dequantize_block, dequantize_row, quantize_block, quantize_block_q8_1, quantize_row, sum_quants,
    vec_dot_block, BLOCK_BYTES_Q1_0, BLOCK_BYTES_Q8_1, QK1_0, QK8_1,
};

fn bits(values: &[f32]) -> Vec<u32> {
    values.iter().map(|v| v.to_bits()).collect()
}

fn floats(values: &[u32]) -> Vec<f32> {
    values.iter().map(|v| f32::from_bits(*v)).collect()
}

fn half_to_float(h: u16) -> f32 {
    f32::from_bits(f16_to_f32(h))
}

fn float_to_half(v: f32) -> u16 {
    f32_to_f16(v.to_bits())
}

fn mean_abs(w: &[f32]) -> f32 {
    let mut sum = 0.0f32;
    for x in w.iter() {
        sum += x.abs();
    }
    sum / (QK1_0 as f32)
}

fn quantize(w: &[f32]) -> Vec<u8> {
    quantize_block(&bits(w), mean_abs(w).to_bits())
}

fn dequantize(block: &[u8]) -> Vec<f32> {
    floats(&dequantize_block(block))
}

fn quantize_q8_1(x: &[f32]) -> Vec<u8> {
    let amax = f32::from_bits(group_peak(&bits(x)));
    let d = if amax == 0.0 { 0.0 } else { amax / 127.0 };
    let id = if d == 0.0 { 0.0 } else { 1.0 / d };
    let qs: Vec<i8> = x
        .iter()
        .map(|v| (v * id).round().clamp(-128.0, 127.0) as i8)
        .collect();
    let s = d * (sum_quants(&qs) as f32);
    quantize_block_q8_1(d.to_bits(), s.to_bits(), &qs)
}

fn vec_dot(weight: &[u8], acts: &[u8]) -> f32 {
    let parts = vec_dot_block(weight, acts);
    let d_w = f32::from_bits(parts.weight_scale);
    let mut total = 0.0f32;
    for chunk in 0..4 {
        total += d_w * f32::from_bits(parts.act_scales[chunk]) * (parts.sums[chunk] as f32);
    }
    total
}

#[test]
fn block_layout_constants_match_spec() {
    assert_eq!(QK1_0, 128);
    assert_eq!(BLOCK_BYTES_Q1_0, 18);
}

#[test]
fn dequant_known_pattern() {
    let mut block = [0u8; BLOCK_BYTES_Q1_0];
    let d_bits = float_to_half(1.0).to_le_bytes();
    block[0] = d_bits[0];
    block[1] = d_bits[1];
    for i in 0..16 {
        block[2 + i] = if i % 4 == 0 {
            0xAA
        } else if i % 4 == 1 {
            0x55
        } else if i % 4 == 2 {
            0x00
        } else {
            0xFF
        };
    }

    let dq = dequantize(&block);

    for i in 0..8 {
        let expected = if i == 1 || i == 3 || i == 5 || i == 7 { 1.0 } else { -1.0 };
        assert_eq!(dq[i], expected, "byte 0 (0xAA) bit {}", i);
    }
    for i in 0..8 {
        let expected = if i == 0 || i == 2 || i == 4 || i == 6 { 1.0 } else { -1.0 };
        assert_eq!(dq[8 + i], expected, "byte 1 (0x55) bit {}", i);
    }
    for i in 0..8 {
        assert_eq!(dq[16 + i], -1.0, "byte 2 (0x00) bit {}", i);
    }
    for i in 0..8 {
        assert_eq!(dq[24 + i], 1.0, "byte 3 (0xFF) bit {}", i);
    }
}

#[test]
fn round_trip_idempotent() {
    let mut rng_state = 0x12345678u32;
    let mut next = || {
        rng_state = rng_state.wrapping_mul(1664525).wrapping_add(1013904223);
        (rng_state as f32 / u32::MAX as f32) * 4.0 - 2.0
    };
    let mut w = [0.0f32; QK1_0];
    for j in 0..QK1_0 {
        w[j] = next();
    }

    let block = quantize(&w);
    let dq = dequantize(&block);

    let mean_abs: f32 = w.iter().map(|x| x.abs()).sum::<f32>() / (QK1_0 as f32);
    let d_f16_round = half_to_float(float_to_half(mean_abs));
    for j in 0..QK1_0 {
        let expected = if w[j] >= 0.0 { d_f16_round } else { -d_f16_round };
        assert_eq!(
            dq[j], expected,
            "round-trip mismatch at j={}: w={}, dq={}, expected={}",
            j, w[j], dq[j], expected
        );
    }
}

#[test]
fn round_trip_byte_idempotent() {
    let mut rng_state = 0xC0FFEEEEu32;
    let mut next = || {
        rng_state = rng_state.wrapping_mul(1664525).wrapping_add(1013904223);
        (rng_state as f32 / u32::MAX as f32) * 4.0 - 2.0
    };
    let mut w = [0.0f32; QK1_0];
    for j in 0..QK1_0 {
        w[j] = next();
    }

    let block_a = quantize(&w);
    let dq = dequantize(&block_a);
    let block_b = quantize(&dq);
    assert_eq!(
        block_a, block_b,
        "quantize is not idempotent on dequantized values"
    );
}

#[test]
fn sign_edge_cases() {
    let mut w = [0.0f32; QK1_0];
    w[0] = 0.0;
    w[1] = -0.0;
    w[2] = f32::NAN;
    w[3] = -1.0;
    w[4] = 1.0;
    for j in 5..QK1_0 {
        w[j] = 0.5;
    }

    let block = quantize(&w);
    assert_eq!(block[2] & 0b00000001, 0b00000001, "+0.0 should set bit");
    assert_eq!(block[2] & 0b00000010, 0b00000010, "-0.0 should set bit (IEEE)");
    assert_eq!(block[2] & 0b00000100, 0, "NaN should not set bit");
    assert_eq!(block[2] & 0b00001000, 0, "-1.0 should not set bit");
    assert_eq!(block[2] & 0b00010000, 0b00010000, "+1.0 should set bit");
}

#[test]
fn bit_ordering_matches_spec() {
    for j in 0..QK1_0 {
        let mut w = [-1.0f32; QK1_0];
        w[j] = 1.0;
        let block = quantize(&w);
        let byte_index = j >> 3;
        let bit_offset = j & 7;
        for b in 0..16 {
            let payload = block[2 + b];
            if b == byte_index {
                assert_eq!(
                    payload,
                    1u8 << bit_offset,
                    "weight idx {} should set byte {} bit {} (got 0x{:02x})",
                    j,
                    b,
                    bit_offset,
                    payload
                );
            } else {
                assert_eq!(payload, 0, "weight idx {} leaked into byte {}", j, b);
            }
        }
    }
}

#[test]
fn q8_1_round_trip_smoke() {
    let mut x = [0.0f32; QK8_1];
    for j in 0..QK8_1 {
        x[j] = (j as f32) - 16.0;
    }
    let block = quantize_q8_1(&x);

    let d = half_to_float(u16::from_le_bytes([block[0], block[1]]));
    let d_expected = half_to_float(float_to_half(16.0 / 127.0));
    assert!((d - d_expected).abs() < 1e-6, "d mismatch: {} vs {}", d, d_expected);

    let id = 1.0 / d;
    for j in 0..QK8_1 {
        let q = block[4 + j] as i8;
        let expected_q = (x[j] * id).round().clamp(-128.0, 127.0) as i8;
        assert_eq!(q, expected_q, "qs[{}] mismatch", j);
    }
}

#[test]
fn vec_dot_all_ones_smoke() {
    let mut weight = [0u8; BLOCK_BYTES_Q1_0];
    let d_bits = float_to_half(1.0).to_le_bytes();
    weight[0] = d_bits[0];
    weight[1] = d_bits[1];
    for i in 2..18 {
        weight[i] = 0xFF;
    }

    let x = [1.0f32; 128];
    let mut acts = [0u8; BLOCK_BYTES_Q8_1 * 4];
    for chunk in 0..4 {
        let blk_out = quantize_q8_1(&x[chunk * QK8_1..(chunk + 1) * QK8_1]);
        acts[chunk * BLOCK_BYTES_Q8_1..(chunk + 1) * BLOCK_BYTES_Q8_1].copy_from_slice(&blk_out);
    }

    let dot = vec_dot(&weight, &acts);
    assert!((dot - 128.0).abs() < 1.0, "all-ones dot expected ≈128, got {}", dot);
}

#[test]
fn vec_dot_matches_naive_fp32() {
    let mut rng_state = 0xDEADBEEFu32;
    let mut next = || {
        rng_state = rng_state.wrapping_mul(1664525).wrapping_add(1013904223);
        (rng_state as f32 / u32::MAX as f32) * 2.0 - 1.0
    };

    let mut w = [0.0f32; QK1_0];
    for j in 0..QK1_0 {
        w[j] = next();
    }
    let weight_block = quantize(&w);
    let w_dq = dequantize(&weight_block);

    let mut x = [0.0f32; QK1_0];
    for j in 0..QK1_0 {
        x[j] = next() * 4.0;
    }
    let mut acts = [0u8; BLOCK_BYTES_Q8_1 * 4];
    let mut x_dq = [0.0f32; QK1_0];
    for chunk in 0..4 {
        let blk_out = quantize_q8_1(&x[chunk * QK8_1..(chunk + 1) * QK8_1]);
        acts[chunk * BLOCK_BYTES_Q8_1..(chunk + 1) * BLOCK_BYTES_Q8_1].copy_from_slice(&blk_out);

        let d = half_to_float(u16::from_le_bytes([blk_out[0], blk_out[1]]));
        for j in 0..QK8_1 {
            let q = blk_out[4 + j] as i8;
            x_dq[chunk * QK8_1 + j] = d * (q as f32);
        }
    }

    let dot_ref = vec_dot(&weight_block, &acts);
    let dot_naive: f32 = w_dq.iter().zip(x_dq.iter()).map(|(a, b)| a * b).sum();

    assert!(
        (dot_ref - dot_naive).abs() < 1e-3,
        "vec_dot diverges from naive FP32: ref={}, naive={}, diff={}",
        dot_ref,
        dot_naive,
        (dot_ref - dot_naive).abs()
    );
}

#[test]
fn q1_rows_are_blocks_in_order() {
    let mut w = vec![1.0f32; 256];
    for j in 128..256 {
        w[j] = -2.0;
    }
    let row = quantize_row(&bits(&w), &[1.0f32.to_bits(), 2.0f32.to_bits()]);
    assert_eq!(row.len(), 36);
    assert_eq!(&row[0..3], &[0x00, 0x3c, 0xff]);
    assert_eq!(&row[18..21], &[0x00, 0x40, 0x00]);
    assert_eq!(floats(&dequantize_row(&row, 256)), w);
    assert_eq!(floats(&dequantize_row(&row, 128)), vec![1.0f32; 128]);
    assert_eq!(dequantize_row(&row, 0).len(), 0);
}

#[test]
fn q1_zero_scale_is_not_idempotent() {
    let mut block = vec![0u8; 18];
    block[17] = 0x80;
    let again = quantize(&dequantize(&block));
    assert_eq!(again[0], 0);
    assert_eq!(again[2], 0xff);
    assert_ne!(again, block);
}

#[test]
fn q8_1_fields_are_in_place() {
    let mut qs = vec![0i8; 32];
    qs[0] = -1;
    qs[1] = 127;
    qs[31] = -128;
    assert_eq!(sum_quants(&qs), -2);
    let block = quantize_block_q8_1(0.5f32.to_bits(), (-1.0f32).to_bits(), &qs);
    assert_eq!(block.len(), 36);
    assert_eq!(&block[0..6], &[0x00, 0x38, 0x00, 0xbc, 0xff, 0x7f]);
    assert_eq!(block[35], 0x80);
}

#[test]
fn vec_dot_sums_are_exact() {
    let mut weight = [0u8; 18];
    weight[1] = 0x3c;
    weight[2] = 0b0000_0101;
    let mut acts = [0u8; 144];
    acts[1] = 0x40;
    for j in 0..32 {
        acts[4 + j] = (j as i8 - 3) as u8;
    }
    acts[36 + 4] = 0x80;
    let parts = vec_dot_block(&weight, &acts);
    assert_eq!(f32::from_bits(parts.weight_scale), 1.0);
    assert_eq!(f32::from_bits(parts.act_scales[0]), 2.0);
    let all: i32 = (0..32).map(|j| j - 3).sum();
    assert_eq!(parts.sums[0], -all + 2 * (-3 - 1));
    assert_eq!(parts.sums[1], 128);
    assert_eq!(parts.sums[2], 0);
}
