use hipfire_quantize::blocks::{
    affine_params, block_count, from_byte, group_peak, group_range, padded_group, peak_scale,
    quantize_hfq2g128, quantize_hfq2g256, quantize_hfq3g128, quantize_hfq3g256, quantize_hfq4g128, quantize_hfq4g256,
    quantize_hfq6g256, quantize_mq2g256, quantize_mq3g256, quantize_mq4g256, quantize_mq6g256,
    quantize_mq8g256, quantize_q4_as_q8, quantize_q8f16, read_hfq4, to_byte, Affine,
};
use hipfire_quantize::pack::{pack, unpack, Width};
use hipfire_quantize::q4::{quantize_q4f16_g64, quantize_q4k, HalfAffine, SuperBlock};
use hipfire_quantize::q8hfq::{quantize_q8hfq, read_q8hfq_row};

fn bits(values: &[f32]) -> Vec<u32> {
    values.iter().map(|v| v.to_bits()).collect()
}

fn ramp(n: usize, base: usize) -> Vec<u8> {
    (0..n).map(|i| ((i * 7 + 3) % base) as u8).collect()
}

#[test]
fn packing_is_a_little_endian_bit_stream() {
    assert_eq!(pack(&[1, 0, 1, 1, 0, 0, 0, 1], Width::One), vec![0b1000_1101]);
    assert_eq!(pack(&[3, 0, 1, 2], Width::Two), vec![0b10_01_00_11]);
    assert_eq!(pack(&[5, 10], Width::Four), vec![0xa5]);
    // Eight three-bit codes: q0 = b0 & 7, q2 straddles b0 and b1, q5 straddles b1 and b2.
    let q = [1u8, 2, 3, 4, 5, 6, 7, 0];
    let b = pack(&q, Width::Three);
    assert_eq!(b.len(), 3);
    assert_eq!(b[0] & 7, q[0]);
    assert_eq!((b[0] >> 3) & 7, q[1]);
    assert_eq!(((b[0] >> 6) | (b[1] << 2)) & 7, q[2]);
    assert_eq!((b[1] >> 1) & 7, q[3]);
    assert_eq!((b[1] >> 4) & 7, q[4]);
    assert_eq!(((b[1] >> 7) | (b[2] << 1)) & 7, q[5]);
    assert_eq!((b[2] >> 2) & 7, q[6]);
    assert_eq!((b[2] >> 5) & 7, q[7]);
    // Four six-bit codes.
    let v = [1u8, 2, 61, 63];
    let b = pack(&v, Width::Six);
    assert_eq!(b[0], v[0] | (v[1] << 6));
    assert_eq!(b[1], (v[1] >> 2) | (v[2] << 4));
    assert_eq!(b[2], (v[2] >> 4) | (v[3] << 2));
}

#[test]
fn packing_clamps_and_round_trips() {
    assert_eq!(pack(&[200, 16], Width::Four), vec![0xff]);
    for (w, base) in [
        (Width::One, 2),
        (Width::Two, 4),
        (Width::Three, 8),
        (Width::Four, 16),
        (Width::Six, 64),
    ] {
        let codes = ramp(256, base);
        assert_eq!(unpack(&pack(&codes, w), w), codes);
    }
    // A trailing part of a chunk is ignored.
    assert_eq!(unpack(&[0xff, 0xff], Width::Three), Vec::<u8>::new());
}

#[test]
fn groups_cover_all_values() {
    assert_eq!(block_count(0, 256), 0);
    assert_eq!(block_count(1, 256), 1);
    assert_eq!(block_count(256, 256), 1);
    assert_eq!(block_count(257, 256), 2);
    assert_eq!(padded_group(&[1, 2, 3, 4, 5], 1, 3, 9), vec![4, 5, 9]);
}

#[test]
fn ranges_and_peaks() {
    let (lo, hi) = group_range(&bits(&[1.0, -3.0, f32::NAN, 2.0]));
    assert_eq!((f32::from_bits(lo), f32::from_bits(hi)), (-3.0, 2.0));
    assert_eq!(f32::from_bits(group_peak(&bits(&[1.0, -3.0, f32::NAN, 2.0]))), 3.0);
    let (lo, hi) = group_range(&[]);
    assert_eq!(f32::from_bits(lo), f32::INFINITY);
    assert_eq!(f32::from_bits(hi), f32::NEG_INFINITY);
    assert_eq!(group_peak(&[]), 0);
    let flat = affine_params(2.0f32.to_bits(), 2.0f32.to_bits(), 7);
    assert_eq!(flat, Affine { scale: 1.0f32.to_bits(), zero: 2.0f32.to_bits() });
    assert_eq!(affine_params(1.0f32.to_bits(), 2.0f32.to_bits(), 7).scale, 7);
    assert_eq!(peak_scale(0, 7), 1.0f32.to_bits());
    assert_eq!(peak_scale(1.0f32.to_bits(), 7), 7);
}

#[test]
fn affine_blocks_have_their_documented_sizes() {
    let params = [
        Affine { scale: 0x0403_0201, zero: 0x0807_0605 },
        Affine { scale: 1.0f32.to_bits(), zero: (-1.0f32).to_bits() },
    ];
    let codes = ramp(512, 64);
    let all: Vec<(Vec<u8>, usize, Width)> = vec![
        (quantize_hfq4g256(&params, &codes), 136, Width::Four),
        (quantize_mq4g256(&params, &codes), 136, Width::Four),
        (quantize_hfq2g256(&params, &codes), 72, Width::Two),
        (quantize_mq2g256(&params, &codes), 72, Width::Two),
        (quantize_hfq3g256(&params, &codes), 104, Width::Three),
        (quantize_mq3g256(&params, &codes), 104, Width::Three),
        (quantize_hfq6g256(&params, &codes), 200, Width::Six),
        (quantize_mq6g256(&params, &codes), 200, Width::Six),
    ];
    for (data, size, w) in all {
        assert_eq!(data.len(), 2 * size);
        assert_eq!(&data[0..8], &[1, 2, 3, 4, 5, 6, 7, 8]);
        assert_eq!(&data[size..size + 4], &1.0f32.to_le_bytes());
        assert_eq!(&data[size + 4..size + 8], &(-1.0f32).to_le_bytes());
        let top = w.top();
        let want: Vec<u8> = codes[256..].iter().map(|c| (*c).min(top)).collect();
        assert_eq!(unpack(&data[size + 8..], w), want);
    }
    let small = ramp(256, 16);
    assert_eq!(quantize_hfq4g128(&params, &small).len(), 2 * 72);
    assert_eq!(quantize_hfq3g128(&params, &small).len(), 2 * 56);
    assert_eq!(quantize_hfq2g128(&params, &small).len(), 2 * 40);
}

#[test]
fn nibbles_stand_low_first() {
    let params = [Affine { scale: 0, zero: 0 }];
    let mut codes = vec![0u8; 256];
    codes[0] = 1;
    codes[1] = 2;
    codes[255] = 15;
    let data = quantize_hfq4g256(&params, &codes);
    assert_eq!(data[8], 0x21);
    assert_eq!(data[135], 0xf0);
}

#[test]
fn signed_blocks() {
    assert_eq!(to_byte(-1), 0xff);
    assert_eq!(to_byte(-128), 0x80);
    assert_eq!(to_byte(127), 0x7f);
    let mut qs = vec![0i8; 64];
    qs[0] = -128;
    qs[63] = 100;
    let data = quantize_q8f16(&[0.5f32.to_bits(), 2.0f32.to_bits()], &qs);
    assert_eq!(data.len(), 68);
    assert_eq!(&data[0..3], &[0x00, 0x38, 0x80]);
    assert_eq!(&data[34..36], &[0x00, 0x40]);
    assert_eq!(data[67], 100);
    let data = quantize_q4_as_q8(&[0.5f32.to_bits(), 2.0f32.to_bits()], &qs);
    assert_eq!(data[2], (-8i8) as u8);
    assert_eq!(data[67], 7);
    let data = quantize_mq8g256(&[1.0f32.to_bits()], &vec![-3i8; 256]);
    assert_eq!(data.len(), 258);
    assert_eq!(data[257], 0xfd);
}

#[test]
fn q4f16_pairs_element_with_element_32_further() {
    let mut codes = vec![0u8; 64];
    codes[0] = 3;
    codes[32] = 4;
    codes[31] = 200;
    codes[63] = 9;
    let data = quantize_q4f16_g64(
        &[HalfAffine { scale: 1.0f32.to_bits(), min: (-2.0f32).to_bits() }],
        &codes,
    );
    assert_eq!(data.len(), 36);
    assert_eq!(&data[0..5], &[0x00, 0x3c, 0x00, 0xc0, 0x43]);
    assert_eq!(data[35], 0x9f);
}

#[test]
fn q4k_scales_read_back_as_ggml_reads_them() {
    let scales = vec![1u8, 17, 33, 63, 62, 48, 31, 15];
    let mins = vec![63u8, 2, 16, 47, 5, 32, 60, 1];
    let head = SuperBlock {
        d: 1.0f32.to_bits(),
        dmin: 0.25f32.to_bits(),
        scales: scales.clone(),
        mins: mins.clone(),
    };
    let mut codes = vec![0u8; 256];
    codes[64] = 1;
    codes[96] = 2;
    codes[255] = 15;
    let data = quantize_q4k(&[head], &codes);
    assert_eq!(data.len(), 144);
    assert_eq!(&data[0..4], &[0x00, 0x3c, 0x00, 0x34]);
    let q = &data[4..16];
    for j in 0..8 {
        let (sc, m) = if j < 4 {
            (q[j] & 63, q[j + 4] & 63)
        } else {
            (
                (q[j + 4] & 0xf) | ((q[j - 4] >> 6) << 4),
                (q[j + 4] >> 4) | ((q[j] >> 6) << 4),
            )
        };
        assert_eq!(sc, scales[j]);
        assert_eq!(m, mins[j]);
    }
    assert_eq!(data[16 + 32], 0x21);
    assert_eq!(data[143], 0xf0);
}

#[test]
fn q8hfq_rows_are_padded() {
    // 40 columns: one whole group of 32, a stride of 128.
    let mut qs = vec![0i8; 64];
    qs[0] = -1;
    qs[32] = 5;
    let (data, stride) = quantize_q8hfq(&[1.0f32.to_bits(), 2.0f32.to_bits()], &qs, 2, 40);
    assert_eq!(stride, 128);
    assert_eq!(data.len(), 256);
    assert_eq!(&data[0..4], &[0x00, 0x3c, 0xff, 0x00]);
    assert_eq!(&data[128..131], &[0x00, 0x40, 0x05]);
    assert!(data[34..128].iter().all(|b| *b == 0));
    let (data, stride) = quantize_q8hfq(&vec![0u32; 64], &vec![0i8; 2048], 1, 2048);
    assert_eq!((data.len(), stride), (2176, 2176));
}

#[test]
fn q8hfq_rows_are_read_back() {
    let qs: Vec<i8> = (0..128).map(|i| (i as i32 * 5 - 128 + i as i32 % 3) as i8).collect();
    let scales = bits(&[1.0, 0.5, 2.0, 65504.0]);
    let (data, stride) = quantize_q8hfq(&scales, &qs, 2, 70);
    assert_eq!(data.len(), 2 * stride);
    let (s, q) = read_q8hfq_row(&data, 1, 70);
    assert_eq!(s, scales[2..4].to_vec());
    assert_eq!(q, qs[64..128].to_vec());
}

#[test]
fn four_bit_groups_are_read_back() {
    let params = [Affine { scale: 7, zero: 8 }, Affine { scale: 0x3f80_0000, zero: u32::MAX }];
    let codes = ramp(512, 16);
    let data = quantize_hfq4g256(&params, &codes);
    for b in 0..2 {
        let (p, c) = read_hfq4(&data, b, 256);
        assert_eq!(p, params[b]);
        assert_eq!(c, codes[256 * b..256 * b + 256].to_vec());
    }
    let data = quantize_hfq4g128(&params, &codes[0..256]);
    let (p, c) = read_hfq4(&data, 1, 128);
    assert_eq!(p, params[1]);
    assert_eq!(c, codes[128..256].to_vec());
}

#[test]
fn signed_bytes_are_twos_complement() {
    for q in i8::MIN..=i8::MAX {
        assert_eq!(to_byte(q), q as u8);
        assert_eq!(from_byte(q as u8), q);
    }
}

#[test]
fn signed_groups_stand_one_behind_the_other() {
    let qs: Vec<i8> = (0..96).map(|i| i as i8 - 50).collect();
    let data = quantize_q8f16(&bits(&[1.0, -2.0, 0.5]), &qs);
    assert_eq!(data.len(), 3 * 34);
    assert_eq!(&data[34..36], &[0x00, 0xc0]);
    for b in 0..3 {
        for i in 0..32 {
            assert_eq!(from_byte(data[34 * b + 2 + i]), qs[32 * b + i]);
        }
    }
}
