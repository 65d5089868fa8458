use hipfire_quantize::ieee::{f16_to_f32, f32_to_fp16_bits};
use hipfire_quantize::lloyd::{
    assign, canonical, column_offset, count_members, dequantize_mq2g256_lloyd_to_f32,
    nearest_centroid, needs_fit, quantize_mq2g256_lloyd, quantize_mq3g256_lloyd,
    seed_centroids, sorted_values, Codebook, Fit, Step,
};
use hipfire_quantize::order::{order_by, FloatKeys, ScoreKeys};
use hipfire_quantize::pack::{unpack, Width};

fn bits(values: &[f32]) -> Vec<u32> {
    values.iter().map(|v| v.to_bits()).collect()
}

#[test]
fn values_are_sorted_stably() {
    let v = bits(&[2.0, -1.0, 0.0, -0.0, 2.0, -5.0]);
    let (order, sorted) = sorted_values(&v);
    assert_eq!(order, vec![5, 1, 2, 3, 0, 4]);
    assert_eq!(sorted, bits(&[-5.0, -1.0, 0.0, -0.0, 2.0, 2.0]));
    assert_eq!(order_by(&FloatKeys { values: &v }, 6), order);
    let s = [1.0f64.to_bits(), 3.0f64.to_bits(), (-2.0f64).to_bits(), 3.0f64.to_bits()];
    assert_eq!(order_by(&ScoreKeys { scores: &s }, 4), vec![1, 3, 0, 2]);
}

#[test]
fn seeds_are_percentiles() {
    let sorted: Vec<u32> = (0..256).collect();
    assert_eq!(seed_centroids(&sorted, 4), vec![32, 96, 159, 223]);
    assert_eq!(
        seed_centroids(&sorted, 8),
        vec![16, 48, 80, 112, 143, 175, 207, 239]
    );
}

#[test]
fn nearest_is_the_first_smallest() {
    assert_eq!(nearest_centroid(&bits(&[3.0, 1.0, 1.0, 2.0])), 1);
    assert_eq!(nearest_centroid(&bits(&[f32::NAN, 1.0])), 0);
    assert_eq!(nearest_centroid(&bits(&[2.0, f32::NAN, 1.0])), 2);
    assert_eq!(assign(&bits(&[3.0, 1.0, 0.0, 5.0]), 2, 2), vec![1, 0]);
    assert_eq!(count_members(&[1, 0, 1, 1], 4), vec![1, 3, 0, 0]);
}

#[test]
fn constant_groups_need_no_fit() {
    let mut group = vec![0.5f32; 256];
    assert!(!needs_fit(&sorted_values(&bits(&group)).1));
    group[17] = 0.75;
    assert!(needs_fit(&sorted_values(&bits(&group)).1));
    let mut zeros = vec![0.0f32; 256];
    zeros[3] = -0.0;
    assert!(!needs_fit(&sorted_values(&bits(&zeros)).1));
    zeros[3] = f32::from_bits(1);
    assert!(needs_fit(&sorted_values(&bits(&zeros)).1));
    assert!(!needs_fit(&bits(&[f32::INFINITY; 256])));
    assert!(!needs_fit(&bits(&[f32::NAN; 256])));
}

#[test]
fn fits_stop_when_nothing_changes() {
    let mut fit = Fit::start();
    assert_eq!(fit.advance(vec![0, 0]), Step::Again);
    assert_eq!(fit.advance(vec![0, 1]), Step::Again);
    assert_eq!(fit.advance(vec![0, 1]), Step::Settled);
    assert_eq!(fit.assigned, vec![0, 1]);
}

#[test]
fn the_first_assignment_never_settles() {
    let mut fit = Fit::start();
    assert_eq!(fit.advance(Vec::new()), Step::Again);
}

#[test]
fn fits_stop_after_eight_rounds() {
    let mut fit = Fit::start();
    for i in 0..7u8 {
        assert_eq!(fit.advance(vec![i]), Step::Again);
    }
    assert_eq!(fit.advance(vec![7]), Step::Last);
    assert_eq!(fit.rounds, 8);
}

#[test]
fn canonical_codebooks_keep_what_indices_stand_for() {
    let cb = bits(&[3.0, -1.0, 3.0, 0.5]);
    let indices = [0u8, 1, 2, 3, 2];
    let (order, book) = canonical(&cb, &indices);
    assert_eq!(order, vec![1, 3, 0, 2]);
    assert_eq!(book.centroids, bits(&[-1.0, 0.5, 3.0, 3.0]));
    assert_eq!(book.indices, vec![2, 0, 3, 1, 3]);
    for i in 0..indices.len() {
        assert_eq!(book.centroids[book.indices[i] as usize], cb[indices[i] as usize]);
    }
}

#[test]
fn two_bit_codebooks_read_back() {
    let indices: Vec<u8> = (0..256).map(|i| (i % 4) as u8).collect();
    let book = Codebook { centroids: bits(&[-1.5, -0.1, 0.25, 2.0]), indices };
    let other = Codebook { centroids: bits(&[0.0, 1.0, 2.0, 3.0]), indices: vec![3; 256] };
    let data = quantize_mq2g256_lloyd(&[book, other]);
    assert_eq!(data.len(), 144);
    assert_eq!(&data[0..2], &[0x00, 0xbe]);
    assert_eq!(data[8], 0b11_10_01_00);
    let back = dequantize_mq2g256_lloyd_to_f32(&data, 300);
    assert_eq!(back.len(), 512);
    assert_eq!(back[0], (-1.5f32).to_bits());
    assert_eq!(back[1], f16_to_f32(f32_to_fp16_bits((-0.1f32).to_bits())));
    assert_eq!(back[256], 3.0f32.to_bits());
}

#[test]
fn three_bit_codebooks_have_their_layout() {
    let indices: Vec<u8> = (0..256).map(|i| (i % 8) as u8).collect();
    let book = Codebook {
        centroids: bits(&[0.0, 1.0, 2.0, 3.0, 4.0, 5.0, 6.0, 7.0]),
        indices: indices.clone(),
    };
    let data = quantize_mq3g256_lloyd(&[book]);
    assert_eq!(data.len(), 112);
    assert_eq!(&data[14..16], &[0x00, 0x47]);
    assert_eq!(unpack(&data[16..], Width::Three), indices);
}

#[test]
fn column_weights_repeat_row_by_row() {
    assert_eq!(column_offset(0, 512), 0);
    assert_eq!(column_offset(1, 512), 256);
    assert_eq!(column_offset(2, 512), 0);
    assert_eq!(column_offset(5, 300), 0);
}

#[test]
fn stored_centroids_ascend() {
    let cb = bits(&[2.0001, -7.25, 2.0002, -0.0, 1e-9, 70000.0, -1e9, 0.5]);
    let (_, book) = canonical(&cb, &vec![0u8; 256]);
    let data = quantize_mq3g256_lloyd(&[book]);
    let stored: Vec<f32> = (0..8)
        .map(|c| f32::from_bits(f16_to_f32(u16::from_le_bytes([data[2 * c], data[2 * c + 1]]))))
        .collect();
    assert!(stored.windows(2).all(|w| w[0] <= w[1]));
    assert_eq!(stored[0], f32::NEG_INFINITY);
    assert_eq!(stored[7], f32::INFINITY);
}
