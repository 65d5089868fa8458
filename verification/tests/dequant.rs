use hipfire_quantize::dequant::{
    dequantize_e2m1_ue8m0_to_f32, dequantize_e4m3_ue8m0_to_f32, element_size, i64_to_i32_bytes,
    to_f16_bytes, to_f32, weight_source, Scaled, WeightSource,
};

fn products(values: &[Scaled]) -> Vec<f32> {
    values
        .iter()
        .map(|s| f32::from_bits(s.value) * f32::from_bits(s.scale))
        .collect()
}

fn floats(values: &[u32]) -> Vec<f32> {
    values.iter().map(|v| f32::from_bits(*v)).collect()
}

#[test]
fn e2m1_dequant_unpacks_nibbles_and_doubles_logical_cols() {
    let (vals, shape) = dequantize_e2m1_ue8m0_to_f32(&[0x42], &[1, 1], &[127], &[1, 1]);
    assert_eq!(shape, vec![1, 2]);
    assert_eq!(products(&vals), vec![1.0, 2.0]);
}

#[test]
fn e2m1_dequant_applies_ue8m0_scale() {
    let (vals, _) = dequantize_e2m1_ue8m0_to_f32(&[0x12], &[1, 1], &[128], &[1, 1]);
    assert_eq!(products(&vals), vec![2.0, 1.0]);
}

#[test]
fn e2m1_blocks_tile_the_logical_matrix() {
    // Two rows of four logical columns under one row of two scales.
    let (vals, shape) =
        dequantize_e2m1_ue8m0_to_f32(&[0x22, 0x22, 0xA2, 0x22], &[2, 2], &[127, 128], &[1, 2]);
    assert_eq!(shape, vec![2, 4]);
    assert_eq!(products(&vals), vec![1.0, 1.0, 2.0, 2.0, 1.0, -1.0, 2.0, 2.0]);
}

#[test]
fn e4m3_blocks_tile_the_matrix() {
    // 0x38 is 1.0, 0xB8 is -1.0.
    let vals = dequantize_e4m3_ue8m0_to_f32(
        &[0x38, 0xB8, 0x38, 0x38, 0x38, 0x38, 0x7F, 0x01],
        &[2, 4],
        &[127, 128, 129, 130],
        &[2, 2],
    );
    assert_eq!(
        products(&vals),
        vec![1.0, -1.0, 2.0, 2.0, 4.0, 4.0, 0.0, 8.0 / 512.0]
    );
}

#[test]
fn plain_tensors_are_read_by_type() {
    assert_eq!(floats(&to_f32(&[0x00, 0x3c, 0x00, 0xc0, 0x07], "F16").unwrap()), vec![1.0, -2.0]);
    assert_eq!(floats(&to_f32(&[0x80, 0x3f, 0x00, 0xc0], "BF16").unwrap()), vec![1.0, -2.0]);
    assert_eq!(floats(&to_f32(&[0, 0, 0x80, 0x3f, 1, 2], "F32").unwrap()), vec![1.0]);
    assert!(to_f32(&[0, 0], "I8").is_none());
    assert!(to_f32(&[0, 0], "f16").is_none());
    assert_eq!(element_size("BF16"), Some(2));
    assert_eq!(element_size("F32"), Some(4));
    assert_eq!(element_size("I64"), None);
}

#[test]
fn half_bytes_and_narrowed_integers() {
    assert_eq!(
        to_f16_bytes(&[1.0f32.to_bits(), (-0.5f32).to_bits()]),
        vec![0x00, 0x3c, 0x00, 0xb8]
    );
    let mut data = Vec::new();
    data.extend_from_slice(&255i64.to_le_bytes());
    data.extend_from_slice(&(-2i64).to_le_bytes());
    data.push(9);
    let mut want = Vec::new();
    want.extend_from_slice(&255i32.to_le_bytes());
    want.extend_from_slice(&(-2i32).to_le_bytes());
    assert_eq!(i64_to_i32_bytes(&data), want);
}

#[test]
fn weight_sources() {
    assert_eq!(weight_source("I8", true), WeightSource::Paired);
    assert_eq!(weight_source("F8_E4M3", true), WeightSource::Paired);
    assert_eq!(weight_source("I8", false), WeightSource::Unpaired);
    assert_eq!(weight_source("F8_E4M3", false), WeightSource::Plain);
    assert_eq!(weight_source("BF16", true), WeightSource::Plain);
}
