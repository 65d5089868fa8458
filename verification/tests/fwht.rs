use hipfire_quantize::fwht::{butterflies, gen_fwht_signs};

fn transform(x: &mut [i64]) {
    for (a, b) in butterflies() {
        let (p, q) = (x[a], x[b]);
        x[a] = p + q;
        x[b] = p - q;
    }
}

fn unit(sign: u32) -> i64 {
    if f32::from_bits(sign) == 1.0 {
        1
    } else {
        -1
    }
}

fn rotate(x: &[i64], first: &[u32], second: &[u32]) -> Vec<i64> {
    let mut y: Vec<i64> = x.iter().zip(first).map(|(v, s)| v * unit(*s)).collect();
    transform(&mut y);
    y.iter().zip(second).map(|(v, s)| v * unit(*s)).collect()
}

fn sample(k: i64) -> Vec<i64> {
    (0..256).map(|i| (i * i * 31 + k * 17) % 101 - 50).collect()
}

fn dot(x: &[i64], y: &[i64]) -> i64 {
    x.iter().zip(y).map(|(a, b)| a * b).sum()
}

#[test]
fn signs_follow_the_generator() {
    let signs = gen_fwht_signs(42, 4);
    let mut state = 42u32;
    for s in &signs {
        state = state.wrapping_mul(1103515245).wrapping_add(12345) & 0x7fffffff;
        let want = if (state >> 16) & 1 == 1 { 1.0f32 } else { -1.0 };
        assert_eq!(f32::from_bits(*s), want);
    }
    assert_eq!(gen_fwht_signs(1042, 256).len(), 256);
    assert_eq!(gen_fwht_signs(0xffff_ffff, 0).len(), 0);
}

#[test]
fn butterflies_come_in_the_order_of_their_distance() {
    let pairs = butterflies();
    assert_eq!(pairs.len(), 1024);
    assert_eq!(&pairs[0..2], &[(0, 1), (2, 3)]);
    assert_eq!(&pairs[128..132], &[(0, 2), (1, 3), (4, 6), (5, 7)]);
    assert_eq!(pairs[1023], (127, 255));
}

#[test]
fn transform_of_an_impulse_is_flat() {
    let mut x = vec![0i64; 256];
    x[0] = 1;
    transform(&mut x);
    assert_eq!(x, vec![1i64; 256]);
}

#[test]
fn transform_twice_multiplies_by_256() {
    let x = sample(1);
    let mut y = x.clone();
    transform(&mut y);
    transform(&mut y);
    let want: Vec<i64> = x.iter().map(|v| v * 256).collect();
    assert_eq!(y, want);
}

#[test]
fn rotation_keeps_dot_products_and_can_be_undone() {
    let (s1, s2) = (gen_fwht_signs(42, 256), gen_fwht_signs(1042, 256));
    let (x, y) = (sample(2), sample(3));
    let (rx, ry) = (rotate(&x, &s1, &s2), rotate(&y, &s1, &s2));
    assert_eq!(dot(&rx, &ry), 256 * dot(&x, &y));
    let back = rotate(&rx, &s2, &s1);
    let want: Vec<i64> = x.iter().map(|v| v * 256).collect();
    assert_eq!(back, want);
}
