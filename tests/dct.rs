use mozjpeg_rs::dct::{descale, forward_dct, forward_dct_8x8, forward_dct_with_deringing, level_shift};
use mozjpeg_rs::deringing::preprocess_deringing;

const DCTSIZE: usize = 8;
const DCTSIZE2: usize = 64;

#[test]
fn test_level_shift() {
    let samples = [128u8; DCTSIZE2];
    let mut output = [0i16; DCTSIZE2];
    level_shift(&samples, &mut output);

    for v in output.iter() {
        assert_eq!(*v, 0);
    }

    let mut samples2 = [0u8; DCTSIZE2];
    samples2[0] = 255;
    samples2[1] = 0;
    level_shift(&samples2, &mut output);
    assert_eq!(output[0], 127);
    assert_eq!(output[1], -128);
}

#[test]
fn test_dc_coefficient() {
    let mut samples = [0i16; DCTSIZE2];
    for i in 0..DCTSIZE2 {
        samples[i] = 100;
    }

    let mut coeffs = [0i16; DCTSIZE2];
    forward_dct_8x8(&samples, &mut coeffs);

    assert_eq!(coeffs[0], 6400, "DC coefficient should be 64 * input value for flat block");

    for i in 1..DCTSIZE2 {
        assert!(
            coeffs[i].abs() <= 1,
            "AC coefficient [{}] should be ~0 for flat block, got {}",
            i,
            coeffs[i]
        );
    }
}

#[test]
fn test_zero_block() {
    let samples = [0i16; DCTSIZE2];
    let mut coeffs = [0i16; DCTSIZE2];
    forward_dct_8x8(&samples, &mut coeffs);

    for i in 0..DCTSIZE2 {
        assert_eq!(coeffs[i], 0, "Coefficient [{}] should be 0 for zero block", i);
    }
}

#[test]
fn test_alternating_pattern() {
    let mut samples = [0i16; DCTSIZE2];
    for row in 0..DCTSIZE {
        let val = if row % 2 == 0 { 100 } else { -100 };
        for col in 0..DCTSIZE {
            samples[row * DCTSIZE + col] = val;
        }
    }

    let mut coeffs = [0i16; DCTSIZE2];
    forward_dct_8x8(&samples, &mut coeffs);

    assert!(coeffs[0].abs() <= 1, "DC should be ~0 for balanced pattern");

    let mut max_vertical_ac = 0i16;
    for row in 1..DCTSIZE {
        max_vertical_ac = max_vertical_ac.max(coeffs[row * DCTSIZE].abs());
    }
    assert!(max_vertical_ac > 50, "Vertical AC frequencies should be present, got {}", max_vertical_ac);
}

#[test]
fn test_gradient() {
    let mut samples = [0i16; DCTSIZE2];
    for row in 0..DCTSIZE {
        for col in 0..DCTSIZE {
            samples[row * DCTSIZE + col] = (col as i16 - 4) * 20;
        }
    }

    let mut coeffs = [0i16; DCTSIZE2];
    forward_dct_8x8(&samples, &mut coeffs);

    assert!(coeffs[1].abs() > 100, "Horizontal low frequency should be present");
}

#[test]
fn test_descale_rounding() {
    assert_eq!(descale(7, 2), 2);
    assert_eq!(descale(8, 2), 2);
    assert_eq!(descale(9, 2), 2);
    assert_eq!(descale(10, 2), 3);

    assert_eq!(descale(-7, 2), -2);
    assert_eq!(descale(-8, 2), -2);
    assert_eq!(descale(-9, 2), -2);
    assert_eq!(descale(-10, 2), -2);
}

#[test]
fn flat_block_gives_exact_dc_for_several_values() {
    for v in [-511i16, -128, -1, 1, 37, 127, 511] {
        let samples = [v; DCTSIZE2];
        let mut coeffs = [7i16; DCTSIZE2];
        forward_dct_8x8(&samples, &mut coeffs);
        assert_eq!(coeffs[0], 64 * v);
        assert!(coeffs[1..].iter().all(|&c| c == 0));
    }
}

#[test]
fn uniform_100_block_has_dc_minus_1792() {
    let samples = [100u8; DCTSIZE2];
    let mut coeffs = [0i16; DCTSIZE2];
    forward_dct(&samples, &mut coeffs);
    assert_eq!(coeffs[0], 64 * (100 - 128));
    assert_eq!(coeffs[0], -1792);
    assert!(coeffs[1..].iter().all(|&c| c == 0));
}

#[test]
fn vertical_stripes_have_horizontal_frequency_only() {
    let mut samples = [0i16; DCTSIZE2];
    for row in 0..DCTSIZE {
        for col in 0..DCTSIZE {
            samples[row * DCTSIZE + col] = if col < 4 { 50 } else { -50 };
        }
    }
    let mut coeffs = [0i16; DCTSIZE2];
    forward_dct_8x8(&samples, &mut coeffs);
    for row in 1..DCTSIZE {
        for col in 0..DCTSIZE {
            assert_eq!(coeffs[row * DCTSIZE + col], 0);
        }
    }
    assert!(coeffs[1].abs() > 100);
}

#[test]
fn deringing_raises_saturated_sample_next_to_edge() {
    let mut block = [127i16; DCTSIZE2];
    block[1] = 100;
    preprocess_deringing(&mut block, 16);
    assert_eq!(block[0], 127 + 16);
    assert_eq!(block[2], 127 + 16);
    assert_eq!(block[9], 127 + 16);
    assert_eq!(block[1], 100);
    assert_eq!(block[3], 127);
    assert_eq!(block[63], 127);
}

#[test]
fn deringing_caps_overshoot_at_255() {
    let mut block = [0i16; DCTSIZE2];
    block[0] = 127;
    preprocess_deringing(&mut block, 1000);
    assert_eq!(block[0], 127 + 255);
    let mut flat = [127i16; DCTSIZE2];
    preprocess_deringing(&mut flat, 50);
    assert!(flat.iter().all(|&v| v == 127));
}

#[test]
fn forward_dct_with_deringing_matches_manual_pipeline() {
    let mut samples = [255u8; DCTSIZE2];
    for i in 32..64 {
        samples[i] = 0;
    }
    let mut a = [0i16; DCTSIZE2];
    forward_dct_with_deringing(&samples, &mut a, 20);
    let mut shifted = [0i16; DCTSIZE2];
    level_shift(&samples, &mut shifted);
    preprocess_deringing(&mut shifted, 20);
    let mut b = [0i16; DCTSIZE2];
    forward_dct_8x8(&shifted, &mut b);
    assert_eq!(a, b);
    let mut plain = [0i16; DCTSIZE2];
    forward_dct(&samples, &mut plain);
    assert_ne!(a, plain);
}
