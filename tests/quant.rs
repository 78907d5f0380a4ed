use mozjpeg_rs::consts::NUM_QUANT_TABLE_VARIANTS;
use mozjpeg_rs::quant::{
    create_quant_table, create_quant_tables, dequantize_block, dequantize_coef,
    get_chrominance_quant_table, get_luminance_quant_table, quality_to_scale_factor,
    quantize_block, quantize_coef,
};
use mozjpeg_rs::types::{QuantTable, QuantTableIdx};

const DCTSIZE2: usize = 64;

#[test]
fn test_quality_scaling_matches_mozjpeg() {
    assert_eq!(quality_to_scale_factor(50), 100);
    assert_eq!(quality_to_scale_factor(75), 50);
    assert_eq!(quality_to_scale_factor(100), 0);
    assert_eq!(quality_to_scale_factor(25), 200);
    assert_eq!(quality_to_scale_factor(1), 5000);
    assert_eq!(quality_to_scale_factor(10), 500);
}

#[test]
fn scale_factor_for_every_quality() {
    for q in 0u8..=255 {
        let c = q.clamp(1, 100) as u32;
        let expected = if c < 50 { 5000 / c } else { 200 - 2 * c };
        assert_eq!(quality_to_scale_factor(q), expected);
    }
    assert_eq!(quality_to_scale_factor(49), 102);
    assert_eq!(quality_to_scale_factor(3), 1666);
    assert_eq!(quality_to_scale_factor(200), 0);
}

#[test]
fn test_quality_clamping() {
    assert_eq!(quality_to_scale_factor(0), quality_to_scale_factor(1));
}

#[test]
fn test_quant_table_scaling() {
    let base = get_luminance_quant_table(QuantTableIdx::JpegAnnexK);

    let scaled = QuantTable::scaled(base, 100, false);
    assert_eq!(scaled.values[0], base[0]);

    let scaled = QuantTable::scaled(base, 50, false);
    assert_eq!(scaled.values[0], (base[0] as u32 * 50 + 50) as u16 / 100);

    let scaled = QuantTable::scaled(base, 200, false);
    assert_eq!(scaled.values[0], base[0] * 2);
}

#[test]
fn test_force_baseline() {
    let base = [300u16; DCTSIZE2];
    let scaled = QuantTable::scaled(&base, 100, true);

    for v in scaled.values.iter() {
        assert!(*v <= 255);
    }
}

#[test]
fn scaled_entries_clamp_to_32767_without_baseline() {
    let base = [65535u16; DCTSIZE2];
    let scaled = QuantTable::scaled(&base, 5000, false);
    assert!(scaled.values.iter().all(|&v| v == 32767));
    let scaled = QuantTable::scaled(&base, 5000, true);
    assert!(scaled.values.iter().all(|&v| v == 255));
    let scaled = QuantTable::scaled(&[1u16; DCTSIZE2], 1, false);
    assert!(scaled.values.iter().all(|&v| v == 1));
}

#[test]
fn test_quant_table_nonzero() {
    let base = get_luminance_quant_table(QuantTableIdx::JpegAnnexK);
    let scaled = QuantTable::scaled(base, 0, false);

    for v in scaled.values.iter() {
        assert!(*v >= 1, "Quant value should be at least 1");
    }
}

#[test]
fn every_preset_and_quality_gives_valid_entries() {
    for i in 0..NUM_QUANT_TABLE_VARIANTS {
        let idx = QuantTableIdx::from_u8(i as u8).unwrap();
        for q in [1u8, 10, 50, 75, 90, 100] {
            for fb in [false, true] {
                let (l, c) = create_quant_tables(q, idx, fb);
                for v in l.values.iter().chain(c.values.iter()) {
                    assert!(*v >= 1);
                    if fb {
                        assert!(*v <= 255);
                    }
                }
            }
        }
    }
}

#[test]
fn test_quantize_dequantize() {
    let coef = 100;
    let quant = 10;

    let qcoef = quantize_coef(coef, quant);
    assert_eq!(qcoef, 10);

    let dcoef = dequantize_coef(qcoef, quant);
    assert_eq!(dcoef, 100);
}

#[test]
fn test_quantize_rounding() {
    assert_eq!(quantize_coef(14, 10), 1);
    assert_eq!(quantize_coef(15, 10), 2);
    assert_eq!(quantize_coef(16, 10), 2);

    assert_eq!(quantize_coef(-14, 10), -1);
    assert_eq!(quantize_coef(-15, 10), -2);
    assert_eq!(quantize_coef(-16, 10), -2);
}

#[test]
fn test_quantize_block() {
    let mut coeffs = [0i32; DCTSIZE2];
    coeffs[0] = 1000;
    coeffs[1] = 100;
    coeffs[63] = -50;

    let quant = [10u16; DCTSIZE2];
    let mut output = [0i16; DCTSIZE2];

    quantize_block(&coeffs, &quant, &mut output);

    assert_eq!(output[0], 100);
    assert_eq!(output[1], 10);
    assert_eq!(output[63], -5);
}

#[test]
fn dequantize_block_multiplies() {
    let mut q = [0i16; DCTSIZE2];
    q[0] = -28;
    q[5] = 3;
    let table = [8u16; DCTSIZE2];
    let mut out = [1i32; DCTSIZE2];
    dequantize_block(&q, &table, &mut out);
    assert_eq!(out[0], -224);
    assert_eq!(out[5], 24);
    assert_eq!(out[6], 0);
    assert_eq!(dequantize_coef(i16::MIN, u16::MAX), -32768 * 65535);
}

#[test]
fn test_all_quant_table_variants() {
    for i in 0..NUM_QUANT_TABLE_VARIANTS {
        let idx = QuantTableIdx::from_u8(i as u8).unwrap();
        let luma = get_luminance_quant_table(idx);
        let chroma = get_chrominance_quant_table(idx);

        for v in luma.iter() {
            assert!(*v > 0, "Luminance table {} has zero value", i);
        }
        for v in chroma.iter() {
            assert!(*v > 0, "Chrominance table {} has zero value", i);
        }
    }
    assert!(QuantTableIdx::from_u8(9).is_none());
}

#[test]
fn test_create_quant_tables() {
    let (luma, chroma) = create_quant_tables(75, QuantTableIdx::ImageMagick, true);

    assert_eq!(luma.values[0], 8);

    for v in luma.values.iter() {
        assert!(*v <= 255);
    }
    for v in chroma.values.iter() {
        assert!(*v <= 255);
    }
}

#[test]
fn create_quant_table_at_q50_keeps_base() {
    let base = get_luminance_quant_table(QuantTableIdx::JpegAnnexK);
    let t = create_quant_table(base, 50, false);
    assert_eq!(&t.values, base);
    assert_eq!(base[0], 16);
    assert_eq!(base[63], 99);
}

#[test]
fn uniform_block_quantizes_to_single_dc() {
    // Uniform 100 block: DCT DC is -1792; after removing the x8 scale the
    // Q75 ImageMagick luma divisor (8) gives -28 and every AC is zero.
    let (luma, _) = create_quant_tables(75, QuantTableIdx::ImageMagick, false);
    let mut coeffs = [0i32; DCTSIZE2];
    coeffs[0] = (-1792 + 4) >> 3;
    let mut out = [0i16; DCTSIZE2];
    quantize_block(&coeffs, &luma.values, &mut out);
    assert_eq!(out[0], -28);
    assert!(out[1..].iter().all(|&v| v == 0));
}
