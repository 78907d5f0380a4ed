//! Quantization table construction and coefficient quantization.
use vstd::prelude::*;

use crate::consts::{DCTSIZE2, STD_CHROMINANCE_QUANT_TBL, STD_LUMINANCE_QUANT_TBL};
use crate::types::{QuantTable, QuantTableIdx};

verus! {

/// Quality clamped to 1..=100.
pub open spec fn clamp_quality(quality: int) -> int {
    if quality < 1 {
        1
    } else if quality > 100 {
        100
    } else {
        quality
    }
}

/// mozjpeg's quality scaling: `5000 / q` below 50, `200 - 2q` from 50 on.
pub open spec fn scale_factor(quality: int) -> int {
    let q = clamp_quality(quality);
    if q < 50 {
        5000int / q
    } else {
        200 - 2 * q
    }
}

/// One scaled table entry: `(base * scale + 50) / 100` clamped to
/// `1..=32767`, and to at most 255 when `force_baseline` holds.
pub open spec fn scaled_entry(base: int, scale: int, force_baseline: bool) -> int {
    let t = (base * scale + 50) / 100;
    let t1 = if t < 1 {
        1
    } else if t > 32767 {
        32767
    } else {
        t
    };
    if force_baseline && t1 > 255 {
        255
    } else {
        t1
    }
}

/// Every entry of `t` is the scaled entry of `base`.
pub open spec fn is_scaled_table(t: QuantTable, base: Seq<u16>, scale: int, force_baseline: bool) -> bool {
    forall|i: int| 0 <= i < 64 ==> t.values[i] as int == scaled_entry(base[i] as int, scale, force_baseline)
}

/// Every entry of `t` is a valid divisor, and fits in 8 bits when
/// `force_baseline` holds.
pub open spec fn table_in_range(t: QuantTable, force_baseline: bool) -> bool {
    forall|i: int|
        0 <= i < 64 ==> 1 <= t.values[i] && (force_baseline ==> t.values[i] <= 255)
}

/// Round-half-away-from-zero division of `c` by `q > 0`.
pub open spec fn round_div(c: int, q: int) -> int {
    if c >= 0 {
        (c + q / 2) / q
    } else {
        -((-c + q / 2) / q)
    }
}

/// The rounding step of `c / q` stays within `i32`.
pub open spec fn quant_fits(c: int, q: int) -> bool {
    &&& -(i32::MAX as int) <= c - q / 2
    &&& c + q / 2 <= i32::MAX as int
}

impl QuantTable {
    /// Scale a base table by a percentage, as `jpeg_add_quant_table` does.
    pub fn scaled(base: &[u16; 64], scale: u32, force_baseline: bool) -> (r: QuantTable)
        ensures
            is_scaled_table(r, base@, scale as int, force_baseline),
            table_in_range(r, force_baseline),
    {
        let mut values = [1u16; 64];
        let mut i: usize = 0;
        while i < DCTSIZE2
            invariant
                i <= 64,
                forall|j: int|
                    0 <= j < i ==> values[j] as int == scaled_entry(
                        base@[j] as int,
                        scale as int,
                        force_baseline,
                    ),
            decreases 64 - i,
        {
            proof {
                assert(base[i as int] as int * scale as int <= 65535 * 4294967295) by (nonlinear_arith)
                    requires
                        base[i as int] <= 65535,
                        scale <= 4294967295,
                ;
            }
            let prod: u64 = base[i] as u64 * scale as u64;
            let t: u64 = (prod + 50) / 100;
            let mut v: u64 = if t < 1 {
                1
            } else if t > 32767 {
                32767
            } else {
                t
            };
            if force_baseline && v > 255 {
                v = 255;
            }
            values[i] = v as u16;
            i = i + 1;
        }
        QuantTable { values }
    }
}

/// Convert a quality value to mozjpeg's scale factor (a percentage).
/// Quality is clamped to 1..=100 first.
pub fn quality_to_scale_factor(quality: u8) -> (r: u32)
    ensures
        r as int == scale_factor(quality as int),
        r <= 5000,
{
    let q: u32 = if quality < 1 {
        1
    } else if quality > 100 {
        100
    } else {
        quality as u32
    };
    if q < 50 {
        5000 / q
    } else {
        200 - 2 * q
    }
}

/// The base luminance table of a preset.
pub fn get_luminance_quant_table(idx: QuantTableIdx) -> (r: &'static [u16; 64])
    ensures
        r@ == STD_LUMINANCE_QUANT_TBL@[idx.spec_index()]@,
{
    &STD_LUMINANCE_QUANT_TBL[idx.index()]
}

/// The base chrominance table of a preset.
pub fn get_chrominance_quant_table(idx: QuantTableIdx) -> (r: &'static [u16; 64])
    ensures
        r@ == STD_CHROMINANCE_QUANT_TBL@[idx.spec_index()]@,
{
    &STD_CHROMINANCE_QUANT_TBL[idx.index()]
}

/// Scale `base` for a quality setting.
pub fn create_quant_table(base: &[u16; 64], quality: u8, force_baseline: bool) -> (r: QuantTable)
    ensures
        is_scaled_table(r, base@, scale_factor(quality as int), force_baseline),
        table_in_range(r, force_baseline),
{
    let scale = quality_to_scale_factor(quality);
    QuantTable::scaled(base, scale, force_baseline)
}

/// Luminance and chrominance tables of a preset at a quality setting.
pub fn create_quant_tables(quality: u8, table_idx: QuantTableIdx, force_baseline: bool) -> (r: (
    QuantTable,
    QuantTable,
))
    ensures
        is_scaled_table(
            r.0,
            STD_LUMINANCE_QUANT_TBL@[table_idx.spec_index()]@,
            scale_factor(quality as int),
            force_baseline,
        ),
        is_scaled_table(
            r.1,
            STD_CHROMINANCE_QUANT_TBL@[table_idx.spec_index()]@,
            scale_factor(quality as int),
            force_baseline,
        ),
        table_in_range(r.0, force_baseline),
        table_in_range(r.1, force_baseline),
{
    let luma = create_quant_table(get_luminance_quant_table(table_idx), quality, force_baseline);
    let chroma = create_quant_table(
        get_chrominance_quant_table(table_idx),
        quality,
        force_baseline,
    );
    (luma, chroma)
}

/// Quantize one coefficient, rounding half away from zero; the quotient is
/// narrowed to `i16`.
pub fn quantize_coef(coef: i32, quant: u16) -> (r: i16)
    requires
        quant >= 1,
        quant_fits(coef as int, quant as int),
    ensures
        r == round_div(coef as int, quant as int) as i16,
{
    let q = quant as i32;
    if coef >= 0 {
        ((coef + q / 2) / q) as i16
    } else {
        let m: i32 = -coef + q / 2;
        (-(m / q)) as i16
    }
}

/// Multiply a quantized coefficient back by its divisor.
pub fn dequantize_coef(qcoef: i16, quant: u16) -> (r: i32)
    ensures
        r as int == qcoef as int * quant as int,
{
    proof {
        assert(-32768 * 65535 <= qcoef as int * quant as int <= 32767 * 65535) by (nonlinear_arith)
            requires
                -32768 <= qcoef <= 32767,
                0 <= quant <= 65535,
        ;
    }
    (qcoef as i32) * (quant as i32)
}

/// Quantize a block entry by entry.
pub fn quantize_block(coeffs: &[i32; 64], quant_table: &[u16; 64], output: &mut [i16; 64])
    requires
        forall|i: int|
            0 <= i < 64 ==> quant_table[i] >= 1 && quant_fits(coeffs[i] as int, quant_table[i] as int),
    ensures
        forall|i: int|
            0 <= i < 64 ==> final(output)[i] == round_div(coeffs[i] as int, quant_table[i] as int) as i16,
{
    let mut i: usize = 0;
    while i < DCTSIZE2
        invariant
            i <= 64,
            forall|j: int|
                0 <= j < 64 ==> quant_table[j] >= 1 && quant_fits(coeffs[j] as int, quant_table[j] as int),
            forall|j: int|
                0 <= j < i ==> output[j] == round_div(coeffs[j] as int, quant_table[j] as int) as i16,
        decreases 64 - i,
    {
        output[i] = quantize_coef(coeffs[i], quant_table[i]);
        i = i + 1;
    }
}

/// Dequantize a block entry by entry.
pub fn dequantize_block(qcoeffs: &[i16; 64], quant_table: &[u16; 64], output: &mut [i32; 64])
    ensures
        forall|i: int|
            0 <= i < 64 ==> final(output)[i] as int == qcoeffs[i] as int * quant_table[i] as int,
{
    let mut i: usize = 0;
    while i < DCTSIZE2
        invariant
            i <= 64,
            forall|j: int| 0 <= j < i ==> output[j] as int == qcoeffs[j] as int * quant_table[j] as int,
        decreases 64 - i,
    {
        output[i] = dequantize_coef(qcoeffs[i], quant_table[i]);
        i = i + 1;
    }
}

} // verus!
