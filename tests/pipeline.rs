use mozjpeg_rs::bitstream::BitWriter;
use mozjpeg_rs::consts::{
    AC_LUMINANCE_BITS, AC_LUMINANCE_VALUES, DC_LUMINANCE_BITS, DC_LUMINANCE_VALUES,
};
use mozjpeg_rs::dct::forward_dct;
use mozjpeg_rs::entropy::encode_block_standalone;
use mozjpeg_rs::huffman::{DerivedTable, HuffTable};
use mozjpeg_rs::quant::{create_quant_tables, quantize_block};
use mozjpeg_rs::types::QuantTableIdx;

#[test]
fn uniform_block_codes_only_its_dc_difference() {
    // 8x8 uniform (100,100,100) at Q75: DC after the DCT is 64 * (100 - 128),
    // the only non-zero quantized coefficient is DC, and the coded block is
    // the DC difference followed by an end-of-block.
    let samples = [100u8; 64];
    let mut coeffs = [0i16; 64];
    forward_dct(&samples, &mut coeffs);
    assert_eq!(coeffs[0], -1792);

    let (luma, _) = create_quant_tables(75, QuantTableIdx::ImageMagick, false);
    let mut unscaled = [0i32; 64];
    for i in 0..64 {
        unscaled[i] = (coeffs[i] as i32 + 4) >> 3;
    }
    let mut q = [0i16; 64];
    quantize_block(&unscaled, &luma.values, &mut q);
    assert_eq!(q[0], -28);
    assert!(q[1..].iter().all(|&v| v == 0));

    let mut h = HuffTable::default();
    h.bits.copy_from_slice(&DC_LUMINANCE_BITS);
    h.huffval[..12].copy_from_slice(&DC_LUMINANCE_VALUES);
    let dc = DerivedTable::from_huff_table(&h, true).unwrap();
    let mut h = HuffTable::default();
    h.bits.copy_from_slice(&AC_LUMINANCE_BITS);
    h.huffval[..162].copy_from_slice(&AC_LUMINANCE_VALUES);
    let ac = DerivedTable::from_huff_table(&h, false).unwrap();

    let mut w = BitWriter::new_vec();
    encode_block_standalone(&mut w, &q, 0, &dc, &ac).unwrap();
    w.flush().unwrap();
    // category 5 "110", bits of -28 as 00011, EOB "1010", pad "1111".
    assert_eq!(w.into_bytes(), vec![0b1100_0011, 0b1010_1111]);
}
