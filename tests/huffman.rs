use mozjpeg_rs::consts::{
    AC_CHROMINANCE_BITS, AC_CHROMINANCE_VALUES, AC_LUMINANCE_BITS, AC_LUMINANCE_VALUES,
    DC_CHROMINANCE_BITS, DC_CHROMINANCE_VALUES, DC_LUMINANCE_BITS, DC_LUMINANCE_VALUES,
};
use mozjpeg_rs::error::Error;
use mozjpeg_rs::huffman::{DerivedTable, HuffTable};

fn table(bits: &[u8; 17], vals: &[u8]) -> HuffTable {
    let mut h = HuffTable::default();
    h.bits.copy_from_slice(bits);
    h.huffval[..vals.len()].copy_from_slice(vals);
    h
}

#[test]
fn standard_dc_luma_codes() {
    let t = DerivedTable::from_huff_table(&table(&DC_LUMINANCE_BITS, &DC_LUMINANCE_VALUES), true).unwrap();
    assert_eq!(t.get_code(0), (0b00, 2));
    assert_eq!(t.get_code(1), (0b010, 3));
    assert_eq!(t.get_code(5), (0b110, 3));
    assert_eq!(t.get_code(6), (0b1110, 4));
    assert_eq!(t.get_code(11), (0b111111110, 9));
    assert_eq!(t.get_code(12), (0, 0));
}

#[test]
fn standard_ac_luma_codes() {
    let t = DerivedTable::from_huff_table(&table(&AC_LUMINANCE_BITS, &AC_LUMINANCE_VALUES), false).unwrap();
    assert_eq!(t.get_code(0x01), (0b00, 2));
    assert_eq!(t.get_code(0x00), (0b1010, 4));
    assert_eq!(t.get_code(0xF0), (0b11111111001, 11));
    assert_eq!(t.get_code(0xFA), (0xFFFE, 16));
}

#[test]
fn standard_chroma_tables_derive() {
    assert!(DerivedTable::from_huff_table(&table(&DC_CHROMINANCE_BITS, &DC_CHROMINANCE_VALUES), true).is_ok());
    let t = DerivedTable::from_huff_table(&table(&AC_CHROMINANCE_BITS, &AC_CHROMINANCE_VALUES), false).unwrap();
    assert_eq!(t.get_code(0x00), (0b00, 2));
}

#[test]
fn all_ones_code_is_rejected() {
    // Two codes of length 1 would use the all-ones code "1".
    let mut bits = [0u8; 17];
    bits[1] = 2;
    let r = DerivedTable::from_huff_table(&table(&bits, &[0, 1]), false);
    assert_eq!(r.err(), Some(Error::InvalidHuffmanTable));
}

#[test]
fn too_many_codes_are_rejected() {
    let mut bits = [0u8; 17];
    bits[16] = 255;
    bits[15] = 2;
    let r = DerivedTable::from_huff_table(&table(&bits, &[]), false);
    assert!(r.is_err());
}

#[test]
fn duplicate_symbols_are_rejected() {
    let mut bits = [0u8; 17];
    bits[2] = 2;
    let r = DerivedTable::from_huff_table(&table(&bits, &[3, 3]), false);
    assert_eq!(r.err(), Some(Error::InvalidHuffmanTable));
}

#[test]
fn dc_symbol_above_15_is_rejected() {
    let mut bits = [0u8; 17];
    bits[2] = 1;
    assert!(DerivedTable::from_huff_table(&table(&bits, &[16]), true).is_err());
    assert!(DerivedTable::from_huff_table(&table(&bits, &[16]), false).is_ok());
}

#[test]
fn empty_table_derives_with_no_codes() {
    let t = DerivedTable::from_huff_table(&HuffTable::default(), false).unwrap();
    assert_eq!(t.get_code(0), (0, 0));
    assert_eq!(t.get_code(255), (0, 0));
}
