use mozjpeg_rs::bitstream::{BitWriter, VecBitWriter};
use mozjpeg_rs::consts::{
    AC_LUMINANCE_BITS, AC_LUMINANCE_VALUES, DC_LUMINANCE_BITS, DC_LUMINANCE_VALUES,
};
use mozjpeg_rs::entropy::{encode_block_standalone, jpeg_nbits, jpeg_nbits_nonzero, EntropyEncoder};
use mozjpeg_rs::huffman::{DerivedTable, HuffTable};

const DCTSIZE2: usize = 64;

fn create_dc_luma_table() -> DerivedTable {
    let mut htbl = HuffTable::default();
    htbl.bits.copy_from_slice(&DC_LUMINANCE_BITS);
    for (i, &v) in DC_LUMINANCE_VALUES.iter().enumerate() {
        htbl.huffval[i] = v;
    }
    DerivedTable::from_huff_table(&htbl, true).unwrap()
}

fn create_ac_luma_table() -> DerivedTable {
    let mut htbl = HuffTable::default();
    htbl.bits.copy_from_slice(&AC_LUMINANCE_BITS);
    for (i, &v) in AC_LUMINANCE_VALUES.iter().enumerate() {
        htbl.huffval[i] = v;
    }
    DerivedTable::from_huff_table(&htbl, false).unwrap()
}

#[test]
fn test_jpeg_nbits() {
    assert_eq!(jpeg_nbits(0), 0);
    assert_eq!(jpeg_nbits(1), 1);
    assert_eq!(jpeg_nbits(-1), 1);
    assert_eq!(jpeg_nbits(2), 2);
    assert_eq!(jpeg_nbits(-2), 2);
    assert_eq!(jpeg_nbits(3), 2);
    assert_eq!(jpeg_nbits(-3), 2);
    assert_eq!(jpeg_nbits(4), 3);
    assert_eq!(jpeg_nbits(7), 3);
    assert_eq!(jpeg_nbits(8), 4);
    assert_eq!(jpeg_nbits(255), 8);
    assert_eq!(jpeg_nbits(-255), 8);
    assert_eq!(jpeg_nbits(1023), 10);
}

#[test]
fn nbits_of_extremes() {
    assert_eq!(jpeg_nbits(i16::MAX), 15);
    assert_eq!(jpeg_nbits(i16::MIN), 16);
    assert_eq!(jpeg_nbits_nonzero(1), 1);
    assert_eq!(jpeg_nbits_nonzero(u16::MAX), 16);
    assert_eq!(jpeg_nbits_nonzero(0x8000), 16);
}

#[test]
fn test_encode_zero_block() {
    let dc_table = create_dc_luma_table();
    let ac_table = create_ac_luma_table();
    let mut writer = VecBitWriter::new_vec();

    let block = [0i16; DCTSIZE2];
    let new_dc = encode_block_standalone(&mut writer, &block, 0, &dc_table, &ac_table).unwrap();
    writer.flush().unwrap();

    assert_eq!(new_dc, 0);
    let bytes = writer.into_bytes();
    assert!(!bytes.is_empty());
}

#[test]
fn zero_block_bits_are_dc_category_zero_then_eob() {
    // DC category 0 is "00", EOB is "1010"; padding with ones gives 0b0010_1011.
    let dc_table = create_dc_luma_table();
    let ac_table = create_ac_luma_table();
    let mut writer = BitWriter::new_vec();
    encode_block_standalone(&mut writer, &[0i16; DCTSIZE2], 0, &dc_table, &ac_table).unwrap();
    writer.flush().unwrap();
    assert_eq!(writer.into_bytes(), vec![0b0010_1011]);
}

#[test]
fn test_encode_dc_only() {
    let dc_table = create_dc_luma_table();
    let ac_table = create_ac_luma_table();
    let mut writer = VecBitWriter::new_vec();

    let mut block = [0i16; DCTSIZE2];
    block[0] = 100;

    let new_dc = encode_block_standalone(&mut writer, &block, 0, &dc_table, &ac_table).unwrap();
    writer.flush().unwrap();

    assert_eq!(new_dc, 100);
    let bytes = writer.into_bytes();
    assert!(!bytes.is_empty());
}

#[test]
fn dc_only_block_exact_bits() {
    // DC diff 100: category 7 ("11110"), value bits 1100100, then EOB "1010".
    let dc_table = create_dc_luma_table();
    let ac_table = create_ac_luma_table();
    let mut writer = BitWriter::new_vec();
    let mut block = [0i16; DCTSIZE2];
    block[0] = 100;
    encode_block_standalone(&mut writer, &block, 0, &dc_table, &ac_table).unwrap();
    writer.flush().unwrap();
    // 11110 1100100 1010 + pad 1111 -> 1111_0110 0100_1010 ... with one pad bit group
    assert_eq!(writer.into_bytes(), vec![0b1111_0110, 0b0100_1010]);
}

#[test]
fn test_encode_dc_differential() {
    let dc_table = create_dc_luma_table();
    let ac_table = create_ac_luma_table();
    let mut writer = VecBitWriter::new_vec();

    let mut block = [0i16; DCTSIZE2];
    block[0] = 100;

    let mut encoder = EntropyEncoder::new(&mut writer);
    encoder.encode_block(&block, 0, &dc_table, &ac_table).unwrap();

    block[0] = 105;
    encoder.encode_block(&block, 0, &dc_table, &ac_table).unwrap();

    block[0] = 95;
    encoder.encode_block(&block, 0, &dc_table, &ac_table).unwrap();

    encoder.flush().unwrap();

    assert_eq!(encoder.last_dc(0), 95);
}

#[test]
fn test_encode_with_ac_coefficients() {
    let dc_table = create_dc_luma_table();
    let ac_table = create_ac_luma_table();
    let mut writer = VecBitWriter::new_vec();

    let mut block = [0i16; DCTSIZE2];
    block[0] = 50;
    block[1] = 10;
    block[8] = -5;
    block[16] = 3;

    encode_block_standalone(&mut writer, &block, 0, &dc_table, &ac_table).unwrap();
    writer.flush().unwrap();

    let bytes = writer.into_bytes();
    assert!(!bytes.is_empty());
}

#[test]
fn test_encode_run_length() {
    let dc_table = create_dc_luma_table();
    let ac_table = create_ac_luma_table();
    let mut writer = VecBitWriter::new_vec();

    let mut block = [0i16; DCTSIZE2];
    block[0] = 10;
    block[63] = 1;

    encode_block_standalone(&mut writer, &block, 0, &dc_table, &ac_table).unwrap();
    writer.flush().unwrap();

    let bytes = writer.into_bytes();
    assert!(!bytes.is_empty());
}

#[test]
fn run_of_62_zeros_emits_three_zrl_codes() {
    // DC 0 ("00"), three ZRL ("11111111001" each), symbol 0xE1, value "1";
    // every 0xFF byte is followed by a stuffed 0x00.
    let dc_table = create_dc_luma_table();
    let ac_table = create_ac_luma_table();
    let mut block = [0i16; DCTSIZE2];
    block[63] = 1;
    let mut writer = BitWriter::new_vec();
    encode_block_standalone(&mut writer, &block, 0, &dc_table, &ac_table).unwrap();
    let mut expected_bits = String::from("00");
    for _ in 0..3 {
        expected_bits.push_str("11111111001");
    }
    let (code, size) = ac_table.get_code(0xE1);
    for i in (0..size).rev() {
        expected_bits.push(if (code >> i) & 1 == 1 { '1' } else { '0' });
    }
    expected_bits.push('1');
    while expected_bits.len() % 8 != 0 {
        expected_bits.push('1');
    }
    writer.flush().unwrap();
    let bytes = writer.into_bytes();
    let mut got = String::new();
    let mut prev_ff = false;
    for &b in &bytes {
        if prev_ff {
            assert_eq!(b, 0x00);
            prev_ff = false;
            continue;
        }
        got.push_str(&format!("{:08b}", b));
        prev_ff = b == 0xFF;
    }
    assert_eq!(got, expected_bits);
}

#[test]
fn test_encode_negative_values() {
    let dc_table = create_dc_luma_table();
    let ac_table = create_ac_luma_table();
    let mut writer = VecBitWriter::new_vec();

    let mut block = [0i16; DCTSIZE2];
    block[0] = -50;
    block[1] = -10;
    block[8] = -1;

    encode_block_standalone(&mut writer, &block, 0, &dc_table, &ac_table).unwrap();
    writer.flush().unwrap();

    let bytes = writer.into_bytes();
    assert!(!bytes.is_empty());
}

#[test]
fn negative_dc_uses_ones_complement_bits() {
    // DC diff -1: category 1 ("010"), value bit "0", EOB "1010": one byte.
    let dc_table = create_dc_luma_table();
    let ac_table = create_ac_luma_table();
    let mut block = [0i16; DCTSIZE2];
    block[0] = -1;
    let mut writer = BitWriter::new_vec();
    encode_block_standalone(&mut writer, &block, 0, &dc_table, &ac_table).unwrap();
    writer.flush().unwrap();
    assert_eq!(writer.into_bytes(), vec![0b0100_1010]);
}

#[test]
fn test_reset_dc() {
    let dc_table = create_dc_luma_table();
    let ac_table = create_ac_luma_table();
    let mut writer = VecBitWriter::new_vec();

    let mut encoder = EntropyEncoder::new(&mut writer);

    let mut block = [0i16; DCTSIZE2];
    block[0] = 100;
    encoder.encode_block(&block, 0, &dc_table, &ac_table).unwrap();
    assert_eq!(encoder.last_dc(0), 100);

    encoder.reset_dc();
    assert_eq!(encoder.last_dc(0), 0);
}

#[test]
fn test_multiple_components() {
    let dc_table = create_dc_luma_table();
    let ac_table = create_ac_luma_table();
    let mut writer = VecBitWriter::new_vec();

    let mut encoder = EntropyEncoder::new(&mut writer);

    let mut block = [0i16; DCTSIZE2];
    block[0] = 100;
    encoder.encode_block(&block, 0, &dc_table, &ac_table).unwrap();

    block[0] = 128;
    encoder.encode_block(&block, 1, &dc_table, &ac_table).unwrap();

    block[0] = 130;
    encoder.encode_block(&block, 2, &dc_table, &ac_table).unwrap();

    encoder.flush().unwrap();

    assert_eq!(encoder.last_dc(0), 100);
    assert_eq!(encoder.last_dc(1), 128);
    assert_eq!(encoder.last_dc(2), 130);
}

#[test]
fn set_last_dc_changes_the_difference() {
    let dc_table = create_dc_luma_table();
    let ac_table = create_ac_luma_table();
    let mut block = [0i16; DCTSIZE2];
    block[0] = 100;
    let mut w1 = BitWriter::new_vec();
    encode_block_standalone(&mut w1, &block, 100, &dc_table, &ac_table).unwrap();
    w1.flush().unwrap();
    let mut w2 = BitWriter::new_vec();
    encode_block_standalone(&mut w2, &[0i16; DCTSIZE2], 0, &dc_table, &ac_table).unwrap();
    w2.flush().unwrap();
    assert_eq!(w1.into_bytes(), w2.into_bytes());
}

#[test]
fn same_block_encodes_to_same_bytes() {
    let dc_table = create_dc_luma_table();
    let ac_table = create_ac_luma_table();
    let mut block = [0i16; DCTSIZE2];
    for (i, v) in block.iter_mut().enumerate() {
        *v = ((i as i16 * 37) % 23) - 11;
    }
    let mut a = BitWriter::new_vec();
    let mut b = BitWriter::new_vec();
    encode_block_standalone(&mut a, &block, 3, &dc_table, &ac_table).unwrap();
    encode_block_standalone(&mut b, &block, 3, &dc_table, &ac_table).unwrap();
    a.flush().unwrap();
    b.flush().unwrap();
    assert_eq!(a.into_bytes(), b.into_bytes());
}
