use mozjpeg_rs::consts::{
    AC_LUMINANCE_BITS, AC_LUMINANCE_VALUES, DC_LUMINANCE_BITS, DC_LUMINANCE_VALUES,
};
use mozjpeg_rs::huffman::{DerivedTable, HuffTable};
use mozjpeg_rs::progressive::ProgressiveEncoder;
use mozjpeg_rs::scan_trial::ScanTrialEncoder;
use mozjpeg_rs::types::ScanInfo;

fn derived(bits: &[u8; 17], vals: &[u8], dc: bool) -> DerivedTable {
    let mut h = HuffTable::default();
    h.bits.copy_from_slice(bits);
    h.huffval[..vals.len()].copy_from_slice(vals);
    DerivedTable::from_huff_table(&h, dc).unwrap()
}

/// A DC table with a code for every category 0..=15.
fn dc_table() -> DerivedTable {
    let mut bits = [0u8; 17];
    bits[5] = 16;
    let vals: Vec<u8> = (0..16).collect();
    derived(&bits, &vals, true)
}

/// An AC table with a code for every symbol.
fn ac_table() -> DerivedTable {
    let mut bits = [0u8; 17];
    bits[8] = 254;
    bits[9] = 2;
    let vals: Vec<u8> = (0..=255).collect();
    derived(&bits, &vals, false)
}

fn code_bits(t: &DerivedTable, symbol: u8) -> String {
    let (code, size) = t.get_code(symbol);
    assert!(size > 0);
    (0..size).rev().map(|i| if (code >> i) & 1 == 1 { '1' } else { '0' }).collect()
}

fn to_bytes(bits: &str) -> Vec<u8> {
    let mut b = bits.to_string();
    while b.len() % 8 != 0 {
        b.push('1');
    }
    let mut out = Vec::new();
    for chunk in b.as_bytes().chunks(8) {
        let v = u8::from_str_radix(std::str::from_utf8(chunk).unwrap(), 2).unwrap();
        out.push(v);
        if v == 0xFF {
            out.push(0);
        }
    }
    out
}

#[test]
fn standard_tables_lack_eob_run_codes() {
    let std_ac = derived(&AC_LUMINANCE_BITS, &AC_LUMINANCE_VALUES, false);
    assert_eq!(std_ac.get_code(0x10).1, 0);
    let std_dc = derived(&DC_LUMINANCE_BITS, &DC_LUMINANCE_VALUES, true);
    assert_eq!(std_dc.get_code(12).1, 0);
}

#[test]
fn dc_first_shifts_and_codes_difference() {
    // 100 >> 1 = 50: category 6, then bits 110010, padded with ones.
    let dc = dc_table();
    let mut enc = ProgressiveEncoder::new();
    let mut block = [0i16; 64];
    block[0] = 100;
    enc.encode_dc_first(&block, 0, &dc, 1).unwrap();
    enc.finish_scan(None).unwrap();
    let expected = code_bits(&dc, 6) + "110010";
    assert_eq!(enc.writer.into_bytes(), to_bytes(&expected));
}

#[test]
fn dc_first_negative_shift_rounds_down() {
    let mut enc = ProgressiveEncoder::new();
    let mut block = [0i16; 64];
    block[0] = -3;
    enc.encode_dc_first(&block, 2, &dc_table(), 1).unwrap();
    assert_eq!(enc.last_dc_val[2], -2);
}

#[test]
fn dc_refine_emits_bit_al() {
    let mut enc = ProgressiveEncoder::new();
    let mut block = [0i16; 64];
    for (v, al) in [(5i16, 0u8), (5, 1), (-3, 0), (-3, 1), (4, 2), (4, 1), (-1, 7), (-32768, 13)] {
        block[0] = v;
        enc.encode_dc_refine(&block, al).unwrap();
    }
    enc.finish_scan(None).unwrap();
    // bits: 1 0 1 0 1 0 1 0
    assert_eq!(enc.writer.into_bytes(), vec![0b1010_1010]);
}

#[test]
fn ac_first_counts_eob_runs() {
    let ac = ac_table();
    let mut enc = ProgressiveEncoder::new();
    let zero = [0i16; 64];
    enc.encode_ac_first(&zero, 1, 63, 0, &ac).unwrap();
    enc.encode_ac_first(&zero, 1, 63, 0, &ac).unwrap();
    assert_eq!(enc.eobrun, 2);
    assert!(enc.writer.as_bytes().is_empty());
    enc.finish_scan(Some(&ac)).unwrap();
    assert_eq!(enc.eobrun, 0);
    // EOB run of 2: symbol 0x10 then one bit "0", padded.
    let (code, size) = ac.get_code(0x10);
    let mut bits = String::new();
    for i in (0..size).rev() {
        bits.push(if (code >> i) & 1 == 1 { '1' } else { '0' });
    }
    bits.push('0');
    while bits.len() % 8 != 0 {
        bits.push('1');
    }
    let bytes = enc.writer.into_bytes();
    let got: String = bytes.iter().map(|b| format!("{:08b}", b)).collect();
    assert_eq!(got, bits);
}

#[test]
fn ac_first_point_transform_drops_small_values() {
    let ac = ac_table();
    let mut enc = ProgressiveEncoder::new();
    let mut block = [0i16; 64];
    block[1] = 1;
    block[8] = -1;
    enc.encode_ac_first(&block, 1, 5, 1, &ac).unwrap();
    assert_eq!(enc.eobrun, 1);
    assert!(enc.writer.as_bytes().is_empty());
    block[1] = 4;
    enc.encode_ac_first(&block, 1, 5, 1, &ac).unwrap();
    // The pending run is flushed before the coefficient, and trailing zeros
    // start a new run.
    assert_eq!(enc.eobrun, 1);
}

#[test]
fn ac_refine_buffers_correction_bits() {
    let ac = ac_table();
    let mut enc = ProgressiveEncoder::new();
    let mut block = [0i16; 64];
    block[1] = 3;
    enc.encode_ac_refine(&block, 1, 63, 1, 0, &ac).unwrap();
    assert_eq!(enc.eobrun, 1);
    assert_eq!(enc.be.len(), 1);
    enc.finish_scan(Some(&ac)).unwrap();
    assert_eq!(enc.eobrun, 0);
    assert!(!enc.writer.as_bytes().is_empty());
}

#[test]
fn ac_refine_codes_newly_nonzero_value_exactly() {
    // Value 1 at zigzag 1, refined at bit 0: symbol 0x01, sign "1"; trailing
    // zeros make an EOB run of 1, flushed as symbol 0x00.
    let ac = ac_table();
    let mut enc = ProgressiveEncoder::new();
    let mut block = [0i16; 64];
    block[1] = 1;
    enc.encode_ac_refine(&block, 1, 63, 1, 0, &ac).unwrap();
    assert_eq!(enc.eobrun, 1);
    enc.finish_scan(Some(&ac)).unwrap();
    let expected = code_bits(&ac, 0x01) + "1" + &code_bits(&ac, 0x00);
    assert_eq!(enc.writer.into_bytes(), to_bytes(&expected));
}

fn scan(comps: &[u8], ss: u8, se: u8, ah: u8, al: u8) -> ScanInfo {
    let mut component_index = [0u8; 4];
    component_index[..comps.len()].copy_from_slice(comps);
    ScanInfo { comps_in_scan: comps.len() as u8, component_index, ss, se, ah, al }
}

#[test]
fn scan_trial_sizes_match_buffers() {
    let dc = dc_table();
    let ac = ac_table();
    let mut y = vec![[0i16; 64]; 4];
    for (b, block) in y.iter_mut().enumerate() {
        block[0] = 10 * b as i16 - 7;
        block[1] = 5 - b as i16;
        block[9] = 3;
        block[63] = -2;
    }
    let c = vec![[1i16; 64]; 1];
    let mut enc = ScanTrialEncoder::new(&y, &c, &c, &dc, &dc, &ac, &ac, 1, 1, 2, 2, 16, 16, 8, 8);
    let scans = [
        scan(&[0, 1, 2], 0, 0, 0, 1),
        scan(&[0], 1, 8, 0, 2),
        scan(&[0], 9, 63, 0, 2),
        scan(&[0], 1, 63, 2, 1),
        scan(&[0], 1, 63, 1, 0),
        scan(&[1], 1, 63, 0, 0),
        scan(&[0, 1, 2], 0, 0, 1, 0),
    ];
    let sizes = enc.encode_all_scans(&scans).unwrap();
    assert_eq!(sizes.len(), scans.len());
    let buffers = enc.get_scan_buffers();
    assert_eq!(buffers.len(), scans.len());
    for (s, b) in sizes.iter().zip(buffers.iter()) {
        assert_eq!(*s, b.len());
        assert!(*s > 0);
    }
    let again = enc.encode_all_scans(&scans[..2]).unwrap();
    assert_eq!(enc.get_scan_buffers().len(), scans.len() + 2);
    assert_eq!(again[0], sizes[0]);
    let first_run: Vec<Vec<u8>> = enc.get_scan_buffers()[..scans.len()].to_vec();
    enc.reset();
    assert!(enc.get_scan_buffers().is_empty());
    // After a reset the encoder codes exactly as a fresh one.
    enc.encode_all_scans(&scans).unwrap();
    assert_eq!(enc.get_scan_buffers(), &first_run[..]);
}

#[test]
fn dc_refinement_skips_blocks_never_first_coded() {
    let dc = dc_table();
    let ac = ac_table();
    let y = vec![[3i16; 64]; 2];
    let empty: Vec<[i16; 64]> = Vec::new();
    let mut enc = ScanTrialEncoder::new(&y, &empty, &empty, &dc, &dc, &ac, &ac, 1, 2, 1, 1, 16, 8, 0, 0);
    // A refinement before any first scan codes nothing, so the buffer is empty.
    let sizes = enc.encode_all_scans(&[scan(&[0], 0, 0, 1, 0)]).unwrap();
    assert_eq!(sizes, vec![0]);
    // After a first scan, the refinement sends one bit per block: 3 -> bits 1, 1.
    enc.encode_all_scans(&[scan(&[0], 0, 0, 0, 1), scan(&[0], 0, 0, 1, 0)]).unwrap();
    assert_eq!(enc.get_scan_buffers()[2], vec![0b1111_1111, 0x00]);
}

#[test]
fn trial_buffer_matches_direct_encoding() {
    let dc = dc_table();
    let ac = ac_table();
    let mut y = vec![[0i16; 64]; 2];
    y[0][1] = 5;
    y[0][8] = -3;
    y[1][2] = 1;
    let empty: Vec<[i16; 64]> = Vec::new();
    let mut enc = ScanTrialEncoder::new(&y, &empty, &empty, &dc, &dc, &ac, &ac, 1, 2, 1, 1, 16, 8, 0, 0);
    enc.encode_all_scans(&[scan(&[0], 1, 63, 0, 0)]).unwrap();
    let mut direct = ProgressiveEncoder::new();
    direct.encode_ac_first(&y[0], 1, 63, 0, &ac).unwrap();
    direct.encode_ac_first(&y[1], 1, 63, 0, &ac).unwrap();
    direct.finish_scan(Some(&ac)).unwrap();
    assert_eq!(enc.get_scan_buffers()[0], direct.writer.into_bytes());
}

#[test]
fn scan_trial_is_deterministic() {
    let dc = dc_table();
    let ac = ac_table();
    let y: Vec<[i16; 64]> = (0..6)
        .map(|b| {
            let mut blk = [0i16; 64];
            for (i, v) in blk.iter_mut().enumerate() {
                *v = ((i as i16 * 7 + b * 13) % 9) - 4;
            }
            blk
        })
        .collect();
    let empty: Vec<[i16; 64]> = Vec::new();
    let scans = [scan(&[0], 0, 0, 0, 0), scan(&[0], 1, 63, 0, 1), scan(&[0], 1, 63, 1, 0)];
    let mut a = ScanTrialEncoder::new(&y, &empty, &empty, &dc, &dc, &ac, &ac, 2, 3, 1, 1, 24, 16, 0, 0);
    let mut b = ScanTrialEncoder::new(&y, &empty, &empty, &dc, &dc, &ac, &ac, 2, 3, 1, 1, 24, 16, 0, 0);
    a.encode_all_scans(&scans).unwrap();
    b.encode_all_scans(&scans).unwrap();
    assert_eq!(a.get_scan_buffers(), b.get_scan_buffers());
}
