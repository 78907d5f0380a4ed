use mozjpeg_rs::huffman::{DerivedTable, HuffTable};
use mozjpeg_rs::scan_plan::generate_search_scans;
use mozjpeg_rs::scan_trial::ScanTrialEncoder;

// (components, index0, index1, index2, Ss, Se, Ah, Al)
const REFERENCE: [(u8, u8, u8, u8, u8, u8, u8, u8); 64] = [
    (3, 0, 1, 2, 0, 0, 0, 0),
    (1, 0, 0, 0, 1, 8, 0, 0),
    (1, 0, 0, 0, 9, 63, 0, 0),
    (1, 0, 0, 0, 1, 63, 1, 0),
    (1, 0, 0, 0, 1, 8, 0, 1),
    (1, 0, 0, 0, 9, 63, 0, 1),
    (1, 0, 0, 0, 1, 63, 2, 1),
    (1, 0, 0, 0, 1, 8, 0, 2),
    (1, 0, 0, 0, 9, 63, 0, 2),
    (1, 0, 0, 0, 1, 63, 3, 2),
    (1, 0, 0, 0, 1, 8, 0, 3),
    (1, 0, 0, 0, 9, 63, 0, 3),
    (1, 0, 0, 0, 1, 63, 0, 0),
    (1, 0, 0, 0, 1, 2, 0, 0),
    (1, 0, 0, 0, 3, 63, 0, 0),
    (1, 0, 0, 0, 1, 8, 0, 0),
    (1, 0, 0, 0, 9, 63, 0, 0),
    (1, 0, 0, 0, 1, 5, 0, 0),
    (1, 0, 0, 0, 6, 63, 0, 0),
    (1, 0, 0, 0, 1, 12, 0, 0),
    (1, 0, 0, 0, 13, 63, 0, 0),
    (1, 0, 0, 0, 1, 18, 0, 0),
    (1, 0, 0, 0, 19, 63, 0, 0),
    (2, 1, 2, 0, 0, 0, 0, 0),
    (1, 1, 0, 0, 0, 0, 0, 0),
    (1, 2, 0, 0, 0, 0, 0, 0),
    (1, 1, 0, 0, 1, 8, 0, 0),
    (1, 1, 0, 0, 9, 63, 0, 0),
    (1, 2, 0, 0, 1, 8, 0, 0),
    (1, 2, 0, 0, 9, 63, 0, 0),
    (1, 1, 0, 0, 1, 63, 1, 0),
    (1, 2, 0, 0, 1, 63, 1, 0),
    (1, 1, 0, 0, 1, 8, 0, 1),
    (1, 1, 0, 0, 9, 63, 0, 1),
    (1, 2, 0, 0, 1, 8, 0, 1),
    (1, 2, 0, 0, 9, 63, 0, 1),
    (1, 1, 0, 0, 1, 63, 2, 1),
    (1, 2, 0, 0, 1, 63, 2, 1),
    (1, 1, 0, 0, 1, 8, 0, 2),
    (1, 1, 0, 0, 9, 63, 0, 2),
    (1, 2, 0, 0, 1, 8, 0, 2),
    (1, 2, 0, 0, 9, 63, 0, 2),
    (1, 1, 0, 0, 1, 63, 0, 0),
    (1, 2, 0, 0, 1, 63, 0, 0),
    (1, 1, 0, 0, 1, 2, 0, 0),
    (1, 1, 0, 0, 3, 63, 0, 0),
    (1, 2, 0, 0, 1, 2, 0, 0),
    (1, 2, 0, 0, 3, 63, 0, 0),
    (1, 1, 0, 0, 1, 8, 0, 0),
    (1, 1, 0, 0, 9, 63, 0, 0),
    (1, 2, 0, 0, 1, 8, 0, 0),
    (1, 2, 0, 0, 9, 63, 0, 0),
    (1, 1, 0, 0, 1, 5, 0, 0),
    (1, 1, 0, 0, 6, 63, 0, 0),
    (1, 2, 0, 0, 1, 5, 0, 0),
    (1, 2, 0, 0, 6, 63, 0, 0),
    (1, 1, 0, 0, 1, 12, 0, 0),
    (1, 1, 0, 0, 13, 63, 0, 0),
    (1, 2, 0, 0, 1, 12, 0, 0),
    (1, 2, 0, 0, 13, 63, 0, 0),
    (1, 1, 0, 0, 1, 18, 0, 0),
    (1, 1, 0, 0, 19, 63, 0, 0),
    (1, 2, 0, 0, 1, 18, 0, 0),
    (1, 2, 0, 0, 19, 63, 0, 0),
];

#[test]
fn ycbcr_search_script_matches_reference_list() {
    let scans = generate_search_scans(3).unwrap();
    assert_eq!(scans.len(), 64);
    for (i, (s, r)) in scans.iter().zip(REFERENCE.iter()).enumerate() {
        let got = (
            s.comps_in_scan,
            s.component_index[0],
            s.component_index[1],
            s.component_index[2],
            s.ss,
            s.se,
            s.ah,
            s.al,
        );
        assert_eq!(got, *r, "scan {}", i);
    }
    let refinements = scans.iter().filter(|s| s.ah != 0).count();
    assert_eq!(refinements, 7);
}

#[test]
fn grayscale_search_script_is_the_luma_part() {
    let scans = generate_search_scans(1).unwrap();
    assert_eq!(scans.len(), 23);
    assert_eq!(scans[0].comps_in_scan, 1);
    for (s, r) in scans.iter().zip(REFERENCE.iter()).skip(1) {
        assert_eq!((s.component_index[0], s.ss, s.se, s.ah, s.al), (r.1, r.4, r.5, r.6, r.7));
    }
}

#[test]
fn other_component_counts_have_no_script() {
    assert!(generate_search_scans(0).is_none());
    assert!(generate_search_scans(2).is_none());
    assert!(generate_search_scans(4).is_none());
}

#[test]
fn all_64_candidates_trial_encode() {
    // Tables with a code for every DC category and every AC symbol.
    let mut h = HuffTable::default();
    h.bits[5] = 16;
    for v in 0..16u8 {
        h.huffval[v as usize] = v;
    }
    let dc = DerivedTable::from_huff_table(&h, true).unwrap();
    let mut h = HuffTable::default();
    h.bits[8] = 254;
    h.bits[9] = 2;
    for v in 0..=255u8 {
        h.huffval[v as usize] = v;
    }
    let ac = DerivedTable::from_huff_table(&h, false).unwrap();
    let y: Vec<[i16; 64]> = (0..16)
        .map(|b| {
            let mut blk = [0i16; 64];
            for (i, v) in blk.iter_mut().enumerate() {
                *v = if i < 10 { ((b * 5 + i as i16 * 3) % 17) - 8 } else { 0 };
            }
            blk
        })
        .collect();
    let c: Vec<[i16; 64]> = y[..4].to_vec();
    let mut enc = ScanTrialEncoder::new(&y, &c, &c, &dc, &dc, &ac, &ac, 2, 2, 2, 2, 32, 32, 16, 16);
    let scans = generate_search_scans(3).unwrap();
    let sizes = enc.encode_all_scans(&scans).unwrap();
    assert_eq!(sizes.len(), 64);
    for (s, b) in sizes.iter().zip(enc.get_scan_buffers()) {
        assert_eq!(*s, b.len());
    }
}
