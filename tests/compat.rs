use mozjpeg_rs::compat::{icc_markers, CMozjpeg, ConfigError, ConfigWarnings};
use mozjpeg_rs::error::Error;
use mozjpeg_rs::types::{QuantTableIdx, Subsampling, TrellisConfig};

fn config(subsampling: Subsampling) -> CMozjpeg {
    CMozjpeg {
        quality: 75,
        force_baseline: false,
        subsampling,
        progressive: false,
        optimize_huffman: true,
        optimize_scans: false,
        trellis: TrellisConfig { enabled: true, dc_enabled: true },
        overshoot_deringing: false,
        smoothing: 0,
        restart_interval: 0,
        quant_table_idx: QuantTableIdx::ImageMagick,
        has_custom_qtables: false,
        exif_data: None,
        icc_profile: None,
        custom_markers: Vec::new(),
    }
}

#[test]
fn warnings_report_post_start_settings() {
    let mut c = config(Subsampling::S420);
    let w = c.check_config().unwrap();
    assert!(!w.has_warnings());
    c.exif_data = Some(vec![1, 2, 3]);
    c.custom_markers.push((0xE5, vec![9]));
    let w = c.check_config().unwrap();
    assert_eq!(
        w,
        ConfigWarnings { has_exif: true, has_icc_profile: false, has_custom_markers: true }
    );
    assert!(w.has_warnings());
    let w2 = ConfigWarnings { has_exif: false, has_icc_profile: true, has_custom_markers: false };
    assert!(w2.has_warnings());
}

#[test]
fn custom_quant_tables_are_refused() {
    let mut c = config(Subsampling::S444);
    c.has_custom_qtables = true;
    c.icc_profile = Some(vec![0; 10]);
    assert_eq!(c.check_config(), Err(ConfigError::CustomQuantTablesNotSupported));
}

#[test]
fn config_error_texts() {
    assert_eq!(
        ConfigError::UnsupportedQuantTable(QuantTableIdx::Klein).message(),
        "Quant table Klein not supported by C mozjpeg"
    );
    assert_eq!(
        ConfigError::CustomQuantTablesNotSupported.message(),
        "Custom quant tables must be configured manually via jpeg_add_quant_table"
    );
    assert_eq!(
        ConfigError::UnsupportedSubsampling(Subsampling::S440).message(),
        "Subsampling S440 not supported"
    );
    assert_eq!(
        ConfigError::CustomQuantTablesNotSupported.to_error(),
        Error::UnsupportedFeature("custom quant tables not supported")
    );
    assert_eq!(
        ConfigError::UnsupportedSubsampling(Subsampling::Gray).to_error(),
        Error::UnsupportedFeature("subsampling mode not supported")
    );
}

#[test]
fn sampling_factors_per_mode() {
    assert_eq!(config(Subsampling::S444).sampling_factors(), (1, 1));
    assert_eq!(config(Subsampling::S422).sampling_factors(), (2, 1));
    assert_eq!(config(Subsampling::S420).sampling_factors(), (2, 2));
    assert_eq!(config(Subsampling::S440).sampling_factors(), (1, 2));
    assert_eq!(config(Subsampling::Gray).sampling_factors(), (1, 1));
}

#[test]
fn rgb_and_gray_buffer_checks() {
    let c = config(Subsampling::S444);
    assert!(c.check_rgb_input(64 * 64 * 3, 64, 64).is_ok());
    assert_eq!(
        c.check_rgb_input(100, 64, 64),
        Err(Error::BufferSizeMismatch { expected: 12288, actual: 100 })
    );
    assert!(c.check_gray_input(64 * 64, 64, 64).is_ok());
    assert_eq!(
        c.check_gray_input(0, 3, 5),
        Err(Error::BufferSizeMismatch { expected: 15, actual: 0 })
    );
}

#[test]
fn zero_dimensions_are_refused() {
    let c = config(Subsampling::S420);
    assert_eq!(c.check_gray_input(0, 0, 32), Err(Error::InvalidDimensions { width: 0, height: 32 }));
    assert_eq!(c.check_rgb_input(0, 16, 0), Err(Error::InvalidDimensions { width: 16, height: 0 }));
    assert_eq!(
        c.check_planar_input(0, 0, 0, 0, 0),
        Err(Error::InvalidDimensions { width: 0, height: 0 })
    );
    let g = config(Subsampling::Gray);
    assert_eq!(
        g.check_planar_input(0, 0, 0, 0, 0),
        Err(Error::UnsupportedFeature("use encode_grayscale for grayscale images"))
    );
}

#[test]
fn planar_buffer_checks() {
    let c = config(Subsampling::S420);
    assert_eq!(c.check_planar_input(17 * 17, 81, 81, 17, 17), Ok((9, 9)));
    assert_eq!(
        c.check_planar_input(10, 81, 81, 17, 17),
        Err(Error::BufferSizeMismatch { expected: 289, actual: 10 })
    );
    assert_eq!(
        c.check_planar_input(289, 80, 81, 17, 17),
        Err(Error::BufferSizeMismatch { expected: 81, actual: 80 })
    );
    assert_eq!(
        c.check_planar_input(289, 81, 1, 17, 17),
        Err(Error::BufferSizeMismatch { expected: 81, actual: 1 })
    );
    let c = config(Subsampling::S422);
    assert_eq!(c.check_planar_input(64 * 64, 32 * 64, 32 * 64, 64, 64), Ok((32, 64)));
    let g = config(Subsampling::Gray);
    assert_eq!(
        g.check_planar_input(16, 16, 16, 4, 4),
        Err(Error::UnsupportedFeature("use encode_grayscale for grayscale images"))
    );
}

#[test]
fn planar_rows_clamp_to_last_row() {
    let (l, c) = CMozjpeg::planar_row_sources(16, 16, 20, 2, 10);
    assert_eq!(l.len(), 16);
    assert_eq!(l[0], 16);
    assert_eq!(l[3], 19);
    assert_eq!(l[4], 19);
    assert_eq!(l[15], 19);
    assert_eq!(c[0], 8);
    assert_eq!(c[1], 8);
    assert_eq!(c[2], 9);
    assert_eq!(c[15], 9);
}

#[test]
fn icc_profile_is_split_into_chunks() {
    let icc: Vec<u8> = (0..70000u32).map(|i| (i % 251) as u8).collect();
    let markers = icc_markers(&icc);
    assert_eq!(markers.len(), 2);
    assert_eq!(&markers[0][..12], b"ICC_PROFILE\0");
    assert_eq!(markers[0][12], 1);
    assert_eq!(markers[0][13], 2);
    assert_eq!(markers[0].len(), 14 + 65519);
    assert_eq!(markers[1][12], 2);
    assert_eq!(markers[1][13], 2);
    assert_eq!(markers[1].len(), 14 + 70000 - 65519);
    assert_eq!(&markers[1][14..], &icc[65519..]);
    assert!(icc_markers(&[]).is_empty());
    let one = icc_markers(&[7, 8]);
    assert_eq!(one.len(), 1);
    assert_eq!(&one[0][12..], &[1, 1, 7, 8]);
}
