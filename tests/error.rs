use mozjpeg_rs::error::{push_decimal, Error};

#[test]
fn test_error_display() {
    let errors = [
        (Error::InvalidDimensions { width: 0, height: 100 }, "Invalid image dimensions: 0x100"),
        (
            Error::BufferSizeMismatch { expected: 1000, actual: 500 },
            "Buffer size mismatch: expected 1000, got 500",
        ),
        (Error::InvalidQuality(0), "Invalid quality value: 0 (must be 1-100)"),
        (Error::InvalidQuantTableIndex(5), "Invalid quantization table index: 5"),
        (Error::InvalidComponentIndex(4), "Invalid component index: 4"),
        (Error::InvalidHuffmanTableIndex(8), "Invalid Huffman table index: 8"),
        (Error::InvalidSamplingFactor { h: 5, v: 3 }, "Invalid sampling factor: 5x3"),
        (
            Error::InvalidScanSpec { reason: "test reason" },
            "Invalid scan specification: test reason",
        ),
        (Error::InvalidHuffmanTable, "Invalid Huffman table structure"),
        (Error::HuffmanCodeLengthOverflow, "Huffman code length overflow (exceeds 16 bits)"),
        (Error::UnsupportedColorSpace, "Unsupported color space"),
        (
            Error::UnsupportedFeature("arithmetic coding"),
            "Unsupported feature: arithmetic coding",
        ),
        (Error::InternalError("test error"), "Internal encoder error: test error"),
        (Error::IoError("disk full".into()), "I/O error: disk full"),
        (Error::AllocationFailed, "Memory allocation failed"),
        (Error::Cancelled, "Encoding was cancelled"),
        (Error::TimedOut, "Encoding timed out"),
        (
            Error::DimensionLimitExceeded {
                width: 5000,
                height: 3000,
                max_width: 4096,
                max_height: 4096,
            },
            "Image dimensions 5000x3000 exceed limit 4096x4096",
        ),
        (
            Error::AllocationLimitExceeded { estimated: 100_000_000, limit: 50_000_000 },
            "Estimated memory 100000000 bytes exceeds limit 50000000 bytes",
        ),
    ];

    for (error, expected_msg) in errors {
        assert_eq!(error.message(), expected_msg);
    }
}

#[test]
fn remaining_error_messages() {
    assert_eq!(
        Error::PixelCountExceeded { pixel_count: 18446744073709551615, limit: 10 }.message(),
        "Pixel count 18446744073709551615 exceeds limit 10"
    );
    assert_eq!(
        Error::IccProfileTooLarge { size: 70000, limit: 65536 }.message(),
        "ICC profile size 70000 bytes exceeds limit 65536 bytes"
    );
}

#[test]
fn test_error_is_error_trait() {
    let error = Error::InvalidQuality(0);
    let _ = error.message();
}

#[test]
fn test_from_io_error() {
    let io_error = std::io::Error::new(std::io::ErrorKind::NotFound, "file not found");
    let error: Error = io_error.into();
    assert!(matches!(error, Error::IoError(_)));
    assert!(error.message().contains("file not found"));
}

#[test]
fn test_error_clone_and_eq() {
    let error1 = Error::InvalidQuality(50);
    let error2 = error1.clone();
    assert_eq!(error1, error2);

    let error3 = Error::InvalidQuality(60);
    assert_ne!(error1, error3);
}

#[test]
fn decimal_formatting() {
    let mut s = String::from("n=");
    push_decimal(&mut s, 0);
    assert_eq!(s, "n=0");
    let mut s = String::new();
    push_decimal(&mut s, 1234567890);
    assert_eq!(s, "1234567890");
    let mut s = String::new();
    push_decimal(&mut s, 10);
    assert_eq!(s, "10");
}
