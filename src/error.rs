//! Error kinds of the encoder.
use vstd::prelude::*;
use vstd::string::StringExecFns;

verus! {

/// Error type for encoder operations.
#[derive(Debug, Clone, PartialEq, Eq)]
#[non_exhaustive]
pub enum Error {
    /// Invalid image dimensions (zero width or height).
    InvalidDimensions { width: u32, height: u32 },
    /// Image buffer size does not match the dimensions.
    BufferSizeMismatch { expected: usize, actual: usize },
    /// Invalid quality value (must be 1-100).
    InvalidQuality(u8),
    /// Invalid quantization table index.
    InvalidQuantTableIndex(usize),
    /// Invalid component index.
    InvalidComponentIndex(usize),
    /// Invalid Huffman table index.
    InvalidHuffmanTableIndex(usize),
    /// Invalid sampling factor.
    InvalidSamplingFactor { h: u8, v: u8 },
    /// Invalid scan specification.
    InvalidScanSpec { reason: &'static str },
    /// Invalid Huffman table structure.
    InvalidHuffmanTable,
    /// Huffman code length overflow (more than 16 bits).
    HuffmanCodeLengthOverflow,
    /// Unsupported color space.
    UnsupportedColorSpace,
    /// Unsupported feature.
    UnsupportedFeature(&'static str),
    /// Internal encoder error.
    InternalError(&'static str),
    /// I/O error.
    IoError(String),
    /// Memory allocation failed.
    AllocationFailed,
    /// Encoding was cancelled by the caller.
    Cancelled,
    /// Encoding exceeded its time limit.
    TimedOut,
    /// Image dimensions exceed the configured maximum.
    DimensionLimitExceeded { width: u32, height: u32, max_width: u32, max_height: u32 },
    /// Estimated memory use exceeds the configured limit.
    AllocationLimitExceeded { estimated: usize, limit: usize },
    /// Pixel count (width x height) exceeds the configured limit.
    PixelCountExceeded { pixel_count: u64, limit: u64 },
    /// ICC profile size exceeds the configured limit.
    IccProfileTooLarge { size: usize, limit: usize },
}

/// Result type of encoder operations.
pub type Result<T> = core::result::Result<T, Error>;

/// The decimal digit `d` (0..=9) as text.
pub open spec fn digit_str(d: int) -> &'static str {
    if d == 0 {
        "0"
    } else if d == 1 {
        "1"
    } else if d == 2 {
        "2"
    } else if d == 3 {
        "3"
    } else if d == 4 {
        "4"
    } else if d == 5 {
        "5"
    } else if d == 6 {
        "6"
    } else if d == 7 {
        "7"
    } else if d == 8 {
        "8"
    } else {
        "9"
    }
}

/// Decimal notation of `n`, without leading zeros.
pub open spec fn decimal(n: nat) -> Seq<char>
    decreases n,
{
    if n < 10 {
        digit_str(n as int)@
    } else {
        decimal(n / 10) + digit_str((n % 10) as int)@
    }
}

fn digit_str_exec(d: u64) -> (r: &'static str)
    requires
        d < 10,
    ensures
        r == digit_str(d as int),
{
    if d == 0 {
        "0"
    } else if d == 1 {
        "1"
    } else if d == 2 {
        "2"
    } else if d == 3 {
        "3"
    } else if d == 4 {
        "4"
    } else if d == 5 {
        "5"
    } else if d == 6 {
        "6"
    } else if d == 7 {
        "7"
    } else if d == 8 {
        "8"
    } else {
        "9"
    }
}

/// Append the decimal notation of `n`.
pub fn push_decimal(s: &mut String, n: u64)
    ensures
        final(s)@ == old(s)@ + decimal(n as nat),
    decreases n,
{
    if n >= 10 {
        push_decimal(s, n / 10);
        s.append(digit_str_exec(n % 10));
        assert(final(s)@ =~= old(s)@ + decimal(n as nat)) by {
            assert(old(s)@ + decimal((n / 10) as nat) + digit_str((n % 10) as int)@ =~= old(s)@ + (
            decimal((n / 10) as nat) + digit_str((n % 10) as int)@));
        }
    } else {
        s.append(digit_str_exec(n));
    }
}

/// The text of an error.
pub open spec fn error_text(e: Error) -> Seq<char> {
    match e {
        Error::InvalidDimensions { width, height } => "Invalid image dimensions: "@ + decimal(
            width as nat,
        ) + "x"@ + decimal(height as nat),
        Error::BufferSizeMismatch { expected, actual } => "Buffer size mismatch: expected "@
            + decimal(expected as nat) + ", got "@ + decimal(actual as nat),
        Error::InvalidQuality(q) => "Invalid quality value: "@ + decimal(q as nat)
            + " (must be 1-100)"@,
        Error::InvalidQuantTableIndex(i) => "Invalid quantization table index: "@ + decimal(
            i as nat,
        ),
        Error::InvalidComponentIndex(i) => "Invalid component index: "@ + decimal(i as nat),
        Error::InvalidHuffmanTableIndex(i) => "Invalid Huffman table index: "@ + decimal(i as nat),
        Error::InvalidSamplingFactor { h, v } => "Invalid sampling factor: "@ + decimal(h as nat)
            + "x"@ + decimal(v as nat),
        Error::InvalidScanSpec { reason } => "Invalid scan specification: "@ + reason@,
        Error::InvalidHuffmanTable => "Invalid Huffman table structure"@,
        Error::HuffmanCodeLengthOverflow => "Huffman code length overflow (exceeds 16 bits)"@,
        Error::UnsupportedColorSpace => "Unsupported color space"@,
        Error::UnsupportedFeature(f) => "Unsupported feature: "@ + f@,
        Error::InternalError(m) => "Internal encoder error: "@ + m@,
        Error::IoError(m) => "I/O error: "@ + m@,
        Error::AllocationFailed => "Memory allocation failed"@,
        Error::Cancelled => "Encoding was cancelled"@,
        Error::TimedOut => "Encoding timed out"@,
        Error::DimensionLimitExceeded { width, height, max_width, max_height } =>
            "Image dimensions "@ + decimal(width as nat) + "x"@ + decimal(height as nat)
            + " exceed limit "@ + decimal(max_width as nat) + "x"@ + decimal(max_height as nat),
        Error::AllocationLimitExceeded { estimated, limit } => "Estimated memory "@ + decimal(
            estimated as nat,
        ) + " bytes exceeds limit "@ + decimal(limit as nat) + " bytes"@,
        Error::PixelCountExceeded { pixel_count, limit } => "Pixel count "@ + decimal(
            pixel_count as nat,
        ) + " exceeds limit "@ + decimal(limit as nat),
        Error::IccProfileTooLarge { size, limit } => "ICC profile size "@ + decimal(size as nat)
            + " bytes exceeds limit "@ + decimal(limit as nat) + " bytes"@,
    }
}

impl Error {
    /// Human-readable description of the error.
    pub fn message(&self) -> (r: String)
        ensures
            r@ == error_text(*self),
    {
        let mut s = String::new();
        match self {
            Error::InvalidDimensions { width, height } => {
                s.append("Invalid image dimensions: ");
                push_decimal(&mut s, *width as u64);
                s.append("x");
                push_decimal(&mut s, *height as u64);
            },
            Error::BufferSizeMismatch { expected, actual } => {
                s.append("Buffer size mismatch: expected ");
                push_decimal(&mut s, *expected as u64);
                s.append(", got ");
                push_decimal(&mut s, *actual as u64);
            },
            Error::InvalidQuality(q) => {
                s.append("Invalid quality value: ");
                push_decimal(&mut s, *q as u64);
                s.append(" (must be 1-100)");
            },
            Error::InvalidQuantTableIndex(i) => {
                s.append("Invalid quantization table index: ");
                push_decimal(&mut s, *i as u64);
            },
            Error::InvalidComponentIndex(i) => {
                s.append("Invalid component index: ");
                push_decimal(&mut s, *i as u64);
            },
            Error::InvalidHuffmanTableIndex(i) => {
                s.append("Invalid Huffman table index: ");
                push_decimal(&mut s, *i as u64);
            },
            Error::InvalidSamplingFactor { h, v } => {
                s.append("Invalid sampling factor: ");
                push_decimal(&mut s, *h as u64);
                s.append("x");
                push_decimal(&mut s, *v as u64);
            },
            Error::InvalidScanSpec { reason } => {
                s.append("Invalid scan specification: ");
                s.append(reason);
            },
            Error::InvalidHuffmanTable => {
                s.append("Invalid Huffman table structure");
            },
            Error::HuffmanCodeLengthOverflow => {
                s.append("Huffman code length overflow (exceeds 16 bits)");
            },
            Error::UnsupportedColorSpace => {
                s.append("Unsupported color space");
            },
            Error::UnsupportedFeature(f) => {
                s.append("Unsupported feature: ");
                s.append(f);
            },
            Error::InternalError(m) => {
                s.append("Internal encoder error: ");
                s.append(m);
            },
            Error::IoError(m) => {
                s.append("I/O error: ");
                s.append(m.as_str());
            },
            Error::AllocationFailed => {
                s.append("Memory allocation failed");
            },
            Error::Cancelled => {
                s.append("Encoding was cancelled");
            },
            Error::TimedOut => {
                s.append("Encoding timed out");
            },
            Error::DimensionLimitExceeded { width, height, max_width, max_height } => {
                s.append("Image dimensions ");
                push_decimal(&mut s, *width as u64);
                s.append("x");
                push_decimal(&mut s, *height as u64);
                s.append(" exceed limit ");
                push_decimal(&mut s, *max_width as u64);
                s.append("x");
                push_decimal(&mut s, *max_height as u64);
            },
            Error::AllocationLimitExceeded { estimated, limit } => {
                s.append("Estimated memory ");
                push_decimal(&mut s, *estimated as u64);
                s.append(" bytes exceeds limit ");
                push_decimal(&mut s, *limit as u64);
                s.append(" bytes");
            },
            Error::PixelCountExceeded { pixel_count, limit } => {
                s.append("Pixel count ");
                push_decimal(&mut s, *pixel_count);
                s.append(" exceeds limit ");
                push_decimal(&mut s, *limit);
            },
            Error::IccProfileTooLarge { size, limit } => {
                s.append("ICC profile size ");
                push_decimal(&mut s, *size as u64);
                s.append(" bytes exceeds limit ");
                push_decimal(&mut s, *limit as u64);
                s.append(" bytes");
            },
        }
        proof {
            assert(Seq::<char>::empty() + error_text(*self) =~= error_text(*self));
        }
        s
    }
}

#[verifier::external_type_specification]
#[verifier::external_body]
pub struct ExIoError(std::io::Error);

/// Relies on `std::io::Error`'s `Display` (through `to_string`) for the
/// error's text; nothing is assumed of that text.
#[verifier::external_body]
fn io_error_text(e: &std::io::Error) -> (r: String) {
    e.to_string()
}

impl From<std::io::Error> for Error {
    /// An I/O error, carrying the text of `e`.
    fn from(e: std::io::Error) -> (r: Error)
        ensures
            r is IoError,
    {
        Error::IoError(io_error_text(&e))
    }
}

impl vstd::std_specs::convert::FromSpecImpl<std::io::Error> for Error {
    open spec fn obeys_from_spec() -> bool {
        false
    }

    open spec fn from_spec(v: std::io::Error) -> Self {
        arbitrary()
    }
}

} // verus!
