//! Configuration of the C mozjpeg encoder: the checks and derived settings
//! that precede the library calls. The calls themselves (through
//! `mozjpeg-sys`) are unsafe FFI and live outside this crate's verified part.
use vstd::prelude::*;
use vstd::string::StringExecFns;

use crate::error::Error;
use crate::types::{QuantTableIdx, Subsampling, TrellisConfig};

verus! {

/// Settings that must be applied after `jpeg_start_compress`.
#[derive(Debug, Clone, Copy, PartialEq, Eq, Structural)]
pub struct ConfigWarnings {
    /// EXIF data must be written as an APP1 marker after start.
    pub has_exif: bool,
    /// An ICC profile must be written after start.
    pub has_icc_profile: bool,
    /// Custom markers must be written after start.
    pub has_custom_markers: bool,
}

impl ConfigWarnings {
    /// No warnings.
    pub fn new() -> (r: Self)
        ensures
            !r.has_exif && !r.has_icc_profile && !r.has_custom_markers,
    {
        ConfigWarnings { has_exif: false, has_icc_profile: false, has_custom_markers: false }
    }

    /// Whether any setting needs handling after start.
    pub fn has_warnings(&self) -> (r: bool)
        ensures
            r == (self.has_exif || self.has_icc_profile || self.has_custom_markers),
    {
        self.has_exif || self.has_icc_profile || self.has_custom_markers
    }
}

/// Error configuring a C mozjpeg encoder.
#[derive(Debug, Clone, Copy, PartialEq, Eq, Structural)]
pub enum ConfigError {
    /// The quant table index is not supported by C mozjpeg.
    UnsupportedQuantTable(QuantTableIdx),
    /// Custom quant tables require manual configuration.
    CustomQuantTablesNotSupported,
    /// The subsampling mode is not supported.
    UnsupportedSubsampling(Subsampling),
}

/// Name of a quant table preset, as its `Debug` form.
pub open spec fn quant_table_name(idx: QuantTableIdx) -> &'static str {
    match idx {
        QuantTableIdx::JpegAnnexK => "JpegAnnexK",
        QuantTableIdx::Flat => "Flat",
        QuantTableIdx::MssimTuned => "MssimTuned",
        QuantTableIdx::ImageMagick => "ImageMagick",
        QuantTableIdx::PsnrHvsM => "PsnrHvsM",
        QuantTableIdx::Klein => "Klein",
        QuantTableIdx::Watson => "Watson",
        QuantTableIdx::Ahumada => "Ahumada",
        QuantTableIdx::Peterson => "Peterson",
    }
}

/// Name of a subsampling mode, as its `Debug` form.
pub open spec fn subsampling_name(s: Subsampling) -> &'static str {
    match s {
        Subsampling::S444 => "S444",
        Subsampling::S422 => "S422",
        Subsampling::S420 => "S420",
        Subsampling::S440 => "S440",
        Subsampling::Gray => "Gray",
    }
}

fn quant_table_name_exec(idx: QuantTableIdx) -> (r: &'static str)
    ensures
        r == quant_table_name(idx),
{
    match idx {
        QuantTableIdx::JpegAnnexK => "JpegAnnexK",
        QuantTableIdx::Flat => "Flat",
        QuantTableIdx::MssimTuned => "MssimTuned",
        QuantTableIdx::ImageMagick => "ImageMagick",
        QuantTableIdx::PsnrHvsM => "PsnrHvsM",
        QuantTableIdx::Klein => "Klein",
        QuantTableIdx::Watson => "Watson",
        QuantTableIdx::Ahumada => "Ahumada",
        QuantTableIdx::Peterson => "Peterson",
    }
}

fn subsampling_name_exec(s: Subsampling) -> (r: &'static str)
    ensures
        r == subsampling_name(s),
{
    match s {
        Subsampling::S444 => "S444",
        Subsampling::S422 => "S422",
        Subsampling::S420 => "S420",
        Subsampling::S440 => "S440",
        Subsampling::Gray => "Gray",
    }
}

/// The text of a configuration error.
pub open spec fn config_error_text(e: ConfigError) -> Seq<char> {
    match e {
        ConfigError::UnsupportedQuantTable(idx) => "Quant table "@ + quant_table_name(idx)@
            + " not supported by C mozjpeg"@,
        ConfigError::CustomQuantTablesNotSupported =>
            "Custom quant tables must be configured manually via jpeg_add_quant_table"@,
        ConfigError::UnsupportedSubsampling(s) => "Subsampling "@ + subsampling_name(s)@
            + " not supported"@,
    }
}

/// The feature description an encode call reports for a configuration error.
pub open spec fn config_error_feature(e: ConfigError) -> &'static str {
    match e {
        ConfigError::UnsupportedQuantTable(_) => "quant table not supported by C mozjpeg",
        ConfigError::CustomQuantTablesNotSupported => "custom quant tables not supported",
        ConfigError::UnsupportedSubsampling(_) => "subsampling mode not supported",
    }
}

impl ConfigError {
    /// Human-readable description.
    pub fn message(&self) -> (r: String)
        ensures
            r@ == config_error_text(*self),
    {
        match self {
            ConfigError::UnsupportedQuantTable(idx) => {
                let mut s = String::from_str("Quant table ");
                s.append(quant_table_name_exec(*idx));
                s.append(" not supported by C mozjpeg");
                s
            },
            ConfigError::CustomQuantTablesNotSupported => {
                String::from_str(
                    "Custom quant tables must be configured manually via jpeg_add_quant_table",
                )
            },
            ConfigError::UnsupportedSubsampling(sub) => {
                let mut s = String::from_str("Subsampling ");
                s.append(subsampling_name_exec(*sub));
                s.append(" not supported");
                s
            },
        }
    }

    /// The error an encode call returns for this configuration error.
    pub fn to_error(&self) -> (r: Error)
        ensures
            r == Error::UnsupportedFeature(config_error_feature(*self)),
    {
        Error::UnsupportedFeature(
            match self {
                ConfigError::UnsupportedQuantTable(_) => "quant table not supported by C mozjpeg",
                ConfigError::CustomQuantTablesNotSupported => "custom quant tables not supported",
                ConfigError::UnsupportedSubsampling(_) => "subsampling mode not supported",
            },
        )
    }
}

/// Luma sampling factors of a subsampling mode (1x1 for grayscale).
pub open spec fn sampling_of(s: Subsampling) -> (int, int) {
    match s {
        Subsampling::S444 => (1, 1),
        Subsampling::S422 => (2, 1),
        Subsampling::S420 => (2, 2),
        Subsampling::S440 => (1, 2),
        Subsampling::Gray => (1, 1),
    }
}

/// `ceil(a / b)` for `b > 0`.
pub open spec fn ceil_div(a: int, b: int) -> int {
    (a + b - 1) / b
}

/// Header bytes of an APP2 ICC chunk: the tag, then sequence number and count.
pub const ICC_OVERHEAD: usize = 14;

/// Profile bytes per APP2 marker.
pub const MAX_ICC_DATA_PER_MARKER: usize = 65519;

/// The `ICC_PROFILE\0` tag.
pub const ICC_TAG: [u8; 12] = [73, 67, 67, 95, 80, 82, 79, 70, 73, 76, 69, 0];

/// Number of APP2 markers for a profile of `len` bytes.
pub open spec fn icc_marker_count(len: int) -> int {
    ceil_div(len, 65519)
}

/// Payload of APP2 marker `i` (0-based) of a profile split into `n` markers.
pub open spec fn icc_marker(icc: Seq<u8>, i: int, n: int) -> Seq<u8> {
    let start = i * 65519;
    let end = if start + 65519 < icc.len() {
        start + 65519
    } else {
        icc.len() as int
    };
    ICC_TAG@ + seq![(i + 1) as u8, n as u8] + icc.subrange(start, end)
}

/// Split an ICC profile into APP2 payloads: each is `ICC_PROFILE\0`, the
/// 1-based sequence number, the marker count, then up to 65519 profile bytes.
pub fn icc_markers(icc: &[u8]) -> (r: Vec<Vec<u8>>)
    requires
        icc@.len() <= 255 * 65519,
    ensures
        r@.len() == icc_marker_count(icc@.len() as int),
        forall|i: int|
            0 <= i < r@.len() ==> (#[trigger] r@[i])@ == icc_marker(icc@, i, r@.len() as int),
{
    let len = icc.len();
    let n: usize = (len + MAX_ICC_DATA_PER_MARKER - 1) / MAX_ICC_DATA_PER_MARKER;
    let mut out: Vec<Vec<u8>> = Vec::new();
    let mut i: usize = 0;
    while i < n
        invariant
            i <= n,
            n as int == icc_marker_count(len as int),
            n <= 255,
            len == icc@.len(),
            len <= 255 * 65519,
            out@.len() == i,
            forall|j: int| 0 <= j < i ==> (#[trigger] out@[j])@ == icc_marker(icc@, j, n as int),
        decreases n - i,
    {
        proof {
            assert(i * 65519 <= 254 * 65519) by (nonlinear_arith)
                requires
                    i < n,
                    n <= 255,
            ;
        }
        let start = i * MAX_ICC_DATA_PER_MARKER;
        let end = if start + MAX_ICC_DATA_PER_MARKER < len {
            start + MAX_ICC_DATA_PER_MARKER
        } else {
            len
        };
        proof {
            assert(start <= len) by (nonlinear_arith)
                requires
                    start == i * 65519,
                    i < n,
                    n == (len + 65519 - 1) / 65519,
            ;
        }
        let mut m: Vec<u8> = Vec::new();
        let mut k: usize = 0;
        while k < ICC_OVERHEAD - 2
            invariant
                k <= 12,
                m@ == ICC_TAG@.subrange(0, k as int),
            decreases 12 - k,
        {
            m.push(ICC_TAG[k]);
            proof {
                assert(ICC_TAG@.subrange(0, k + 1) =~= ICC_TAG@.subrange(0, k as int).push(ICC_TAG@[k as int]));
            }
            k = k + 1;
        }
        m.push((i + 1) as u8);
        m.push(n as u8);
        let mut p: usize = start;
        while p < end
            invariant
                start <= p <= end <= len,
                len == icc@.len(),
                m@ == ICC_TAG@ + seq![(i + 1) as u8, n as u8] + icc@.subrange(start as int, p as int),
            decreases end - p,
        {
            m.push(icc[p]);
            proof {
                assert(icc@.subrange(start as int, p + 1) =~= icc@.subrange(start as int, p as int).push(icc@[p as int]));
                assert(ICC_TAG@ + seq![(i + 1) as u8, n as u8] + icc@.subrange(start as int, p + 1) =~= (ICC_TAG@ + seq![(i + 1) as u8, n as u8] + icc@.subrange(start as int, p as int)).push(icc@[p as int]));
            }
            p = p + 1;
        }
        proof {
            assert(ICC_TAG@.subrange(0, 12) =~= ICC_TAG@);
            assert(m@ =~= icc_marker(icc@, i as int, n as int));
        }
        out.push(m);
        i = i + 1;
    }
    out
}

/// A C mozjpeg encoder configuration.
#[derive(Debug, Clone)]
pub struct CMozjpeg {
    pub quality: u8,
    pub force_baseline: bool,
    pub subsampling: Subsampling,
    pub progressive: bool,
    pub optimize_huffman: bool,
    pub optimize_scans: bool,
    pub trellis: TrellisConfig,
    pub overshoot_deringing: bool,
    pub smoothing: u8,
    pub restart_interval: u16,
    pub quant_table_idx: QuantTableIdx,
    pub has_custom_qtables: bool,
    pub exif_data: Option<Vec<u8>>,
    pub icc_profile: Option<Vec<u8>>,
    pub custom_markers: Vec<(u8, Vec<u8>)>,
}

impl CMozjpeg {
    /// The checks of `configure_cinfo` that come before any library call:
    /// custom quant tables are refused; otherwise the settings that must be
    /// written after `jpeg_start_compress` are reported.
    pub fn check_config(&self) -> (r: core::result::Result<ConfigWarnings, ConfigError>)
        ensures
            self.has_custom_qtables ==> r == Err::<ConfigWarnings, ConfigError>(
                ConfigError::CustomQuantTablesNotSupported,
            ),
            !self.has_custom_qtables ==> r == Ok::<ConfigWarnings, ConfigError>(
                ConfigWarnings {
                    has_exif: self.exif_data.is_some(),
                    has_icc_profile: self.icc_profile.is_some(),
                    has_custom_markers: self.custom_markers@.len() > 0,
                },
            ),
    {
        if self.has_custom_qtables {
            return Err(ConfigError::CustomQuantTablesNotSupported);
        }
        let mut warnings = ConfigWarnings::new();
        if self.exif_data.is_some() {
            warnings.has_exif = true;
        }
        if self.icc_profile.is_some() {
            warnings.has_icc_profile = true;
        }
        if self.custom_markers.len() > 0 {
            warnings.has_custom_markers = true;
        }
        Ok(warnings)
    }

    /// Luma sampling factors for the configured subsampling.
    pub fn sampling_factors(&self) -> (r: (i32, i32))
        ensures
            (r.0 as int, r.1 as int) == sampling_of(self.subsampling),
    {
        match self.subsampling {
            Subsampling::S444 => (1, 1),
            Subsampling::S422 => (2, 1),
            Subsampling::S420 => (2, 2),
            Subsampling::S440 => (1, 2),
            Subsampling::Gray => (1, 1),
        }
    }

    /// Check RGB input: zero dimensions are refused, then the buffer must hold
    /// 3 bytes per pixel.
    pub fn check_rgb_input(&self, len: usize, width: u32, height: u32) -> (r: Result<(), Error>)
        requires
            width as int * height as int * 3 <= usize::MAX,
        ensures
            width == 0 || height == 0 ==> r == Err::<(), Error>(
                Error::InvalidDimensions { width, height },
            ),
            width > 0 && height > 0 ==> (r.is_ok() <==> len as int == width as int * height as int * 3),
            width > 0 && height > 0 && r.is_err() ==> r == Err::<(), Error>(
                Error::BufferSizeMismatch {
                    expected: (width as int * height as int * 3) as usize,
                    actual: len,
                },
            ),
    {
        check_len(len, width, height, 3)
    }

    /// Check grayscale input: zero dimensions are refused, then the buffer
    /// must hold 1 byte per pixel.
    pub fn check_gray_input(&self, len: usize, width: u32, height: u32) -> (r: Result<(), Error>)
        requires
            width as int * height as int <= usize::MAX,
        ensures
            width == 0 || height == 0 ==> r == Err::<(), Error>(
                Error::InvalidDimensions { width, height },
            ),
            width > 0 && height > 0 ==> (r.is_ok() <==> len as int == width as int * height as int),
            width > 0 && height > 0 && r.is_err() ==> r == Err::<(), Error>(
                Error::BufferSizeMismatch {
                    expected: (width as int * height as int) as usize,
                    actual: len,
                },
            ),
    {
        check_len(len, width, height, 1)
    }

    /// Check planar Y, Cb and Cr buffers for the configured subsampling and
    /// return the chroma plane size `(width, height)`. Grayscale is refused,
    /// then zero dimensions; then the Y plane, then Cb, then Cr are checked.
    pub fn check_planar_input(
        &self,
        y_len: usize,
        cb_len: usize,
        cr_len: usize,
        width: u32,
        height: u32,
    ) -> (r: Result<(usize, usize), Error>)
        requires
            width as int * height as int <= usize::MAX,
        ensures
            self.subsampling == Subsampling::Gray ==> r == Err::<(usize, usize), Error>(
                Error::UnsupportedFeature("use encode_grayscale for grayscale images"),
            ),
            self.subsampling != Subsampling::Gray && (width == 0 || height == 0) ==> r == Err::<
                (usize, usize),
                Error,
            >(Error::InvalidDimensions { width, height }),
            self.subsampling != Subsampling::Gray && width > 0 && height > 0 ==> {
                let (h, v) = sampling_of(self.subsampling);
                let cw = ceil_div(width as int, h);
                let ch = ceil_div(height as int, v);
                let ysize = width as int * height as int;
                &&& y_len != ysize ==> r == Err::<(usize, usize), Error>(
                    Error::BufferSizeMismatch { expected: ysize as usize, actual: y_len },
                )
                &&& y_len == ysize && cb_len != cw * ch ==> r == Err::<(usize, usize), Error>(
                    Error::BufferSizeMismatch { expected: (cw * ch) as usize, actual: cb_len },
                )
                &&& y_len == ysize && cb_len == cw * ch && cr_len != cw * ch ==> r == Err::<
                    (usize, usize),
                    Error,
                >(Error::BufferSizeMismatch { expected: (cw * ch) as usize, actual: cr_len })
                &&& y_len == ysize && cb_len == cw * ch && cr_len == cw * ch ==> r == Ok::<
                    (usize, usize),
                    Error,
                >((cw as usize, ch as usize))
            },
    {
        let (hf, vf): (usize, usize) = match self.subsampling {
            Subsampling::S444 => (1, 1),
            Subsampling::S422 => (2, 1),
            Subsampling::S420 => (2, 2),
            Subsampling::S440 => (1, 2),
            Subsampling::Gray => {
                return Err(Error::UnsupportedFeature("use encode_grayscale for grayscale images"));
            },
        };
        if width == 0 || height == 0 {
            return Err(Error::InvalidDimensions { width, height });
        }
        let y_size = (width as usize) * (height as usize);
        let chroma_width = ((width as u64 + hf as u64 - 1) / hf as u64) as usize;
        let chroma_height = ((height as u64 + vf as u64 - 1) / vf as u64) as usize;
        proof {
            assert(chroma_width * chroma_height <= y_size) by (nonlinear_arith)
                requires
                    chroma_width <= width,
                    chroma_height <= height,
                    y_size == width * height,
            ;
        }
        let chroma_size = chroma_width * chroma_height;
        if y_len != y_size {
            return Err(Error::BufferSizeMismatch { expected: y_size, actual: y_len });
        }
        if cb_len != chroma_size {
            return Err(Error::BufferSizeMismatch { expected: chroma_size, actual: cb_len });
        }
        if cr_len != chroma_size {
            return Err(Error::BufferSizeMismatch { expected: chroma_size, actual: cr_len });
        }
        Ok((chroma_width, chroma_height))
    }

    /// Source rows for one batch of raw planar data starting at image row
    /// `row`: `batch` luma rows and `batch` chroma rows, each clamped to the
    /// last row of its plane.
    pub fn planar_row_sources(
        row: usize,
        batch: usize,
        height: usize,
        v_factor: usize,
        chroma_height: usize,
    ) -> (r: (Vec<usize>, Vec<usize>))
        requires
            1 <= height,
            1 <= chroma_height,
            1 <= v_factor,
            row as int + batch as int <= usize::MAX,
        ensures
            r.0@.len() == batch,
            r.1@.len() == batch,
            forall|i: int|
                0 <= i < batch ==> #[trigger] r.0@[i] as int == if row + i < height - 1 {
                    row + i
                } else {
                    height - 1
                },
            forall|i: int|
                0 <= i < batch ==> #[trigger] r.1@[i] as int == if row as int / v_factor as int + i
                    / v_factor as int <= chroma_height - 1 {
                    row as int / v_factor as int + i / v_factor as int
                } else {
                    chroma_height - 1
                },
    {
        let mut luma: Vec<usize> = Vec::new();
        let mut chroma: Vec<usize> = Vec::new();
        let chroma_row = row / v_factor;
        let mut i: usize = 0;
        while i < batch
            invariant
                i <= batch,
                1 <= height,
                1 <= chroma_height,
                1 <= v_factor,
                chroma_row == row / v_factor,
                row as int + batch as int <= usize::MAX,
                luma@.len() == i,
                chroma@.len() == i,
                forall|j: int|
                    0 <= j < i ==> #[trigger] luma@[j] as int == if row + j < height - 1 {
                        row + j
                    } else {
                        height - 1
                    },
                forall|j: int|
                    0 <= j < i ==> #[trigger] chroma@[j] as int == if row as int / v_factor as int + j
                        / v_factor as int <= chroma_height - 1 {
                        row as int / v_factor as int + j / v_factor as int
                    } else {
                        chroma_height - 1
                    },
            decreases batch - i,
        {
            let l = if row + i < height - 1 {
                row + i
            } else {
                height - 1
            };
            luma.push(l);
            proof {
                assert(chroma_row + i / v_factor <= row + i) by (nonlinear_arith)
                    requires
                        chroma_row == row / v_factor,
                        v_factor >= 1,
                ;
            }
            let c0 = chroma_row + i / v_factor;
            let c = if c0 <= chroma_height - 1 {
                c0
            } else {
                chroma_height - 1
            };
            chroma.push(c);
            i = i + 1;
        }
        (luma, chroma)
    }
}

/// Zero dimensions are refused; then `len` is checked against
/// `width * height * bpp`.
fn check_len(len: usize, width: u32, height: u32, bpp: usize) -> (r: Result<(), Error>)
    requires
        1 <= bpp <= 3,
        width as int * height as int * bpp <= usize::MAX,
    ensures
        width == 0 || height == 0 ==> r == Err::<(), Error>(
            Error::InvalidDimensions { width, height },
        ),
        width > 0 && height > 0 ==> (r.is_ok() <==> len as int == width as int * height as int
            * bpp),
        width > 0 && height > 0 && r.is_err() ==> r == Err::<(), Error>(
            Error::BufferSizeMismatch {
                expected: (width as int * height as int * bpp) as usize,
                actual: len,
            },
        ),
{
    if width == 0 || height == 0 {
        return Err(Error::InvalidDimensions { width, height });
    }
    proof {
        assert(width as int * height as int <= width as int * height as int * bpp) by (nonlinear_arith)
            requires
                bpp >= 1,
        ;
    }
    let expected = (width as usize) * (height as usize) * bpp;
    if len != expected {
        return Err(Error::BufferSizeMismatch { expected, actual: len });
    }
    Ok(())
}

} // verus!
