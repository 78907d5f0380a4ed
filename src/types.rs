//! Shared data types: quantization tables, configuration enums and scan
//! descriptions.
use vstd::prelude::*;

verus! {

/// Choice among the base quantization table presets.
#[derive(Clone, Copy, Debug, PartialEq, Eq, Structural)]
pub enum QuantTableIdx {
    /// JPEG Annex K.
    JpegAnnexK,
    /// All entries 16.
    Flat,
    /// Tuned for MS-SSIM.
    MssimTuned,
    /// ImageMagick's table; the default.
    ImageMagick,
    /// Tuned for PSNR-HVS-M.
    PsnrHvsM,
    /// Klein, Silverstein and Carney.
    Klein,
    /// Watson, Taylor and Borthwick (DCTune).
    Watson,
    /// Ahumada, Watson and Peterson.
    Ahumada,
    /// Peterson, Ahumada and Watson.
    Peterson,
}

impl QuantTableIdx {
    /// Position of the preset among the base tables.
    pub open spec fn spec_index(self) -> int {
        match self {
            QuantTableIdx::JpegAnnexK => 0,
            QuantTableIdx::Flat => 1,
            QuantTableIdx::MssimTuned => 2,
            QuantTableIdx::ImageMagick => 3,
            QuantTableIdx::PsnrHvsM => 4,
            QuantTableIdx::Klein => 5,
            QuantTableIdx::Watson => 6,
            QuantTableIdx::Ahumada => 7,
            QuantTableIdx::Peterson => 8,
        }
    }

    /// Position of the preset among the base tables.
    pub fn index(self) -> (r: usize)
        ensures
            r as int == self.spec_index(),
            r < 9,
    {
        match self {
            QuantTableIdx::JpegAnnexK => 0,
            QuantTableIdx::Flat => 1,
            QuantTableIdx::MssimTuned => 2,
            QuantTableIdx::ImageMagick => 3,
            QuantTableIdx::PsnrHvsM => 4,
            QuantTableIdx::Klein => 5,
            QuantTableIdx::Watson => 6,
            QuantTableIdx::Ahumada => 7,
            QuantTableIdx::Peterson => 8,
        }
    }

    /// The preset at position `v`, if there is one.
    pub fn from_u8(v: u8) -> (r: Option<QuantTableIdx>)
        ensures
            v < 9 <==> r.is_some(),
            r.is_some() ==> r.unwrap().spec_index() == v as int,
    {
        match v {
            0 => Some(QuantTableIdx::JpegAnnexK),
            1 => Some(QuantTableIdx::Flat),
            2 => Some(QuantTableIdx::MssimTuned),
            3 => Some(QuantTableIdx::ImageMagick),
            4 => Some(QuantTableIdx::PsnrHvsM),
            5 => Some(QuantTableIdx::Klein),
            6 => Some(QuantTableIdx::Watson),
            7 => Some(QuantTableIdx::Ahumada),
            8 => Some(QuantTableIdx::Peterson),
            _ => None,
        }
    }
}

/// A quantization table: 64 divisors in natural order.
#[derive(Clone, Copy, Debug)]
pub struct QuantTable {
    pub values: [u16; 64],
}

/// Chroma subsampling mode.
#[derive(Clone, Copy, Debug, PartialEq, Eq, Structural)]
pub enum Subsampling {
    /// No subsampling.
    S444,
    /// Chroma halved horizontally.
    S422,
    /// Chroma halved in both directions.
    S420,
    /// Chroma halved vertically.
    S440,
    /// Luma only.
    Gray,
}

/// Trellis quantization switches.
#[derive(Clone, Copy, Debug, PartialEq, Eq, Structural)]
pub struct TrellisConfig {
    /// Trellis search over AC coefficients.
    pub enabled: bool,
    /// Trellis search over the DC coefficient.
    pub dc_enabled: bool,
}

/// One scan of a progressive script.
#[derive(Clone, Copy, Debug)]
pub struct ScanInfo {
    /// Number of components in the scan (1..=4).
    pub comps_in_scan: u8,
    /// Component indices; the first `comps_in_scan` are used.
    pub component_index: [u8; 4],
    /// Spectral selection start.
    pub ss: u8,
    /// Spectral selection end.
    pub se: u8,
    /// Successive approximation, high bit.
    pub ah: u8,
    /// Successive approximation, low bit.
    pub al: u8,
}

impl ScanInfo {
    /// The scan respects the header-field invariants: 1..=4 components,
    /// `ss <= se <= 63`, a DC scan exactly when `ss == 0` (then `se == 0`),
    /// and bit positions below 14.
    pub open spec fn wf(&self) -> bool {
        &&& 1 <= self.comps_in_scan <= 4
        &&& self.ss <= self.se <= 63
        &&& (self.ss == 0 ==> self.se == 0)
        &&& self.al < 14
        &&& self.ah < 14
    }
}

} // verus!
