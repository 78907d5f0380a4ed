//! A JPEG encoder core in the style of mozjpeg: forward DCT, quantization
//! tables, Huffman tables, baseline and progressive entropy coding, scan
//! trial encoding and candidate scan scripts, each with its contract.
pub mod bitstream;
pub mod compat;
pub mod consts;
pub mod dct;
pub mod deringing;
pub mod entropy;
pub mod error;
pub mod huffman;
pub mod pixels;
pub mod progressive;
pub mod quant;
pub mod scan_plan;
pub mod scan_trial;
pub mod types;
