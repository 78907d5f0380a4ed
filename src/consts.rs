//! Fixed data of the encoder: block geometry, zigzag order, base
//! quantization tables and the standard Huffman tables.
use vstd::prelude::*;

verus! {

/// Side of a DCT block.
pub const DCTSIZE: usize = 8;

/// Number of samples in a DCT block.
pub const DCTSIZE2: usize = 64;

/// Number of base quantization table variants.
pub const NUM_QUANT_TABLE_VARIANTS: usize = 9;

/// Natural (row-major) index of each zigzag position.
pub const JPEG_NATURAL_ORDER: [usize; 64] = [
    0, 1, 8, 16, 9, 2, 3, 10,
    17, 24, 32, 25, 18, 11, 4, 5,
    12, 19, 26, 33, 40, 48, 41, 34,
    27, 20, 13, 6, 7, 14, 21, 28,
    35, 42, 49, 56, 57, 50, 43, 36,
    29, 22, 15, 23, 30, 37, 44, 51,
    58, 59, 52, 45, 38, 31, 39, 46,
    53, 60, 61, 54, 47, 55, 62, 63,
];

/// Base luminance quantization tables, one per variant, in natural order.
pub const STD_LUMINANCE_QUANT_TBL: [[u16; 64]; 9] = [
    [
        16, 11, 10, 16, 24, 40, 51, 61,
        12, 12, 14, 19, 26, 58, 60, 55,
        14, 13, 16, 24, 40, 57, 69, 56,
        14, 17, 22, 29, 51, 87, 80, 62,
        18, 22, 37, 56, 68, 109, 103, 77,
        24, 35, 55, 64, 81, 104, 113, 92,
        49, 64, 78, 87, 103, 121, 120, 101,
        72, 92, 95, 98, 112, 100, 103, 99,
    ],
    [
        16, 16, 16, 16, 16, 16, 16, 16,
        16, 16, 16, 16, 16, 16, 16, 16,
        16, 16, 16, 16, 16, 16, 16, 16,
        16, 16, 16, 16, 16, 16, 16, 16,
        16, 16, 16, 16, 16, 16, 16, 16,
        16, 16, 16, 16, 16, 16, 16, 16,
        16, 16, 16, 16, 16, 16, 16, 16,
        16, 16, 16, 16, 16, 16, 16, 16,
    ],
    [
        12, 17, 20, 21, 30, 34, 56, 63,
        18, 20, 20, 26, 28, 51, 61, 55,
        19, 20, 21, 26, 33, 58, 69, 55,
        26, 26, 26, 30, 46, 87, 86, 66,
        31, 33, 36, 40, 46, 96, 100, 73,
        40, 35, 46, 62, 81, 100, 111, 91,
        46, 66, 76, 86, 102, 121, 120, 101,
        68, 90, 90, 96, 113, 102, 105, 103,
    ],
    [
        16, 16, 16, 18, 25, 37, 56, 85,
        16, 17, 20, 27, 34, 40, 53, 75,
        16, 20, 24, 31, 43, 62, 91, 135,
        18, 27, 31, 40, 53, 74, 106, 156,
        25, 34, 43, 53, 69, 94, 131, 189,
        37, 40, 62, 74, 94, 124, 169, 238,
        56, 53, 91, 106, 131, 169, 226, 311,
        85, 75, 135, 156, 189, 238, 311, 418,
    ],
    [
        9, 10, 12, 14, 27, 32, 51, 62,
        11, 12, 14, 19, 27, 44, 59, 73,
        12, 14, 18, 25, 42, 59, 79, 78,
        17, 18, 25, 42, 61, 92, 87, 92,
        23, 28, 42, 75, 79, 112, 112, 99,
        40, 42, 59, 84, 88, 124, 132, 111,
        42, 64, 78, 95, 105, 126, 125, 99,
        70, 75, 100, 102, 116, 100, 107, 98,
    ],
    [
        10, 12, 14, 19, 26, 38, 57, 86,
        12, 18, 21, 28, 35, 41, 54, 76,
        14, 21, 25, 32, 44, 63, 92, 136,
        19, 28, 32, 41, 54, 75, 107, 157,
        26, 35, 44, 54, 70, 95, 132, 190,
        38, 41, 63, 75, 95, 125, 170, 239,
        57, 54, 92, 107, 132, 170, 227, 312,
        86, 76, 136, 157, 190, 239, 312, 419,
    ],
    [
        7, 8, 10, 14, 23, 44, 95, 241,
        8, 8, 11, 15, 25, 47, 102, 255,
        10, 11, 13, 19, 31, 58, 127, 255,
        14, 15, 19, 27, 44, 83, 181, 255,
        23, 25, 31, 44, 72, 136, 255, 255,
        44, 47, 58, 83, 136, 255, 255, 255,
        95, 102, 127, 181, 255, 255, 255, 255,
        241, 255, 255, 255, 255, 255, 255, 255,
    ],
    [
        15, 11, 11, 12, 15, 19, 25, 32,
        11, 13, 10, 10, 12, 15, 19, 24,
        11, 10, 14, 14, 16, 18, 22, 27,
        12, 10, 14, 18, 21, 24, 28, 33,
        15, 12, 16, 21, 26, 31, 36, 42,
        19, 15, 18, 24, 31, 38, 45, 53,
        25, 19, 22, 28, 36, 45, 55, 65,
        32, 24, 27, 33, 42, 53, 65, 77,
    ],
    [
        14, 10, 11, 14, 19, 25, 34, 45,
        10, 11, 11, 12, 15, 20, 26, 33,
        11, 11, 15, 18, 21, 25, 31, 38,
        14, 12, 18, 24, 28, 33, 39, 47,
        19, 15, 21, 28, 36, 43, 51, 59,
        25, 20, 25, 33, 43, 54, 64, 74,
        34, 26, 31, 39, 51, 64, 77, 91,
        45, 33, 38, 47, 59, 74, 91, 108,
    ],
];

/// Base chrominance quantization tables, one per variant, in natural order.
pub const STD_CHROMINANCE_QUANT_TBL: [[u16; 64]; 9] = [
    [
        17, 18, 24, 47, 99, 99, 99, 99,
        18, 21, 26, 66, 99, 99, 99, 99,
        24, 26, 56, 99, 99, 99, 99, 99,
        47, 66, 99, 99, 99, 99, 99, 99,
        99, 99, 99, 99, 99, 99, 99, 99,
        99, 99, 99, 99, 99, 99, 99, 99,
        99, 99, 99, 99, 99, 99, 99, 99,
        99, 99, 99, 99, 99, 99, 99, 99,
    ],
    [
        16, 16, 16, 16, 16, 16, 16, 16,
        16, 16, 16, 16, 16, 16, 16, 16,
        16, 16, 16, 16, 16, 16, 16, 16,
        16, 16, 16, 16, 16, 16, 16, 16,
        16, 16, 16, 16, 16, 16, 16, 16,
        16, 16, 16, 16, 16, 16, 16, 16,
        16, 16, 16, 16, 16, 16, 16, 16,
        16, 16, 16, 16, 16, 16, 16, 16,
    ],
    [
        8, 12, 15, 15, 86, 96, 96, 98,
        13, 13, 15, 26, 90, 96, 99, 98,
        12, 15, 18, 96, 99, 99, 99, 99,
        17, 16, 90, 96, 99, 99, 99, 99,
        96, 96, 99, 99, 99, 99, 99, 99,
        99, 99, 99, 99, 99, 99, 99, 99,
        99, 99, 99, 99, 99, 99, 99, 99,
        99, 99, 99, 99, 99, 99, 99, 99,
    ],
    [
        16, 16, 16, 18, 25, 37, 56, 85,
        16, 17, 20, 27, 34, 40, 53, 75,
        16, 20, 24, 31, 43, 62, 91, 135,
        18, 27, 31, 40, 53, 74, 106, 156,
        25, 34, 43, 53, 69, 94, 131, 189,
        37, 40, 62, 74, 94, 124, 169, 238,
        56, 53, 91, 106, 131, 169, 226, 311,
        85, 75, 135, 156, 189, 238, 311, 418,
    ],
    [
        9, 10, 17, 19, 62, 89, 91, 97,
        12, 13, 18, 29, 84, 91, 88, 98,
        14, 19, 29, 93, 95, 95, 98, 97,
        20, 26, 84, 88, 95, 95, 98, 94,
        26, 86, 91, 93, 97, 99, 98, 99,
        99, 100, 98, 99, 99, 99, 99, 99,
        99, 99, 99, 99, 99, 99, 99, 99,
        97, 97, 99, 99, 99, 99, 97, 99,
    ],
    [
        10, 12, 14, 19, 26, 38, 57, 86,
        12, 18, 21, 28, 35, 41, 54, 76,
        14, 21, 25, 32, 44, 63, 92, 136,
        19, 28, 32, 41, 54, 75, 107, 157,
        26, 35, 44, 54, 70, 95, 132, 190,
        38, 41, 63, 75, 95, 125, 170, 239,
        57, 54, 92, 107, 132, 170, 227, 312,
        86, 76, 136, 157, 190, 239, 312, 419,
    ],
    [
        7, 8, 10, 14, 23, 44, 95, 241,
        8, 8, 11, 15, 25, 47, 102, 255,
        10, 11, 13, 19, 31, 58, 127, 255,
        14, 15, 19, 27, 44, 83, 181, 255,
        23, 25, 31, 44, 72, 136, 255, 255,
        44, 47, 58, 83, 136, 255, 255, 255,
        95, 102, 127, 181, 255, 255, 255, 255,
        241, 255, 255, 255, 255, 255, 255, 255,
    ],
    [
        15, 11, 11, 12, 15, 19, 25, 32,
        11, 13, 10, 10, 12, 15, 19, 24,
        11, 10, 14, 14, 16, 18, 22, 27,
        12, 10, 14, 18, 21, 24, 28, 33,
        15, 12, 16, 21, 26, 31, 36, 42,
        19, 15, 18, 24, 31, 38, 45, 53,
        25, 19, 22, 28, 36, 45, 55, 65,
        32, 24, 27, 33, 42, 53, 65, 77,
    ],
    [
        14, 10, 11, 14, 19, 25, 34, 45,
        10, 11, 11, 12, 15, 20, 26, 33,
        11, 11, 15, 18, 21, 25, 31, 38,
        14, 12, 18, 24, 28, 33, 39, 47,
        19, 15, 21, 28, 36, 43, 51, 59,
        25, 20, 25, 33, 43, 54, 64, 74,
        34, 26, 31, 39, 51, 64, 77, 91,
        45, 33, 38, 47, 59, 74, 91, 108,
    ],
];

/// Code counts per length (index 1..=16) of the standard luminance DC table.
pub const DC_LUMINANCE_BITS: [u8; 17] = [0, 0, 1, 5, 1, 1, 1, 1, 1, 1, 0, 0, 0, 0, 0, 0, 0];

/// Symbols of the standard luminance DC table.
pub const DC_LUMINANCE_VALUES: [u8; 12] = [0, 1, 2, 3, 4, 5, 6, 7, 8, 9, 10, 11];

/// Code counts per length (index 1..=16) of the standard chrominance DC table.
pub const DC_CHROMINANCE_BITS: [u8; 17] = [0, 0, 3, 1, 1, 1, 1, 1, 1, 1, 1, 1, 0, 0, 0, 0, 0];

/// Symbols of the standard chrominance DC table.
pub const DC_CHROMINANCE_VALUES: [u8; 12] = [0, 1, 2, 3, 4, 5, 6, 7, 8, 9, 10, 11];

/// Code counts per length (index 1..=16) of the standard luminance AC table.
pub const AC_LUMINANCE_BITS: [u8; 17] = [0, 0, 2, 1, 3, 3, 2, 4, 3, 5, 5, 4, 4, 0, 0, 1, 125];

/// Symbols of the standard luminance AC table.
pub const AC_LUMINANCE_VALUES: [u8; 162] = [
    1, 2, 3, 0, 4, 17, 5, 18, 33, 49, 65, 6,
    19, 81, 97, 7, 34, 113, 20, 50, 129, 145, 161, 8,
    35, 66, 177, 193, 21, 82, 209, 240, 36, 51, 98, 114,
    130, 9, 10, 22, 23, 24, 25, 26, 37, 38, 39, 40,
    41, 42, 52, 53, 54, 55, 56, 57, 58, 67, 68, 69,
    70, 71, 72, 73, 74, 83, 84, 85, 86, 87, 88, 89,
    90, 99, 100, 101, 102, 103, 104, 105, 106, 115, 116, 117,
    118, 119, 120, 121, 122, 131, 132, 133, 134, 135, 136, 137,
    138, 146, 147, 148, 149, 150, 151, 152, 153, 154, 162, 163,
    164, 165, 166, 167, 168, 169, 170, 178, 179, 180, 181, 182,
    183, 184, 185, 186, 194, 195, 196, 197, 198, 199, 200, 201,
    202, 210, 211, 212, 213, 214, 215, 216, 217, 218, 225, 226,
    227, 228, 229, 230, 231, 232, 233, 234, 241, 242, 243, 244,
    245, 246, 247, 248, 249, 250,
];

/// Code counts per length (index 1..=16) of the standard chrominance AC table.
pub const AC_CHROMINANCE_BITS: [u8; 17] = [0, 0, 2, 1, 2, 4, 4, 3, 4, 7, 5, 4, 4, 0, 1, 2, 119];

/// Symbols of the standard chrominance AC table.
pub const AC_CHROMINANCE_VALUES: [u8; 162] = [
    0, 1, 2, 3, 17, 4, 5, 33, 49, 6, 18, 65,
    81, 7, 97, 113, 19, 34, 50, 129, 8, 20, 66, 145,
    161, 177, 193, 9, 35, 51, 82, 240, 21, 98, 114, 209,
    10, 22, 36, 52, 225, 37, 241, 23, 24, 25, 26, 38,
    39, 40, 41, 42, 53, 54, 55, 56, 57, 58, 67, 68,
    69, 70, 71, 72, 73, 74, 83, 84, 85, 86, 87, 88,
    89, 90, 99, 100, 101, 102, 103, 104, 105, 106, 115, 116,
    117, 118, 119, 120, 121, 122, 130, 131, 132, 133, 134, 135,
    136, 137, 138, 146, 147, 148, 149, 150, 151, 152, 153, 154,
    162, 163, 164, 165, 166, 167, 168, 169, 170, 178, 179, 180,
    181, 182, 183, 184, 185, 186, 194, 195, 196, 197, 198, 199,
    200, 201, 202, 210, 211, 212, 213, 214, 215, 216, 217, 218,
    226, 227, 228, 229, 230, 231, 232, 233, 234, 242, 243, 244,
    245, 246, 247, 248, 249, 250,
];

} // verus!
