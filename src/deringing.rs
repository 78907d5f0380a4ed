//! Overshoot deringing: saturated samples next to an edge are pushed above
//! the representable maximum before the DCT, so that quantization rounds them
//! back toward white instead of ringing below it.
use vstd::prelude::*;

use crate::dct::block_ints;

verus! {

/// Level-shifted value of a saturated (255) sample.
pub const MAX_SHIFTED: i16 = 127;

/// Level-shifted value at or below which a neighbour counts as an edge (245).
pub const EDGE_SHIFTED: i16 = 117;

/// Whether position `i` of a block has a 4-neighbour at or below the edge
/// threshold.
pub open spec fn has_dark_neighbour(s: Seq<int>, i: int) -> bool {
    let r = i / 8;
    let c = i % 8;
    ||| (c > 0 && s[i - 1] <= 117)
    ||| (c < 7 && s[i + 1] <= 117)
    ||| (r > 0 && s[i - 8] <= 117)
    ||| (r < 7 && s[i + 8] <= 117)
}

/// Overshoot amount: the DC quantizer, at most 255.
pub open spec fn overshoot(dc_quant: int) -> int {
    if dc_quant < 255 {
        dc_quant
    } else {
        255
    }
}

/// A block after deringing: each saturated sample with a dark 4-neighbour
/// (judged on the input) is raised by the overshoot amount.
pub open spec fn dering_spec(s: Seq<int>, dc_quant: int) -> Seq<int> {
    Seq::new(
        64,
        |i: int|
            if s[i] == 127 && has_dark_neighbour(s, i) {
                s[i] + overshoot(dc_quant)
            } else {
                s[i]
            },
    )
}

/// Apply overshoot deringing to a level-shifted block in place.
pub fn preprocess_deringing(data: &mut [i16; 64], dc_quant: u16)
    ensures
        block_ints(*final(data)) == dering_spec(block_ints(*old(data)), dc_quant as int),
{
    let src: [i16; 64] = *data;
    let amount: i16 = if dc_quant < 255 {
        dc_quant as i16
    } else {
        255
    };
    let ghost s = block_ints(src);
    let mut i: usize = 0;
    while i < 64
        invariant
            i <= 64,
            s == block_ints(src),
            amount as int == overshoot(dc_quant as int),
            forall|j: int| 0 <= j < i ==> data[j] as int == dering_spec(s, dc_quant as int)[j],
            forall|j: int| i <= j < 64 ==> data[j] == src[j],
        decreases 64 - i,
    {
        let v = src[i];
        if v == MAX_SHIFTED {
            let r = i / 8;
            let c = i % 8;
            let dark = (c > 0 && src[i - 1] <= EDGE_SHIFTED) || (c < 7 && src[i + 1] <= EDGE_SHIFTED)
                || (r > 0 && src[i - 8] <= EDGE_SHIFTED) || (r < 7 && src[i + 8] <= EDGE_SHIFTED);
            if dark {
                data[i] = v + amount;
            }
        }
        i = i + 1;
    }
    assert(block_ints(*data) =~= dering_spec(block_ints(src), dc_quant as int));
}

} // verus!
