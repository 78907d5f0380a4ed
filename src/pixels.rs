//! Expansion of decoded image rows to packed RGB.
use vstd::prelude::*;

verus! {

/// Sample layout of decoded pixel data.
#[derive(Clone, Copy, Debug, PartialEq, Eq, Structural)]
pub enum PixelLayout {
    /// Red, green, blue.
    Rgb,
    /// Red, green, blue, alpha.
    Rgba,
    /// One gray sample.
    Grayscale,
    /// Gray, then alpha.
    GrayscaleAlpha,
    /// A layout that cannot be expanded (indexed color).
    Other,
}

/// Bytes per pixel of a layout (0 for `Other`).
pub open spec fn bytes_per_pixel(layout: PixelLayout) -> int {
    match layout {
        PixelLayout::Rgb => 3,
        PixelLayout::Rgba => 4,
        PixelLayout::Grayscale => 1,
        PixelLayout::GrayscaleAlpha => 2,
        PixelLayout::Other => 0,
    }
}

/// Channel `c` (0..3) of RGB pixel `p`, taken from pixel `p` of the input:
/// color channels are copied, gray is repeated, alpha is dropped.
pub open spec fn rgb_sample(bytes: Seq<u8>, layout: PixelLayout, p: int, c: int) -> u8 {
    let n = bytes_per_pixel(layout);
    if layout == PixelLayout::Rgb || layout == PixelLayout::Rgba {
        bytes[n * p + c]
    } else {
        bytes[n * p]
    }
}

/// Expand decoded pixels to packed RGB. Returns `None` for `Other`; a
/// trailing partial pixel is ignored.
pub fn expand_to_rgb(bytes: &[u8], layout: PixelLayout) -> (r: Option<Vec<u8>>)
    ensures
        r.is_none() <==> layout == PixelLayout::Other,
        r.is_some() ==> r.unwrap()@.len() == 3 * (bytes@.len() as int / bytes_per_pixel(layout)),
        r.is_some() ==> forall|p: int, c: int|
            0 <= p < bytes@.len() as int / bytes_per_pixel(layout) && 0 <= c < 3 ==> r.unwrap()@[3 * p + c]
                == rgb_sample(bytes@, layout, p, c),
{
    let n: usize = match layout {
        PixelLayout::Rgb => 3,
        PixelLayout::Rgba => 4,
        PixelLayout::Grayscale => 1,
        PixelLayout::GrayscaleAlpha => 2,
        PixelLayout::Other => {
            return None;
        },
    };
    let color = n >= 3;
    let total = bytes.len();
    let count = total / n;
    let mut out: Vec<u8> = Vec::new();
    let mut p: usize = 0;
    while p < count
        invariant
            p <= count,
            n as int == bytes_per_pixel(layout),
            1 <= n <= 4,
            color == (layout == PixelLayout::Rgb || layout == PixelLayout::Rgba),
            count == bytes@.len() as int / (n as int),
            total == bytes@.len(),
            out@.len() == 3 * p,
            forall|q: int, c: int|
                0 <= q < p && 0 <= c < 3 ==> out@[3 * q + c] == rgb_sample(bytes@, layout, q, c),
        decreases count - p,
    {
        proof {
            assert(n * p + n <= n * count) by (nonlinear_arith)
                requires
                    p < count,
                    n >= 1,
            ;
            assert(n * count <= bytes@.len()) by (nonlinear_arith)
                requires
                    count == bytes@.len() as int / (n as int),
                    n >= 1,
            ;
            assert(n * p + n <= total);
        }
        let base = n * p;
        if color {
            out.push(bytes[base]);
            out.push(bytes[base + 1]);
            out.push(bytes[base + 2]);
        } else {
            out.push(bytes[base]);
            out.push(bytes[base]);
            out.push(bytes[base]);
        }
        proof {
            assert forall|q: int, c: int| 0 <= q < p + 1 && 0 <= c < 3 implies out@[3 * q + c]
                == rgb_sample(bytes@, layout, q, c) by {
                if q == p {
                    assert(3 * q + c == 3 * p + c);
                }
            }
        }
        p = p + 1;
    }
    Some(out)
}

} // verus!
