//! The pixel-buffer data model: flat RGBA8 byte buffers with their
//! geometry, the colors fed to the allocator, and the index arithmetic
//! that ties a pixel coordinate to its place in the flat buffer.

use vstd::arithmetic::div_mod::{
    lemma_fundamental_div_mod, lemma_fundamental_div_mod_converse,
    lemma_mod_division_less_than_divisor,
};
use vstd::prelude::*;

verus! {

/// The alpha value written into every pixel of a freshly allocated
/// canvas. A deliberate policy of the allocator: new canvases are
/// semi-transparent, not opaque.
pub const CANVAS_ALPHA: u8 = 100;

/// An RGB color: three 8-bit channels. Used only as input to the canvas
/// allocator, which supplies the alpha channel itself.
#[derive(Clone, Copy, Debug, PartialEq, Eq, Structural)]
pub struct Rgb {
    pub r: u8,
    pub g: u8,
    pub b: u8,
}

/// The failure the canvas allocator reports when the requested
/// dimensions cannot produce a valid buffer: `width * height * 4`
/// overflows the platform's addressable length.
#[derive(Clone, Copy, Debug, PartialEq, Eq, Structural)]
pub struct AllocationError;

/// A flat RGBA8 bitmap: `raw_pixels` holds exactly
/// `width * height * 4` bytes, row-major from the top-left pixel,
/// channel order red, green, blue, alpha.
#[derive(Clone, Debug)]
pub struct PhotonImage {
    pub raw_pixels: Vec<u8>,
    pub width: u32,
    pub height: u32,
}

impl PhotonImage {
    /// The buffer-length invariant: the geometry fields describe the
    /// byte buffer exactly.
    pub open spec fn wf(self) -> bool {
        self.raw_pixels@.len() == self.width * self.height * 4
    }

    /// Byte offset of channel `c` of the pixel at column `x`, row `y`.
    pub open spec fn index_of(self, x: int, y: int, c: int) -> int {
        (y * self.width + x) * 4 + c
    }

    /// Channel `c` (0 red, 1 green, 2 blue, 3 alpha) of the pixel at
    /// column `x`, row `y`.
    pub open spec fn channel(self, x: int, y: int, c: int) -> u8 {
        self.raw_pixels@[self.index_of(x, y, c)]
    }
}

/// The byte a solid canvas of color `color` holds at offset `i`:
/// the red, green and blue channels repeat every four bytes, and the
/// fourth byte of each pixel is the fixed canvas alpha.
pub open spec fn solid_byte(color: Rgb, i: int) -> u8 {
    if i % 4 == 0 {
        color.r
    } else if i % 4 == 1 {
        color.g
    } else if i % 4 == 2 {
        color.b
    } else {
        CANVAS_ALPHA
    }
}

/// Every pixel of the buffer carries alpha 255.
pub open spec fn fully_opaque(bytes: Seq<u8>) -> bool {
    forall|i: int| 0 <= i < bytes.len() && i % 4 == 3 ==> bytes[i] == 255
}

/// A multiple of four plus a channel offset decomposes back into its
/// two parts.
pub proof fn lemma_mod4(p: int, c: int)
    requires
        0 <= p,
        0 <= c < 4,
    ensures
        (4 * p + c) % 4 == c,
        (4 * p + c) / 4 == p,
{
    lemma_fundamental_div_mod_converse(4 * p + c, 4, p, c);
}

/// How a pixel coordinate addresses the flat buffer: the byte offset of
/// channel `c` of pixel `(x, y)` lies inside a `w * h * 4`-byte buffer,
/// and dividing that offset back out recovers `x`, `y` and `c`.
pub proof fn lemma_pixel_index(w: int, h: int, x: int, y: int, c: int)
    requires
        0 <= x < w,
        0 <= y < h,
        0 <= c < 4,
    ensures
        0 <= (y * w + x) * 4 + c < w * h * 4,
        ((y * w + x) * 4 + c) % 4 == c,
        ((y * w + x) * 4 + c) / 4 == y * w + x,
        (y * w + x) % w == x,
        (y * w + x) / w == y,
{
    assert(0 <= y * w + x && y * w + x < w * h) by (nonlinear_arith)
        requires
            0 <= x < w,
            0 <= y < h,
    ;
    assert((y * w + x) * 4 + c == 4 * (y * w + x) + c) by (nonlinear_arith);
    lemma_mod4(y * w + x, c);
    lemma_fundamental_div_mod_converse(y * w + x, w, y, x);
    assert((y * w + x) * 4 + c < w * h * 4) by (nonlinear_arith)
        requires
            y * w + x < w * h,
            c < 4,
    ;
}

/// Every byte offset of a `w * h * 4`-byte buffer decomposes into a
/// pixel coordinate and a channel: the quotient by four splits by `w`
/// into a row below `h` and a column below `w`.
pub proof fn lemma_byte_index(w: int, h: int, i: int)
    requires
        0 < w,
        0 <= i < w * h * 4,
    ensures
        0 <= (i / 4) % w < w,
        0 <= (i / 4) / w < h,
        ((i / 4) / w) * w + (i / 4) % w == i / 4,
        ((i / 4) / w * w + (i / 4) % w) * 4 + i % 4 == i,
        0 <= i % 4 < 4,
{
    let p = i / 4;
    lemma_fundamental_div_mod(i, 4);
    lemma_mod_division_less_than_divisor(i, 4);
    assert(0 <= p) by (nonlinear_arith)
        requires
            0 <= i,
            p == i / 4,
            i == 4 * p + i % 4,
            0 <= i % 4 < 4,
    ;
    assert(p < w * h) by (nonlinear_arith)
        requires
            i < w * h * 4,
            i == 4 * p + i % 4,
            0 <= i % 4 < 4,
    ;
    lemma_fundamental_div_mod(p, w);
    lemma_mod_division_less_than_divisor(p, w);
    assert((p / w) * w == w * (p / w)) by (nonlinear_arith);
    assert(p * 4 == 4 * p) by (nonlinear_arith);
    assert(p / w < h) by (nonlinear_arith)
        requires
            0 < w,
            0 <= p < w * h,
            p == w * (p / w) + p % w,
            0 <= p % w < w,
    ;
    assert(0 <= p / w) by (nonlinear_arith)
        requires
            0 < w,
            0 <= p,
            p == w * (p / w) + p % w,
            0 <= p % w < w,
    ;
}

} // verus!
