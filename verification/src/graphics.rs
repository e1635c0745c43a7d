//! The canvas allocator and the compositor.
//!
//! `create_image` builds a solid-color canvas; `draw_photonimage`
//! composites a source bitmap onto a destination bitmap at a pixel
//! offset, replacing each covered destination pixel's four channels
//! with the source pixel's channels. Source pixels that would land
//! outside the destination are silently skipped.

use crate::pixel_buffer::{
    fully_opaque, lemma_byte_index, lemma_mod4, lemma_pixel_index, solid_byte, AllocationError,
    PhotonImage, Rgb, CANVAS_ALPHA,
};
use vstd::arithmetic::div_mod::{
    lemma_fundamental_div_mod, lemma_fundamental_div_mod_converse,
    lemma_mod_division_less_than_divisor,
};
use vstd::arithmetic::mul::lemma_mul_upper_bound;
use vstd::prelude::*;

verus! {

/// Whether destination column `x`, row `y` receives a source pixel when
/// a `src_w` by `src_h` source is placed with its top-left corner at
/// `(x_offset, y_offset)` in destination space.
pub open spec fn covered(
    src_w: int,
    src_h: int,
    x_offset: int,
    y_offset: int,
    x: int,
    y: int,
) -> bool {
    &&& x_offset <= x < x_offset + src_w
    &&& y_offset <= y < y_offset + src_h
}

/// The byte at offset `i` of a `dst_w`-pixel-wide destination buffer
/// after the overlay: a covered destination pixel takes the matching
/// source pixel's channel, every other byte keeps the destination's
/// value.
pub open spec fn overlay_byte(
    dst: Seq<u8>,
    dst_w: int,
    src: Seq<u8>,
    src_w: int,
    src_h: int,
    x_offset: int,
    y_offset: int,
    i: int,
) -> u8 {
    let x = (i / 4) % dst_w;
    let y = (i / 4) / dst_w;
    if covered(src_w, src_h, x_offset, y_offset, x, y) {
        src[((y - y_offset) * src_w + (x - x_offset)) * 4 + i % 4]
    } else {
        dst[i]
    }
}

/// The whole destination buffer after the overlay. Its length is the
/// destination's: compositing never resizes the destination.
pub open spec fn overlay_bytes(
    dst: Seq<u8>,
    dst_w: int,
    src: Seq<u8>,
    src_w: int,
    src_h: int,
    x_offset: int,
    y_offset: int,
) -> Seq<u8> {
    Seq::new(dst.len(), |i: int| overlay_byte(dst, dst_w, src, src_w, src_h, x_offset, y_offset, i))
}

/// The byte at offset `i` mid-composition: source rows before `sy` are
/// drawn in full, and row `sy` is drawn for source columns before `sx`.
spec fn partial_overlay_byte(
    dst: Seq<u8>,
    dst_w: int,
    src: Seq<u8>,
    src_w: int,
    src_h: int,
    x_offset: int,
    y_offset: int,
    sy: int,
    sx: int,
    i: int,
) -> u8 {
    let x = (i / 4) % dst_w;
    let y = (i / 4) / dst_w;
    if covered(src_w, src_h, x_offset, y_offset, x, y) && (y - y_offset < sy || (y - y_offset == sy
        && x - x_offset < sx)) {
        src[((y - y_offset) * src_w + (x - x_offset)) * 4 + i % 4]
    } else {
        dst[i]
    }
}

/// Allocates a `width` by `height` canvas whose every pixel holds the
/// requested red, green and blue channels and the fixed canvas alpha.
///
/// Fails with an `AllocationError` exactly when `width * height * 4`
/// bytes cannot be addressed on this platform. Zero-area canvases are
/// permitted and yield an empty buffer.
pub fn create_image(width: u32, height: u32, background_color: Rgb) -> (result: Result<
    PhotonImage,
    AllocationError,
>)
    ensures
        match result {
            Ok(img) => {
                &&& width * height * 4 <= usize::MAX
                &&& img.width == width
                &&& img.height == height
                &&& img.wf()
                &&& forall|i: int|
                    0 <= i < img.raw_pixels@.len() ==> #[trigger] img.raw_pixels@[i] == solid_byte(
                        background_color,
                        i,
                    )
                &&& forall|x: int, y: int|
                    0 <= x < width && 0 <= y < height ==> {
                        &&& img.channel(x, y, 0) == background_color.r
                        &&& img.channel(x, y, 1) == background_color.g
                        &&& img.channel(x, y, 2) == background_color.b
                        &&& img.channel(x, y, 3) == CANVAS_ALPHA
                    }
            },
            Err(_) => width * height * 4 > usize::MAX,
        },
{
    proof {
        lemma_mul_upper_bound(width as int, u32::MAX as int, height as int, u32::MAX as int);
    }
    let area: u64 = (width as u64) * (height as u64);
    if area > (usize::MAX as u64) / 4 {
        proof {
            lemma_fundamental_div_mod(usize::MAX as int, 4);
            lemma_mod_division_less_than_divisor(usize::MAX as int, 4);
        }
        return Err(AllocationError);
    }
    proof {
        lemma_fundamental_div_mod(usize::MAX as int, 4);
        lemma_mod_division_less_than_divisor(usize::MAX as int, 4);
        assert(4 * area <= usize::MAX);
    }
    let count: usize = area as usize;
    let mut raw_pixels: Vec<u8> = Vec::new();
    let mut p: usize = 0;
    while p < count
        invariant
            p <= count,
            4 * count <= usize::MAX,
            raw_pixels@.len() == 4 * p,
            forall|i: int|
                0 <= i < raw_pixels@.len() ==> raw_pixels@[i] == solid_byte(background_color, i),
        decreases count - p,
    {
        proof {
            lemma_mod4(p as int, 0);
            lemma_mod4(p as int, 1);
            lemma_mod4(p as int, 2);
            lemma_mod4(p as int, 3);
        }
        raw_pixels.push(background_color.r);
        raw_pixels.push(background_color.g);
        raw_pixels.push(background_color.b);
        raw_pixels.push(CANVAS_ALPHA);
        p = p + 1;
    }
    let img = PhotonImage { raw_pixels, width, height };
    proof {
        assert forall|x: int, y: int| 0 <= x < width && 0 <= y < height implies {
            &&& img.channel(x, y, 0) == background_color.r
            &&& img.channel(x, y, 1) == background_color.g
            &&& img.channel(x, y, 2) == background_color.b
            &&& img.channel(x, y, 3) == CANVAS_ALPHA
        } by {
            lemma_pixel_index(width as int, height as int, x, y, 0);
            lemma_pixel_index(width as int, height as int, x, y, 1);
            lemma_pixel_index(width as int, height as int, x, y, 2);
            lemma_pixel_index(width as int, height as int, x, y, 3);
            let base: int = (y * width + x) * 4;
            assert(img.raw_pixels@[base + 0] == solid_byte(background_color, base + 0));
            assert(img.raw_pixels@[base + 1] == solid_byte(background_color, base + 1));
            assert(img.raw_pixels@[base + 2] == solid_byte(background_color, base + 2));
            assert(img.raw_pixels@[base + 3] == solid_byte(background_color, base + 3));
        }
    }
    Ok(img)
}

/// Draws `photon_img` onto `container_img` with its top-left corner at
/// `(x_pos, y_pos)` in destination coordinates.
///
/// Compositing policy: direct replacement. Each source pixel that lands
/// inside the destination replaces all four channels of the destination
/// pixel it covers, the alpha channel included. Source pixels that
/// would land outside the destination's bounds are silently skipped, so
/// an overlay placed entirely off-canvas changes nothing and is not an
/// error. The destination's geometry is never changed and the source is
/// never read outside its own buffer. The borrow discipline rules out
/// drawing a buffer onto itself.
#[verifier::loop_isolation(false)]
pub fn draw_photonimage(
    container_img: &mut PhotonImage,
    photon_img: &PhotonImage,
    x_pos: u32,
    y_pos: u32,
)
    requires
        old(container_img).wf(),
        photon_img.wf(),
    ensures
        final(container_img).width == old(container_img).width,
        final(container_img).height == old(container_img).height,
        final(container_img).wf(),
        final(container_img).raw_pixels@ == overlay_bytes(
            old(container_img).raw_pixels@,
            old(container_img).width as int,
            photon_img.raw_pixels@,
            photon_img.width as int,
            photon_img.height as int,
            x_pos as int,
            y_pos as int,
        ),
{
    let dst_w: u32 = container_img.width;
    let dst_h: u32 = container_img.height;
    let src_w: u32 = photon_img.width;
    let src_h: u32 = photon_img.height;
    let dst_len: usize = container_img.raw_pixels.len();
    let src_len: usize = photon_img.raw_pixels.len();
    let ghost orig = *container_img;
    let ghost w: int = dst_w as int;
    let ghost h: int = dst_h as int;
    let ghost swi: int = src_w as int;
    let ghost shi: int = src_h as int;
    let ghost xo: int = x_pos as int;
    let ghost yo: int = y_pos as int;
    let mut sy: u32 = 0;
    while sy < src_h
        invariant
            sy <= src_h,
            container_img.width == orig.width,
            container_img.height == orig.height,
            container_img.raw_pixels@.len() == orig.raw_pixels@.len(),
            forall|i: int|
                0 <= i < container_img.raw_pixels@.len() ==> container_img.raw_pixels@[i]
                    == partial_overlay_byte(
                    orig.raw_pixels@,
                    w,
                    photon_img.raw_pixels@,
                    swi,
                    shi,
                    xo,
                    yo,
                    sy as int,
                    0,
                    i,
                ),
        decreases src_h - sy,
    {
        let mut sx: u32 = 0;
        while sx < src_w
            invariant
                sx <= src_w,
                container_img.width == orig.width,
                container_img.height == orig.height,
                container_img.raw_pixels@.len() == orig.raw_pixels@.len(),
                forall|i: int|
                    0 <= i < container_img.raw_pixels@.len() ==> container_img.raw_pixels@[i]
                        == partial_overlay_byte(
                        orig.raw_pixels@,
                        w,
                        photon_img.raw_pixels@,
                        swi,
                        shi,
                        xo,
                        yo,
                        sy as int,
                        sx as int,
                        i,
                    ),
            decreases src_w - sx,
        {
            let dx: u64 = x_pos as u64 + sx as u64;
            let dy: u64 = y_pos as u64 + sy as u64;
            if dx < dst_w as u64 && dy < dst_h as u64 {
                proof {
                    lemma_mul_upper_bound(dy as int, u32::MAX as int, w, u32::MAX as int);
                    lemma_mul_upper_bound(sy as int, u32::MAX as int, swi, u32::MAX as int);
                    lemma_pixel_index(w, h, dx as int, dy as int, 0);
                    lemma_pixel_index(w, h, dx as int, dy as int, 3);
                    lemma_pixel_index(swi, shi, sx as int, sy as int, 0);
                    lemma_pixel_index(swi, shi, sx as int, sy as int, 3);
                }
                let dst_base: usize = ((dy * (dst_w as u64) + dx) * 4) as usize;
                let src_base: usize = (((sy as u64) * (src_w as u64) + (sx as u64)) * 4) as usize;
                let ghost before = container_img.raw_pixels@;
                let v0: u8 = photon_img.raw_pixels[src_base];
                container_img.raw_pixels[dst_base] = v0;
                let v1: u8 = photon_img.raw_pixels[src_base + 1];
                container_img.raw_pixels[dst_base + 1] = v1;
                let v2: u8 = photon_img.raw_pixels[src_base + 2];
                container_img.raw_pixels[dst_base + 2] = v2;
                let v3: u8 = photon_img.raw_pixels[src_base + 3];
                container_img.raw_pixels[dst_base + 3] = v3;
                proof {
                    let dbi: int = dst_base as int;
                    let sbi: int = src_base as int;
                    let pix: int = dy as int * w + dx as int;
                    let spix: int = sy as int * swi + sx as int;
                    assert(dbi == pix * 4);
                    assert(sbi == spix * 4);
                    assert forall|i: int|
                        0 <= i < container_img.raw_pixels@.len() implies container_img.raw_pixels@[i]
                        == partial_overlay_byte(
                        orig.raw_pixels@,
                        w,
                        photon_img.raw_pixels@,
                        swi,
                        shi,
                        xo,
                        yo,
                        sy as int,
                        sx as int + 1,
                        i,
                    ) by {
                        lemma_byte_index(w, h, i);
                        lemma_fundamental_div_mod_converse(pix, w, dy as int, dx as int);
                        let x: int = (i / 4) % w;
                        let y: int = (i / 4) / w;
                        let c: int = i % 4;
                        if x == dx as int && y == dy as int {
                            assert(i == pix * 4 + c);
                            assert(container_img.raw_pixels@[i] == photon_img.raw_pixels@[sbi + c]);
                        } else {
                            assert(!(dbi <= i < dbi + 4));
                            assert(container_img.raw_pixels@[i] == before[i]);
                        }
                    }
                }
            } else {
                proof {
                    assert forall|i: int|
                        0 <= i < container_img.raw_pixels@.len() implies partial_overlay_byte(
                        orig.raw_pixels@,
                        w,
                        photon_img.raw_pixels@,
                        swi,
                        shi,
                        xo,
                        yo,
                        sy as int,
                        sx as int,
                        i,
                    ) == partial_overlay_byte(
                        orig.raw_pixels@,
                        w,
                        photon_img.raw_pixels@,
                        swi,
                        shi,
                        xo,
                        yo,
                        sy as int,
                        sx as int + 1,
                        i,
                    ) by {
                        assert(w > 0 && h > 0) by (nonlinear_arith)
                            requires
                                0 <= w,
                                0 <= h,
                                0 < w * h * 4,
                        ;
                        lemma_byte_index(w, h, i);
                    }
                }
            }
            sx = sx + 1;
        }
        proof {
            assert forall|i: int|
                0 <= i < container_img.raw_pixels@.len() implies partial_overlay_byte(
                orig.raw_pixels@,
                w,
                photon_img.raw_pixels@,
                swi,
                shi,
                xo,
                yo,
                sy as int,
                src_w as int,
                i,
            ) == partial_overlay_byte(
                orig.raw_pixels@,
                w,
                photon_img.raw_pixels@,
                swi,
                shi,
                xo,
                yo,
                sy as int + 1,
                0,
                i,
            ) by {}
        }
        sy = sy + 1;
    }
    proof {
        assert forall|i: int|
            0 <= i < container_img.raw_pixels@.len() implies container_img.raw_pixels@[i]
            == overlay_byte(orig.raw_pixels@, w, photon_img.raw_pixels@, swi, shi, xo, yo, i) by {}
        assert(container_img.raw_pixels@ =~= overlay_bytes(
            orig.raw_pixels@,
            w,
            photon_img.raw_pixels@,
            swi,
            shi,
            xo,
            yo,
        ));
    }
}

/// The overlay, pixel by pixel: a destination pixel the source covers
/// takes the matching source pixel's channel, and a destination pixel
/// the source does not cover keeps its byte — only the in-bounds subset
/// of the destination is ever mutated, and out-of-bounds source pixels
/// are never read into it.
pub proof fn lemma_overlay_channel(
    dst: Seq<u8>,
    dst_w: int,
    dst_h: int,
    src: Seq<u8>,
    src_w: int,
    src_h: int,
    x_offset: int,
    y_offset: int,
    x: int,
    y: int,
    c: int,
)
    requires
        dst.len() == dst_w * dst_h * 4,
        0 <= x < dst_w,
        0 <= y < dst_h,
        0 <= c < 4,
    ensures
        covered(src_w, src_h, x_offset, y_offset, x, y) ==> overlay_bytes(
            dst,
            dst_w,
            src,
            src_w,
            src_h,
            x_offset,
            y_offset,
        )[(y * dst_w + x) * 4 + c] == src[((y - y_offset) * src_w + (x - x_offset)) * 4 + c],
        !covered(src_w, src_h, x_offset, y_offset, x, y) ==> overlay_bytes(
            dst,
            dst_w,
            src,
            src_w,
            src_h,
            x_offset,
            y_offset,
        )[(y * dst_w + x) * 4 + c] == dst[(y * dst_w + x) * 4 + c],
{
    lemma_pixel_index(dst_w, dst_h, x, y, c);
}

/// With the horizontal offset at or beyond the destination's width, or
/// the vertical offset at or beyond its height, no source pixel can
/// land inside the destination: the overlay leaves the destination
/// bytes unchanged, byte for byte.
pub proof fn lemma_overlay_out_of_bounds(
    dst: Seq<u8>,
    dst_w: int,
    dst_h: int,
    src: Seq<u8>,
    src_w: int,
    src_h: int,
    x_offset: int,
    y_offset: int,
)
    requires
        dst.len() == dst_w * dst_h * 4,
        0 <= dst_w,
        0 <= dst_h,
        x_offset >= dst_w || y_offset >= dst_h,
    ensures
        overlay_bytes(dst, dst_w, src, src_w, src_h, x_offset, y_offset) == dst,
{
    assert forall|i: int| 0 <= i < dst.len() implies overlay_byte(
        dst,
        dst_w,
        src,
        src_w,
        src_h,
        x_offset,
        y_offset,
        i,
    ) == dst[i] by {
        assert(dst_w > 0 && dst_h > 0) by (nonlinear_arith)
            requires
                0 <= dst_w,
                0 <= dst_h,
                0 < dst_w * dst_h * 4,
        ;
        lemma_byte_index(dst_w, dst_h, i);
    }
    assert(overlay_bytes(dst, dst_w, src, src_w, src_h, x_offset, y_offset) =~= dst);
}

/// Overlaying a fully opaque source twice at one offset yields the same
/// destination bytes as overlaying it once: under the replacement
/// policy the second pass writes the very bytes the first pass wrote.
pub proof fn lemma_overlay_idempotent(
    dst: Seq<u8>,
    dst_w: int,
    src: Seq<u8>,
    src_w: int,
    src_h: int,
    x_offset: int,
    y_offset: int,
)
    requires
        fully_opaque(src),
    ensures
        overlay_bytes(
            overlay_bytes(dst, dst_w, src, src_w, src_h, x_offset, y_offset),
            dst_w,
            src,
            src_w,
            src_h,
            x_offset,
            y_offset,
        ) == overlay_bytes(dst, dst_w, src, src_w, src_h, x_offset, y_offset),
{
    let once = overlay_bytes(dst, dst_w, src, src_w, src_h, x_offset, y_offset);
    let twice = overlay_bytes(once, dst_w, src, src_w, src_h, x_offset, y_offset);
    assert forall|i: int| 0 <= i < twice.len() implies twice[i] == once[i] by {}
    assert(twice =~= once);
}

} // verus!
