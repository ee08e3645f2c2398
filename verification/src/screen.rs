//! Pictures and letters on the surface: what the title and the closing screen
//! are made of.

use vstd::prelude::*;
use image::DynamicImage;
use crate::fixed::ONE;
use crate::framebuffer::Framebuffer;
use crate::textures::{
    image_dimensions, image_is_whole, image_pixels, image_rgba, image_size, image_whole, pack,
    pack_rgb,
};

verus! {

/// The colour of the pixel in column `x` of row `y` of `img`, without its alpha.
pub open spec fn image_color(img: DynamicImage, x: int, y: int) -> u32 {
    let p = image_pixels(img)[(x as u32, y as u32)];
    pack_rgb(p.0, p.1, p.2)
}

/// Copies `img` onto the surface, its top left corner into the surface's, as far as both
/// reach. An image whose samples are no whole numbers is not copied.
pub fn draw_image(fb: &mut Framebuffer, img: &DynamicImage)
    ensures
        final(fb).same_size(old(fb)),
        forall|x: int, y: int|
            final(fb).in_bounds(x, y) ==> #[trigger] final(fb).pixel(x, y) == (if image_is_whole(
                *img,
            ) && x < image_dimensions(*img).0 && y < image_dimensions(*img).1 {
                image_color(*img, x, y)
            } else {
                old(fb).pixel(x, y)
            }),
{
    if !image_whole(img) {
        return;
    }
    let (iw, ih) = image_size(img);
    let w: usize = if (iw as u64) < fb.width() as u64 {
        iw as usize
    } else {
        fb.width()
    };
    let h: usize = if (ih as u64) < fb.height() as u64 {
        ih as usize
    } else {
        fb.height()
    };
    let mut y: usize = 0;
    while y < h
        invariant
            fb.same_size(old(fb)),
            image_is_whole(*img),
            (iw, ih) == image_dimensions(*img),
            w <= iw,
            h <= ih,
            w == iw || w == fb.width(),
            h == ih || h == fb.height(),
            w <= fb.width(),
            h <= fb.height(),
            y <= h,
            forall|a: int, b: int|
                fb.in_bounds(a, b) ==> #[trigger] fb.pixel(a, b) == (if a < w && b < y {
                    image_color(*img, a, b)
                } else {
                    old(fb).pixel(a, b)
                }),
        decreases h - y,
    {
        let mut x: usize = 0;
        while x < w
            invariant
                fb.same_size(old(fb)),
                image_is_whole(*img),
                (iw, ih) == image_dimensions(*img),
                w <= iw,
                h <= ih,
                w <= fb.width(),
                h <= fb.height(),
                y < h,
                x <= w,
                forall|a: int, b: int|
                    fb.in_bounds(a, b) ==> #[trigger] fb.pixel(a, b) == (if a < w && (b < y || (b
                        == y && a < x)) {
                        image_color(*img, a, b)
                    } else {
                        old(fb).pixel(a, b)
                    }),
            decreases w - x,
        {
            let p = image_rgba(img, x as u32, y as u32);
            fb.point(x, y, pack(p.0, p.1, p.2));
            x += 1;
        }
        y += 1;
    }
}

/// The red part of the colour 0xRRGGBB.
pub open spec fn red(color: u32) -> int {
    (color as int / 65536) % 256
}

/// The green part of the colour 0xRRGGBB.
pub open spec fn green(color: u32) -> int {
    (color as int / 256) % 256
}

/// The blue part of the colour 0xRRGGBB.
pub open spec fn blue(color: u32) -> int {
    color as int % 256
}

/// The fixed-point number `coverage` brought into the range from 0 to 1.
pub open spec fn clamp_coverage(coverage: int) -> int {
    if coverage < 0 {
        0
    } else if coverage > ONE {
        ONE as int
    } else {
        coverage
    }
}

/// The colour `color` with each of its parts scaled by `coverage`, a fixed-point number
/// that is brought into the range from 0 to 1, and rounded down.
pub open spec fn shaded(color: u32, coverage: int) -> u32 {
    let c = clamp_coverage(coverage);
    pack_rgb(
        ((red(color) * c) / (ONE as int)) as u8,
        ((green(color) * c) / (ONE as int)) as u8,
        ((blue(color) * c) / (ONE as int)) as u8,
    )
}

/// The colour `color` as dark as a pixel that a letter covers to the part `coverage`.
pub fn shade(color: u32, coverage: i64) -> (dimmed: u32)
    ensures
        dimmed == shaded(color, coverage as int),
        coverage >= ONE && color <= 0xFFFFFF ==> dimmed == color,
{
    let c: u32 = if coverage < 0 {
        0
    } else if coverage > ONE {
        65536
    } else {
        coverage as u32
    };
    let r: u32 = (color / 65536) % 256;
    let g: u32 = (color / 256) % 256;
    let b: u32 = color % 256;
    assert(0 <= r * c <= 255 * 65536 && 0 <= g * c <= 255 * 65536 && 0 <= b * c <= 255 * 65536)
        by (nonlinear_arith)
        requires
            0 <= r <= 255,
            0 <= g <= 255,
            0 <= b <= 255,
            0 <= c <= 65536,
    ;
    pack(((r * c) / 65536) as u8, ((g * c) / 65536) as u8, ((b * c) / 65536) as u8)
}

/// Draws one pixel of a letter of the colour `color`: the pixel (`x`, `y`), which the letter
/// covers to the part `coverage`. A pixel that the letter does not cover is left as it is.
pub fn draw_glyph_pixel(fb: &mut Framebuffer, x: i64, y: i64, color: u32, coverage: i64)
    ensures
        final(fb).same_size(old(fb)),
        forall|i: int, j: int|
            final(fb).in_bounds(i, j) ==> #[trigger] final(fb).pixel(i, j) == (if coverage > 0
                && i == x && j == y {
                shaded(color, coverage as int)
            } else {
                old(fb).pixel(i, j)
            }),
{
    if coverage > 0 {
        fb.plot(x, y, shade(color, coverage));
    }
}

} // verus!
