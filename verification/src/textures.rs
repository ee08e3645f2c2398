//! The images that walls and collectibles are painted with, and how a colour is
//! read out of one.
//!
//! A place in an image is given by two fixed-point numbers `u` and `v` between
//! 0 and 1: `u` runs from the left edge to the right, `v` from the top down.

use vstd::prelude::*;
use std::collections::HashMap;
use image::DynamicImage;
use image::GenericImageView;
use crate::fixed::ONE;

verus! {

broadcast use vstd::std_specs::hash::group_hash_axioms;

/// A decoded image of the `image` crate. Nothing of its inside is known here.
#[verifier::external_type_specification]
#[verifier::external_body]
pub struct ExDynamicImage(DynamicImage);

/// The width and the height of an image, in pixels.
pub uninterp spec fn image_dimensions(img: DynamicImage) -> (u32, u32);

/// The pixels of an image as red, green, blue and alpha, by column and row.
pub uninterp spec fn image_pixels(img: DynamicImage) -> Map<(u32, u32), (u8, u8, u8, u8)>;

/// Whether the samples of an image are whole numbers of 8 or of 16 bits.
pub uninterp spec fn image_is_whole(img: DynamicImage) -> bool;

/// Tells the variants of `image::DynamicImage` apart: whether the image is one of the eight
/// kinds whose samples are whole numbers of 8 or of 16 bits. The contract only names the
/// result: an image is always of the same kind.
#[verifier::external_body]
pub(crate) fn image_whole(img: &DynamicImage) -> (b: bool)
    ensures
        b == image_is_whole(*img),
{
    match img {
        DynamicImage::ImageLuma8(_) => true,
        DynamicImage::ImageLumaA8(_) => true,
        DynamicImage::ImageRgb8(_) => true,
        DynamicImage::ImageRgba8(_) => true,
        DynamicImage::ImageLuma16(_) => true,
        DynamicImage::ImageLumaA16(_) => true,
        DynamicImage::ImageRgb16(_) => true,
        DynamicImage::ImageRgba16(_) => true,
        _ => false,
    }
}

/// `GenericImageView::dimensions` of `image::DynamicImage`. The contract only names the
/// result: the same image always has the same width and height.
#[verifier::external_body]
pub(crate) fn image_size(img: &DynamicImage) -> (d: (u32, u32))
    ensures
        d == image_dimensions(*img),
{
    img.dimensions()
}

/// `GenericImageView::get_pixel` of `image::DynamicImage`, which returns the pixel in
/// column `x` of row `y` as 8-bit RGBA. It panics outside the image, and it can panic on a
/// sample that is no whole number; the precondition leaves out both. The contract only names
/// the result: the same place of the same image always holds the same pixel.
#[verifier::external_body]
pub(crate) fn image_rgba(img: &DynamicImage, x: u32, y: u32) -> (p: (u8, u8, u8, u8))
    requires
        image_is_whole(*img),
        x < image_dimensions(*img).0,
        y < image_dimensions(*img).1,
    ensures
        p == image_pixels(*img)[(x, y)],
{
    let q = img.get_pixel(x, y);
    (q.0[0], q.0[1], q.0[2], q.0[3])
}

/// The largest texture coordinate that is used: just under one.
pub const COORD_LIMIT: i64 = 65471;

/// The colour of a wall or a collectible that has no image: white.
pub const MISSING: u32 = 0xFFFFFF;

/// The colour that stands for "nothing here" in the image of a collectible: black.
pub const TRANSPARENT: u32 = 0x000000;

/// The texture coordinate `t` brought into the range from 0 to `COORD_LIMIT`.
pub open spec fn clamp_coord(t: int) -> int {
    if t < 0 {
        0
    } else if t > COORD_LIMIT {
        COORD_LIMIT as int
    } else {
        t
    }
}

/// The column (or row) of an image `size` pixels wide (or high) that the texture coordinate
/// `t` falls into.
pub open spec fn texel_index(t: int, size: int) -> int {
    (clamp_coord(t) * size) / (ONE as int)
}

/// The column (or row) of an image `size` pixels wide (or high) that the texture coordinate
/// `t` falls into. It lies inside the image.
pub fn texel(t: i64, size: u32) -> (i: u32)
    ensures
        i == texel_index(t as int, size as int),
        size > 0 ==> i < size,
{
    let c: i64 = if t < 0 {
        0
    } else if t > COORD_LIMIT {
        COORD_LIMIT
    } else {
        t
    };
    assert(0 <= c * size <= COORD_LIMIT * size) by (nonlinear_arith)
        requires
            0 <= c <= COORD_LIMIT,
            0 <= size,
    ;
    ((c * size as i64) / ONE) as u32
}

/// The packed colour 0xRRGGBB.
pub open spec fn pack_rgb(r: u8, g: u8, b: u8) -> u32 {
    (r as u32 * 65536 + g as u32 * 256 + b as u32) as u32
}

/// Packs red, green and blue into 0xRRGGBB.
pub fn pack(r: u8, g: u8, b: u8) -> (color: u32)
    ensures
        color == pack_rgb(r, g, b),
        color <= 0xFFFFFF,
{
    let color: u32 = ((r as u32) << 16) | ((g as u32) << 8) | (b as u32);
    assert(((r as u32) << 16) | ((g as u32) << 8) | (b as u32) == r as u32 * 65536 + g as u32 * 256
        + b as u32) by (bit_vector);
    color
}

/// The images by the character that they are for.
pub struct Textures {
    map: HashMap<u32, DynamicImage>,
}

impl Textures {
    /// The image for `c`, if there is one.
    pub closed spec fn image_of(&self, c: char) -> Option<DynamicImage> {
        if self.map@.contains_key(c as u32) {
            Some(self.map@[c as u32])
        } else {
            None
        }
    }

    /// The pixel of the image for `c` at the texture coordinates (`u`, `v`), if there is an
    /// image for `c`, its samples are whole numbers and it is not empty.
    pub open spec fn texel_at(&self, c: char, u: int, v: int) -> Option<(u8, u8, u8, u8)> {
        match self.image_of(c) {
            Some(img) => {
                let (w, h) = image_dimensions(img);
                if image_is_whole(img) && w > 0 && h > 0 {
                    Some(
                        image_pixels(img)[(
                            texel_index(u, w as int) as u32,
                            texel_index(v, h as int) as u32,
                        )],
                    )
                } else {
                    None
                }
            },
            None => None,
        }
    }

    /// The colour of a wall of material `c` at (`u`, `v`): that of the image's pixel there,
    /// without its alpha, or `MISSING`.
    pub open spec fn wall_color(&self, c: char, u: int, v: int) -> u32 {
        match self.texel_at(c, u, v) {
            Some((r, g, b, _)) => pack_rgb(r, g, b),
            None => MISSING,
        }
    }

    /// The colour of a collectible of kind `c` at (`u`, `v`): that of the image's pixel
    /// there, `TRANSPARENT` where the pixel's alpha is zero, or `MISSING`.
    pub open spec fn sprite_color(&self, c: char, u: int, v: int) -> u32 {
        match self.texel_at(c, u, v) {
            Some((r, g, b, a)) => if a == 0 {
                TRANSPARENT
            } else {
                pack_rgb(r, g, b)
            },
            None => MISSING,
        }
    }

    /// A colour depends on the texture coordinates only through their clamped values.
    pub proof fn lemma_coords_clamped(&self, c: char, u: int, v: int)
        ensures
            self.texel_at(c, clamp_coord(u), clamp_coord(v)) == self.texel_at(c, u, v),
            self.wall_color(c, clamp_coord(u), clamp_coord(v)) == self.wall_color(c, u, v),
            self.sprite_color(c, clamp_coord(u), clamp_coord(v)) == self.sprite_color(c, u, v),
    {
    }

    /// No images.
    pub fn new() -> (t: Textures)
        ensures
            forall|c: char| t.image_of(c) is None,
    {
        Textures { map: HashMap::new() }
    }

    /// Makes `img` the image for `c`, in place of any earlier one.
    pub fn insert(&mut self, c: char, img: DynamicImage)
        ensures
            final(self).image_of(c) == Some(img),
            forall|other: char| other != c ==> final(self).image_of(other) == old(self).image_of(other),
    {
        self.map.insert(c as u32, img);
        proof {
            assert forall|other: char| other != c implies self.image_of(other) == old(
                self,
            ).image_of(other) by {
                lemma_char_code(other, c);
            }
        }
    }

    /// Whether there is an image for `c`.
    pub fn contains(&self, c: char) -> (b: bool)
        ensures
            b == self.image_of(c) is Some,
    {
        self.map.contains_key(&(c as u32))
    }

    fn texel_of(&self, c: char, u: i64, v: i64) -> (p: Option<(u8, u8, u8, u8)>)
        ensures
            p == self.texel_at(c, u as int, v as int),
    {
        match self.map.get(&(c as u32)) {
            Some(img) => {
                let (w, h) = image_size(img);
                if image_whole(img) && w > 0 && h > 0 {
                    Some(image_rgba(img, texel(u, w), texel(v, h)))
                } else {
                    None
                }
            },
            None => None,
        }
    }

    /// The colour of a wall of material `c` at the texture coordinates (`u`, `v`).
    pub fn sample(&self, c: char, u: i64, v: i64) -> (color: u32)
        ensures
            color == self.wall_color(c, u as int, v as int),
    {
        match self.texel_of(c, u, v) {
            Some((r, g, b, _)) => pack(r, g, b),
            None => MISSING,
        }
    }

    /// The colour of a collectible of kind `c` at the texture coordinates (`u`, `v`).
    pub fn sample_sprite(&self, c: char, u: i64, v: i64) -> (color: u32)
        ensures
            color == self.sprite_color(c, u as int, v as int),
    {
        match self.texel_of(c, u, v) {
            Some((r, g, b, a)) => if a == 0 {
                TRANSPARENT
            } else {
                pack(r, g, b)
            },
            None => MISSING,
        }
    }
}

/// Different characters have different code points.
proof fn lemma_char_code(a: char, b: char)
    requires
        a != b,
    ensures
        a as u32 != b as u32,
{
}

} // verus!
