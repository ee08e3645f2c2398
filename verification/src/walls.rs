//! Projecting what a ray hit onto one column of the surface.
//!
//! A wall at distance `d` is drawn `block_size * (height / 2) / d` pixels high,
//! centred on the middle row, and painted with one column of the wall's image.

use vstd::prelude::*;
use crate::fixed::{div_floor, lemma_scaled_quotient, unit_range, HALF, ONE};
use crate::framebuffer::Framebuffer;
use crate::player::{clamp_unit, Direction};
use crate::raycaster::{Face, Intersect};
use crate::textures::Textures;

verus! {

/// The cosine of the angle between the directions `a` and `b`: the sum of the products of
/// their parts, brought into the range from -1 to 1; and one, without rounding, for a
/// direction and itself.
pub open spec fn cos_between(a: &Direction, b: &Direction) -> int {
    if a.cos() == b.cos() && a.sin() == b.sin() {
        ONE as int
    } else {
        clamp_unit((a.cos() * b.cos() + a.sin() * b.sin()) / (ONE as int))
    }
}

/// The cosine of the angle between the directions `a` and `b`.
pub fn cosine_between(a: &Direction, b: &Direction) -> (c: i64)
    ensures
        c == cos_between(a, b),
        unit_range(c as int),
        a.cos() == b.cos() && a.sin() == b.sin() ==> c == ONE,
{
    let (ac, asn) = (a.cos(), a.sin());
    let (bc, bsn) = (b.cos(), b.sin());
    if ac == bc && asn == bsn {
        return ONE;
    }
    assert(-ONE * ONE <= ac * bc <= ONE * ONE && -ONE * ONE <= asn * bsn <= ONE * ONE)
        by (nonlinear_arith)
        requires
            -ONE <= ac <= ONE,
            -ONE <= bc <= ONE,
            -ONE <= asn <= ONE,
            -ONE <= bsn <= ONE,
    ;
    let dot: i128 = (ac * bc + asn * bsn) as i128;
    let q: i128 = div_floor(dot, ONE as i128);
    if q < -(ONE as i128) {
        -ONE
    } else if q > ONE as i128 {
        ONE
    } else {
        q as i64
    }
}

/// The length of a ray measured along the heading: its length times the cosine of the angle
/// between ray and heading. This takes the fish-eye bulge out of the picture.
pub open spec fn corrected_distance(distance: int, cos_rel: int) -> int {
    (distance * cos_rel) / (ONE as int)
}

/// Half the surface's height, as a fixed-point number.
pub open spec fn half_height(h: int) -> int {
    h * HALF
}

/// The height, in fixed-point pixels, at which a wall of height `block_size` appears from the
/// distance `dist` on a surface `h` pixels high.
pub open spec fn wall_height(block_size: int, h: int, dist: int) -> int {
    (block_size * half_height(h) * ONE) / dist
}

/// The first row of the wall's strip.
pub open spec fn strip_top(block_size: int, h: int, dist: int) -> int {
    let above = half_height(h) - wall_height(block_size, h, dist) / 2;
    (if above < 0 {
        0
    } else {
        above
    }) / (ONE as int)
}

/// The last row of the wall's strip.
pub open spec fn strip_bottom(block_size: int, h: int, dist: int) -> int {
    let below = half_height(h) + wall_height(block_size, h, dist) / 2;
    (if below > (h - 1) * ONE {
        (h - 1) * ONE
    } else {
        below
    }) / (ONE as int)
}

/// Where the ray `hit` ended, measured along the face through which it came: its y
/// coordinate for a face that runs from north to south, its x coordinate for one that runs
/// from east to west.
pub open spec fn along_face(hit: Intersect) -> int {
    match hit.face {
        Face::NorthSouth => hit.hit_y as int,
        Face::EastWest => hit.hit_x as int,
    }
}

/// How far along the face of its cell, as a texture coordinate, the point lies whose
/// coordinate along the face is `along`: the part of the cell's side that lies before it.
pub open spec fn wall_u(along: int, block_size: int) -> int {
    if along < 0 {
        0
    } else {
        (along % (block_size * ONE)) / block_size
    }
}

/// How far down the strip from `top` to `bottom` the row `y` lies, as a texture coordinate.
pub open spec fn strip_v(y: int, top: int, bottom: int) -> int {
    ((y - top) * ONE) / (bottom - top + 1)
}

/// The colour that the hit `hit` puts into row `y` of its column, if any.
///
/// Nothing is drawn for a ray that hit a collectible, nor where the corrected distance is
/// not positive.
pub open spec fn column_pixel(
    textures: &Textures,
    hit: Intersect,
    cos_rel: int,
    block_size: int,
    h: int,
    y: int,
) -> Option<u32> {
    let dist = corrected_distance(hit.distance as int, cos_rel);
    let top = strip_top(block_size, h, dist);
    let bottom = strip_bottom(block_size, h, dist);
    if hit.object_type is None && dist > 0 && top <= y <= bottom {
        Some(
            textures.wall_color(
                hit.impact,
                wall_u(along_face(hit), block_size),
                strip_v(y, top, bottom),
            ),
        )
    } else {
        None
    }
}

/// A ray along the heading is as long as it is: the correction by the cosine one changes
/// nothing.
pub proof fn lemma_straight_ahead(distance: int)
    ensures
        corrected_distance(distance, ONE as int) == distance,
{
    assert((distance * ONE) / (ONE as int) == distance);
}

/// A ray along the heading is drawn with its own length: measured along the heading it is
/// exactly as long as it is.
pub proof fn lemma_heading_ray(heading: &Direction, distance: int)
    ensures
        cos_between(heading, heading) == ONE,
        corrected_distance(distance, cos_between(heading, heading)) == distance,
{
    lemma_straight_ahead(distance);
}

/// The corrected distance between the ray's length and its negative.
pub proof fn lemma_corrected_bound(distance: int, cos_rel: int)
    requires
        distance >= 0,
        unit_range(cos_rel),
    ensures
        -distance <= corrected_distance(distance, cos_rel) <= distance,
{
    assert(-ONE * distance <= distance * cos_rel <= ONE * distance) by (nonlinear_arith)
        requires
            distance >= 0,
            -ONE <= cos_rel <= ONE,
    ;
}

/// The farther the wall, the lower it appears: the projected height does not grow with the
/// distance.
pub proof fn lemma_wall_height_decreases(block_size: int, h: int, near: int, far: int)
    requires
        block_size >= 0,
        h >= 0,
        0 < near <= far,
    ensures
        wall_height(block_size, h, near) >= wall_height(block_size, h, far),
        wall_height(block_size, h, far) >= 0,
{
    let n = block_size * half_height(h) * ONE;
    assert(n >= 0) by (nonlinear_arith)
        requires
            n == block_size * (h * HALF) * ONE,
            block_size >= 0,
            h >= 0,
    ;
    vstd::arithmetic::div_mod::lemma_div_is_ordered_by_denominator(n, near, far);
    vstd::arithmetic::div_mod::lemma_div_pos_is_pos(n, far);
}

/// The strip lies on the surface, its top not below its bottom.
pub proof fn lemma_strip_on_surface(block_size: int, h: int, dist: int)
    requires
        block_size >= 0,
        h >= 1,
        dist > 0,
    ensures
        0 <= strip_top(block_size, h, dist) <= strip_bottom(block_size, h, dist) <= h - 1,
{
    lemma_wall_height_decreases(block_size, h, dist, dist);
}

/// The farther the wall, the shorter its strip: the top of the strip does not rise and its
/// bottom does not sink with the distance.
pub proof fn lemma_strip_shrinks(block_size: int, h: int, near: int, far: int)
    requires
        block_size >= 0,
        h >= 0,
        0 < near <= far,
    ensures
        strip_top(block_size, h, near) <= strip_top(block_size, h, far),
        strip_bottom(block_size, h, near) >= strip_bottom(block_size, h, far),
{
    lemma_wall_height_decreases(block_size, h, near, far);
}

/// The rows of the strip in which a wall appears from the distance `dist`.
pub fn project_strip(block_size: usize, h: usize, dist: i64) -> (strip: (usize, usize))
    requires
        h > 0,
        dist > 0,
    ensures
        strip.0 == strip_top(block_size as int, h as int, dist as int),
        strip.1 == strip_bottom(block_size as int, h as int, dist as int),
        strip.0 <= strip.1 < h,
{
    let hh: u128 = h as u128 * 32768;
    assert(block_size * h <= 0xffff_ffff_ffff_ffff * 0xffff_ffff_ffff_ffff) by (nonlinear_arith)
        requires
            0 <= block_size <= 0xffff_ffff_ffff_ffff,
            0 <= h <= 0xffff_ffff_ffff_ffff,
    ;
    let bh: u128 = block_size as u128 * h as u128;
    let d: u128 = dist as u128;
    let q: u128 = bh / d;
    let r: u128 = bh % d;
    proof {
        lemma_scaled_quotient(bh as int, 0x8000_0000, d as int);
        assert(block_size * half_height(h as int) * ONE == bh * 0x8000_0000) by (nonlinear_arith)
            requires
                bh == block_size * h,
                half_height(h as int) == h * 32768,
                ONE == 65536,
        ;
        assert(r * 0x8000_0000 >= 0) by (nonlinear_arith)
            requires
                r >= 0,
        ;
        vstd::arithmetic::div_mod::lemma_div_pos_is_pos(r * 0x8000_0000, d as int);
        lemma_strip_on_surface(block_size as int, h as int, dist as int);
    }
    if q >= 0x1_0000_0000_0000_0000_0000_0000 {
        // the wall towers over the surface
        return (0, h - 1);
    }
    let wh: u128 = q * 0x8000_0000 + (r * 0x8000_0000) / d;
    let half: u128 = wh / 2;
    let top: u128 = if half >= hh {
        0
    } else {
        (hh - half) / 65536
    };
    let below: u128 = hh + half;
    let last: u128 = (h as u128 - 1) * 65536;
    let bottom: u128 = if below > last {
        last / 65536
    } else {
        below / 65536
    };
    (top as usize, bottom as usize)
}

/// How far along the face of its cell, as a texture coordinate, the point lies whose
/// coordinate along the face is `along`.
pub fn texture_u(along: i64, block_size: usize) -> (u: i64)
    requires
        block_size > 0,
    ensures
        u == wall_u(along as int, block_size as int),
        0 <= u < ONE,
{
    if along < 0 {
        return 0;
    }
    let span: u128 = block_size as u128 * 65536;
    let within: u128 = along as u128 % span;
    let u: u128 = within / block_size as u128;
    proof {
        assert(within < block_size * 65536);
        vstd::arithmetic::div_mod::lemma_div_is_ordered(
            within as int,
            block_size * 65536 - 1,
            block_size as int,
        );
        vstd::arithmetic::div_mod::lemma_fundamental_div_mod_converse(
            block_size * 65536 - 1,
            block_size as int,
            65535,
            block_size - 1,
        );
    }
    u as i64
}

/// How far down the strip from `top` to `bottom` the row `y` lies, as a texture coordinate.
pub fn texture_v(y: usize, top: usize, bottom: usize) -> (v: i64)
    requires
        top <= y <= bottom,
    ensures
        v == strip_v(y as int, top as int, bottom as int),
        0 <= v < ONE,
{
    let rows: u128 = (bottom - top) as u128 + 1;
    let v: u128 = ((y - top) as u128 * 65536) / rows;
    proof {
        let n = (y - top) * 65536;
        assert(n < rows * 65536);
        vstd::arithmetic::div_mod::lemma_div_is_ordered(n, rows * 65536 - 1, rows as int);
        vstd::arithmetic::div_mod::lemma_fundamental_div_mod_converse(
            rows * 65536 - 1,
            rows as int,
            65535,
            rows - 1,
        );
    }
    v as i64
}

/// The length `distance` of a ray measured along the heading.
pub fn correct_distance(distance: i64, cos_rel: i64) -> (d: i64)
    requires
        distance >= 0,
        unit_range(cos_rel as int),
    ensures
        d == corrected_distance(distance as int, cos_rel as int),
        cos_rel == ONE ==> d == distance,
{
    proof {
        lemma_corrected_bound(distance as int, cos_rel as int);
        lemma_straight_ahead(distance as int);
        assert(-ONE * distance <= distance * cos_rel <= ONE * distance) by (nonlinear_arith)
            requires
                distance >= 0,
                -ONE <= cos_rel <= ONE,
        ;
    }
    let p: i128 = distance as i128 * cos_rel as i128;
    div_floor(p, ONE as i128) as i64
}

/// Draws into column `x` what the ray `hit` of that column shows of a wall.
pub fn render_column(
    fb: &mut Framebuffer,
    x: usize,
    hit: &Intersect,
    cos_rel: i64,
    block_size: usize,
    textures: &Textures,
)
    requires
        block_size > 0,
        hit.distance >= 0,
        unit_range(cos_rel as int),
    ensures
        final(fb).same_size(old(fb)),
        forall|i: int, j: int|
            final(fb).in_bounds(i, j) ==> #[trigger] final(fb).pixel(i, j) == (if i == x {
                match column_pixel(
                    textures,
                    *hit,
                    cos_rel as int,
                    block_size as int,
                    old(fb).height() as int,
                    j,
                ) {
                    Some(color) => color,
                    None => old(fb).pixel(i, j),
                }
            } else {
                old(fb).pixel(i, j)
            }),
{
    let h: usize = fb.height();
    if h == 0 || hit.object_type.is_some() {
        return;
    }
    let dist: i64 = correct_distance(hit.distance, cos_rel);
    if dist <= 0 {
        return;
    }
    let (top, bottom) = project_strip(block_size, h, dist);
    let along: i64 = match hit.face {
        Face::NorthSouth => hit.hit_y,
        Face::EastWest => hit.hit_x,
    };
    let u: i64 = texture_u(along, block_size);
    let mut y: usize = top;
    while y <= bottom
        invariant
            fb.same_size(old(fb)),
            h == fb.height(),
            top <= y <= bottom + 1,
            bottom < h,
            dist == corrected_distance(hit.distance as int, cos_rel as int),
            dist > 0,
            hit.object_type is None,
            top == strip_top(block_size as int, h as int, dist as int),
            bottom == strip_bottom(block_size as int, h as int, dist as int),
            u == wall_u(along_face(*hit), block_size as int),
            forall|i: int, j: int|
                fb.in_bounds(i, j) ==> #[trigger] fb.pixel(i, j) == (if i == x && top <= j < y {
                    textures.wall_color(hit.impact, u as int, strip_v(j, top as int, bottom as int))
                } else {
                    old(fb).pixel(i, j)
                }),
        decreases bottom + 1 - y,
    {
        let v: i64 = texture_v(y, top, bottom);
        let color: u32 = textures.sample(hit.impact, u, v);
        fb.point(x, y, color);
        y += 1;
    }
}

} // verus!
