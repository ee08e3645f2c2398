//! A wanderer: it drifts through the maze at random and is drawn as a small
//! picture that grows as the player comes closer.

use vstd::prelude::*;
use image::DynamicImage;
use rand::Rng;
use crate::fixed::{div_floor, lemma_sqrt_at_least, magnitude, COORD_MAX, HALF, ONE};
use crate::framebuffer::Framebuffer;
use crate::map::{has_cell, FLOOR};
use crate::minimap::clamp_i32;
use crate::player::Player;
use crate::sprites::{distance, length};
use crate::textures::{
    image_dimensions, image_is_whole, image_pixels, image_rgba, image_size, image_whole, pack,
    pack_rgb,
};

verus! {

/// `Rng::gen_range` of the `rand` crate, called on the generator of `rand::thread_rng` with
/// the range from `low` up to, but not including, `high`. It panics on an empty range, which
/// the precondition leaves out, and returns a number of the range; which one is left open.
#[verifier::external_body]
fn random_between(low: i64, high: i64) -> (r: i64)
    requires
        low < high,
    ensures
        low <= r < high,
{
    rand::thread_rng().gen_range(low..high)
}

/// A wanderer.
pub struct Enemy {
    /// Where it is, in fixed-point world units.
    pub x: i64,
    /// Where it is, in fixed-point world units.
    pub y: i64,
    /// Which of its pictures is shown.
    pub sprite_index: usize,
    /// Its pictures.
    pub sprites: Vec<DynamicImage>,
}

/// The nearest distance at which a wanderer is drawn: five world units.
pub const NEAREST: i64 = 327680;

/// The size of the picture of a wanderer at the distance of one world unit: 200 pixels.
pub const SIZE_AT_ONE: i64 = 13107200;

/// The least size of the picture of a wanderer: five pixels.
pub const LEAST_SIZE: i64 = 327680;

/// The index along one axis of the cell that a wanderer at the coordinate `x` is in. Left of
/// and above the maze it is the first.
pub open spec fn drift_cell(x: int, block_size: int) -> int {
    if x < 0 {
        0
    } else {
        (x / (ONE as int)) / block_size
    }
}

/// Whether a wanderer cannot be at the world point (`x`, `y`): whether the point is beyond
/// the finite coordinates, or in no cell of the maze, or in a cell that is not open floor.
pub open spec fn blocked(maze: &Vec<Vec<char>>, block_size: int, x: int, y: int) -> bool {
    let i = drift_cell(x, block_size);
    let j = drift_cell(y, block_size);
    ||| x < -COORD_MAX
    ||| x > COORD_MAX
    ||| y < -COORD_MAX
    ||| y > COORD_MAX
    ||| !has_cell(maze, i, j)
    ||| maze@[j]@[i] != FLOOR
}

/// Whether a wanderer cannot be at the world point (`x`, `y`).
pub fn is_wall(x: i128, y: i128, maze: &Vec<Vec<char>>, block_size: usize) -> (b: bool)
    requires
        block_size > 0,
    ensures
        b == blocked(maze, block_size as int, x as int, y as int),
{
    let far: i128 = COORD_MAX as i128;
    if x < -far || x > far || y < -far || y > far {
        return true;
    }
    let i: u64 = if x < 0 {
        0
    } else {
        (x / (ONE as i128)) as u64 / (block_size as u64)
    };
    let j: u64 = if y < 0 {
        0
    } else {
        (y / (ONE as i128)) as u64 / (block_size as u64)
    };
    if j >= maze.len() as u64 {
        return true;
    }
    let row: &Vec<char> = &maze[j as usize];
    if i >= row.len() as u64 {
        return true;
    }
    row[i as usize] != FLOOR
}

/// One and a half times `d`, rounded down.
pub open spec fn stride(d: int) -> int {
    (3 * d) / 2
}

/// A fixed-point number rounded to the nearest whole number, halves away from zero.
pub open spec fn rounded(v: int) -> int {
    if v >= 0 {
        (v + HALF) / (ONE as int)
    } else {
        -((-v + HALF) / (ONE as int))
    }
}

/// The size, in fixed-point pixels, of the picture of a wanderer at the distance `dist`:
/// 200 pixels divided by the distance, and at least five pixels.
pub open spec fn picture_size(dist: int) -> int {
    if (SIZE_AT_ONE * ONE) / dist > LEAST_SIZE {
        (SIZE_AT_ONE * ONE) / dist
    } else {
        LEAST_SIZE as int
    }
}

/// The pixel column of the left edge of the picture of a wanderer that is `dx` east and `dy`
/// south of the player, on a surface said to be `width` pixels wide.
pub open spec fn picture_left(width: int, dx: int, dy: int) -> int {
    clamp_i32(rounded(width * HALF + dx - dy))
}

/// The pixel row of the top edge of a picture of the size `size`, on a surface said to be
/// `height` pixels high.
pub open spec fn picture_top(height: int, size: int) -> int {
    clamp_i32(rounded(height * HALF - size / 2))
}

/// How many pixels right of (or below) the picture's edge the column (or row) `s` of an image
/// `n` pixels wide (or high) is drawn, in a picture of the size `size`.
pub open spec fn picture_offset(s: int, size: int, n: int) -> int {
    ((s * size) / n) / (ONE as int)
}

/// The colour that the first `n` pixels of row `sy` of the image `img` put into the pixel
/// (`x`, `y`), if any. A later pixel of the image is drawn over an earlier one; a pixel whose
/// alpha is zero is not drawn.
pub open spec fn picture_row_pixel(
    img: DynamicImage,
    left: int,
    top: int,
    size: int,
    sy: int,
    n: int,
    x: int,
    y: int,
) -> Option<u32>
    decreases n,
{
    if n <= 0 {
        None
    } else {
        let (sw, sh) = image_dimensions(img);
        let p = image_pixels(img)[((n - 1) as u32, sy as u32)];
        if p.3 != 0 && x == left + picture_offset(n - 1, size, sw as int) && y == top
            + picture_offset(sy, size, sh as int) {
            Some(pack_rgb(p.0, p.1, p.2))
        } else {
            picture_row_pixel(img, left, top, size, sy, n - 1, x, y)
        }
    }
}

/// The colour that the first `m` rows of the image `img` put into the pixel (`x`, `y`), if
/// any.
pub open spec fn picture_pixel(
    img: DynamicImage,
    left: int,
    top: int,
    size: int,
    m: int,
    x: int,
    y: int,
) -> Option<u32>
    decreases m,
{
    if m <= 0 {
        None
    } else {
        match picture_row_pixel(
            img,
            left,
            top,
            size,
            m - 1,
            image_dimensions(img).0 as int,
            x,
            y,
        ) {
            Some(color) => Some(color),
            None => picture_pixel(img, left, top, size, m - 1, x, y),
        }
    }
}

/// The colour that a wanderer at (`ex`, `ey`) with the picture `img` puts into the pixel
/// (`x`, `y`) for a player at (`px`, `py`), if any. Nothing is drawn of a wanderer that is
/// nearer than `NEAREST`, nor of a picture whose samples are no whole numbers.
pub open spec fn enemy_pixel(
    img: DynamicImage,
    ex: int,
    ey: int,
    px: int,
    py: int,
    width: int,
    height: int,
    x: int,
    y: int,
) -> Option<u32> {
    let dx = ex - px;
    let dy = ey - py;
    let dist = length(dx, dy);
    let size = picture_size(dist);
    if dist < NEAREST || !image_is_whole(img) {
        None
    } else {
        picture_pixel(
            img,
            picture_left(width, dx, dy),
            picture_top(height, size),
            size,
            image_dimensions(img).1 as int,
            x,
            y,
        )
    }
}

/// A fixed-point number rounded to the nearest whole number that a 32-bit signed integer
/// holds.
fn round_to_pixel(v: i128) -> (p: i32)
    requires
        -0x4000_0000_0000_0000_0000_0000_0000_0000 <= v <= 0x4000_0000_0000_0000_0000_0000_0000_0000,
    ensures
        p == clamp_i32(rounded(v as int)),
{
    let r: i128 = if v >= 0 {
        (v + 32768) / 65536
    } else {
        -((-v + 32768) / 65536)
    };
    if r < i32::MIN as i128 {
        i32::MIN
    } else if r > i32::MAX as i128 {
        i32::MAX
    } else {
        r as i32
    }
}

/// The distance of a wanderer that is `dx` east and `dy` south of the player, if it is less
/// than 2^62.
fn range(dx: i128, dy: i128) -> (d: Option<i64>)
    requires
        -0x1_0000_0000_0000_0000 <= dx <= 0x1_0000_0000_0000_0000,
        -0x1_0000_0000_0000_0000 <= dy <= 0x1_0000_0000_0000_0000,
    ensures
        match d {
            Some(dist) => dist == length(dx as int, dy as int),
            None => length(dx as int, dy as int) >= 0x4000_0000_0000_0000,
        },
{
    let far: i128 = 0x4000_0000_0000_0000;
    if dx >= far || dx <= -far || dy >= far || dy <= -far {
        proof {
            let m = if dx >= far || dx <= -far {
                magnitude(dx as int)
            } else {
                magnitude(dy as int)
            };
            assert(m * m <= dx * dx + dy * dy) by (nonlinear_arith)
                requires
                    m == dx || m == -dx || m == dy || m == -dy,
            ;
            lemma_sqrt_at_least(m, dx * dx + dy * dy);
        }
        return None;
    }
    let d: u64 = distance(dx as i64, dy as i64);
    if d >= far as u64 {
        None
    } else {
        Some(d as i64)
    }
}

impl Enemy {
    /// A wanderer at (`x`, `y`) that shows the first of the pictures `sprites`.
    pub fn new(x: i64, y: i64, sprites: Vec<DynamicImage>) -> (e: Enemy)
        ensures
            e.x == x,
            e.y == y,
            e.sprite_index == 0,
            e.sprites == sprites,
    {
        Enemy { x, y, sprite_index: 0, sprites }
    }

    /// Shows the next picture, and after the last the first again.
    pub fn animate(&mut self)
        requires
            old(self).sprites@.len() > 0,
        ensures
            final(self).sprite_index == (old(self).sprite_index + 1) % (old(self).sprites@.len() as int),
            final(self).x == old(self).x,
            final(self).y == old(self).y,
            final(self).sprites == old(self).sprites,
    {
        let n: u128 = self.sprites.len() as u128;
        self.sprite_index = ((self.sprite_index as u128 + 1) % n) as usize;
    }

    /// Whether `after` is what becomes of `self` when it is pushed by (`dx`, `dy`): it has
    /// moved by one and a half times the push if it can be there, and not at all if it cannot.
    pub open spec fn pushed(&self, after: &Enemy, dx: int, dy: int, maze: &Vec<Vec<char>>, block_size: int) -> bool {
        let nx = self.x + stride(dx);
        let ny = self.y + stride(dy);
        &&& after.sprite_index == self.sprite_index
        &&& after.sprites == self.sprites
        &&& if blocked(maze, block_size, nx, ny) {
            after.x == self.x && after.y == self.y
        } else {
            after.x == nx && after.y == ny
        }
    }

    /// Moves by one and a half times (`dx`, `dy`), unless the wanderer cannot be there.
    pub fn push(&mut self, dx: i64, dy: i64, maze: &Vec<Vec<char>>, block_size: usize)
        requires
            block_size > 0,
        ensures
            old(self).pushed(final(self), dx as int, dy as int, maze, block_size as int),
            !blocked(maze, block_size as int, old(self).x as int, old(self).y as int) ==> !blocked(
                maze,
                block_size as int,
                final(self).x as int,
                final(self).y as int,
            ),
    {
        let nx: i128 = self.x as i128 + div_floor(3 * (dx as i128), 2);
        let ny: i128 = self.y as i128 + div_floor(3 * (dy as i128), 2);
        if !is_wall(nx, ny, maze, block_size) {
            self.x = nx as i64;
            self.y = ny as i64;
        }
    }

    /// Moves by a random step of up to one and a half world units along each axis, unless
    /// the wanderer cannot be where the step leads. A wanderer on open floor stays on open
    /// floor.
    pub fn update(&mut self, maze: &Vec<Vec<char>>, block_size: usize)
        requires
            block_size > 0,
        ensures
            exists|dx: int, dy: int|
                -ONE <= dx < ONE && -ONE <= dy < ONE && #[trigger] old(self).pushed(
                    final(self),
                    dx,
                    dy,
                    maze,
                    block_size as int,
                ),
            !blocked(maze, block_size as int, old(self).x as int, old(self).y as int) ==> !blocked(
                maze,
                block_size as int,
                final(self).x as int,
                final(self).y as int,
            ),
    {
        let dx: i64 = random_between(-ONE, ONE);
        let dy: i64 = random_between(-ONE, ONE);
        self.push(dx, dy, maze, block_size);
        assert(old(self).pushed(self, dx as int, dy as int, maze, block_size as int));
    }

    /// Draws the picture that is shown, for a player at `player`, on a surface that is said to
    /// be `width` x `height` pixels large.
    pub fn draw_3d(&self, fb: &mut Framebuffer, player: &Player, width: usize, height: usize)
        requires
            self.sprite_index < self.sprites@.len(),
        ensures
            final(fb).same_size(old(fb)),
            forall|x: int, y: int|
                final(fb).in_bounds(x, y) ==> #[trigger] final(fb).pixel(x, y) == (match enemy_pixel(
                    self.sprites@[self.sprite_index as int],
                    self.x as int,
                    self.y as int,
                    player.pos.x() as int,
                    player.pos.y() as int,
                    width as int,
                    height as int,
                    x,
                    y,
                ) {
                    Some(color) => color,
                    None => old(fb).pixel(x, y),
                }),
    {
        let sprite: &DynamicImage = &self.sprites[self.sprite_index];
        if !image_whole(sprite) {
            return;
        }
        let dx: i128 = self.x as i128 - player.pos.x() as i128;
        let dy: i128 = self.y as i128 - player.pos.y() as i128;
        let size: i64 = match range(dx, dy) {
            Some(dist) => {
                if dist < NEAREST {
                    return;
                }
                proof {
                    crate::fixed::lemma_quotient_bound(SIZE_AT_ONE * ONE, dist as int);
                    vstd::arithmetic::div_mod::lemma_div_is_ordered_by_denominator(
                        SIZE_AT_ONE * ONE,
                        NEAREST as int,
                        dist as int,
                    );
                }
                let s: i64 = (SIZE_AT_ONE * ONE) / dist;
                if s > LEAST_SIZE {
                    s
                } else {
                    LEAST_SIZE
                }
            },
            None => {
                proof {
                    let dist = length(dx as int, dy as int);
                    vstd::arithmetic::div_mod::lemma_div_is_ordered_by_denominator(
                        SIZE_AT_ONE * ONE,
                        0x4000_0000_0000_0000,
                        dist,
                    );
                }
                LEAST_SIZE
            },
        };
        let left: i32 = round_to_pixel(width as i128 * 32768 + dx - dy);
        let top: i32 = round_to_pixel(height as i128 * 32768 - (size / 2) as i128);
        let (sw, sh) = image_size(sprite);
        let mut sy: u32 = 0;
        while sy < sh
            invariant
                fb.same_size(old(fb)),
                sy <= sh,
                image_is_whole(*sprite),
                (sw, sh) == image_dimensions(*sprite),
                LEAST_SIZE <= size <= 40 * ONE,
                forall|x: int, y: int|
                    fb.in_bounds(x, y) ==> #[trigger] fb.pixel(x, y) == (match picture_pixel(
                        *sprite,
                        left as int,
                        top as int,
                        size as int,
                        sy as int,
                        x,
                        y,
                    ) {
                        Some(color) => color,
                        None => old(fb).pixel(x, y),
                    }),
            decreases sh - sy,
        {
            let ghost before = *fb;
            let mut sx: u32 = 0;
            while sx < sw
                invariant
                    fb.same_size(old(fb)),
                    before.same_size(old(fb)),
                    sx <= sw,
                    sy < sh,
                    image_is_whole(*sprite),
                    (sw, sh) == image_dimensions(*sprite),
                    LEAST_SIZE <= size <= 40 * ONE,
                    forall|x: int, y: int|
                        fb.in_bounds(x, y) ==> #[trigger] fb.pixel(x, y) == (match picture_row_pixel(
                            *sprite,
                            left as int,
                            top as int,
                            size as int,
                            sy as int,
                            sx as int,
                            x,
                            y,
                        ) {
                            Some(color) => color,
                            None => before.pixel(x, y),
                        }),
                decreases sw - sx,
            {
                let p = image_rgba(sprite, sx, sy);
                if p.3 != 0 {
                    assert(0 <= sx * size <= 0xffff_ffff * (40 * ONE) && 0 <= sy * size
                        <= 0xffff_ffff * (40 * ONE)) by (nonlinear_arith)
                        requires
                            0 <= sx <= 0xffff_ffff,
                            0 <= sy <= 0xffff_ffff,
                            0 <= size <= 40 * ONE,
                    ;
                    proof {
                        crate::fixed::lemma_quotient_bound(sx * size, sw as int);
                        crate::fixed::lemma_quotient_bound(sy * size, sh as int);
                    }
                    let px: i64 = left as i64 + ((sx as i64 * size) / sw as i64) / ONE;
                    let py: i64 = top as i64 + ((sy as i64 * size) / sh as i64) / ONE;
                    fb.plot(px, py, pack(p.0, p.1, p.2));
                }
                sx += 1;
            }
            sy += 1;
        }
    }
}

} // verus!
