//! One frame: sky and ground, the walls column by column, the collectibles over
//! them, and the map in the corner over everything.
//!
//! The renderer evaluates no sine, cosine or arc tangent itself. Whoever calls
//! it hands it the directions of the frame's rays and the bearings of the
//! collectibles; `column_angle` and `sprite_offset` say what to take them of.

use vstd::prelude::*;
use crate::fixed::div_floor;
use crate::framebuffer::Framebuffer;
use crate::minimap::{minimap_pixel, render_minimap};
use crate::player::{Direction, Player};
use crate::raycaster::{cast_ray, ray_hit};
use crate::sprites::{maze_sprites, render_sprites, sprites_pixel};
use crate::textures::Textures;
use crate::walls::{column_pixel, cos_between, cosine_between, render_column};

verus! {

/// The colour of the sky: the upper half of the surface.
pub const SKY: u32 = 0x303050;

/// The colour of the ground: the lower half of the surface.
pub const GROUND: u32 = 0x202020;

/// Where the map of a frame has its corner, from the left and from the top.
pub const MAP_OFFSET: usize = 10;

/// How many pixels wide and high the map of a frame shows a cell.
pub const MAP_SCALE: usize = 4;

/// What a frame needs of trigonometry.
pub struct Sightlines {
    /// The direction of the player's heading.
    pub heading: Direction,
    /// The direction of the ray of each column of the surface, from the left. A column
    /// without a ray shows no wall.
    pub rays: Vec<Direction>,
    /// The angle of the direction from the player to each collectible of the maze, in the
    /// order of `maze_sprites`. A collectible without a bearing is not drawn.
    pub bearings: Vec<i64>,
}

/// The angle of the ray of column `x` of a surface `w` columns wide, for the heading `a` and
/// the field of view `fov`: `a - fov / 2 + fov * x / w`.
pub open spec fn column_angle_of(a: int, fov: int, x: int, w: int) -> int {
    a + (fov * (2 * x - w)) / (2 * w)
}

/// The angle of the ray of column `x` of a surface `w` columns wide, for the heading `a` and
/// the field of view `fov`. The middle column of a surface of even width looks along the
/// heading.
pub fn column_angle(a: i64, fov: i64, x: usize, w: usize) -> (angle: i128)
    requires
        x < w,
    ensures
        angle == column_angle_of(a as int, fov as int, x as int, w as int),
        2 * x == w ==> angle == a,
{
    let k: i128 = 2 * (x as i128) - w as i128;
    assert(-0x7fff_ffff_ffff_ffff_8000_0000_0000_0000 <= fov * k
        <= 0x7fff_ffff_ffff_ffff_8000_0000_0000_0000) by (nonlinear_arith)
        requires
            -0x8000_0000_0000_0000 <= fov <= 0x8000_0000_0000_0000,
            -0xffff_ffff_ffff_ffff <= k <= 0xffff_ffff_ffff_ffff,
    ;
    let n: i128 = fov as i128 * k;
    proof {
        crate::fixed::lemma_quotient_bound(n as int, 2 * w);
        if 2 * x == w {
            assert(fov * k == 0) by (nonlinear_arith)
                requires
                    k == 0,
            ;
        }
    }
    a as i128 + div_floor(n, 2 * (w as i128))
}

/// The colour of the background in row `y` of a surface `h` rows high.
pub open spec fn background_pixel(h: int, y: int) -> u32 {
    if y < h / 2 {
        SKY
    } else {
        GROUND
    }
}

/// Paints the upper half of the surface as sky and the lower half as ground.
pub fn render_background(fb: &mut Framebuffer)
    ensures
        final(fb).same_size(old(fb)),
        forall|x: int, y: int|
            final(fb).in_bounds(x, y) ==> #[trigger] final(fb).pixel(x, y) == background_pixel(
                old(fb).height() as int,
                y,
            ),
{
    let w: usize = fb.width();
    let h: usize = fb.height();
    fb.fill_rect(0, 0, w, h / 2, SKY);
    fb.fill_rect(0, h / 2, w, h - h / 2, GROUND);
}

/// The colour that the walls put into the pixel (`x`, `y`), if any: what the ray of column
/// `x` shows in row `y`, its length measured along the heading.
pub open spec fn walls_pixel(
    textures: &Textures,
    maze: &Vec<Vec<char>>,
    player: &Player,
    block_size: int,
    heading: &Direction,
    rays: Seq<Direction>,
    h: int,
    x: int,
    y: int,
) -> Option<u32> {
    if 0 <= x < rays.len() {
        column_pixel(
            textures,
            ray_hit(maze, player, &rays[x], block_size),
            cos_between(&rays[x], heading),
            block_size,
            h,
            y,
        )
    } else {
        None
    }
}

/// Casts the ray of every column and draws what it shows of a wall. `heading` is the
/// direction in which the player looks.
pub fn render_walls(
    fb: &mut Framebuffer,
    player: &Player,
    maze: &Vec<Vec<char>>,
    block_size: usize,
    textures: &Textures,
    heading: Direction,
    rays: &Vec<Direction>,
)
    requires
        block_size > 0,
    ensures
        final(fb).same_size(old(fb)),
        forall|x: int, y: int|
            final(fb).in_bounds(x, y) ==> #[trigger] final(fb).pixel(x, y) == (match walls_pixel(
                textures,
                maze,
                player,
                block_size as int,
                &heading,
                rays@,
                old(fb).height() as int,
                x,
                y,
            ) {
                Some(color) => color,
                None => old(fb).pixel(x, y),
            }),
{
    let w: usize = fb.width();
    let n: usize = if rays.len() < w {
        rays.len()
    } else {
        w
    };
    let mut x: usize = 0;
    while x < n
        invariant
            block_size > 0,
            fb.same_size(old(fb)),
            x <= n,
            n <= rays@.len(),
            n <= fb.width(),
            n == rays@.len() || n == fb.width(),
            forall|i: int, j: int|
                fb.in_bounds(i, j) ==> #[trigger] fb.pixel(i, j) == (if i < x {
                    match walls_pixel(
                        textures,
                        maze,
                        player,
                        block_size as int,
                        &heading,
                        rays@,
                        old(fb).height() as int,
                        i,
                        j,
                    ) {
                        Some(color) => color,
                        None => old(fb).pixel(i, j),
                    }
                } else {
                    old(fb).pixel(i, j)
                }),
        decreases n - x,
    {
        let ray: Direction = rays[x];
        let hit = cast_ray(maze, player, ray, block_size);
        render_column(fb, x, &hit, cosine_between(&ray, &heading), block_size, textures);
        x += 1;
    }
}

/// The colour of the pixel (`x`, `y`) of a frame: that of the map where the map is, else that
/// of a collectible where one is seen, else that of a wall where one is seen, else that of sky
/// or ground.
pub open spec fn frame_pixel(
    textures: &Textures,
    maze: &Vec<Vec<char>>,
    player: &Player,
    block_size: int,
    sight: &Sightlines,
    w: int,
    h: int,
    x: int,
    y: int,
) -> u32 {
    match minimap_pixel(
        maze,
        player,
        &sight.heading,
        MAP_OFFSET as int,
        MAP_OFFSET as int,
        MAP_SCALE as int,
        block_size,
        x,
        y,
    ) {
        Some(color) => color,
        None => match sprites_pixel(
            textures,
            player,
            w,
            h,
            block_size,
            maze_sprites(maze),
            sight.bearings@,
            maze_sprites(maze).len() as int,
            x,
            y,
        ) {
            Some(color) => color,
            None => match walls_pixel(
                textures,
                maze,
                player,
                block_size,
                &sight.heading,
                sight.rays@,
                h,
                x,
                y,
            ) {
                Some(color) => color,
                None => background_pixel(h, y),
            },
        },
    }
}

/// Draws one frame over the whole surface.
pub fn render3d(
    framebuffer: &mut Framebuffer,
    player: &Player,
    maze: &Vec<Vec<char>>,
    block_size: usize,
    textures: &Textures,
    sight: &Sightlines,
)
    requires
        block_size > 0,
    ensures
        final(framebuffer).same_size(old(framebuffer)),
        forall|x: int, y: int|
            final(framebuffer).in_bounds(x, y) ==> #[trigger] final(framebuffer).pixel(x, y)
                == frame_pixel(
                textures,
                maze,
                player,
                block_size as int,
                sight,
                old(framebuffer).width() as int,
                old(framebuffer).height() as int,
                x,
                y,
            ),
{
    render_background(framebuffer);
    render_walls(framebuffer, player, maze, block_size, textures, sight.heading, &sight.rays);
    render_sprites(framebuffer, player, maze, block_size, textures, &sight.bearings);
    render_minimap(
        framebuffer,
        player,
        sight.heading,
        maze,
        MAP_OFFSET,
        MAP_OFFSET,
        MAP_SCALE,
        block_size,
    );
}

} // verus!
