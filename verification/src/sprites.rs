//! Collectibles as billboards: flat squares that always face the camera.
//!
//! A collectible stands in the centre of its cell. It is seen if the angle from
//! the heading to it is less than half the field of view and it is more than
//! half a unit away. Its square is `block_size * (height / 2) / distance` pixels
//! wide and high, centred on the middle row.

use vstd::prelude::*;
use crate::fixed::{
    div_floor, is_sqrt, isqrt, lemma_scaled_quotient, magnitude, normalized, relative_angle,
    sqrt_floor, COORD_MAX, HALF, ONE, PI,
};
use crate::framebuffer::Framebuffer;
use crate::map::is_collectible;
use crate::player::Player;
use crate::textures::{clamp_coord, Textures, COORD_LIMIT, TRANSPARENT};
use crate::walls::{half_height, wall_height};

verus! {

/// A collectible of the maze: the column and the row of its cell, and its kind.
#[derive(Clone, Copy, Debug, PartialEq, Eq, Structural)]
pub struct Sprite {
    pub col: usize,
    pub row: usize,
    pub kind: char,
}

/// The collectibles among the first `n` cells of the row `row`, which is row `j` of its
/// maze, from left to right.
pub open spec fn row_sprites(row: Seq<char>, j: int, n: int) -> Seq<Sprite>
    decreases n,
{
    if n <= 0 {
        Seq::empty()
    } else if is_collectible(row[n - 1]) {
        row_sprites(row, j, n - 1).push(
            Sprite { col: (n - 1) as usize, row: j as usize, kind: row[n - 1] },
        )
    } else {
        row_sprites(row, j, n - 1)
    }
}

/// The collectibles in the first `m` rows of `maze`, row by row from the top.
pub open spec fn sprites_above(maze: &Vec<Vec<char>>, m: int) -> Seq<Sprite>
    decreases m,
{
    if m <= 0 {
        Seq::empty()
    } else {
        sprites_above(maze, m - 1) + row_sprites(maze@[m - 1]@, m - 1, maze@[m - 1]@.len() as int)
    }
}

/// The collectibles of `maze` in the order in which they are drawn: row by row from the top,
/// each row from left to right.
pub open spec fn maze_sprites(maze: &Vec<Vec<char>>) -> Seq<Sprite> {
    sprites_above(maze, maze@.len() as int)
}

/// Whether `s` is a collectible cell of `maze`.
pub open spec fn is_sprite_of(maze: &Vec<Vec<char>>, s: Sprite) -> bool {
    &&& 0 <= s.row < maze@.len()
    &&& 0 <= s.col < maze@[s.row as int]@.len()
    &&& maze@[s.row as int]@[s.col as int] == s.kind
    &&& is_collectible(s.kind)
}

/// Whether `s` is drawn before `t`: whether it stands in a row further up, or in the same row
/// further left.
pub open spec fn drawn_before(s: Sprite, t: Sprite) -> bool {
    s.row < t.row || (s.row == t.row && s.col < t.col)
}

/// The collectibles among the first `n` cells of a row are the collectible cells among them,
/// each once, from left to right.
pub proof fn lemma_row_sprites(row: Seq<char>, j: int, n: int)
    requires
        0 <= n <= row.len() <= usize::MAX,
        0 <= j <= usize::MAX,
    ensures
        forall|k: int|
            0 <= k < row_sprites(row, j, n).len() ==> {
                let s = #[trigger] row_sprites(row, j, n)[k];
                &&& s.row == j
                &&& 0 <= s.col < n
                &&& s.kind == row[s.col as int]
                &&& is_collectible(s.kind)
            },
        forall|a: int, b: int|
            0 <= a < b < row_sprites(row, j, n).len() ==> (#[trigger] row_sprites(row, j, n)[a]).col
                < (#[trigger] row_sprites(row, j, n)[b]).col,
        forall|i: int|
            0 <= i < n && is_collectible(#[trigger] row[i]) ==> row_sprites(row, j, n).contains(
                Sprite { col: i as usize, row: j as usize, kind: row[i] },
            ),
    decreases n,
{
    if n > 0 {
        lemma_row_sprites(row, j, n - 1);
        let before = row_sprites(row, j, n - 1);
        let all = row_sprites(row, j, n);
        assert forall|i: int| 0 <= i < n && is_collectible(#[trigger] row[i]) implies all.contains(
            Sprite { col: i as usize, row: j as usize, kind: row[i] },
        ) by {
            let s = Sprite { col: i as usize, row: j as usize, kind: row[i] };
            if i < n - 1 {
                let k = choose|k: int| 0 <= k < before.len() && before[k] == s;
                assert(all[k] == s);
            } else {
                assert(all[all.len() - 1] == s);
            }
        }
    }
}

/// The collectibles in the first `m` rows of a maze are the collectible cells of those rows,
/// each once, row by row and from left to right.
pub proof fn lemma_sprites_above(maze: &Vec<Vec<char>>, m: int)
    requires
        0 <= m <= maze@.len(),
    ensures
        forall|k: int|
            0 <= k < sprites_above(maze, m).len() ==> is_sprite_of(
                maze,
                #[trigger] sprites_above(maze, m)[k],
            ) && sprites_above(maze, m)[k].row < m,
        forall|a: int, b: int|
            0 <= a < b < sprites_above(maze, m).len() ==> drawn_before(
                #[trigger] sprites_above(maze, m)[a],
                #[trigger] sprites_above(maze, m)[b],
            ),
        forall|i: int, j: int|
            0 <= j < m && 0 <= i < maze@[j]@.len() && is_collectible(#[trigger] maze@[j]@[i])
                ==> sprites_above(maze, m).contains(
                Sprite { col: i as usize, row: j as usize, kind: maze@[j]@[i] },
            ),
    decreases m,
{
    if m > 0 {
        lemma_sprites_above(maze, m - 1);
        let row = maze@[m - 1]@;
        assert(row.len() == maze@[m - 1].len());
        assert(maze@.len() == maze.len());
        lemma_row_sprites(row, m - 1, row.len() as int);
        let above = sprites_above(maze, m - 1);
        let here = row_sprites(row, m - 1, row.len() as int);
        let all = sprites_above(maze, m);
        assert(all == above + here);
        assert forall|k: int| 0 <= k < all.len() implies is_sprite_of(maze, #[trigger] all[k])
            && all[k].row < m by {
            if k >= above.len() {
                assert(all[k] == here[k - above.len()]);
            } else {
                assert(all[k] == above[k]);
            }
        }
        assert forall|a: int, b: int| 0 <= a < b < all.len() implies drawn_before(
            #[trigger] all[a],
            #[trigger] all[b],
        ) by {
            if a >= above.len() {
                assert(all[a] == here[a - above.len()]);
                assert(all[b] == here[b - above.len()]);
            } else if b >= above.len() {
                assert(all[a] == above[a]);
                assert(all[b] == here[b - above.len()]);
            } else {
                assert(all[a] == above[a]);
                assert(all[b] == above[b]);
            }
        }
        assert forall|i: int, j: int|
            0 <= j < m && 0 <= i < maze@[j]@.len() && is_collectible(
                #[trigger] maze@[j]@[i],
            ) implies all.contains(
            Sprite { col: i as usize, row: j as usize, kind: maze@[j]@[i] },
        ) by {
            let s = Sprite { col: i as usize, row: j as usize, kind: maze@[j]@[i] };
            if j < m - 1 {
                let k = choose|k: int| 0 <= k < above.len() && above[k] == s;
                assert(all[k] == s);
            } else {
                assert(is_collectible(row[i]));
                let k = choose|k: int| 0 <= k < here.len() && here[k] == s;
                assert(all[above.len() + k] == s);
            }
        }
    }
}

/// The collectibles of a maze are its collectible cells, each once, in the order in which
/// they are drawn: row by row from the top, each row from left to right.
pub proof fn lemma_maze_sprites(maze: &Vec<Vec<char>>)
    ensures
        forall|k: int|
            0 <= k < maze_sprites(maze).len() ==> is_sprite_of(
                maze,
                #[trigger] maze_sprites(maze)[k],
            ),
        forall|a: int, b: int|
            0 <= a < b < maze_sprites(maze).len() ==> drawn_before(
                #[trigger] maze_sprites(maze)[a],
                #[trigger] maze_sprites(maze)[b],
            ),
        forall|i: int, j: int|
            0 <= j < maze@.len() && 0 <= i < maze@[j]@.len() && is_collectible(
                #[trigger] maze@[j]@[i],
            ) ==> maze_sprites(maze).contains(
                Sprite { col: i as usize, row: j as usize, kind: maze@[j]@[i] },
            ),
{
    lemma_sprites_above(maze, maze@.len() as int);
}

/// The collectibles of `maze` in the order in which they are drawn.
pub fn find_sprites(maze: &Vec<Vec<char>>) -> (found: Vec<Sprite>)
    ensures
        found@ == maze_sprites(maze),
{
    let mut found: Vec<Sprite> = Vec::new();
    let mut j: usize = 0;
    while j < maze.len()
        invariant
            j <= maze@.len(),
            found@ == sprites_above(maze, j as int),
        decreases maze@.len() - j,
    {
        let row: &Vec<char> = &maze[j];
        let ghost above = found@;
        let mut i: usize = 0;
        while i < row.len()
            invariant
                i <= row@.len(),
                j < maze@.len(),
                row@ == maze@[j as int]@,
                above == sprites_above(maze, j as int),
                found@ == above + row_sprites(row@, j as int, i as int),
            decreases row@.len() - i,
        {
            let c: char = row[i];
            if c == '1' || c == '2' || c == '3' {
                found.push(Sprite { col: i, row: j, kind: c });
                assert(found@ == above + row_sprites(row@, j as int, i + 1));
            }
            i += 1;
        }
        j += 1;
    }
    found
}

/// The fixed-point coordinate of the centre of the cell with the given index along one
/// axis.
pub open spec fn cell_center(index: int, block_size: int) -> int {
    index * block_size * ONE + block_size * HALF
}

/// The centre of the cell with the given index, if it lies in the world.
pub fn center_of(index: usize, block_size: usize) -> (c: Option<i64>)
    ensures
        c == (if cell_center(index as int, block_size as int) <= COORD_MAX {
            Some(cell_center(index as int, block_size as int) as i64)
        } else {
            None
        }),
        c is Some ==> 0 <= c->0 <= COORD_MAX && block_size * HALF <= COORD_MAX,
{
    // the centre is (2 * index + 1) * block_size * HALF
    let limit: u128 = (COORD_MAX / HALF) as u128;
    let k: u128 = 2 * (index as u128) + 1;
    let b: u128 = block_size as u128;
    proof {
        assert(cell_center(index as int, block_size as int) == k * b * HALF) by (nonlinear_arith)
            requires
                k == 2 * index + 1,
                b == block_size,
                cell_center(index as int, block_size as int) == index * block_size * 65536
                    + block_size * 32768,
                HALF == 32768,
        ;
        if b > limit {
            assert(k * b * HALF > COORD_MAX) by (nonlinear_arith)
                requires
                    k >= 1,
                    b > limit,
                    limit == COORD_MAX / HALF,
                    HALF == 32768,
                    COORD_MAX == 0x3fff_ffff_ffff_ffff,
            ;
        } else {
            assert(k * b <= 0x2_0000_0000_0000_0000 * limit) by (nonlinear_arith)
                requires
                    0 <= k <= 0x2_0000_0000_0000_0000,
                    0 <= b <= limit,
            ;
        }
    }
    if b > limit {
        return None;
    }
    let kb: u128 = k * b;
    if kb > limit {
        return None;
    }
    Some((kb * 32768) as i64)
}

/// Where the collectible `sprite` stands.
pub open spec fn sprite_x(sprite: Sprite, block_size: int) -> int {
    cell_center(sprite.col as int, block_size)
}

/// Where the collectible `sprite` stands.
pub open spec fn sprite_y(sprite: Sprite, block_size: int) -> int {
    cell_center(sprite.row as int, block_size)
}

/// Whether the collectible `sprite` stands in the world.
pub open spec fn sprite_in_world(sprite: Sprite, block_size: int) -> bool {
    sprite_x(sprite, block_size) <= COORD_MAX && sprite_y(sprite, block_size) <= COORD_MAX
}

/// The distance between two points that are `dx` and `dy` apart along the axes.
pub open spec fn length(dx: int, dy: int) -> int {
    sqrt_floor(dx * dx + dy * dy)
}

/// How far east and south of the player the collectible `sprite` stands, if it stands in
/// the world.
pub fn sprite_offset(player: &Player, sprite: &Sprite, block_size: usize) -> (offset: Option<
    (i64, i64),
>)
    ensures
        offset == (if sprite_in_world(*sprite, block_size as int) {
            Some(
                (
                    (sprite_x(*sprite, block_size as int) - player.pos.x()) as i64,
                    (sprite_y(*sprite, block_size as int) - player.pos.y()) as i64,
                ),
            )
        } else {
            None
        }),
        sprite_in_world(*sprite, block_size as int) ==> {
            &&& i64::MIN <= sprite_x(*sprite, block_size as int) - player.pos.x() <= i64::MAX
            &&& i64::MIN <= sprite_y(*sprite, block_size as int) - player.pos.y() <= i64::MAX
            &&& block_size * HALF <= COORD_MAX
        },
{
    let px: i64 = player.pos.x();
    let py: i64 = player.pos.y();
    match center_of(sprite.col, block_size) {
        Some(cx) => match center_of(sprite.row, block_size) {
            Some(cy) => Some((cx - px, cy - py)),
            None => None,
        },
        None => None,
    }
}

/// The distance between two points that are `dx` and `dy` apart along the axes.
pub fn distance(dx: i64, dy: i64) -> (d: u64)
    ensures
        d == length(dx as int, dy as int),
        is_sqrt(d as int, dx * dx + dy * dy),
{
    let ax: u128 = if dx < 0 {
        (-(dx as i128)) as u128
    } else {
        dx as u128
    };
    let ay: u128 = if dy < 0 {
        (-(dy as i128)) as u128
    } else {
        dy as u128
    };
    assert(ax * ax == dx * dx && ax * ax <= 0x4000_0000_0000_0000_0000_0000_0000_0000)
        by (nonlinear_arith)
        requires
            ax == dx || ax == -dx,
            0 <= ax <= 0x8000_0000_0000_0000,
    ;
    assert(ay * ay == dy * dy && ay * ay <= 0x4000_0000_0000_0000_0000_0000_0000_0000)
        by (nonlinear_arith)
        requires
            ay == dy || ay == -dy,
            0 <= ay <= 0x8000_0000_0000_0000,
    ;
    isqrt(ax * ax + ay * ay)
}

/// Whether a collectible in a maze of cell size `block_size` is seen at the angle `angle`
/// from the heading and the distance `dist`, with the field of view `fov`.
///
/// A cell so large that its own centre lies outside the world is never seen.
pub open spec fn sprite_visible(block_size: int, angle: int, dist: int, fov: int) -> bool {
    block_size * HALF <= COORD_MAX && 2 * magnitude(angle) < fov && dist > HALF
}

/// The width and height, in whole pixels, of the square of a collectible at the distance
/// `dist`.
pub open spec fn sprite_size(block_size: int, h: int, dist: int) -> int {
    (block_size * half_height(h)) / dist
}

/// A collectible is as large as a wall at its distance is high: the side of its square is
/// the whole part of the height of such a wall.
pub proof fn lemma_size_is_wall_height(block_size: int, h: int, dist: int)
    requires
        block_size >= 0,
        h >= 0,
        dist > 0,
    ensures
        sprite_size(block_size, h, dist) == wall_height(block_size, h, dist) / (ONE as int),
{
    let n = block_size * half_height(h);
    assert(n >= 0) by (nonlinear_arith)
        requires
            n == block_size * (h * HALF),
            block_size >= 0,
            h >= 0,
    ;
    assert(block_size * half_height(h) * ONE == n * ONE);
    // (n * ONE / dist) / ONE == n / dist
    vstd::arithmetic::div_mod::lemma_div_denominator(n * ONE, dist, ONE as int);
    vstd::arithmetic::div_mod::lemma_div_denominator(n * ONE, ONE as int, dist);
    assert(dist * ONE == ONE * dist) by (nonlinear_arith);
    assert((n * ONE) / (ONE as int) == n);
}

/// The column of the middle of the square, as a fixed-point number: the fraction
/// `1/2 + angle / fov` of the surface's width.
pub open spec fn screen_center(w: int, angle: int, fov: int) -> int {
    w * HALF + (w * angle * ONE) / fov
}

/// The larger of two numbers.
pub open spec fn max(a: int, b: int) -> int {
    if a > b {
        a
    } else {
        b
    }
}

/// The smaller of two numbers.
pub open spec fn min(a: int, b: int) -> int {
    if a < b {
        a
    } else {
        b
    }
}

/// The square of a collectible on the surface.
///
/// It covers the columns from `left` up to, but not including, `right`, and the rows from
/// `top` up to, but not including, `bottom`. `size` is the side of the unclipped square in
/// pixels, (`origin_x`, `origin_y`) its top left corner in fixed-point pixels.
#[derive(Clone, Copy, Debug)]
pub struct Billboard {
    pub left: usize,
    pub right: usize,
    pub top: usize,
    pub bottom: usize,
    pub size: u128,
    pub origin_x: i128,
    pub origin_y: i128,
}

/// The square of a collectible seen at the angle `angle` and the distance `dist`.
pub open spec fn billboard(w: int, h: int, block_size: int, angle: int, dist: int, fov: int) -> Billboard {
    let size = sprite_size(block_size, h, dist);
    let half = size / 2;
    let center = screen_center(w, angle, fov);
    let cx = center / (ONE as int);
    let cy = h / 2;
    Billboard {
        left: max(cx - half, 0) as usize,
        right: max(min(cx + half, w), 0) as usize,
        top: max(cy - half, 0) as usize,
        bottom: max(min(cy + half, h), 0) as usize,
        size: size as u128,
        origin_x: (center - half * ONE) as i128,
        origin_y: (half_height(h) - half * ONE) as i128,
    }
}

/// Whether the square `b` lies on a surface of `w` x `h` pixels and its numbers are small
/// enough to compute with: as it is of every square that `project_sprite` returns.
pub open spec fn fits(b: Billboard, w: int, h: int) -> bool {
    &&& b.right <= w
    &&& b.bottom <= h
    &&& b.size < 0x8000_0000_0000_0000_0000_0000_0000
    &&& -0x4000_0000_0000_0000_0000_0000_0000_0000 <= b.origin_x
        <= 0x4000_0000_0000_0000_0000_0000_0000_0000
    &&& -0x4000_0000_0000_0000_0000_0000_0000_0000 <= b.origin_y
        <= 0x4000_0000_0000_0000_0000_0000_0000_0000
    &&& b.size == 0 ==> b.right <= b.left
}

/// Whether the pixel (`x`, `y`) lies in the clipped square `b`.
pub open spec fn covers(b: Billboard, x: int, y: int) -> bool {
    b.left <= x < b.right && b.top <= y < b.bottom
}

/// The texture coordinate of the pixel column (or row) `p` in a square of `size` pixels
/// that begins at the fixed-point pixel `origin`.
pub open spec fn sprite_coord(p: int, origin: int, size: int) -> int {
    (p * ONE - origin) / size
}

/// The colour of the image of a collectible of kind `kind` where the pixel (`x`, `y`) falls
/// into the square `b`.
pub open spec fn billboard_color(textures: &Textures, kind: char, b: Billboard, x: int, y: int) -> u32 {
    textures.sprite_color(
        kind,
        sprite_coord(x, b.origin_x as int, b.size as int),
        sprite_coord(y, b.origin_y as int, b.size as int),
    )
}

/// The colour that a collectible of kind `kind` with the square `b` puts into the pixel
/// (`x`, `y`), if any: that of its image there, unless the pixel is outside the square or
/// the image is transparent there.
pub open spec fn billboard_paint(textures: &Textures, kind: char, b: Billboard, x: int, y: int) -> Option<
    u32,
> {
    if covers(b, x, y) && billboard_color(textures, kind, b, x, y) != TRANSPARENT {
        Some(billboard_color(textures, kind, b, x, y))
    } else {
        None
    }
}

/// The colour that a collectible of kind `kind`, seen at the angle `angle` and the distance
/// `dist`, puts into the pixel (`x`, `y`), if any.
pub open spec fn billboard_pixel(
    textures: &Textures,
    kind: char,
    w: int,
    h: int,
    block_size: int,
    angle: int,
    dist: int,
    fov: int,
    x: int,
    y: int,
) -> Option<u32> {
    if sprite_visible(block_size, angle, dist, fov) {
        billboard_paint(textures, kind, billboard(w, h, block_size, angle, dist, fov), x, y)
    } else {
        None
    }
}

/// The colour that the collectible `sprite`, whose direction from the player has the angle
/// `bearing`, puts into the pixel (`x`, `y`), if any.
pub open spec fn sprite_pixel(
    textures: &Textures,
    player: &Player,
    w: int,
    h: int,
    block_size: int,
    sprite: Sprite,
    bearing: int,
    x: int,
    y: int,
) -> Option<u32> {
    if sprite_in_world(sprite, block_size) {
        billboard_pixel(
            textures,
            sprite.kind,
            w,
            h,
            block_size,
            normalized(bearing - player.a),
            length(
                sprite_x(sprite, block_size) - player.pos.x(),
                sprite_y(sprite, block_size) - player.pos.y(),
            ),
            player.fov as int,
            x,
            y,
        )
    } else {
        None
    }
}

/// The colour that the first `n` of the collectibles `sprites` put into the pixel
/// (`x`, `y`), if any. Collectible `k` has the bearing `bearings[k]`; one without a bearing is
/// not drawn. A later collectible is drawn over an earlier one.
pub open spec fn sprites_pixel(
    textures: &Textures,
    player: &Player,
    w: int,
    h: int,
    block_size: int,
    sprites: Seq<Sprite>,
    bearings: Seq<i64>,
    n: int,
    x: int,
    y: int,
) -> Option<u32>
    decreases n,
{
    if n <= 0 {
        None
    } else {
        let last = if n - 1 < sprites.len() && n - 1 < bearings.len() {
            sprite_pixel(
                textures,
                player,
                w,
                h,
                block_size,
                sprites[n - 1],
                bearings[n - 1] as int,
                x,
                y,
            )
        } else {
            None
        };
        match last {
            Some(color) => Some(color),
            None => sprites_pixel(textures, player, w, h, block_size, sprites, bearings, n - 1, x, y),
        }
    }
}

/// The side of the square of a collectible at the distance `dist`.
fn side(block_size: usize, h: usize, dist: u64) -> (size: u128)
    requires
        block_size * HALF <= COORD_MAX,
        dist > HALF,
    ensures
        size == sprite_size(block_size as int, h as int, dist as int),
        size < 0x8000_0000_0000_0000_0000_0000_0000,
{
    assert(block_size * h <= 0x8000_0000_0000 * 0xffff_ffff_ffff_ffff) by (nonlinear_arith)
        requires
            0 <= block_size <= 0x8000_0000_0000,
            0 <= h <= 0xffff_ffff_ffff_ffff,
    ;
    let bh: u128 = block_size as u128 * h as u128;
    let d: u128 = dist as u128;
    let q: u128 = bh / d;
    let r: u128 = bh % d;
    proof {
        lemma_scaled_quotient(bh as int, HALF as int, d as int);
        assert(block_size * half_height(h as int) == bh * HALF) by (nonlinear_arith)
            requires
                bh == block_size * h,
                half_height(h as int) == h * HALF,
        ;
        vstd::arithmetic::div_mod::lemma_fundamental_div_mod(bh as int, d as int);
        assert(q * HALF <= bh) by (nonlinear_arith)
            requires
                bh == d * q + r,
                r >= 0,
                q >= 0,
                d > HALF,
                HALF > 0,
        ;
        assert(0 <= r * HALF <= d * HALF) by (nonlinear_arith)
            requires
                0 <= r < d,
                HALF > 0,
        ;
        vstd::arithmetic::div_mod::lemma_div_is_ordered(r * HALF, d * HALF, d as int);
        vstd::arithmetic::div_mod::lemma_div_multiples_vanish(HALF as int, d as int);
        vstd::arithmetic::div_mod::lemma_div_pos_is_pos(r * HALF, d as int);
        assert(d * HALF == HALF * d) by (nonlinear_arith);
    }
    q * 32768 + (r * 32768) / d
}

/// The column of the middle of the square of a collectible at the angle `angle`.
fn middle(w: usize, angle: i64, fov: i64) -> (center: i128)
    requires
        2 * magnitude(angle as int) < fov,
        -PI < angle <= PI,
    ensures
        center == screen_center(w as int, angle as int, fov as int),
        0 <= center <= w * ONE,
{
    assert(-0x4_0000 * w <= w * angle <= 0x4_0000 * w) by (nonlinear_arith)
        requires
            -0x4_0000 <= angle <= 0x4_0000,
            0 <= w,
    ;
    let shift: i128 = div_floor(w as i128 * angle as i128 * 65536, fov as i128);
    proof {
        let n = w * angle * ONE;
        let m = w * HALF;
        assert(-m * fov <= n <= m * fov) by (nonlinear_arith)
            requires
                n == w * angle * 65536,
                m == w * 32768,
                2 * magnitude(angle as int) < fov,
                w >= 0,
        ;
        vstd::arithmetic::div_mod::lemma_div_is_ordered(-m * fov, n, fov as int);
        vstd::arithmetic::div_mod::lemma_div_is_ordered(n, m * fov, fov as int);
        vstd::arithmetic::div_mod::lemma_div_multiples_vanish(m, fov as int);
        vstd::arithmetic::div_mod::lemma_div_multiples_vanish(-m, fov as int);
        assert(m * fov == fov * m) by (nonlinear_arith);
        assert(-m * fov == fov * (-m)) by (nonlinear_arith);
    }
    w as i128 * 32768 + shift
}

/// The first column (or row) and the one after the last of a square whose middle is `c` and
/// whose half side is `half`, clipped to a surface of `n` columns (or rows).
fn clip(c: i128, half: u128, n: usize) -> (range: (usize, usize))
    requires
        0 <= c <= n,
    ensures
        range.0 == max(c - half, 0),
        range.1 == max(min(c + half, n as int), 0),
        range.1 <= n,
        half == 0 ==> range.1 <= range.0,
{
    // a half side beyond the surface is as good as any other
    let reach: i128 = if half > 0x1_0000_0000_0000_0000 {
        0x1_0000_0000_0000_0000
    } else {
        half as i128
    };
    let first: i128 = if c - reach > 0 {
        c - reach
    } else {
        0
    };
    let edge: i128 = if c + reach < n as i128 {
        c + reach
    } else {
        n as i128
    };
    let last: i128 = if edge > 0 {
        edge
    } else {
        0
    };
    (first as usize, last as usize)
}

/// The square of a collectible on a surface of `w` x `h` pixels, if it is seen. The collectible
/// stands in the direction `bearing` at the distance `dist`; the player looks along `heading`
/// with the field of view `fov`.
pub fn project_sprite(
    w: usize,
    h: usize,
    block_size: usize,
    bearing: i64,
    heading: i64,
    dist: u64,
    fov: i64,
) -> (b: Option<Billboard>)
    ensures
        b is Some <==> sprite_visible(
            block_size as int,
            normalized(bearing - heading),
            dist as int,
            fov as int,
        ),
        b is Some ==> b->0 == billboard(
            w as int,
            h as int,
            block_size as int,
            normalized(bearing - heading),
            dist as int,
            fov as int,
        ),
        b is Some ==> fits(b->0, w as int, h as int),
{
    let angle: i64 = relative_angle(bearing, heading);
    let mag: i64 = if angle < 0 {
        -angle
    } else {
        angle
    };
    if block_size as u128 > (COORD_MAX / HALF) as u128 || 2 * mag >= fov || dist <= HALF as u64 {
        return None;
    }
    let size: u128 = side(block_size, h, dist);
    let half: u128 = size / 2;
    let center: i128 = middle(w, angle, fov);
    let cx: i128 = center / 65536;
    let cy: i128 = (h / 2) as i128;
    let (left, right) = clip(cx, half, w);
    let (top, bottom) = clip(cy, half, h);
    proof {
        if size == 0 {
            assert(half == 0);
        }
    }
    Some(
        Billboard {
            left,
            right,
            top,
            bottom,
            size,
            origin_x: center - half as i128 * 65536,
            origin_y: h as i128 * 32768 - half as i128 * 65536,
        },
    )
}

/// The texture coordinate of the pixel column (or row) `p` in a square of `size` pixels
/// that begins at the fixed-point pixel `origin`, brought into the range of texture
/// coordinates.
pub fn texture_coord(p: usize, origin: i128, size: u128) -> (t: i64)
    requires
        0 < size < 0x8000_0000_0000_0000_0000_0000_0000,
        -0x4000_0000_0000_0000_0000_0000_0000_0000 <= origin
            <= 0x4000_0000_0000_0000_0000_0000_0000_0000,
    ensures
        t == clamp_coord(sprite_coord(p as int, origin as int, size as int)),
{
    let n: i128 = p as i128 * 65536 - origin;
    let t: i128 = div_floor(n, size as i128);
    if t < 0 {
        0
    } else if t > COORD_LIMIT as i128 {
        COORD_LIMIT
    } else {
        t as i64
    }
}

/// Paints the image of a collectible of kind `kind` into the square `b`.
pub fn draw_billboard(fb: &mut Framebuffer, b: &Billboard, kind: char, textures: &Textures)
    requires
        fits(*b, old(fb).width() as int, old(fb).height() as int),
    ensures
        final(fb).same_size(old(fb)),
        forall|x: int, y: int|
            final(fb).in_bounds(x, y) ==> #[trigger] final(fb).pixel(x, y) == (match billboard_paint(
                textures,
                kind,
                *b,
                x,
                y,
            ) {
                Some(color) => color,
                None => old(fb).pixel(x, y),
            }),
{
    let mut sy: usize = b.top;
    while sy < b.bottom
        invariant
            fb.same_size(old(fb)),
            fits(*b, fb.width() as int, fb.height() as int),
            b.top <= sy,
            forall|x: int, y: int|
                fb.in_bounds(x, y) ==> #[trigger] fb.pixel(x, y) == (if y < sy {
                    match billboard_paint(textures, kind, *b, x, y) {
                        Some(color) => color,
                        None => old(fb).pixel(x, y),
                    }
                } else {
                    old(fb).pixel(x, y)
                }),
        decreases b.bottom - sy,
    {
        let mut sx: usize = b.left;
        while sx < b.right
            invariant
                fb.same_size(old(fb)),
                fits(*b, fb.width() as int, fb.height() as int),
                b.top <= sy < b.bottom,
                b.left <= sx,
                forall|x: int, y: int|
                    fb.in_bounds(x, y) ==> #[trigger] fb.pixel(x, y) == (if y < sy || (y == sy
                        && x < sx) {
                        match billboard_paint(textures, kind, *b, x, y) {
                            Some(color) => color,
                            None => old(fb).pixel(x, y),
                        }
                    } else {
                        old(fb).pixel(x, y)
                    }),
            decreases b.right - sx,
        {
            let u: i64 = texture_coord(sx, b.origin_x, b.size);
            let v: i64 = texture_coord(sy, b.origin_y, b.size);
            let color: u32 = textures.sample_sprite(kind, u, v);
            proof {
                textures.lemma_coords_clamped(
                    kind,
                    sprite_coord(sx as int, b.origin_x as int, b.size as int),
                    sprite_coord(sy as int, b.origin_y as int, b.size as int),
                );
            }
            if color != TRANSPARENT {
                fb.point(sx, sy, color);
            }
            sx += 1;
        }
        sy += 1;
    }
}

/// Draws the collectible `sprite`, which stands in the direction `bearing` from the player.
pub fn render_sprite(
    fb: &mut Framebuffer,
    player: &Player,
    block_size: usize,
    sprite: &Sprite,
    bearing: i64,
    textures: &Textures,
)
    ensures
        final(fb).same_size(old(fb)),
        forall|x: int, y: int|
            final(fb).in_bounds(x, y) ==> #[trigger] final(fb).pixel(x, y) == (match sprite_pixel(
                textures,
                player,
                old(fb).width() as int,
                old(fb).height() as int,
                block_size as int,
                *sprite,
                bearing as int,
                x,
                y,
            ) {
                Some(color) => color,
                None => old(fb).pixel(x, y),
            }),
{
    let w: usize = fb.width();
    let h: usize = fb.height();
    match sprite_offset(player, sprite, block_size) {
        None => {},
        Some((dx, dy)) => {
            let dist: u64 = distance(dx, dy);
            match project_sprite(w, h, block_size, bearing, player.a, dist, player.fov) {
                None => {},
                Some(b) => {
                    draw_billboard(fb, &b, sprite.kind, textures);
                },
            }
        },
    }
}

/// Draws every collectible of `maze` over what is on the surface, in the order of
/// `maze_sprites`, a later one over an earlier one. `bearings[k]` is the angle of the direction
/// from the player to collectible `k`; a collectible without a bearing is not drawn.
pub fn render_sprites(
    fb: &mut Framebuffer,
    player: &Player,
    maze: &Vec<Vec<char>>,
    block_size: usize,
    textures: &Textures,
    bearings: &Vec<i64>,
)
    ensures
        final(fb).same_size(old(fb)),
        forall|x: int, y: int|
            final(fb).in_bounds(x, y) ==> #[trigger] final(fb).pixel(x, y) == (match sprites_pixel(
                textures,
                player,
                old(fb).width() as int,
                old(fb).height() as int,
                block_size as int,
                maze_sprites(maze),
                bearings@,
                maze_sprites(maze).len() as int,
                x,
                y,
            ) {
                Some(color) => color,
                None => old(fb).pixel(x, y),
            }),
{
    let sprites: Vec<Sprite> = find_sprites(maze);
    let mut k: usize = 0;
    while k < sprites.len()
        invariant
            fb.same_size(old(fb)),
            k <= sprites@.len(),
            sprites@ == maze_sprites(maze),
            forall|x: int, y: int|
                fb.in_bounds(x, y) ==> #[trigger] fb.pixel(x, y) == (match sprites_pixel(
                    textures,
                    player,
                    old(fb).width() as int,
                    old(fb).height() as int,
                    block_size as int,
                    sprites@,
                    bearings@,
                    k as int,
                    x,
                    y,
                ) {
                    Some(color) => color,
                    None => old(fb).pixel(x, y),
                }),
        decreases sprites@.len() - k,
    {
        if k < bearings.len() {
            render_sprite(fb, player, block_size, &sprites[k], bearings[k], textures);
        }
        k += 1;
    }
}

} // verus!
