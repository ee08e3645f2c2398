//! Casting a ray through the maze.
//!
//! A ray is marched from the player in steps of one world unit. The sample after
//! `d` steps is the player's position plus `d` times the ray's direction; the
//! ray stops at the first sample that is not on open floor.

use vstd::prelude::*;
use crate::fixed::{div_floor, magnitude, COORD_MAX, ONE};
use crate::map::{
    cell_at, cell_index, cell_of, has_cell, in_world, is_maze_of, lemma_cell_between,
    lemma_cell_span, load_map, probe, rectangular, Cell, FLOOR,
};
use crate::player::{Direction, Player, UNIT_SLACK};

verus! {

/// The number of steps after which a ray that has met nothing is given up.
pub const MAX_DEPTH: i64 = 5000;

/// How the face of a cell runs through which a ray came into the cell.
#[derive(Clone, Copy, Debug, PartialEq, Eq, Structural)]
pub enum Face {
    /// From north to south: the ray came from the cell to the west or to the east.
    NorthSouth,
    /// From east to west: the ray came from the cell to the north or to the south.
    EastWest,
}

/// What a ray met.
#[derive(Clone, Copy, Debug)]
pub struct Intersect {
    /// The length of the ray, in fixed-point world units: a whole number of steps.
    pub distance: i64,
    /// The material of the wall that was hit; a blank if the ray hit no wall.
    pub impact: char,
    /// The kind of the collectible that was hit, if the ray hit one.
    pub object_type: Option<char>,
    /// Where the ray ended.
    pub hit_x: i64,
    /// Where the ray ended.
    pub hit_y: i64,
    /// How the face runs through which the ray came into the cell where it ended.
    pub face: Face,
}

/// The x coordinate of the sample after `d` steps.
pub open spec fn sample_x(player: &Player, dir: &Direction, d: int) -> int {
    player.pos.x() + dir.cos() * d
}

/// The y coordinate of the sample after `d` steps.
pub open spec fn sample_y(player: &Player, dir: &Direction, d: int) -> int {
    player.pos.y() + dir.sin() * d
}

/// What the sample after `d` steps lies in.
pub open spec fn sample_cell(
    maze: &Vec<Vec<char>>,
    player: &Player,
    dir: &Direction,
    block_size: int,
    d: int,
) -> Cell {
    cell_at(maze, block_size, sample_x(player, dir, d), sample_y(player, dir, d))
}

/// The number of steps after which a ray that has taken `from` steps over open floor stops:
/// the first step from `from` on whose sample is not on open floor, or `MAX_DEPTH + 1` if
/// there is none up to `MAX_DEPTH`.
pub open spec fn first_stop(
    maze: &Vec<Vec<char>>,
    player: &Player,
    dir: &Direction,
    block_size: int,
    from: int,
) -> int
    decreases MAX_DEPTH + 1 - from,
{
    if from > MAX_DEPTH {
        MAX_DEPTH + 1
    } else if sample_cell(maze, player, dir, block_size, from) != Cell::Empty {
        from
    } else {
        first_stop(maze, player, dir, block_size, from + 1)
    }
}

/// How the face runs that lies between the point (`x0`, `y0`) and the point (`x1`, `y1`) of
/// a neighbouring cell.
///
/// Between two cells of one row it runs from north to south, between two cells of one column
/// from east to west. Where the cells touch only at a corner, it is the face that a ray along
/// `dir` is more likely to meet: one that runs from north to south if the ray runs more
/// along x than along y.
pub open spec fn face_between(
    block_size: int,
    x0: int,
    y0: int,
    x1: int,
    y1: int,
    dir: &Direction,
) -> Face {
    let same_column = cell_index(x0, block_size) == cell_index(x1, block_size);
    let same_row = cell_index(y0, block_size) == cell_index(y1, block_size);
    if same_row && !same_column {
        Face::NorthSouth
    } else if same_column && !same_row {
        Face::EastWest
    } else if magnitude(dir.cos() as int) > magnitude(dir.sin() as int) {
        Face::NorthSouth
    } else {
        Face::EastWest
    }
}

/// How the face runs through which the ray came to its sample after `n` steps. For the
/// first sample, where the ray has come through none, it is `Face::EastWest`.
pub open spec fn face_at(player: &Player, dir: &Direction, block_size: int, n: int) -> Face {
    if n <= 0 {
        Face::EastWest
    } else {
        face_between(
            block_size,
            sample_x(player, dir, n - 1),
            sample_y(player, dir, n - 1),
            sample_x(player, dir, n),
            sample_y(player, dir, n),
            dir,
        )
    }
}

/// What a ray reports that stopped after `steps` steps in `cell`, its last sample at
/// (`x`, `y`), having come in through a face that runs as `face` says.
pub open spec fn report(cell: Cell, steps: int, x: int, y: int, face: Face) -> Intersect {
    Intersect {
        distance: (steps * ONE) as i64,
        impact: match cell {
            Cell::Wall(material) => material,
            _ => FLOOR,
        },
        object_type: match cell {
            Cell::Collectible(kind) => Some(kind),
            _ => None,
        },
        hit_x: x as i64,
        hit_y: y as i64,
        face,
    }
}

/// What the ray from `player` along `dir` meets.
///
/// A ray that stops within `MAX_DEPTH` steps reports the cell it stopped in and the sample
/// there. One that does not reports `MAX_DEPTH + 1` steps, no wall and no collectible, and
/// the last sample it looked at.
pub open spec fn ray_hit(
    maze: &Vec<Vec<char>>,
    player: &Player,
    dir: &Direction,
    block_size: int,
) -> Intersect {
    let n = first_stop(maze, player, dir, block_size, 0);
    if n <= MAX_DEPTH {
        report(
            sample_cell(maze, player, dir, block_size, n),
            n,
            sample_x(player, dir, n),
            sample_y(player, dir, n),
            face_at(player, dir, block_size, n),
        )
    } else {
        report(
            Cell::Empty,
            n,
            sample_x(player, dir, MAX_DEPTH as int),
            sample_y(player, dir, MAX_DEPTH as int),
            Face::EastWest,
        )
    }
}

/// A ray stops at the first sample off open floor and skips none: every sample before
/// the stop is on open floor, the sample of the stop is not, and a ray that finds none stops
/// one step past `MAX_DEPTH`.
pub proof fn lemma_first_stop(
    maze: &Vec<Vec<char>>,
    player: &Player,
    dir: &Direction,
    block_size: int,
    from: int,
)
    requires
        0 <= from <= MAX_DEPTH + 1,
    ensures
        from <= first_stop(maze, player, dir, block_size, from) <= MAX_DEPTH + 1,
        forall|d: int|
            from <= d < first_stop(maze, player, dir, block_size, from) ==> sample_cell(
                maze,
                player,
                dir,
                block_size,
                d,
            ) == Cell::Empty,
        first_stop(maze, player, dir, block_size, from) <= MAX_DEPTH ==> sample_cell(
            maze,
            player,
            dir,
            block_size,
            first_stop(maze, player, dir, block_size, from),
        ) != Cell::Empty,
    decreases MAX_DEPTH + 1 - from,
{
    if from <= MAX_DEPTH && sample_cell(maze, player, dir, block_size, from) == Cell::Empty {
        lemma_first_stop(maze, player, dir, block_size, from + 1);
    }
}

/// If every sample from `from` up to `n` is on open floor and the sample at `n` is not,
/// the ray stops at `n`.
pub proof fn lemma_stops_at(
    maze: &Vec<Vec<char>>,
    player: &Player,
    dir: &Direction,
    block_size: int,
    from: int,
    n: int,
)
    requires
        0 <= from <= n <= MAX_DEPTH,
        forall|d: int| from <= d < n ==> sample_cell(maze, player, dir, block_size, d) == Cell::Empty,
        sample_cell(maze, player, dir, block_size, n) != Cell::Empty,
    ensures
        first_stop(maze, player, dir, block_size, from) == n,
    decreases n - from,
{
    if from < n {
        lemma_stops_at(maze, player, dir, block_size, from + 1, n);
    }
}

/// If every sample from `from` up to `MAX_DEPTH` is on open floor, the ray is given up.
pub proof fn lemma_never_stops(
    maze: &Vec<Vec<char>>,
    player: &Player,
    dir: &Direction,
    block_size: int,
    from: int,
)
    requires
        0 <= from <= MAX_DEPTH + 1,
        forall|d: int|
            from <= d <= MAX_DEPTH ==> sample_cell(maze, player, dir, block_size, d) == Cell::Empty,
    ensures
        first_stop(maze, player, dir, block_size, from) == MAX_DEPTH + 1,
    decreases MAX_DEPTH + 1 - from,
{
    if from <= MAX_DEPTH {
        lemma_never_stops(maze, player, dir, block_size, from + 1);
    }
}

/// The samples of the first `MAX_DEPTH` steps stay within 2^29 of the player.
pub proof fn lemma_sample_bound(c: int, d: int)
    by (nonlinear_arith)
    requires
        -ONE <= c <= ONE,
        0 <= d <= MAX_DEPTH + 1,
    ensures
        -0x2000_0000 <= c * d <= 0x2000_0000,
{
}

/// Every ray ends: whatever the maze, the player and the direction, it is at most
/// `MAX_DEPTH + 1` steps long.
pub proof fn lemma_ray_ends(
    maze: &Vec<Vec<char>>,
    player: &Player,
    dir: &Direction,
    block_size: int,
)
    ensures
        0 <= ray_hit(maze, player, dir, block_size).distance <= (MAX_DEPTH + 1) * ONE,
        ray_hit(maze, player, dir, block_size).distance == ONE * first_stop(
            maze,
            player,
            dir,
            block_size,
            0,
        ),
{
    lemma_first_stop(maze, player, dir, block_size, 0);
}

/// The sample after `d` steps is `d` units away from the player, as the crow flies and up to
/// rounding: the squares of its distances along the axes add up to the square of `d` units,
/// give or take `d * d * UNIT_SLACK`.
pub proof fn lemma_sample_distance(player: &Player, dir: &Direction, d: int)
    requires
        dir.wf(),
    ensures
        ({
            let dx = sample_x(player, dir, d) - player.pos.x();
            let dy = sample_y(player, dir, d) - player.pos.y();
            &&& dx * dx + dy * dy == d * d * (dir.cos() * dir.cos() + dir.sin() * dir.sin())
            &&& d * d * (ONE * ONE - UNIT_SLACK) <= dx * dx + dy * dy <= d * d * (ONE * ONE
                + UNIT_SLACK)
        }),
{
    let c = dir.cos() as int;
    let s = dir.sin() as int;
    let n = c * c + s * s;
    assert((c * d) * (c * d) + (s * d) * (s * d) == d * d * n) by (nonlinear_arith)
        requires
            n == c * c + s * s,
    ;
    assert(d * d * (ONE * ONE - UNIT_SLACK) <= d * d * n <= d * d * (ONE * ONE + UNIT_SLACK))
        by (nonlinear_arith)
        requires
            ONE * ONE - UNIT_SLACK <= n <= ONE * ONE + UNIT_SLACK,
    ;
}

/// The length that a ray reports is the distance between the player and the point where the
/// ray ended, as the crow flies and up to rounding.
pub proof fn lemma_hit_distance(
    maze: &Vec<Vec<char>>,
    player: &Player,
    dir: &Direction,
    block_size: int,
)
    requires
        player.pos.wf(),
        dir.wf(),
    ensures
        ({
            let hit = ray_hit(maze, player, dir, block_size);
            let d = hit.distance as int / (ONE as int);
            let dx = hit.hit_x - player.pos.x();
            let dy = hit.hit_y - player.pos.y();
            &&& hit.distance == d * ONE
            &&& d <= MAX_DEPTH ==> d * d * (ONE * ONE - UNIT_SLACK) <= dx * dx + dy * dy <= d * d
                * (ONE * ONE + UNIT_SLACK)
        }),
{
    let n = first_stop(maze, player, dir, block_size, 0);
    lemma_first_stop(maze, player, dir, block_size, 0);
    lemma_sample_distance(player, dir, n);
    lemma_sample_bound(dir.cos() as int, n);
    lemma_sample_bound(dir.sin() as int, n);
}

/// Whether the ray from `player` along `dir` is in the cell in column `i` of row `j` after
/// `a / b` steps. The time `a / b` need not be a whole number of steps; the ray's place at
/// that time is compared with the cell's edges after both were multiplied by `b`.
pub open spec fn ray_in_cell(
    player: &Player,
    dir: &Direction,
    block_size: int,
    i: int,
    j: int,
    a: int,
    b: int,
) -> bool {
    let x = player.pos.x() * b + dir.cos() * a;
    let y = player.pos.y() * b + dir.sin() * a;
    &&& i * block_size * ONE * b <= x < (i + 1) * block_size * ONE * b
    &&& j * block_size * ONE * b <= y < (j + 1) * block_size * ONE * b
}

/// Whether the sample after `d` steps lies in the world and in the cell in column `i` of row
/// `j`.
pub open spec fn sample_in_cell(
    player: &Player,
    dir: &Direction,
    block_size: int,
    i: int,
    j: int,
    d: int,
) -> bool {
    &&& in_world(sample_x(player, dir, d))
    &&& in_world(sample_y(player, dir, d))
    &&& cell_index(sample_x(player, dir, d), block_size) == i
    &&& cell_index(sample_y(player, dir, d), block_size) == j
}

/// Between two places of a ray lies every place that the ray has at a time between: if
/// `p * b + c * a` at the time `a / b` and `p + c * n` at the time `n` lie from `lo` up to,
/// but not including, `hi`, so does `p + c * m` at every whole time `m` between.
proof fn lemma_between_times(p: int, c: int, a: int, b: int, m: int, n: int, lo: int, hi: int)
    requires
        b > 0,
        a <= m * b,
        m <= n,
        lo * b <= p * b + c * a < hi * b,
        lo <= p + c * n < hi,
    ensures
        lo <= p + c * m < hi,
{
    if c >= 0 {
        assert(c * m <= c * n) by (nonlinear_arith)
            requires
                c >= 0,
                m <= n,
        ;
        assert(lo <= p + c * m) by (nonlinear_arith)
            requires
                c >= 0,
                b > 0,
                a <= m * b,
                lo * b <= p * b + c * a,
        ;
    } else {
        assert(c * m >= c * n) by (nonlinear_arith)
            requires
                c < 0,
                m <= n,
        ;
        assert(p + c * m < hi) by (nonlinear_arith)
            requires
                c < 0,
                b > 0,
                a <= m * b,
                p * b + c * a < hi * b,
        ;
    }
}

/// A ray that stops in a cell of the maze has come into that cell during its last step: at
/// no time up to one step before its end, whole or not, was the ray in that cell. So the
/// length that the ray reports is the distance at which the ray comes into the cell, or up
/// to one step more.
pub proof fn lemma_enters_in_last_step(
    maze: &Vec<Vec<char>>,
    player: &Player,
    dir: &Direction,
    block_size: int,
    a: int,
    b: int,
)
    requires
        block_size > 0,
        player.pos.wf(),
        dir.wf(),
        b > 0,
        ({
            let hit = ray_hit(maze, player, dir, block_size);
            &&& ONE <= hit.distance <= MAX_DEPTH * ONE
            &&& in_world(hit.hit_x as int)
            &&& in_world(hit.hit_y as int)
            &&& has_cell(
                maze,
                cell_index(hit.hit_x as int, block_size),
                cell_index(hit.hit_y as int, block_size),
            )
            &&& 0 <= a <= (hit.distance as int / (ONE as int) - 1) * b
        }),
    ensures
        ({
            let hit = ray_hit(maze, player, dir, block_size);
            let i = cell_index(hit.hit_x as int, block_size);
            let j = cell_index(hit.hit_y as int, block_size);
            &&& ray_in_cell(player, dir, block_size, i, j, hit.distance as int / (ONE as int), 1)
            &&& !ray_in_cell(player, dir, block_size, i, j, a, b)
        }),
{
    let n = first_stop(maze, player, dir, block_size, 0);
    lemma_first_stop(maze, player, dir, block_size, 0);
    lemma_sample_bound(dir.cos() as int, n);
    lemma_sample_bound(dir.sin() as int, n);
    let hit = ray_hit(maze, player, dir, block_size);
    assert(hit.distance == n * ONE);
    let px = player.pos.x() as int;
    let py = player.pos.y() as int;
    let c = dir.cos() as int;
    let s = dir.sin() as int;
    let xn = sample_x(player, dir, n);
    let yn = sample_y(player, dir, n);
    assert(hit.hit_x == xn && hit.hit_y == yn);
    let i = cell_index(xn, block_size);
    let j = cell_index(yn, block_size);
    lemma_cell_span(xn, block_size);
    lemma_cell_span(yn, block_size);
    let x0 = i * block_size * ONE;
    let x1 = (i + 1) * block_size * ONE;
    let y0 = j * block_size * ONE;
    let y1 = (j + 1) * block_size * ONE;
    assert(px * 1 + c * n == xn && py * 1 + s * n == yn);
    assert(ray_in_cell(player, dir, block_size, i, j, n, 1));
    if ray_in_cell(player, dir, block_size, i, j, a, b) {
        lemma_between_times(px, c, a, b, n - 1, n, x0, x1);
        lemma_between_times(py, s, a, b, n - 1, n, y0, y1);
        let xm = sample_x(player, dir, n - 1);
        let ym = sample_y(player, dir, n - 1);
        lemma_cell_between(xm, block_size, i, i + 1);
        lemma_cell_between(ym, block_size, j, j + 1);
        // the sample before the last would lie in the cell of the last, which is not open floor
        assert(sample_cell(maze, player, dir, block_size, n - 1) == Cell::Empty);
        assert(sample_cell(maze, player, dir, block_size, n) != Cell::Empty);
        assert(false);
    }
}

/// A ray stops in the first cell off open floor in which it has a sample: if the sample
/// after `m` steps lies in a cell that is not open floor, and every sample before it lies on
/// open floor or in that cell, the ray stops in that cell, after `m` steps at most, and
/// reports what the cell holds.
pub proof fn lemma_stops_in_cell(
    maze: &Vec<Vec<char>>,
    player: &Player,
    dir: &Direction,
    block_size: int,
    i: int,
    j: int,
    m: int,
)
    requires
        player.pos.wf(),
        dir.wf(),
        0 <= m <= MAX_DEPTH,
        has_cell(maze, i, j),
        cell_of(maze@[j]@[i]) != Cell::Empty,
        sample_in_cell(player, dir, block_size, i, j, m),
        forall|d: int|
            0 <= d < m ==> sample_cell(maze, player, dir, block_size, d) == Cell::Empty
                || sample_in_cell(player, dir, block_size, i, j, d),
    ensures
        ({
            let hit = ray_hit(maze, player, dir, block_size);
            &&& 0 <= hit.distance <= m * ONE
            &&& cell_index(hit.hit_x as int, block_size) == i
            &&& cell_index(hit.hit_y as int, block_size) == j
            &&& in_world(hit.hit_x as int)
            &&& in_world(hit.hit_y as int)
            &&& hit.impact == (match cell_of(maze@[j]@[i]) {
                Cell::Wall(material) => material,
                _ => FLOOR,
            })
            &&& hit.object_type == (match cell_of(maze@[j]@[i]) {
                Cell::Collectible(kind) => Some(kind),
                _ => None::<char>,
            })
        }),
{
    let n = first_stop(maze, player, dir, block_size, 0);
    lemma_first_stop(maze, player, dir, block_size, 0);
    lemma_sample_bound(dir.cos() as int, n);
    lemma_sample_bound(dir.sin() as int, n);
    assert(sample_cell(maze, player, dir, block_size, m) == cell_of(maze@[j]@[i]));
    assert(n <= m);
    assert(sample_in_cell(player, dir, block_size, i, j, n));
}

/// The index, along one axis, of the cell that holds the fixed-point coordinate `x`.
fn index_of(x: i64, block_size: usize) -> (i: i128)
    requires
        block_size > 0,
    ensures
        i == cell_index(x as int, block_size as int),
{
    div_floor(div_floor(x as i128, ONE as i128), block_size as i128)
}

/// How the face runs that lies between the point (`x0`, `y0`) and the point (`x1`, `y1`) of
/// a neighbouring cell, for a ray along `dir`.
fn face_of(block_size: usize, x0: i64, y0: i64, x1: i64, y1: i64, dir: &Direction) -> (face: Face)
    requires
        block_size > 0,
    ensures
        face == face_between(
            block_size as int,
            x0 as int,
            y0 as int,
            x1 as int,
            y1 as int,
            dir,
        ),
{
    let same_column: bool = index_of(x0, block_size) == index_of(x1, block_size);
    let same_row: bool = index_of(y0, block_size) == index_of(y1, block_size);
    if same_row && !same_column {
        Face::NorthSouth
    } else if same_column && !same_row {
        Face::EastWest
    } else {
        let c: i64 = dir.cos();
        let s: i64 = dir.sin();
        let along_x: i64 = if c < 0 {
            -c
        } else {
            c
        };
        let along_y: i64 = if s < 0 {
            -s
        } else {
            s
        };
        if along_x > along_y {
            Face::NorthSouth
        } else {
            Face::EastWest
        }
    }
}

/// Casts the ray from `player` along `dir` through `maze`.
///
/// The ray always ends: after at most `MAX_DEPTH + 1` steps, so at a distance of at most
/// `(MAX_DEPTH + 1) * ONE`.
pub fn cast_ray(maze: &Vec<Vec<char>>, player: &Player, dir: Direction, block_size: usize) -> (hit:
    Intersect)
    requires
        block_size > 0,
    ensures
        hit == ray_hit(maze, player, &dir, block_size as int),
        0 <= hit.distance <= (MAX_DEPTH + 1) * ONE,
        hit.distance == first_stop(maze, player, &dir, block_size as int, 0) * ONE,
{
    let px: i64 = player.pos.x();
    let py: i64 = player.pos.y();
    let c: i64 = dir.cos();
    let s: i64 = dir.sin();
    let mut d: i64 = 0;
    let mut x: i64 = px;
    let mut y: i64 = py;
    while d <= MAX_DEPTH
        invariant
            0 <= d <= MAX_DEPTH + 1,
            first_stop(maze, player, &dir, block_size as int, d as int) == first_stop(
                maze,
                player,
                &dir,
                block_size as int,
                0,
            ),
            d > 0 ==> x == sample_x(player, &dir, d - 1) && y == sample_y(player, &dir, d - 1),
            block_size > 0,
            px == player.pos.x(),
            py == player.pos.y(),
            c == dir.cos(),
            s == dir.sin(),
            player.pos.wf(),
            dir.wf(),
        decreases MAX_DEPTH + 1 - d,
    {
        proof {
            lemma_sample_bound(c as int, d as int);
            lemma_sample_bound(s as int, d as int);
            lemma_first_stop(maze, player, &dir, block_size as int, 0);
        }
        let from_x: i64 = x;
        let from_y: i64 = y;
        x = px + c * d;
        y = py + s * d;
        let cell: Cell = probe(maze, block_size, x as i128, y as i128);
        match cell {
            Cell::Empty => {},
            Cell::Wall(material) => {
                let face: Face = if d == 0 {
                    Face::EastWest
                } else {
                    face_of(block_size, from_x, from_y, x, y, &dir)
                };
                return Intersect {
                    distance: d * ONE,
                    impact: material,
                    object_type: None,
                    hit_x: x,
                    hit_y: y,
                    face,
                };
            },
            Cell::Collectible(kind) => {
                let face: Face = if d == 0 {
                    Face::EastWest
                } else {
                    face_of(block_size, from_x, from_y, x, y, &dir)
                };
                return Intersect {
                    distance: d * ONE,
                    impact: FLOOR,
                    object_type: Some(kind),
                    hit_x: x,
                    hit_y: y,
                    face,
                };
            },
        }
        d = d + 1;
    }
    Intersect {
        distance: d * ONE,
        impact: FLOOR,
        object_type: None,
        hit_x: x,
        hit_y: y,
        face: Face::EastWest,
    }
}

/// A direction along a row or a column of the maze.
#[derive(Clone, Copy, Debug, PartialEq, Eq, Structural)]
pub enum Compass {
    East,
    West,
    South,
    North,
}

/// How many columns to the east one cell's step in the direction `toward` leads.
pub open spec fn step_x(toward: Compass) -> int {
    match toward {
        Compass::East => 1,
        Compass::West => -1,
        _ => 0,
    }
}

/// How many rows to the south one cell's step in the direction `toward` leads.
pub open spec fn step_y(toward: Compass) -> int {
    match toward {
        Compass::South => 1,
        Compass::North => -1,
        _ => 0,
    }
}

/// The distance, along the direction `toward`, from the point (`x`, `y`) to the nearest face
/// of the cell that lies `n` cells further in that direction than the cell of the point.
pub open spec fn reach(x: int, y: int, block_size: int, toward: Compass, n: int) -> int {
    let i = cell_index(x, block_size);
    let j = cell_index(y, block_size);
    match toward {
        Compass::East => (i + n) * block_size * ONE - x,
        Compass::West => x - (i - n + 1) * block_size * ONE,
        Compass::South => (j + n) * block_size * ONE - y,
        Compass::North => y - (j - n + 1) * block_size * ONE,
    }
}

/// Whether `player` stands on open floor inside `maze` and looks straight along a row or
/// a column in the direction `toward`, with `n - 1` further cells of open floor between the
/// player's cell and a cell that is not open floor, whose nearest face is within reach of a
/// ray.
pub open spec fn faces_wall(
    maze: &Vec<Vec<char>>,
    player: &Player,
    dir: &Direction,
    block_size: int,
    toward: Compass,
    n: int,
) -> bool {
    let x = player.pos.x() as int;
    let y = player.pos.y() as int;
    let i = cell_index(x, block_size);
    let j = cell_index(y, block_size);
    &&& block_size > 0
    &&& n >= 1
    &&& dir.cos() == step_x(toward) * ONE
    &&& dir.sin() == step_y(toward) * ONE
    &&& in_world(x)
    &&& in_world(y)
    &&& forall|k: int|
        0 <= k < n ==> has_cell(maze, i + k * step_x(toward), j + k * step_y(toward)) && cell_of(
            #[trigger] maze@[j + k * step_y(toward)]@[i + k * step_x(toward)],
        ) == Cell::Empty
    &&& has_cell(maze, i + n * step_x(toward), j + n * step_y(toward))
    &&& cell_of(maze@[j + n * step_y(toward)]@[i + n * step_x(toward)]) != Cell::Empty
    &&& (i + n + 1) * block_size * ONE <= COORD_MAX
    &&& (j + n + 1) * block_size * ONE <= COORD_MAX
    &&& reach(x, y, block_size, toward, n) < MAX_DEPTH * ONE
}

/// Marching up along one axis: from `p`, which lies in cell `i`, in whole steps toward the
/// cell `i + n`. After `d0` steps, the first number of steps that covers the distance `r` to
/// that cell, the march is in that cell, and before it is in the cells between.
proof fn lemma_march_up(p: int, block_size: int, n: int, d: int)
    requires
        block_size > 0,
        n >= 1,
        0 <= d,
    ensures
        ({
            let i = cell_index(p, block_size);
            let r = (i + n) * block_size * ONE - p;
            let d0 = (r + ONE - 1) / (ONE as int);
            &&& r <= d0 * ONE < r + ONE
            &&& (n - 1) * block_size * ONE < r <= n * block_size * ONE
            &&& d0 * ONE <= n * block_size * ONE
            &&& d0 >= 1
            &&& d < d0 ==> i <= cell_index(p + ONE * d, block_size) < i + n
            &&& d == d0 ==> cell_index(p + ONE * d, block_size) == i + n
        }),
{
    let i = cell_index(p, block_size);
    let face = (i + n) * block_size * ONE;
    let r = face - p;
    let d0 = (r + ONE - 1) / (ONE as int);
    lemma_cell_span(p, block_size);
    assert(face == i * block_size * ONE + n * block_size * ONE) by (nonlinear_arith)
        requires
            face == (i + n) * block_size * ONE,
    ;
    assert((n - 1) * block_size * ONE + block_size * ONE == n * block_size * ONE)
        by (nonlinear_arith);
    assert((i + 1) * block_size * ONE == i * block_size * ONE + block_size * ONE)
        by (nonlinear_arith);
    assert((i + n + 1) * block_size * ONE == face + block_size * ONE) by (nonlinear_arith)
        requires
            face == (i + n) * block_size * ONE,
    ;
    assert(block_size * ONE >= ONE) by (nonlinear_arith)
        requires
            block_size >= 1,
    ;
    assert(d0 * ONE <= n * block_size * ONE) by (nonlinear_arith)
        requires
            d0 * ONE < n * block_size * ONE + ONE,
    ;
    if d < d0 {
        lemma_cell_between(p + ONE * d, block_size, i, i + n);
    }
    if d == d0 {
        lemma_cell_between(p + ONE * d, block_size, i + n, i + n + 1);
    }
}

/// Marching down along one axis: from `p`, which lies in cell `i`, in whole steps toward
/// the cell `i - n`. After `d0` steps, the first number of steps that exceeds the distance
/// `r` to that cell, the march is in that cell, and before it is in the cells between.
proof fn lemma_march_down(p: int, block_size: int, n: int, d: int)
    requires
        block_size > 0,
        n >= 1,
        0 <= d,
    ensures
        ({
            let i = cell_index(p, block_size);
            let r = p - (i - n + 1) * block_size * ONE;
            let d0 = r / (ONE as int) + 1;
            &&& r < d0 * ONE <= r + ONE
            &&& (n - 1) * block_size * ONE <= r < n * block_size * ONE
            &&& d0 * ONE <= n * block_size * ONE
            &&& d0 >= 1
            &&& d < d0 ==> i - n < cell_index(p - ONE * d, block_size) <= i
            &&& d == d0 ==> cell_index(p - ONE * d, block_size) == i - n
        }),
{
    let i = cell_index(p, block_size);
    let face = (i - n + 1) * block_size * ONE;
    let r = p - face;
    let d0 = r / (ONE as int) + 1;
    lemma_cell_span(p, block_size);
    assert(face == (i + 1) * block_size * ONE - n * block_size * ONE) by (nonlinear_arith)
        requires
            face == (i - n + 1) * block_size * ONE,
    ;
    assert((n - 1) * block_size * ONE + block_size * ONE == n * block_size * ONE)
        by (nonlinear_arith);
    assert((i + 1) * block_size * ONE == i * block_size * ONE + block_size * ONE)
        by (nonlinear_arith);
    assert((i - n) * block_size * ONE == face - block_size * ONE) by (nonlinear_arith)
        requires
            face == (i - n + 1) * block_size * ONE,
    ;
    assert(block_size * ONE >= ONE) by (nonlinear_arith)
        requires
            block_size >= 1,
    ;
    assert(d0 * ONE <= n * block_size * ONE) by (nonlinear_arith)
        requires
            d0 * ONE < n * block_size * ONE + ONE,
    ;
    if d < d0 {
        lemma_cell_between(p - ONE * d, block_size, i - n + 1, i + 1);
    }
    if d == d0 {
        lemma_cell_between(p - ONE * d, block_size, i - n, i - n + 1);
    }
}

/// The number of whole steps that a ray along `toward` needs from (`x`, `y`) into the cell
/// `n` cells away.
pub open spec fn steps_to(x: int, y: int, block_size: int, toward: Compass, n: int) -> int {
    let r = reach(x, y, block_size, toward, n);
    match toward {
        Compass::East | Compass::South => (r + ONE - 1) / (ONE as int),
        Compass::West | Compass::North => r / (ONE as int) + 1,
    }
}

/// The samples of a ray straight along a row or a column.
proof fn lemma_straight_samples(player: &Player, dir: &Direction, toward: Compass, d: int)
    requires
        dir.cos() == step_x(toward) * ONE,
        dir.sin() == step_y(toward) * ONE,
    ensures
        toward == Compass::East ==> sample_x(player, dir, d) == player.pos.x() + ONE * d
            && sample_y(player, dir, d) == player.pos.y(),
        toward == Compass::West ==> sample_x(player, dir, d) == player.pos.x() - ONE * d
            && sample_y(player, dir, d) == player.pos.y(),
        toward == Compass::South ==> sample_y(player, dir, d) == player.pos.y() + ONE * d
            && sample_x(player, dir, d) == player.pos.x(),
        toward == Compass::North ==> sample_y(player, dir, d) == player.pos.y() - ONE * d
            && sample_x(player, dir, d) == player.pos.x(),
{
    let c = dir.cos() as int;
    let s = dir.sin() as int;
    assert(c == 0 ==> c * d == 0) by (nonlinear_arith);
    assert(s == 0 ==> s * d == 0) by (nonlinear_arith);
    assert(c == -ONE ==> c * d == -(ONE * d)) by (nonlinear_arith);
    assert(s == -ONE ==> s * d == -(ONE * d)) by (nonlinear_arith);
}

/// The cell of the sample after `d` steps of a ray straight along a row or a column toward
/// a wall `n` cells away: a cell of open floor before the steps suffice, and the cell of the
/// wall when they do.
proof fn lemma_straight_cells(
    maze: &Vec<Vec<char>>,
    player: &Player,
    dir: &Direction,
    block_size: int,
    toward: Compass,
    n: int,
    d: int,
)
    requires
        faces_wall(maze, player, dir, block_size, toward, n),
        0 <= d <= steps_to(player.pos.x() as int, player.pos.y() as int, block_size, toward, n),
    ensures
        ({
            let d0 = steps_to(
                player.pos.x() as int,
                player.pos.y() as int,
                block_size,
                toward,
                n,
            );
            let ci = cell_index(sample_x(player, dir, d), block_size) - cell_index(
                player.pos.x() as int,
                block_size,
            );
            let cj = cell_index(sample_y(player, dir, d), block_size) - cell_index(
                player.pos.y() as int,
                block_size,
            );
            &&& d < d0 ==> sample_cell(maze, player, dir, block_size, d) == Cell::Empty
            &&& d == d0 ==> sample_cell(maze, player, dir, block_size, d) != Cell::Empty
            &&& d < d0 ==> magnitude(ci) < n && magnitude(cj) < n
            &&& d == d0 ==> magnitude(ci) + magnitude(cj) == n
            &&& step_x(toward) == 0 ==> ci == 0
            &&& step_y(toward) == 0 ==> cj == 0
        }),
{
    let x = player.pos.x() as int;
    let y = player.pos.y() as int;
    let i = cell_index(x, block_size);
    let j = cell_index(y, block_size);
    let d0 = steps_to(x, y, block_size, toward, n);
    let sx = sample_x(player, dir, d);
    let sy = sample_y(player, dir, d);
    lemma_straight_samples(player, dir, toward, d);
    lemma_cell_span(x, block_size);
    lemma_cell_span(y, block_size);
    lemma_cell_span(sx, block_size);
    lemma_cell_span(sy, block_size);
    let k = match toward {
        Compass::East => {
            lemma_march_up(x, block_size, n, d);
            cell_index(sx, block_size) - i
        },
        Compass::West => {
            lemma_march_down(x, block_size, n, d);
            i - cell_index(sx, block_size)
        },
        Compass::South => {
            lemma_march_up(y, block_size, n, d);
            cell_index(sy, block_size) - j
        },
        Compass::North => {
            lemma_march_down(y, block_size, n, d);
            j - cell_index(sy, block_size)
        },
    };
    assert(0 <= k <= n);
    assert(d < d0 ==> k < n);
    assert(d == d0 ==> k == n);
    assert(i + k * step_x(toward) == cell_index(sx, block_size)) by (nonlinear_arith)
        requires
            (step_x(toward) == 1 && k == cell_index(sx, block_size) - i) || (step_x(toward) == -1
                && k == i - cell_index(sx, block_size)) || (step_x(toward) == 0 && cell_index(
                sx,
                block_size,
            ) == i),
    ;
    assert(j + k * step_y(toward) == cell_index(sy, block_size)) by (nonlinear_arith)
        requires
            (step_y(toward) == 1 && k == cell_index(sy, block_size) - j) || (step_y(toward) == -1
                && k == j - cell_index(sy, block_size)) || (step_y(toward) == 0 && cell_index(
                sy,
                block_size,
            ) == j),
    ;
    assert(has_cell(maze, cell_index(sx, block_size), cell_index(sy, block_size)));
    // the sample is in the world: it is in a cell of the maze that lies before the limit
    assert(0 <= sx && 0 <= sy) by (nonlinear_arith)
        requires
            cell_index(sx, block_size) * block_size * ONE <= sx,
            cell_index(sy, block_size) * block_size * ONE <= sy,
            cell_index(sx, block_size) >= 0,
            cell_index(sy, block_size) >= 0,
            block_size > 0,
    ;
    assert(sx <= COORD_MAX && sy <= COORD_MAX) by (nonlinear_arith)
        requires
            sx < (cell_index(sx, block_size) + 1) * block_size * ONE,
            sy < (cell_index(sy, block_size) + 1) * block_size * ONE,
            cell_index(sx, block_size) <= i + n,
            cell_index(sy, block_size) <= j + n,
            (i + n + 1) * block_size * ONE <= COORD_MAX,
            (j + n + 1) * block_size * ONE <= COORD_MAX,
            block_size > 0,
    ;
    if d < d0 {
        assert(cell_of(maze@[j + k * step_y(toward)]@[i + k * step_x(toward)]) == Cell::Empty);
    }
}

/// A ray cast straight along a row or a column, over open floor, toward a wall `n` cells
/// away stops in that wall within one step behind its face: the reported distance is the
/// distance to the face, rounded up to the next whole step. It is therefore more than
/// `n - 1` cells and at most `n` cells long, and within one step of `n` cells exactly if the
/// face is less than two steps nearer than that. The ray came in through the face that lies
/// across its way.
pub proof fn lemma_wall_distance(
    maze: &Vec<Vec<char>>,
    player: &Player,
    dir: &Direction,
    block_size: int,
    toward: Compass,
    n: int,
)
    requires
        faces_wall(maze, player, dir, block_size, toward, n),
    ensures
        ({
            let hit = ray_hit(maze, player, dir, block_size);
            let r = reach(player.pos.x() as int, player.pos.y() as int, block_size, toward, n);
            &&& hit.distance == ONE * steps_to(
                player.pos.x() as int,
                player.pos.y() as int,
                block_size,
                toward,
                n,
            )
            &&& r <= hit.distance <= r + ONE
            &&& (n - 1) * block_size * ONE < hit.distance <= n * block_size * ONE
            &&& n * block_size * ONE - hit.distance <= ONE <==> (match toward {
                Compass::East | Compass::South => r > (n * block_size - 2) * ONE,
                Compass::West | Compass::North => r >= (n * block_size - 2) * ONE,
            })
            &&& hit.object_type is Some || hit.impact != FLOOR
            &&& hit.face == (match toward {
                Compass::East | Compass::West => Face::NorthSouth,
                Compass::South | Compass::North => Face::EastWest,
            })
        }),
{
    let x = player.pos.x() as int;
    let y = player.pos.y() as int;
    let d0 = steps_to(x, y, block_size, toward, n);
    match toward {
        Compass::East => lemma_march_up(x, block_size, n, 0),
        Compass::West => lemma_march_down(x, block_size, n, 0),
        Compass::South => lemma_march_up(y, block_size, n, 0),
        Compass::North => lemma_march_down(y, block_size, n, 0),
    }
    assert(1 <= d0 <= MAX_DEPTH);
    assert forall|d: int| 0 <= d < d0 implies sample_cell(maze, player, dir, block_size, d)
        == Cell::Empty by {
        lemma_straight_cells(maze, player, dir, block_size, toward, n, d);
    }
    lemma_straight_cells(maze, player, dir, block_size, toward, n, d0);
    lemma_straight_cells(maze, player, dir, block_size, toward, n, d0 - 1);
    lemma_stops_at(maze, player, dir, block_size, 0, d0);
}

/// The maze that the text `contents` describes: one row for each line, each row filled up
/// with floor to the length of the longest, so that all rows are equally long.
pub fn load_maze(contents: &str) -> (maze: Vec<Vec<char>>)
    ensures
        is_maze_of(&maze, contents@),
        rectangular(&maze),
{
    load_map(contents)
}

} // verus!
