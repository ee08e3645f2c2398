//! The camera: where it stands, where it looks, and how it moves between walls.

use vstd::prelude::*;
use crate::fixed::{div_floor, finite, unit_range, COORD_MAX, ONE};
use crate::map::{cell_at, probe, Cell};

verus! {

/// The nearest finite coordinate to `x`.
pub open spec fn clamp_coord(x: int) -> int {
    if x < -COORD_MAX {
        -(COORD_MAX as int)
    } else if x > COORD_MAX {
        COORD_MAX as int
    } else {
        x
    }
}

/// The nearest number between -1 and 1 to `c`.
pub open spec fn clamp_unit(c: int) -> int {
    if c < -ONE {
        -(ONE as int)
    } else if c > ONE {
        ONE as int
    } else {
        c
    }
}

/// A point of the world, in fixed-point world units. Both coordinates are finite.
#[derive(Clone, Copy, Debug)]
pub struct Position {
    x: i64,
    y: i64,
}

impl Position {
    #[verifier::type_invariant]
    spec fn inv(self) -> bool {
        finite(self.x as int) && finite(self.y as int)
    }

    /// The x coordinate: how far east of the origin the point lies.
    pub closed spec fn spec_x(&self) -> i64 {
        self.x
    }

    /// The y coordinate: how far south of the origin the point lies.
    pub closed spec fn spec_y(&self) -> i64 {
        self.y
    }

    /// Whether both coordinates are finite. It holds of every position that a program holds.
    pub open spec fn wf(&self) -> bool {
        finite(self.x() as int) && finite(self.y() as int)
    }

    /// The point (`x`, `y`), each coordinate brought to the nearest finite one.
    pub fn new(x: i64, y: i64) -> (p: Position)
        ensures
            p.x() == clamp_coord(x as int),
            p.y() == clamp_coord(y as int),
            p.wf(),
    {
        let cx: i64 = if x < -COORD_MAX {
            -COORD_MAX
        } else if x > COORD_MAX {
            COORD_MAX
        } else {
            x
        };
        let cy: i64 = if y < -COORD_MAX {
            -COORD_MAX
        } else if y > COORD_MAX {
            COORD_MAX
        } else {
            y
        };
        Position { x: cx, y: cy }
    }

    /// The x coordinate, which is finite.
    #[verifier::when_used_as_spec(spec_x)]
    pub fn x(&self) -> (r: i64)
        ensures
            r == self.x(),
            self.wf(),
    {
        proof {
            use_type_invariant(self);
        }
        self.x
    }

    /// The y coordinate, which is finite.
    #[verifier::when_used_as_spec(spec_y)]
    pub fn y(&self) -> (r: i64)
        ensures
            r == self.y(),
            self.wf(),
    {
        proof {
            use_type_invariant(self);
        }
        self.y
    }
}

/// How far the squares of a cosine and a sine may add up to more or less than one, in
/// 1/65536ths of 1/65536: enough for a cosine and a sine that were rounded or cut to
/// fixed-point numbers.
pub const UNIT_SLACK: i64 = 262144;

/// Whether `c` and `s` are the cosine and the sine of an angle, up to rounding: whether their
/// squares add up to one, give or take `UNIT_SLACK`.
pub open spec fn unit_length(c: int, s: int) -> bool {
    ONE * ONE - UNIT_SLACK <= c * c + s * s <= ONE * ONE + UNIT_SLACK
}

/// A direction in the plane: the cosine and the sine of an angle, in fixed point. Both lie
/// between -1 and 1, and their squares add up to one, up to rounding.
#[derive(Clone, Copy, Debug)]
pub struct Direction {
    cos: i64,
    sin: i64,
}

impl Direction {
    #[verifier::type_invariant]
    spec fn inv(self) -> bool {
        unit_range(self.cos as int) && unit_range(self.sin as int) && unit_length(
            self.cos as int,
            self.sin as int,
        )
    }

    /// The cosine: the part of the direction along x.
    pub closed spec fn spec_cos(&self) -> i64 {
        self.cos
    }

    /// The sine: the part of the direction along y.
    pub closed spec fn spec_sin(&self) -> i64 {
        self.sin
    }

    /// Whether both parts lie between -1 and 1 and their squares add up to one, up to
    /// rounding. It holds of every direction that a program holds.
    pub open spec fn wf(&self) -> bool {
        unit_range(self.cos() as int) && unit_range(self.sin() as int) && unit_length(
            self.cos() as int,
            self.sin() as int,
        )
    }

    /// The direction with the given cosine and sine, if they are the cosine and the sine of an
    /// angle, up to rounding.
    pub fn new(cos: i64, sin: i64) -> (d: Option<Direction>)
        ensures
            d is Some <==> unit_range(cos as int) && unit_range(sin as int) && unit_length(
                cos as int,
                sin as int,
            ),
            d is Some ==> d->0.cos() == cos && d->0.sin() == sin && d->0.wf(),
    {
        if cos < -ONE || cos > ONE || sin < -ONE || sin > ONE {
            return None;
        }
        assert(0 <= cos * cos <= ONE * ONE && 0 <= sin * sin <= ONE * ONE) by (nonlinear_arith)
            requires
                -ONE <= cos <= ONE,
                -ONE <= sin <= ONE,
        ;
        let norm: i64 = cos * cos + sin * sin;
        if norm < ONE * ONE - UNIT_SLACK || norm > ONE * ONE + UNIT_SLACK {
            return None;
        }
        Some(Direction { cos, sin })
    }

    /// The cosine, which lies between -1 and 1.
    #[verifier::when_used_as_spec(spec_cos)]
    pub fn cos(&self) -> (r: i64)
        ensures
            r == self.cos(),
            self.wf(),
    {
        proof {
            use_type_invariant(self);
        }
        self.cos
    }

    /// The sine, which lies between -1 and 1.
    #[verifier::when_used_as_spec(spec_sin)]
    pub fn sin(&self) -> (r: i64)
        ensures
            r == self.sin(),
            self.wf(),
    {
        proof {
            use_type_invariant(self);
        }
        self.sin
    }
}

/// The radius of a new player's body: ten world units.
pub const PLAYER_RADIUS: i64 = 655360;

/// The camera and the body around it.
pub struct Player {
    /// Where the player stands.
    pub pos: Position,
    /// The heading, in radians.
    pub a: i64,
    /// The field of view, in radians.
    pub fov: i64,
    /// The radius of the body that must stay clear of walls.
    pub radius: i64,
}

/// Whether the world point (`x`, `y`) is inside anything but open floor.
pub open spec fn wall_at(maze: &Vec<Vec<char>>, block_size: int, x: int, y: int) -> bool {
    cell_at(maze, block_size, x, y) != Cell::Empty
}

/// Whether a body of radius `r` centred at (`x`, `y`) touches a wall: whether any corner of the
/// square around it is inside one.
pub open spec fn collides_at(maze: &Vec<Vec<char>>, block_size: int, x: int, y: int, r: int) -> bool {
    wall_at(maze, block_size, x - r, y - r) || wall_at(maze, block_size, x + r, y - r) || wall_at(
        maze,
        block_size,
        x - r,
        y + r,
    ) || wall_at(maze, block_size, x + r, y + r)
}

/// The coordinate `from + by` if a body there is clear of walls, else `from`.
pub open spec fn slide_x(
    maze: &Vec<Vec<char>>,
    block_size: int,
    from: int,
    y: int,
    r: int,
    by: int,
) -> int {
    if collides_at(maze, block_size, from + by, y, r) {
        from
    } else {
        from + by
    }
}

/// The coordinate `from + by` if a body there is clear of walls, else `from`.
pub open spec fn slide_y(
    maze: &Vec<Vec<char>>,
    block_size: int,
    x: int,
    from: int,
    r: int,
    by: int,
) -> int {
    if collides_at(maze, block_size, x, from + by, r) {
        from
    } else {
        from + by
    }
}

/// The fixed-point product of `c` and `step`, rounded down.
pub open spec fn scaled(c: int, step: int) -> int {
    (c * step) / (ONE as int)
}

/// A body that is clear of walls has a centre inside the world.
pub proof fn lemma_clear_is_in_world(maze: &Vec<Vec<char>>, block_size: int, x: int, y: int, r: int)
    requires
        !collides_at(maze, block_size, x, y, r),
    ensures
        0 <= x <= COORD_MAX,
        0 <= y <= COORD_MAX,
{
}

/// A body that is clear of walls stays clear of them, whatever step it tries: along each
/// axis it moves only to where it is clear.
pub proof fn lemma_slide_stays_clear(
    maze: &Vec<Vec<char>>,
    block_size: int,
    x: int,
    y: int,
    r: int,
    dx: int,
    dy: int,
)
    requires
        !collides_at(maze, block_size, x, y, r),
    ensures
        ({
            let nx = slide_x(maze, block_size, x, y, r, dx);
            let ny = slide_y(maze, block_size, nx, y, r, dy);
            !collides_at(maze, block_size, nx, ny, r)
        }),
{
}

/// Whether the world point (`x`, `y`) is inside anything but open floor.
pub fn is_wall_cell(maze: &Vec<Vec<char>>, x: i128, y: i128, block: usize) -> (b: bool)
    requires
        block > 0,
    ensures
        b == wall_at(maze, block as int, x as int, y as int),
{
    match probe(maze, block, x, y) {
        Cell::Empty => false,
        _ => true,
    }
}

/// Whether a body of radius `r` centred at (`x`, `y`) touches a wall.
pub fn collides(maze: &Vec<Vec<char>>, x: i128, y: i128, r: i64, block: usize) -> (b: bool)
    requires
        block > 0,
    ensures
        b == collides_at(maze, block as int, x as int, y as int, r as int),
{
    let far: i128 = 0x1_0000_0000_0000_0000_0000;
    if x < -far || x > far || y < -far || y > far {
        // every corner is beyond the end of the world
        return true;
    }
    let r: i128 = r as i128;
    is_wall_cell(maze, x - r, y - r, block) || is_wall_cell(maze, x + r, y - r, block)
        || is_wall_cell(maze, x - r, y + r, block) || is_wall_cell(maze, x + r, y + r, block)
}

impl Player {
    /// A player at (`x`, `y`), each coordinate brought to the nearest finite one, with heading
    /// `a`, field of view `fov` and the usual radius.
    pub fn new(x: i64, y: i64, a: i64, fov: i64) -> (p: Player)
        ensures
            p.pos.x() == clamp_coord(x as int),
            p.pos.y() == clamp_coord(y as int),
            p.pos.wf(),
            p.a == a,
            p.fov == fov,
            p.radius == PLAYER_RADIUS,
    {
        Player { pos: Position::new(x, y), a, fov, radius: PLAYER_RADIUS }
    }

    /// Turns the heading by `angle` toward smaller angles.
    pub fn rotate_left(&mut self, angle: i64)
        requires
            i64::MIN <= old(self).a - angle <= i64::MAX,
        ensures
            final(self).a == old(self).a - angle,
            final(self).pos == old(self).pos,
            final(self).fov == old(self).fov,
            final(self).radius == old(self).radius,
    {
        self.a = self.a - angle;
    }

    /// Turns the heading by `angle` toward larger angles.
    pub fn rotate_right(&mut self, angle: i64)
        requires
            i64::MIN <= old(self).a + angle <= i64::MAX,
        ensures
            final(self).a == old(self).a + angle,
            final(self).pos == old(self).pos,
            final(self).fov == old(self).fov,
            final(self).radius == old(self).radius,
    {
        self.a = self.a + angle;
    }

    /// Moves by (`dx`, `dy`), one axis after the other: along each axis the player moves only
    /// if the body is clear of walls in the new place, so that it slides along a wall that
    /// blocks the other axis.
    pub fn try_move(&mut self, dx: i64, dy: i64, maze: &Vec<Vec<char>>, block: usize)
        requires
            block > 0,
        ensures
            final(self).pos.wf(),
            final(self).pos.x() == slide_x(
                maze,
                block as int,
                old(self).pos.x() as int,
                old(self).pos.y() as int,
                old(self).radius as int,
                dx as int,
            ),
            final(self).pos.y() == slide_y(
                maze,
                block as int,
                final(self).pos.x() as int,
                old(self).pos.y() as int,
                old(self).radius as int,
                dy as int,
            ),
            !collides_at(
                maze,
                block as int,
                old(self).pos.x() as int,
                old(self).pos.y() as int,
                old(self).radius as int,
            ) ==> !collides_at(
                maze,
                block as int,
                final(self).pos.x() as int,
                final(self).pos.y() as int,
                final(self).radius as int,
            ),
            final(self).a == old(self).a,
            final(self).fov == old(self).fov,
            final(self).radius == old(self).radius,
    {
        self.shift(dx as i128, dy as i128, maze, block);
    }

    fn shift(&mut self, dx: i128, dy: i128, maze: &Vec<Vec<char>>, block: usize)
        requires
            block > 0,
            -0x1_0000_0000_0000_0000 <= dx <= 0x1_0000_0000_0000_0000,
            -0x1_0000_0000_0000_0000 <= dy <= 0x1_0000_0000_0000_0000,
        ensures
            final(self).pos.wf(),
            final(self).pos.x() == slide_x(
                maze,
                block as int,
                old(self).pos.x() as int,
                old(self).pos.y() as int,
                old(self).radius as int,
                dx as int,
            ),
            final(self).pos.y() == slide_y(
                maze,
                block as int,
                final(self).pos.x() as int,
                old(self).pos.y() as int,
                old(self).radius as int,
                dy as int,
            ),
            !collides_at(
                maze,
                block as int,
                old(self).pos.x() as int,
                old(self).pos.y() as int,
                old(self).radius as int,
            ) ==> !collides_at(
                maze,
                block as int,
                final(self).pos.x() as int,
                final(self).pos.y() as int,
                final(self).radius as int,
            ),
            final(self).a == old(self).a,
            final(self).fov == old(self).fov,
            final(self).radius == old(self).radius,
    {
        let x: i64 = self.pos.x();
        let y: i64 = self.pos.y();
        let nx: i128 = x as i128 + dx;
        let mut cx: i64 = x;
        if !collides(maze, nx, y as i128, self.radius, block) {
            proof {
                lemma_clear_is_in_world(maze, block as int, nx as int, y as int, self.radius as int);
            }
            cx = nx as i64;
        }
        let ny: i128 = y as i128 + dy;
        let mut cy: i64 = y;
        if !collides(maze, cx as i128, ny, self.radius, block) {
            proof {
                lemma_clear_is_in_world(maze, block as int, cx as int, ny as int, self.radius as int);
            }
            cy = ny as i64;
        }
        self.pos = Position::new(cx, cy);
    }

    /// Walks `step` along the direction `dir` of the heading, sliding along walls.
    pub fn move_forward(&mut self, step: i64, dir: Direction, maze: &Vec<Vec<char>>, block: usize)
        requires
            block > 0,
        ensures
            final(self).pos.wf(),
            final(self).pos.x() == slide_x(
                maze,
                block as int,
                old(self).pos.x() as int,
                old(self).pos.y() as int,
                old(self).radius as int,
                scaled(dir.cos() as int, step as int),
            ),
            final(self).pos.y() == slide_y(
                maze,
                block as int,
                final(self).pos.x() as int,
                old(self).pos.y() as int,
                old(self).radius as int,
                scaled(dir.sin() as int, step as int),
            ),
            !collides_at(
                maze,
                block as int,
                old(self).pos.x() as int,
                old(self).pos.y() as int,
                old(self).radius as int,
            ) ==> !collides_at(
                maze,
                block as int,
                final(self).pos.x() as int,
                final(self).pos.y() as int,
                final(self).radius as int,
            ),
            final(self).a == old(self).a,
            final(self).fov == old(self).fov,
            final(self).radius == old(self).radius,
    {
        let dx: i128 = scale_step(dir.cos(), step);
        let dy: i128 = scale_step(dir.sin(), step);
        self.shift(dx, dy, maze, block);
    }

    /// Walks `step` against the direction `dir` of the heading, sliding along walls.
    pub fn move_backward(&mut self, step: i64, dir: Direction, maze: &Vec<Vec<char>>, block: usize)
        requires
            block > 0,
        ensures
            final(self).pos.wf(),
            final(self).pos.x() == slide_x(
                maze,
                block as int,
                old(self).pos.x() as int,
                old(self).pos.y() as int,
                old(self).radius as int,
                scaled(-dir.cos() as int, step as int),
            ),
            final(self).pos.y() == slide_y(
                maze,
                block as int,
                final(self).pos.x() as int,
                old(self).pos.y() as int,
                old(self).radius as int,
                scaled(-dir.sin() as int, step as int),
            ),
            !collides_at(
                maze,
                block as int,
                old(self).pos.x() as int,
                old(self).pos.y() as int,
                old(self).radius as int,
            ) ==> !collides_at(
                maze,
                block as int,
                final(self).pos.x() as int,
                final(self).pos.y() as int,
                final(self).radius as int,
            ),
            final(self).a == old(self).a,
            final(self).fov == old(self).fov,
            final(self).radius == old(self).radius,
    {
        let dx: i128 = scale_step(-dir.cos(), step);
        let dy: i128 = scale_step(-dir.sin(), step);
        self.shift(dx, dy, maze, block);
    }
}

/// The fixed-point product of a sine or cosine `c` and a length `step`, rounded down.
pub fn scale_step(c: i64, step: i64) -> (r: i128)
    requires
        unit_range(c as int),
    ensures
        r == scaled(c as int, step as int),
        -0x8000_0000_0000_0000 <= r <= 0x8000_0000_0000_0000,
{
    assert(-0x1_0000_0000_0000_0000_0000 <= c * step <= 0x1_0000_0000_0000_0000_0000)
        by (nonlinear_arith)
        requires
            -0x1_0000 <= c <= 0x1_0000,
            -0x8000_0000_0000_0000 <= step <= 0x8000_0000_0000_0000,
    ;
    let p: i128 = c as i128 * step as i128;
    let q: i128 = div_floor(p, ONE as i128);
    proof {
        lemma_scaled_bound(c as int, step as int);
    }
    q
}

/// Scaling by a number between -1 and 1 does not lengthen: the magnitude of the product is at
/// most that of `step`, up to the rounding.
pub proof fn lemma_scaled_bound(c: int, step: int)
    requires
        unit_range(c),
    ensures
        step >= 0 ==> -step <= scaled(c, step) <= step,
        step < 0 ==> step <= scaled(c, step) <= -step,
{
    let p = c * step;
    assert(step >= 0 ==> -ONE * step <= p <= ONE * step) by (nonlinear_arith)
        requires
            p == c * step,
            -ONE <= c <= ONE,
    ;
    assert(step < 0 ==> ONE * step <= p <= -ONE * step) by (nonlinear_arith)
        requires
            p == c * step,
            -ONE <= c <= ONE,
    ;
}

} // verus!
