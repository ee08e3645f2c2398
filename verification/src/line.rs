//! Straight lines on the pixel grid.
//!
//! A line from one pixel to another is walked one pixel at a time. Each step
//! moves one pixel along the axis in which the line is longer, and also one
//! pixel along the other axis whenever the accumulated error says that the true
//! line has moved on there.

use vstd::prelude::*;
use crate::framebuffer::Framebuffer;

verus! {

/// The magnitude of `x`.
pub open spec fn extent(x: int) -> int {
    if x < 0 {
        -x
    } else {
        x
    }
}

/// The direction of `x`: 1 if it is positive, else -1.
pub open spec fn toward(x: int) -> int {
    if x > 0 {
        1
    } else {
        -1
    }
}

/// The error term of a line that is `dx` pixels wide and `dy` pixels high after `nx`
/// steps along x and `ny` steps along y.
pub open spec fn line_error(dx: int, dy: int, nx: int, ny: int) -> int {
    dx * (1 + ny) - dy * (1 + nx)
}

/// How many steps along x and along y the first `k` steps of a line take that is `dx`
/// pixels wide and `dy` pixels high.
pub open spec fn line_progress(dx: int, dy: int, k: int) -> (int, int)
    decreases k,
{
    if k <= 0 {
        (0, 0)
    } else {
        let (nx, ny) = line_progress(dx, dy, k - 1);
        let e2 = 2 * line_error(dx, dy, nx, ny);
        (
            if e2 >= -dy {
                nx + 1
            } else {
                nx
            },
            if e2 <= dx {
                ny + 1
            } else {
                ny
            },
        )
    }
}

/// The number of steps of a line that is `dx` pixels wide and `dy` pixels high.
pub open spec fn line_steps(dx: int, dy: int) -> int {
    if dx > dy {
        dx
    } else {
        dy
    }
}

/// The pixel that the line from (`x0`, `y0`) to (`x1`, `y1`) reaches after `k` steps.
pub open spec fn line_point(x0: int, y0: int, x1: int, y1: int, k: int) -> (int, int) {
    let (nx, ny) = line_progress(extent(x1 - x0), extent(y1 - y0), k);
    (x0 + toward(x1 - x0) * nx, y0 + toward(y1 - y0) * ny)
}

/// Whether the pixel (`px`, `py`) is among the first `n` pixels of the line from
/// (`x0`, `y0`) to (`x1`, `y1`).
pub open spec fn line_covers(x0: int, y0: int, x1: int, y1: int, n: int, px: int, py: int) -> bool
    decreases n,
{
    if n <= 0 {
        false
    } else {
        line_point(x0, y0, x1, y1, n - 1) == (px, py) || line_covers(x0, y0, x1, y1, n - 1, px, py)
    }
}

/// Whether the pixel (`px`, `py`) is on the line from (`x0`, `y0`) to (`x1`, `y1`).
pub open spec fn on_line(x0: int, y0: int, x1: int, y1: int, px: int, py: int) -> bool {
    line_covers(
        x0,
        y0,
        x1,
        y1,
        line_steps(extent(x1 - x0), extent(y1 - y0)) + 1,
        px,
        py,
    )
}

/// Whether a line that is `dx` wide and `dy` high is on course after `k` steps that took it
/// `nx` along x and `ny` along y: it has not left the rectangle between its ends, it has
/// moved `k` pixels along its longer axis, and its error term is within bounds.
pub open spec fn on_course(dx: int, dy: int, k: int, nx: int, ny: int) -> bool {
    let e2 = 2 * line_error(dx, dy, nx, ny);
    &&& 0 <= nx <= dx
    &&& 0 <= ny <= dy
    &&& dx >= dy ==> nx == k && dx - 2 * dy <= e2 <= 3 * dx - 2 * dy
    &&& dy >= dx ==> ny == k && 2 * dx - 3 * dy <= e2 <= 2 * dx - dy
}

/// How a step along x, along y, or along both changes the error term.
pub proof fn lemma_error_step(dx: int, dy: int, nx: int, ny: int)
    by (nonlinear_arith)
    ensures
        line_error(dx, dy, 0, 0) == dx - dy,
        line_error(dx, dy, nx + 1, ny) == line_error(dx, dy, nx, ny) - dy,
        line_error(dx, dy, nx, ny + 1) == line_error(dx, dy, nx, ny) + dx,
        line_error(dx, dy, nx + 1, ny + 1) == line_error(dx, dy, nx, ny) - dy + dx,
{
}

/// One step keeps a line on course.
proof fn lemma_step_on_course(dx: int, dy: int, k: int, nx: int, ny: int)
    requires
        0 <= dx,
        0 <= dy,
        0 <= k < line_steps(dx, dy),
        on_course(dx, dy, k, nx, ny),
    ensures
        ({
            let e2 = 2 * line_error(dx, dy, nx, ny);
            let mx = if e2 >= -dy {
                nx + 1
            } else {
                nx
            };
            let my = if e2 <= dx {
                ny + 1
            } else {
                ny
            };
            on_course(dx, dy, k + 1, mx, my)
        }),
{
    let e = line_error(dx, dy, nx, ny);
    let e2 = 2 * e;
    lemma_error_step(dx, dy, nx, ny);
    if dx >= dy {
        // the line is at least as wide as high: x moves in every step
        if ny == dy {
            // y has arrived, and x has not: the error is too large for another step along y
            assert(e2 > dx) by (nonlinear_arith)
                requires
                    e2 == 2 * (dx * (1 + ny) - dy * (1 + nx)),
                    ny == dy,
                    0 <= nx < dx,
                    0 <= dy,
            ;
        }
    }
    if dy >= dx {
        if nx == dx {
            assert(e2 < -dy) by (nonlinear_arith)
                requires
                    e2 == 2 * (dx * (1 + ny) - dy * (1 + nx)),
                    nx == dx,
                    0 <= ny < dy,
                    0 <= dx,
            ;
        }
    }
}

/// A line stays on course from its first step to its last.
pub proof fn lemma_on_course(dx: int, dy: int, k: int)
    requires
        0 <= dx,
        0 <= dy,
        0 <= k <= line_steps(dx, dy),
    ensures
        on_course(dx, dy, k, line_progress(dx, dy, k).0, line_progress(dx, dy, k).1),
    decreases k,
{
    if k > 0 {
        lemma_on_course(dx, dy, k - 1);
        let (nx, ny) = line_progress(dx, dy, k - 1);
        lemma_step_on_course(dx, dy, k - 1, nx, ny);
    }
}

/// A line that is on course after its last step has arrived: it has gone its whole width
/// and its whole height.
proof fn lemma_arrival(dx: int, dy: int, nx: int, ny: int)
    requires
        0 <= dx,
        0 <= dy,
        on_course(dx, dy, line_steps(dx, dy), nx, ny),
    ensures
        nx == dx,
        ny == dy,
{
    let e2 = 2 * line_error(dx, dy, nx, ny);
    if dx >= dy {
        assert(nx == dx);
        if ny < dy {
            assert(e2 < -dy) by (nonlinear_arith)
                requires
                    e2 == 2 * (dx * (1 + ny) - dy * (1 + nx)),
                    nx == dx,
                    0 <= ny < dy,
                    0 <= dx,
            ;
        }
    } else {
        assert(ny == dy);
        if nx < dx {
            assert(e2 > dx) by (nonlinear_arith)
                requires
                    e2 == 2 * (dx * (1 + ny) - dy * (1 + nx)),
                    ny == dy,
                    0 <= nx < dx,
                    0 <= dy,
            ;
        }
    }
}

/// A line begins at its first end, ends at its second after `line_steps` steps, and reaches
/// the second end no earlier.
pub proof fn lemma_line_ends(x0: int, y0: int, x1: int, y1: int)
    ensures
        line_point(x0, y0, x1, y1, 0) == (x0, y0),
        line_point(
            x0,
            y0,
            x1,
            y1,
            line_steps(extent(x1 - x0), extent(y1 - y0)),
        ) == (x1, y1),
        forall|k: int|
            0 <= k < line_steps(extent(x1 - x0), extent(y1 - y0)) ==> #[trigger] line_point(
                x0,
                y0,
                x1,
                y1,
                k,
            ) != (x1, y1),
        on_line(x0, y0, x1, y1, x0, y0),
        on_line(x0, y0, x1, y1, x1, y1),
{
    let dx = extent(x1 - x0);
    let dy = extent(y1 - y0);
    let n = line_steps(dx, dy);
    lemma_on_course(dx, dy, n);
    lemma_arrival(dx, dy, line_progress(dx, dy, n).0, line_progress(dx, dy, n).1);
    assert forall|k: int| 0 <= k < n implies #[trigger] line_point(x0, y0, x1, y1, k) != (
        x1,
        y1,
    ) by {
        lemma_on_course(dx, dy, k);
    }
    lemma_covers_point(x0, y0, x1, y1, n + 1, n);
    lemma_covers_point(x0, y0, x1, y1, n + 1, 0);
}

/// The pixel reached after `k` steps is among the first `n` pixels of the line if `k < n`.
pub proof fn lemma_covers_point(x0: int, y0: int, x1: int, y1: int, n: int, k: int)
    requires
        0 <= k < n,
    ensures
        line_covers(
            x0,
            y0,
            x1,
            y1,
            n,
            line_point(x0, y0, x1, y1, k).0,
            line_point(x0, y0, x1, y1, k).1,
        ),
    decreases n,
{
    if k < n - 1 {
        lemma_covers_point(x0, y0, x1, y1, n - 1, k);
    }
}

/// Every pixel of a line lies in the rectangle between its ends.
pub proof fn lemma_line_in_box(x0: int, y0: int, x1: int, y1: int, n: int, px: int, py: int)
    requires
        n <= line_steps(extent(x1 - x0), extent(y1 - y0)) + 1,
        line_covers(x0, y0, x1, y1, n, px, py),
    ensures
        x0 <= px <= x1 || x1 <= px <= x0,
        y0 <= py <= y1 || y1 <= py <= y0,
    decreases n,
{
    if n > 0 {
        if line_point(x0, y0, x1, y1, n - 1) == (px, py) {
            lemma_on_course(extent(x1 - x0), extent(y1 - y0), n - 1);
        } else {
            lemma_line_in_box(x0, y0, x1, y1, n - 1, px, py);
        }
    }
}

/// Each step of a line leads to a neighbouring pixel: it moves by one pixel along the longer
/// side of the line, and by one pixel or not at all along the other.
pub proof fn lemma_line_is_connected(x0: int, y0: int, x1: int, y1: int, k: int)
    requires
        0 <= k < line_steps(extent(x1 - x0), extent(y1 - y0)),
    ensures
        ({
            let p = line_point(x0, y0, x1, y1, k);
            let q = line_point(x0, y0, x1, y1, k + 1);
            &&& extent(q.0 - p.0) <= 1
            &&& extent(q.1 - p.1) <= 1
            &&& extent(x1 - x0) >= extent(y1 - y0) ==> extent(q.0 - p.0) == 1
            &&& extent(y1 - y0) >= extent(x1 - x0) ==> extent(q.1 - p.1) == 1
        }),
{
    let dx = extent(x1 - x0);
    let dy = extent(y1 - y0);
    lemma_on_course(dx, dy, k);
    lemma_on_course(dx, dy, k + 1);
    let (nx, ny) = line_progress(dx, dy, k);
    let (mx, my) = line_progress(dx, dy, k + 1);
    assert(mx == nx || mx == nx + 1);
    assert(my == ny || my == ny + 1);
    assert(toward(x1 - x0) * mx - toward(x1 - x0) * nx == toward(x1 - x0) * (mx - nx))
        by (nonlinear_arith);
    assert(toward(y1 - y0) * my - toward(y1 - y0) * ny == toward(y1 - y0) * (my - ny))
        by (nonlinear_arith);
}

/// Draws the line from (`x0`, `y0`) to (`x1`, `y1`), as far as it lies on the surface.
pub fn draw_line(fb: &mut Framebuffer, x0: i32, y0: i32, x1: i32, y1: i32, color: u32)
    ensures
        final(fb).same_size(old(fb)),
        forall|i: int, j: int|
            final(fb).in_bounds(i, j) ==> #[trigger] final(fb).pixel(i, j) == (if on_line(
                x0 as int,
                y0 as int,
                x1 as int,
                y1 as int,
                i,
                j,
            ) {
                color
            } else {
                old(fb).pixel(i, j)
            }),
{
    let dx: i64 = if x1 >= x0 {
        x1 as i64 - x0 as i64
    } else {
        x0 as i64 - x1 as i64
    };
    let sx: i64 = if x0 < x1 {
        1
    } else {
        -1
    };
    let dy: i64 = if y1 >= y0 {
        y1 as i64 - y0 as i64
    } else {
        y0 as i64 - y1 as i64
    };
    let sy: i64 = if y0 < y1 {
        1
    } else {
        -1
    };
    let mut x: i64 = x0 as i64;
    let mut y: i64 = y0 as i64;
    let mut err: i64 = dx - dy;
    let ghost n = line_steps(dx as int, dy as int);
    let ghost mut k: int = 0;
    let ghost mut nx: int = 0;
    let ghost mut ny: int = 0;
    proof {
        lemma_on_course(dx as int, dy as int, 0);
        lemma_error_step(dx as int, dy as int, 0, 0);
    }
    loop
        invariant_except_break
            0 <= k <= n,
            forall|i: int, j: int|
                fb.in_bounds(i, j) ==> #[trigger] fb.pixel(i, j) == (if line_covers(
                    x0 as int,
                    y0 as int,
                    x1 as int,
                    y1 as int,
                    k,
                    i,
                    j,
                ) {
                    color
                } else {
                    old(fb).pixel(i, j)
                }),
        invariant
            fb.same_size(old(fb)),
            dx == extent(x1 - x0),
            dy == extent(y1 - y0),
            sx == toward(x1 - x0),
            sy == toward(y1 - y0),
            n == line_steps(dx as int, dy as int),
            (nx, ny) == line_progress(dx as int, dy as int, k),
            on_course(dx as int, dy as int, k, nx, ny),
            x == x0 + sx * nx,
            y == y0 + sy * ny,
            err == line_error(dx as int, dy as int, nx, ny),
        ensures
            forall|i: int, j: int|
                fb.in_bounds(i, j) ==> #[trigger] fb.pixel(i, j) == (if on_line(
                    x0 as int,
                    y0 as int,
                    x1 as int,
                    y1 as int,
                    i,
                    j,
                ) {
                    color
                } else {
                    old(fb).pixel(i, j)
                }),
        decreases n - k,
    {
        fb.plot(x, y, color);
        proof {
            assert((x as int, y as int) == line_point(x0 as int, y0 as int, x1 as int, y1 as int, k));
            lemma_line_ends(x0 as int, y0 as int, x1 as int, y1 as int);
        }
        if x == x1 as i64 && y == y1 as i64 {
            proof {
                if k < n {
                    assert(line_point(x0 as int, y0 as int, x1 as int, y1 as int, k) != (
                        x1 as int,
                        y1 as int,
                    ));
                }
                assert(k == n);
            }
            break;
        }
        proof {
            if k == n {
                lemma_arrival(dx as int, dy as int, nx, ny);
            }
            lemma_step_on_course(dx as int, dy as int, k, nx, ny);
            lemma_error_step(dx as int, dy as int, nx, ny);
        }
        let e2: i64 = 2 * err;
        if e2 >= -dy {
            err = err - dy;
            x = x + sx;
            proof {
                nx = nx + 1;
            }
        }
        if e2 <= dx {
            err = err + dx;
            y = y + sy;
            proof {
                ny = ny + 1;
            }
        }
        proof {
            k = k + 1;
        }
    }
}

} // verus!
