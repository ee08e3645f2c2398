//! The map in the corner: every cell of the maze as a small square of one
//! colour, the player as a disk, and a short line for the heading.

use vstd::prelude::*;
use crate::fixed::{div_floor, finite, lemma_quotient_bound, trunc, ONE};
use crate::framebuffer::Framebuffer;
use crate::line::{draw_line, on_line};
use crate::map::has_cell;
use crate::player::{Direction, Player};

verus! {

/// The colour of the player's disk and of the line of the heading.
pub const MARKER: u32 = 0xFFFF00;

/// The colour in which the map shows a cell that holds the character `c`.
pub open spec fn minimap_color(c: char) -> u32 {
    if c == ' ' {
        0x000000
    } else if c == '#' {
        0x808080
    } else if c == 'A' {
        0xCC3333
    } else if c == 'B' {
        0x33CC33
    } else if c == 'C' {
        0x3333CC
    } else if c == '1' {
        0xFF0000
    } else if c == '2' {
        0x00FF00
    } else if c == '3' {
        0x0000FF
    } else {
        0x606060
    }
}

/// The colour in which the map shows a cell that holds the character `c`.
pub fn wall_color(c: char) -> (color: u32)
    ensures
        color == minimap_color(c),
{
    match c {
        ' ' => 0x000000,
        '#' => 0x808080,
        'A' => 0xCC3333,
        'B' => 0x33CC33,
        'C' => 0x3333CC,
        '1' => 0xFF0000,
        '2' => 0x00FF00,
        '3' => 0x0000FF,
        _ => 0x606060,
    }
}

/// Whether the pixel column (or row) `p` belongs to the square of the cell with the given
/// index along that axis: whether it is one of the `scale` pixels from
/// `off + index * scale` on.
pub open spec fn in_square(p: int, off: int, index: int, scale: int) -> bool {
    off + index * scale <= p < off + index * scale + scale
}

/// The index along one axis of the cell whose square holds the pixel column (or row) `p`.
pub open spec fn square_of(p: int, off: int, scale: int) -> int {
    (p - off) / scale
}

/// A pixel belongs to the square of exactly the cell that `square_of` names.
pub proof fn lemma_square_of(p: int, off: int, index: int, scale: int)
    requires
        scale > 0,
    ensures
        in_square(p, off, index, scale) <==> square_of(p, off, scale) == index,
{
    let d = p - off;
    vstd::arithmetic::div_mod::lemma_fundamental_div_mod(d, scale);
    vstd::arithmetic::div_mod::lemma_mod_bound(d, scale);
    let q = d / scale;
    if in_square(p, off, index, scale) {
        vstd::arithmetic::div_mod::lemma_fundamental_div_mod_converse(
            d,
            scale,
            index,
            d - index * scale,
        );
    }
    if q == index {
        assert(scale * q == index * scale) by (nonlinear_arith)
            requires
                q == index,
        ;
    }
}

/// The squares of two different cells share no pixel.
pub proof fn lemma_squares_disjoint(p: int, off: int, first: int, second: int, scale: int)
    requires
        scale > 0,
        in_square(p, off, first, scale),
        in_square(p, off, second, scale),
    ensures
        first == second,
{
    lemma_square_of(p, off, first, scale);
    lemma_square_of(p, off, second, scale);
}

/// The colour that the cells of `maze` put into the pixel (`x`, `y`), if any: that of the
/// cell whose square holds the pixel. The square of the cell in column `i` of row `j` begins
/// at (`x_off + i * scale`, `y_off + j * scale`) and is `scale` pixels wide and high.
pub open spec fn cells_pixel(
    maze: &Vec<Vec<char>>,
    x_off: int,
    y_off: int,
    scale: int,
    x: int,
    y: int,
) -> Option<u32> {
    let i = square_of(x, x_off, scale);
    let j = square_of(y, y_off, scale);
    if scale > 0 && has_cell(maze, i, j) {
        Some(minimap_color(maze@[j]@[i]))
    } else {
        None
    }
}

/// Every pixel of the square of a cell has that cell's colour, in the map of the cells.
pub proof fn lemma_cell_square(
    maze: &Vec<Vec<char>>,
    x_off: int,
    y_off: int,
    scale: int,
    i: int,
    j: int,
    x: int,
    y: int,
)
    requires
        scale > 0,
        has_cell(maze, i, j),
        in_square(x, x_off, i, scale),
        in_square(y, y_off, j, scale),
    ensures
        cells_pixel(maze, x_off, y_off, scale, x, y) == Some(minimap_color(maze@[j]@[i])),
{
    lemma_square_of(x, x_off, i, scale);
    lemma_square_of(y, y_off, j, scale);
}

/// A pixel that the map of the cells colours lies in the square of a cell, and has that
/// cell's colour.
pub proof fn lemma_pixel_cell(
    maze: &Vec<Vec<char>>,
    x_off: int,
    y_off: int,
    scale: int,
    x: int,
    y: int,
)
    requires
        cells_pixel(maze, x_off, y_off, scale, x, y) is Some,
    ensures
        ({
            let i = square_of(x, x_off, scale);
            let j = square_of(y, y_off, scale);
            &&& has_cell(maze, i, j)
            &&& in_square(x, x_off, i, scale)
            &&& in_square(y, y_off, j, scale)
            &&& cells_pixel(maze, x_off, y_off, scale, x, y) == Some(minimap_color(maze@[j]@[i]))
        }),
{
    lemma_square_of(x, x_off, square_of(x, x_off, scale), scale);
    lemma_square_of(y, y_off, square_of(y, y_off, scale), scale);
}

/// The first pixel column (or row) of the square of the cell with the given index, if it
/// is small enough to be on any surface.
fn square_start(off: usize, index: usize, scale: usize) -> (start: Option<usize>)
    ensures
        start == (if off + index * scale <= usize::MAX {
            Some((off + index * scale) as usize)
        } else {
            None
        }),
{
    match index.checked_mul(scale) {
        Some(d) => off.checked_add(d),
        None => {
            assert(index * scale >= 0) by (nonlinear_arith)
                requires
                    index >= 0,
                    scale >= 0,
            ;
            None
        },
    }
}

/// Draws every cell of `maze` as a square of `scale` x `scale` pixels, the cell in
/// column `i` of row `j` at (`x_off + i * scale`, `y_off + j * scale`).
pub fn render_cells(
    fb: &mut Framebuffer,
    maze: &Vec<Vec<char>>,
    x_off: usize,
    y_off: usize,
    scale: usize,
)
    ensures
        final(fb).same_size(old(fb)),
        forall|x: int, y: int|
            final(fb).in_bounds(x, y) ==> #[trigger] final(fb).pixel(x, y) == (match cells_pixel(
                maze,
                x_off as int,
                y_off as int,
                scale as int,
                x,
                y,
            ) {
                Some(color) => color,
                None => old(fb).pixel(x, y),
            }),
{
    if scale == 0 {
        return;
    }
    let mut j: usize = 0;
    while j < maze.len()
        invariant
            scale > 0,
            j <= maze@.len(),
            fb.same_size(old(fb)),
            forall|x: int, y: int|
                fb.in_bounds(x, y) ==> #[trigger] fb.pixel(x, y) == (if square_of(
                    y,
                    y_off as int,
                    scale as int,
                ) < j {
                    match cells_pixel(maze, x_off as int, y_off as int, scale as int, x, y) {
                        Some(color) => color,
                        None => old(fb).pixel(x, y),
                    }
                } else {
                    old(fb).pixel(x, y)
                }),
        decreases maze@.len() - j,
    {
        let row: &Vec<char> = &maze[j];
        let top: Option<usize> = square_start(y_off, j, scale);
        let mut i: usize = 0;
        while i < row.len()
            invariant
                scale > 0,
                j < maze@.len(),
                row@ == maze@[j as int]@,
                i <= row@.len(),
                top == (if y_off + j * scale <= usize::MAX {
                    Some((y_off + j * scale) as usize)
                } else {
                    None
                }),
                fb.same_size(old(fb)),
                forall|x: int, y: int|
                    fb.in_bounds(x, y) ==> #[trigger] fb.pixel(x, y) == (if square_of(
                        y,
                        y_off as int,
                        scale as int,
                    ) < j || (square_of(y, y_off as int, scale as int) == j && square_of(
                        x,
                        x_off as int,
                        scale as int,
                    ) < i) {
                        match cells_pixel(maze, x_off as int, y_off as int, scale as int, x, y) {
                            Some(color) => color,
                            None => old(fb).pixel(x, y),
                        }
                    } else {
                        old(fb).pixel(x, y)
                    }),
            decreases row@.len() - i,
        {
            let color: u32 = wall_color(row[i]);
            let left: Option<usize> = square_start(x_off, i, scale);
            let ghost before = *fb;
            match (left, top) {
                (Some(x0), Some(y0)) => {
                    fb.fill_rect(x0, y0, scale, scale, color);
                },
                _ => {},
            }
            proof {
                assert forall|x: int, y: int| fb.in_bounds(x, y) implies #[trigger] fb.pixel(x, y)
                    == (if square_of(y, y_off as int, scale as int) < j || (square_of(
                    y,
                    y_off as int,
                    scale as int,
                ) == j && square_of(x, x_off as int, scale as int) < i + 1) {
                    match cells_pixel(maze, x_off as int, y_off as int, scale as int, x, y) {
                        Some(color) => color,
                        None => old(fb).pixel(x, y),
                    }
                } else {
                    old(fb).pixel(x, y)
                }) by {
                    lemma_square_of(x, x_off as int, i as int, scale as int);
                    lemma_square_of(y, y_off as int, j as int, scale as int);
                    assert(before.in_bounds(x, y));
                }
            }
            i += 1;
        }
        j += 1;
    }
}

/// The nearest number to `x` that a 32-bit signed integer holds.
pub open spec fn clamp_i32(x: int) -> int {
    if x < i32::MIN {
        i32::MIN as int
    } else if x > i32::MAX {
        i32::MAX as int
    } else {
        x
    }
}

/// Where on the surface, along one axis and in fixed-point pixels, the map shows the world
/// coordinate `pos`: `pos / block_size` cells from the map's corner at `off`.
pub open spec fn marker_coord(off: int, pos: int, scale: int, block_size: int) -> int {
    off * ONE + (pos * scale) / block_size
}

/// The pixel column (or row) of the middle of the player's disk.
pub open spec fn marker_pixel(off: int, pos: int, scale: int, block_size: int) -> int {
    clamp_i32(trunc(marker_coord(off, pos, scale, block_size)))
}

/// The radius of the player's disk: a third of a cell's square, and at least two pixels.
pub open spec fn marker_radius(scale: int) -> int {
    if scale / 3 > 2 {
        scale / 3
    } else {
        2
    }
}

/// The length of the line of the heading, in fixed-point pixels: nine tenths of a cell's
/// square, and at least four pixels.
pub open spec fn pointer_length(scale: int) -> int {
    if (scale * 9 * ONE) / 10 > 4 * ONE {
        (scale * 9 * ONE) / 10
    } else {
        4 * ONE
    }
}

/// The pixel column (or row) of the far end of the line of the heading, where `c` is the
/// cosine (or sine) of the heading.
pub open spec fn pointer_pixel(off: int, pos: int, scale: int, block_size: int, c: int) -> int {
    clamp_i32(
        trunc(
            marker_coord(off, pos, scale, block_size) + (c * pointer_length(scale)) / (ONE as int),
        ),
    )
}

/// Whether the pixel (`x`, `y`) lies in the disk of radius `r` around (`cx`, `cy`).
pub open spec fn in_disk(cx: int, cy: int, r: int, x: int, y: int) -> bool {
    (x - cx) * (x - cx) + (y - cy) * (y - cy) <= r * r
}

/// Whether the pixel column (or row) `p` is at most `r` away from `c`.
pub open spec fn near(p: int, c: int, r: int) -> bool {
    c - r <= p <= c + r
}

/// A pixel farther than `r` from the middle along one axis is outside the disk.
pub proof fn lemma_outside_disk(cx: int, cy: int, r: int, x: int, y: int)
    by (nonlinear_arith)
    requires
        r >= 0,
        !near(x, cx, r) || !near(y, cy, r),
    ensures
        !in_disk(cx, cy, r, x, y),
{
    assert((x - cx) * (x - cx) >= 0);
    assert((y - cy) * (y - cy) >= 0);
    if x < cx - r || x > cx + r {
        assert((x - cx) * (x - cx) > r * r);
    } else {
        assert((y - cy) * (y - cy) > r * r);
    }
}

/// The squares of two distances of at most `r` are at most the square of `r`, and the
/// square of a distance is that of its magnitude.
proof fn lemma_disk_terms(dx: int, dy: int, r: int)
    by (nonlinear_arith)
    requires
        -r <= dx <= r,
        -r <= dy <= r,
        0 <= r <= 0xffff_ffff_ffff_ffff,
    ensures
        0 <= dx * dx <= r * r,
        0 <= dy * dy <= r * r,
        r * r <= 0xffff_ffff_ffff_ffff_ffff_ffff_ffff_ffff,
        (-dx) * (-dx) == dx * dx,
        (-dy) * (-dy) == dy * dy,
{
}

/// The distance between the pixel column (or row) `p` and `c`.
fn gap(p: usize, c: i32) -> (d: u128)
    ensures
        d == p - c || d == c - p,
        d >= 0,
{
    let a: i128 = p as i128 - c as i128;
    if a < 0 {
        (-a) as u128
    } else {
        a as u128
    }
}

/// The part from `c - r` to `c + r` of the `n` columns (or rows) of a surface: its first
/// column and the one after its last.
fn span(c: i32, r: usize, n: usize) -> (range: (usize, usize))
    ensures
        range.0 <= n,
        range.1 <= n,
        forall|p: int| 0 <= p < n ==> (range.0 <= p < range.1 <==> #[trigger] near(p, c as int, r as int)),
{
    let lo: i128 = c as i128 - r as i128;
    let hi: i128 = c as i128 + r as i128 + 1;
    let first: i128 = if lo < 0 {
        0
    } else if lo > n as i128 {
        n as i128
    } else {
        lo
    };
    let end: i128 = if hi < 0 {
        0
    } else if hi > n as i128 {
        n as i128
    } else {
        hi
    };
    (first as usize, end as usize)
}

/// Fills the disk of radius `r` around (`cx`, `cy`), as far as it lies on the surface.
pub fn draw_disk(fb: &mut Framebuffer, cx: i32, cy: i32, r: usize, color: u32)
    ensures
        final(fb).same_size(old(fb)),
        forall|x: int, y: int|
            final(fb).in_bounds(x, y) ==> #[trigger] final(fb).pixel(x, y) == (if in_disk(
                cx as int,
                cy as int,
                r as int,
                x,
                y,
            ) {
                color
            } else {
                old(fb).pixel(x, y)
            }),
{
    let (left, right) = span(cx, r, fb.width());
    let (top, bottom) = span(cy, r, fb.height());
    proof {
        assert forall|a: int, b: int|
            fb.in_bounds(a, b) && #[trigger] in_disk(
                cx as int,
                cy as int,
                r as int,
                a,
                b,
            ) implies near(a, cx as int, r as int) && near(b, cy as int, r as int) && left <= a
            < right && top <= b < bottom by {
            if !near(a, cx as int, r as int) || !near(b, cy as int, r as int) {
                lemma_outside_disk(cx as int, cy as int, r as int, a, b);
            }
        }
    }
    proof {
        lemma_disk_terms(0, 0, r as int);
    }
    let limit: u128 = r as u128 * r as u128;
    let mut y: usize = top;
    while y < bottom
        invariant
            fb.same_size(old(fb)),
            top <= y,
            bottom <= fb.height(),
            right <= fb.width(),
            limit == r * r,
            forall|p: int| left <= p < right ==> #[trigger] near(p, cx as int, r as int),
            forall|p: int| top <= p < bottom ==> #[trigger] near(p, cy as int, r as int),
            forall|a: int, b: int|
                fb.in_bounds(a, b) && #[trigger] in_disk(cx as int, cy as int, r as int, a, b)
                    ==> near(a, cx as int, r as int) && near(b, cy as int, r as int) && left <= a
                    < right && top <= b < bottom,
            forall|a: int, b: int|
                fb.in_bounds(a, b) ==> #[trigger] fb.pixel(a, b) == (if in_disk(
                    cx as int,
                    cy as int,
                    r as int,
                    a,
                    b,
                ) && left <= a < right && top <= b < y {
                    color
                } else {
                    old(fb).pixel(a, b)
                }),
        decreases bottom - y,
    {
        let mut x: usize = left;
        while x < right
            invariant
                fb.same_size(old(fb)),
                left <= x,
                top <= y < bottom,
                bottom <= fb.height(),
                right <= fb.width(),
                limit == r * r,
                forall|p: int| left <= p < right ==> #[trigger] near(p, cx as int, r as int),
                near(y as int, cy as int, r as int),
                forall|a: int, b: int|
                    fb.in_bounds(a, b) && #[trigger] in_disk(cx as int, cy as int, r as int, a, b)
                        ==> near(a, cx as int, r as int) && near(b, cy as int, r as int) && left
                        <= a < right && top <= b < bottom,
                forall|a: int, b: int|
                    fb.in_bounds(a, b) ==> #[trigger] fb.pixel(a, b) == (if in_disk(
                        cx as int,
                        cy as int,
                        r as int,
                        a,
                        b,
                    ) && left <= a < right && (top <= b < y || (b == y && a < x)) {
                        color
                    } else {
                        old(fb).pixel(a, b)
                    }),
            decreases right - x,
        {
            assert(near(x as int, cx as int, r as int));
            let dx: u128 = gap(x, cx);
            let dy: u128 = gap(y, cy);
            proof {
                lemma_disk_terms(x - cx, y - cy, r as int);
                lemma_disk_terms(dx as int, dy as int, r as int);
            }
            if dx * dx <= limit - dy * dy {
                fb.point(x, y, color);
            }
            x += 1;
        }
        y += 1;
    }
}

/// The nearest number to `x` that a 32-bit signed integer holds, of the whole part of `x`.
fn to_pixel(x: i128) -> (p: i32)
    ensures
        p == clamp_i32(trunc(x as int)),
{
    let t: i128 = x / 65536;
    if t < i32::MIN as i128 {
        i32::MIN
    } else if t > i32::MAX as i128 {
        i32::MAX
    } else {
        t as i32
    }
}

/// Where on the surface, along one axis and in fixed-point pixels, the map shows the world
/// coordinate `pos`.
fn place(off: usize, pos: i64, scale: usize, block_size: usize) -> (p: i128)
    requires
        block_size > 0,
        finite(pos as int),
    ensures
        p == marker_coord(off as int, pos as int, scale as int, block_size as int),
        -0x5000_0000_0000_0000_0000_0000_0000_0000 <= p <= 0x5000_0000_0000_0000_0000_0000_0000_0000,
{
    assert(-0x4000_0000_0000_0000_0000_0000_0000_0000 <= pos * scale
        <= 0x4000_0000_0000_0000_0000_0000_0000_0000) by (nonlinear_arith)
        requires
            -0x4000_0000_0000_0000 <= pos <= 0x4000_0000_0000_0000,
            0 <= scale <= 0x1_0000_0000_0000_0000,
    ;
    let n: i128 = pos as i128 * scale as i128;
    let q: i128 = div_floor(n, block_size as i128);
    proof {
        lemma_quotient_bound(n as int, block_size as int);
    }
    off as i128 * 65536 + q
}

/// The colour that the map puts into the pixel (`x`, `y`), if any: the marker's where the
/// line of the heading or the player's disk is, else that of the cell whose square holds the
/// pixel.
pub open spec fn minimap_pixel(
    maze: &Vec<Vec<char>>,
    player: &Player,
    heading: &Direction,
    x_off: int,
    y_off: int,
    scale: int,
    block_size: int,
    x: int,
    y: int,
) -> Option<u32> {
    let cx = marker_pixel(x_off, player.pos.x() as int, scale, block_size);
    let cy = marker_pixel(y_off, player.pos.y() as int, scale, block_size);
    let tx = pointer_pixel(x_off, player.pos.x() as int, scale, block_size, heading.cos() as int);
    let ty = pointer_pixel(y_off, player.pos.y() as int, scale, block_size, heading.sin() as int);
    if on_line(cx, cy, tx, ty, x, y) || in_disk(cx, cy, marker_radius(scale), x, y) {
        Some(MARKER)
    } else {
        cells_pixel(maze, x_off, y_off, scale, x, y)
    }
}

/// Draws the map with its top left corner at (`x_off`, `y_off`) and `scale` pixels to the
/// cell: the cells, over them the player's disk, and over that the line of the heading,
/// whose direction is `heading`.
pub fn render_minimap(
    fb: &mut Framebuffer,
    player: &Player,
    heading: Direction,
    maze: &Vec<Vec<char>>,
    x_off: usize,
    y_off: usize,
    scale: usize,
    block_size: usize,
)
    requires
        block_size > 0,
    ensures
        final(fb).same_size(old(fb)),
        forall|x: int, y: int|
            final(fb).in_bounds(x, y) ==> #[trigger] final(fb).pixel(x, y) == (match minimap_pixel(
                maze,
                player,
                &heading,
                x_off as int,
                y_off as int,
                scale as int,
                block_size as int,
                x,
                y,
            ) {
                Some(color) => color,
                None => old(fb).pixel(x, y),
            }),
{
    render_cells(fb, maze, x_off, y_off, scale);
    let px: i128 = place(x_off, player.pos.x(), scale, block_size);
    let py: i128 = place(y_off, player.pos.y(), scale, block_size);
    let cx: i32 = to_pixel(px);
    let cy: i32 = to_pixel(py);
    let r: usize = if scale / 3 > 2 {
        scale / 3
    } else {
        2
    };
    draw_disk(fb, cx, cy, r, MARKER);
    let len: i128 = if (scale as i128 * 9 * 65536) / 10 > 4 * 65536 {
        (scale as i128 * 9 * 65536) / 10
    } else {
        4 * 65536
    };
    let c: i64 = heading.cos();
    let s: i64 = heading.sin();
    assert(-0x1_0000 * len <= c * len <= 0x1_0000 * len && -0x1_0000 * len <= s * len <= 0x1_0000
        * len) by (nonlinear_arith)
        requires
            -0x1_0000 <= c <= 0x1_0000,
            -0x1_0000 <= s <= 0x1_0000,
            0 <= len,
    ;
    proof {
        lemma_quotient_bound(c * len, 65536);
        lemma_quotient_bound(s * len, 65536);
    }
    let tx: i32 = to_pixel(px + div_floor(c as i128 * len, 65536));
    let ty: i32 = to_pixel(py + div_floor(s as i128 * len, 65536));
    draw_line(fb, cx, cy, tx, ty, MARKER);
}

} // verus!
