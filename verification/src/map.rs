//! The maze: rows of cells, each cell a square of `block_size` world units.
//!
//! A maze is a `Vec` of rows of characters. A blank is open floor, `'1'`, `'2'`
//! and `'3'` are things to collect, and any other character is a wall whose
//! material is that character. Whatever lies outside the rows, left of or above
//! the origin, or beyond the largest finite coordinate, is solid wall.

use vstd::prelude::*;
use crate::fixed::{COORD_MAX, ONE};

verus! {

broadcast use vstd::string::group_string_axioms;

/// The material of the wall that surrounds every maze.
pub const BOUNDARY: char = '#';

/// The character of open floor.
pub const FLOOR: char = ' ';

/// What a maze holds in one place.
#[derive(Clone, Copy, Debug, PartialEq, Eq, Structural)]
pub enum Cell {
    /// Open floor.
    Empty,
    /// A wall of the given material.
    Wall(char),
    /// A thing to collect, of the given kind.
    Collectible(char),
}

/// Whether `c` marks a thing to collect.
pub open spec fn is_collectible(c: char) -> bool {
    c == '1' || c == '2' || c == '3'
}

/// The cell that the character `c` stands for.
pub open spec fn cell_of(c: char) -> Cell {
    if is_collectible(c) {
        Cell::Collectible(c)
    } else if c != FLOOR {
        Cell::Wall(c)
    } else {
        Cell::Empty
    }
}

/// The cell that the character `c` stands for.
pub fn classify(c: char) -> (cell: Cell)
    ensures
        cell == cell_of(c),
{
    if c == '1' || c == '2' || c == '3' {
        Cell::Collectible(c)
    } else if c != FLOOR {
        Cell::Wall(c)
    } else {
        Cell::Empty
    }
}

/// Whether every row of `maze` is as long as the first.
pub open spec fn rectangular(maze: &Vec<Vec<char>>) -> bool {
    forall|j: int| 0 <= j < maze@.len() ==> (#[trigger] maze@[j])@.len() == maze@[0]@.len()
}

/// Whether row `j` of `maze` has a column `i`.
pub open spec fn has_cell(maze: &Vec<Vec<char>>, i: int, j: int) -> bool {
    0 <= j < maze@.len() && 0 <= i < maze@[j]@.len()
}

/// The index, along one axis, of the cell that holds the fixed-point coordinate `x`.
pub open spec fn cell_index(x: int, block_size: int) -> int {
    (x / (ONE as int)) / block_size
}

/// The cell with index `cell_index(x, block_size)` spans the coordinates from
/// `index * block_size * ONE` up to, but not including, `(index + 1) * block_size * ONE`.
pub proof fn lemma_cell_span(x: int, block_size: int)
    requires
        block_size > 0,
    ensures
        cell_index(x, block_size) * block_size * ONE <= x < (cell_index(x, block_size) + 1)
            * block_size * ONE,
{
    let q = x / (ONE as int);
    let k = q / block_size;
    vstd::arithmetic::div_mod::lemma_fundamental_div_mod(q, block_size);
    vstd::arithmetic::div_mod::lemma_mod_bound(q, block_size);
    assert(k * block_size <= q < (k + 1) * block_size) by (nonlinear_arith)
        requires
            q == block_size * k + q % block_size,
            0 <= q % block_size < block_size,
    ;
    assert(k * block_size * ONE <= q * ONE);
    assert((q + 1) * ONE <= (k + 1) * block_size * ONE);
}

/// A coordinate between the low edge of cell `lo` and the low edge of cell `hi` is in a cell
/// from `lo` up to, but not including, `hi`.
pub proof fn lemma_cell_between(x: int, block_size: int, lo: int, hi: int)
    requires
        block_size > 0,
        lo * block_size * ONE <= x < hi * block_size * ONE,
    ensures
        lo <= cell_index(x, block_size) < hi,
{
    let k = cell_index(x, block_size);
    lemma_cell_span(x, block_size);
    if k < lo {
        assert((k + 1) * block_size * ONE <= lo * block_size * ONE) by (nonlinear_arith)
            requires
                k + 1 <= lo,
                block_size > 0,
        ;
    }
    if k >= hi {
        assert(hi * block_size * ONE <= k * block_size * ONE) by (nonlinear_arith)
            requires
                hi <= k,
                block_size > 0,
        ;
    }
}

/// Whether the fixed-point coordinate `x` lies between the origin and the largest finite
/// coordinate.
pub open spec fn in_world(x: int) -> bool {
    0 <= x <= COORD_MAX
}

/// What is at the world point (`x`, `y`): the maze's cell there, or boundary wall where the
/// maze has none.
pub open spec fn cell_at(maze: &Vec<Vec<char>>, block_size: int, x: int, y: int) -> Cell {
    let i = cell_index(x, block_size);
    let j = cell_index(y, block_size);
    if in_world(x) && in_world(y) && has_cell(maze, i, j) {
        cell_of(maze@[j]@[i])
    } else {
        Cell::Wall(BOUNDARY)
    }
}

/// Looks up what is at the world point (`x`, `y`).
pub fn probe(maze: &Vec<Vec<char>>, block_size: usize, x: i128, y: i128) -> (cell: Cell)
    requires
        block_size > 0,
    ensures
        cell == cell_at(maze, block_size as int, x as int, y as int),
{
    if x < 0 || y < 0 || x > COORD_MAX as i128 || y > COORD_MAX as i128 {
        return Cell::Wall(BOUNDARY);
    }
    let i: u64 = (x / (ONE as i128)) as u64 / (block_size as u64);
    let j: u64 = (y / (ONE as i128)) as u64 / (block_size as u64);
    if j >= maze.len() as u64 {
        return Cell::Wall(BOUNDARY);
    }
    let row: &Vec<char> = &maze[j as usize];
    if i >= row.len() as u64 {
        return Cell::Wall(BOUNDARY);
    }
    classify(row[i as usize])
}

/// The line `line` without the carriage return at its end, if it has one.
pub open spec fn without_return(line: Seq<char>) -> Seq<char> {
    if line.len() > 0 && line.last() == '\r' {
        line.drop_last()
    } else {
        line
    }
}

/// The lines that are complete after the first `n` characters of `text`, and the beginning
/// of the line that is not. A line ends with a line feed; the line feed, and a carriage
/// return just before it, do not belong to the line.
pub open spec fn scan_lines(text: Seq<char>, n: int) -> (Seq<Seq<char>>, Seq<char>)
    decreases n,
{
    if n <= 0 {
        (Seq::empty(), Seq::empty())
    } else {
        let (lines, line) = scan_lines(text, n - 1);
        if text[n - 1] == '\n' {
            (lines.push(without_return(line)), Seq::empty())
        } else {
            (lines, line.push(text[n - 1]))
        }
    }
}

/// The lines of `text`. The last line need not end with a line feed; what follows the last
/// line feed is a line only if it is not empty.
pub open spec fn lines_of(text: Seq<char>) -> Seq<Seq<char>> {
    let (lines, line) = scan_lines(text, text.len() as int);
    if line.len() > 0 {
        lines.push(line)
    } else {
        lines
    }
}

/// Neither a complete line nor the beginning of one holds a line feed.
proof fn lemma_lines_hold_no_feed(text: Seq<char>, n: int)
    requires
        0 <= n <= text.len(),
    ensures
        forall|j: int, i: int|
            0 <= j < scan_lines(text, n).0.len() && 0 <= i < scan_lines(text, n).0[j].len()
                ==> (#[trigger] scan_lines(text, n).0[j][i]) != '\n',
        forall|i: int|
            0 <= i < scan_lines(text, n).1.len() ==> (#[trigger] scan_lines(text, n).1[i]) != '\n',
    decreases n,
{
    if n > 0 {
        lemma_lines_hold_no_feed(text, n - 1);
        let (lines, line) = scan_lines(text, n - 1);
        if text[n - 1] == '\n' {
            let done = without_return(line);
            assert forall|i: int| 0 <= i < done.len() implies done[i] != '\n' by {
                assert(done[i] == line[i]);
            }
        }
    }
}

/// No line of a text holds a line feed.
pub proof fn lemma_lines(text: Seq<char>)
    ensures
        forall|j: int, i: int|
            0 <= j < lines_of(text).len() && 0 <= i < lines_of(text)[j].len() ==> (
            #[trigger] lines_of(text)[j][i]) != '\n',
{
    lemma_lines_hold_no_feed(text, text.len() as int);
    let (lines, line) = scan_lines(text, text.len() as int);
    assert forall|j: int, i: int|
        0 <= j < lines_of(text).len() && 0 <= i < lines_of(text)[j].len() implies (
    #[trigger] lines_of(text)[j][i]) != '\n' by {
        if j < lines.len() {
            assert(lines_of(text)[j] == scan_lines(text, text.len() as int).0[j]);
            assert(scan_lines(text, text.len() as int).0[j][i] != '\n');
        } else {
            assert(lines_of(text)[j] == line);
            assert(scan_lines(text, text.len() as int).1[i] != '\n');
        }
    }
}

/// The length of the longest of the first `n` of `lines`.
pub open spec fn longest(lines: Seq<Seq<char>>, n: int) -> nat
    decreases n,
{
    if n <= 0 {
        0
    } else if lines[n - 1].len() > longest(lines, n - 1) {
        lines[n - 1].len()
    } else {
        longest(lines, n - 1)
    }
}

/// The line `line` filled up with floor to the length `width`.
pub open spec fn padded(line: Seq<char>, width: nat) -> Seq<char> {
    if line.len() >= width {
        line
    } else {
        Seq::new(
            width,
            |i: int|
                if i < line.len() {
                    line[i]
                } else {
                    FLOOR
                },
        )
    }
}

/// Whether `maze` is the maze that `text` describes: one row for each line, each row its
/// line filled up with floor to the length of the longest line.
pub open spec fn is_maze_of(maze: &Vec<Vec<char>>, text: Seq<char>) -> bool {
    let lines = lines_of(text);
    &&& maze@.len() == lines.len()
    &&& forall|j: int|
        0 <= j < lines.len() ==> (#[trigger] maze@[j])@ == padded(
            lines[j],
            longest(lines, lines.len() as int),
        )
}

/// No line is longer than the longest.
pub proof fn lemma_longest(lines: Seq<Seq<char>>, n: int, j: int)
    requires
        0 <= j < n <= lines.len(),
    ensures
        lines[j].len() <= longest(lines, n),
    decreases n,
{
    if j < n - 1 {
        lemma_longest(lines, n - 1, j);
    }
}

/// The lines of `contents` as rows of characters.
fn read_lines(contents: &str) -> (rows: Vec<Vec<char>>)
    ensures
        rows@.len() == lines_of(contents@).len(),
        forall|j: int| 0 <= j < rows@.len() ==> (#[trigger] rows@[j])@ == lines_of(contents@)[j],
{
    let mut rows: Vec<Vec<char>> = Vec::new();
    let mut row: Vec<char> = Vec::new();
    for c in it: contents.chars()
        invariant
            it.seq() == contents@,
            rows@.len() == scan_lines(contents@, it.index() as int).0.len(),
            forall|j: int|
                0 <= j < rows@.len() ==> (#[trigger] rows@[j])@ == scan_lines(
                    contents@,
                    it.index() as int,
                ).0[j],
            row@ == scan_lines(contents@, it.index() as int).1,
    {
        if c == '\n' {
            let len: usize = row.len();
            if len > 0 && row[len - 1] == '\r' {
                row.pop();
            }
            rows.push(row);
            row = Vec::new();
        } else {
            row.push(c);
        }
    }
    if row.len() > 0 {
        rows.push(row);
    }
    rows
}

/// The maze that the text `contents` describes: one row for each line, each row filled up
/// with floor to the length of the longest, so that all rows are equally long.
pub fn load_map(contents: &str) -> (maze: Vec<Vec<char>>)
    ensures
        is_maze_of(&maze, contents@),
        rectangular(&maze),
{
    let mut lines: Vec<Vec<char>> = read_lines(contents);
    let ghost source = lines_of(contents@);
    let mut max_w: usize = 0;
    let mut j: usize = 0;
    while j < lines.len()
        invariant
            j <= lines@.len(),
            lines@.len() == source.len(),
            forall|k: int| 0 <= k < lines@.len() ==> (#[trigger] lines@[k])@ == source[k],
            max_w == longest(source, j as int),
        decreases lines@.len() - j,
    {
        if lines[j].len() > max_w {
            max_w = lines[j].len();
        }
        j += 1;
    }
    let mut j: usize = 0;
    while j < lines.len()
        invariant
            j <= lines@.len(),
            lines@.len() == source.len(),
            max_w == longest(source, source.len() as int),
            forall|k: int| j <= k < lines@.len() ==> (#[trigger] lines@[k])@ == source[k],
            forall|k: int| 0 <= k < j ==> (#[trigger] lines@[k])@ == padded(source[k], max_w as nat),
            forall|k: int| 0 <= k < j ==> (#[trigger] lines@[k])@.len() == max_w,
        decreases lines@.len() - j,
    {
        proof {
            lemma_longest(source, source.len() as int, j as int);
        }
        let mut row: Vec<char> = Vec::new();
        std::mem::swap(&mut row, &mut lines[j]);
        let ghost line = row@;
        while row.len() < max_w
            invariant
                line.len() <= row@.len() <= max_w,
                forall|i: int| 0 <= i < line.len() ==> row@[i] == line[i],
                forall|i: int| line.len() <= i < row@.len() ==> row@[i] == FLOOR,
            decreases max_w - row@.len(),
        {
            row.push(FLOOR);
        }
        assert(row@ =~= padded(line, max_w as nat));
        lines[j] = row;
        j += 1;
    }
    lines
}

} // verus!
