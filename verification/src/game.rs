//! Picking up what the player looks at.

use vstd::prelude::*;
use crate::fixed::ONE;
use crate::map::{cell_index, FLOOR};
use crate::player::{Direction, Player};
use crate::raycaster::{cast_ray, ray_hit, Intersect};

verus! {

/// The distance below which a collectible can be picked up: fifty world units.
pub const REACH: i64 = 3276800;

/// The kind of the collectible that the ray `hit` picks up, if it picks one up: the ray must
/// have met a collectible, nearer than `REACH`.
pub open spec fn picked(hit: Intersect) -> Option<char> {
    if hit.distance < REACH {
        hit.object_type
    } else {
        None
    }
}

/// Whether `after` is `before` with open floor in column `i` of row `j`, if `before` has such
/// a cell, and else `before` itself.
pub open spec fn cleared(before: &Vec<Vec<char>>, after: &Vec<Vec<char>>, i: int, j: int) -> bool {
    &&& after@.len() == before@.len()
    &&& forall|r: int|
        0 <= r < before@.len() ==> (#[trigger] after@[r])@ == (if r == j && 0 <= i
            < before@[r]@.len() {
            before@[r]@.update(i, FLOOR)
        } else {
            before@[r]@
        })
}

/// Takes the collectible out of the maze that the ray `hit` picks up, if it picks one up,
/// and returns its kind. The cell that is cleared is the one in which the ray ended.
pub fn take(maze: &mut Vec<Vec<char>>, hit: &Intersect, block_size: usize) -> (kind: Option<char>)
    requires
        block_size > 0,
    ensures
        kind == picked(*hit),
        kind is None ==> *final(maze) == *old(maze),
        kind is Some ==> cleared(
            old(maze),
            final(maze),
            cell_index(hit.hit_x as int, block_size as int),
            cell_index(hit.hit_y as int, block_size as int),
        ),
{
    if hit.distance >= REACH {
        return None;
    }
    match hit.object_type {
        None => None,
        Some(kind) => {
            if hit.hit_x >= 0 && hit.hit_y >= 0 {
                let i: u64 = (hit.hit_x / ONE) as u64 / (block_size as u64);
                let j: u64 = (hit.hit_y / ONE) as u64 / (block_size as u64);
                if j < maze.len() as u64 && i < maze[j as usize].len() as u64 {
                    maze[j as usize][i as usize] = FLOOR;
                }
            } else {
                proof {
                    crate::map::lemma_cell_span(hit.hit_x as int, block_size as int);
                    crate::map::lemma_cell_span(hit.hit_y as int, block_size as int);
                    if hit.hit_x < 0 {
                        assert(cell_index(hit.hit_x as int, block_size as int) < 0) by (nonlinear_arith)
                            requires
                                cell_index(hit.hit_x as int, block_size as int) * block_size * ONE
                                    <= hit.hit_x,
                                hit.hit_x < 0,
                                block_size > 0,
                        ;
                    } else {
                        assert(cell_index(hit.hit_y as int, block_size as int) < 0) by (nonlinear_arith)
                            requires
                                cell_index(hit.hit_y as int, block_size as int) * block_size * ONE
                                    <= hit.hit_y,
                                hit.hit_y < 0,
                                block_size > 0,
                        ;
                    }
                }
            }
            assert(maze@.len() == old(maze)@.len());
            Some(kind)
        },
    }
}

/// Casts a ray from `player` along `dir` and takes the collectible that it picks up out of
/// the maze.
pub fn collect(
    maze: &mut Vec<Vec<char>>,
    player: &Player,
    dir: Direction,
    block_size: usize,
) -> (kind: Option<char>)
    requires
        block_size > 0,
    ensures
        kind == picked(ray_hit(old(maze), player, &dir, block_size as int)),
        kind is None ==> *final(maze) == *old(maze),
        kind is Some ==> cleared(
            old(maze),
            final(maze),
            cell_index(ray_hit(old(maze), player, &dir, block_size as int).hit_x as int, block_size as int),
            cell_index(ray_hit(old(maze), player, &dir, block_size as int).hit_y as int, block_size as int),
        ),
{
    let hit = cast_ray(maze, player, dir, block_size);
    take(maze, &hit, block_size)
}

} // verus!
