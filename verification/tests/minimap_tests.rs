use raycaster::fixed::ONE;
use raycaster::framebuffer::Framebuffer;
use raycaster::minimap::{draw_disk, render_cells, render_minimap, wall_color, MARKER};
use raycaster::player::{Direction, Player};

fn maze_of(rows: &[&str]) -> Vec<Vec<char>> {
    rows.iter().map(|r| r.chars().collect()).collect()
}

fn rows_of(fb: &Framebuffer) -> Vec<Vec<u32>> {
    (0..fb.height()).map(|y| (0..fb.width()).map(|x| fb.get(x, y).unwrap()).collect()).collect()
}

#[test]
fn cells_have_fixed_colours() {
    assert_eq!(wall_color(' '), 0x000000);
    assert_eq!(wall_color('#'), 0x808080);
    assert_eq!(wall_color('A'), 0xCC3333);
    assert_eq!(wall_color('B'), 0x33CC33);
    assert_eq!(wall_color('C'), 0x3333CC);
    assert_eq!(wall_color('1'), 0xFF0000);
    assert_eq!(wall_color('2'), 0x00FF00);
    assert_eq!(wall_color('3'), 0x0000FF);
    assert_eq!(wall_color('D'), 0x606060);
    assert_eq!(wall_color('x'), 0x606060);
}

#[test]
fn every_cell_is_a_square_at_its_place() {
    let maze = maze_of(&["#A", "1 "]);
    let mut fb = Framebuffer::new(8, 7);
    fb.clear(5);
    render_cells(&mut fb, &maze, 2, 1, 3);
    let g = 0x808080;
    let a = 0xCC3333;
    let r = 0xFF0000;
    let expected = vec![
        vec![5, 5, 5, 5, 5, 5, 5, 5],
        vec![5, 5, g, g, g, a, a, a],
        vec![5, 5, g, g, g, a, a, a],
        vec![5, 5, g, g, g, a, a, a],
        vec![5, 5, r, r, r, 0, 0, 0],
        vec![5, 5, r, r, r, 0, 0, 0],
        vec![5, 5, r, r, r, 0, 0, 0],
    ];
    assert_eq!(rows_of(&fb), expected);
}

#[test]
fn pixel_of_cell_i_j_lies_in_its_square_and_in_no_other() {
    let maze = maze_of(&["#AB", "C12", "3 D"]);
    let (x_off, y_off, scale) = (3usize, 2usize, 4usize);
    let mut fb = Framebuffer::new(20, 20);
    fb.clear(0x123456);
    render_cells(&mut fb, &maze, x_off, y_off, scale);
    for y in 0..20usize {
        for x in 0..20usize {
            let mut owners = Vec::new();
            for j in 0..3usize {
                for i in 0..3usize {
                    let left = x_off + i * scale;
                    let top = y_off + j * scale;
                    if left <= x && x < left + scale && top <= y && y < top + scale {
                        owners.push((i, j));
                    }
                }
            }
            assert!(owners.len() <= 1);
            let expected = match owners.first() {
                Some(&(i, j)) => wall_color(maze[j][i]),
                None => 0x123456,
            };
            assert_eq!(fb.get(x, y), Some(expected), "at {} {}", x, y);
        }
    }
}

#[test]
fn cells_are_clipped_and_ragged_rows_are_drawn_as_they_are() {
    let maze = maze_of(&["###", "#"]);
    let mut fb = Framebuffer::new(5, 3);
    render_cells(&mut fb, &maze, 1, 1, 2);
    let g = 0x808080;
    assert_eq!(rows_of(&fb), vec![vec![0, 0, 0, 0, 0], vec![0, g, g, g, g], vec![0, g, g, g, g]]);
    let mut fb = Framebuffer::new(5, 4);
    fb.clear(1);
    render_cells(&mut fb, &maze, 1, 0, 2);
    assert_eq!(
        rows_of(&fb),
        vec![vec![1, g, g, g, g], vec![1, g, g, g, g], vec![1, g, g, 1, 1], vec![1, g, g, 1, 1]]
    );
}

#[test]
fn cells_with_no_scale_or_far_away_draw_nothing() {
    let maze = maze_of(&["##", "##"]);
    let mut fb = Framebuffer::new(4, 4);
    render_cells(&mut fb, &maze, 0, 0, 0);
    render_cells(&mut fb, &maze, 4, 0, 2);
    render_cells(&mut fb, &maze, usize::MAX, usize::MAX, usize::MAX);
    assert_eq!(rows_of(&fb), vec![vec![0; 4]; 4]);
    render_cells(&mut fb, &maze, 0, 0, usize::MAX);
    assert_eq!(rows_of(&fb), vec![vec![0x808080; 4]; 4]);
}

#[test]
fn disk_of_radius_two() {
    let mut fb = Framebuffer::new(7, 7);
    draw_disk(&mut fb, 3, 3, 2, 1);
    let expected = vec![
        vec![0, 0, 0, 0, 0, 0, 0],
        vec![0, 0, 0, 1, 0, 0, 0],
        vec![0, 0, 1, 1, 1, 0, 0],
        vec![0, 1, 1, 1, 1, 1, 0],
        vec![0, 0, 1, 1, 1, 0, 0],
        vec![0, 0, 0, 1, 0, 0, 0],
        vec![0, 0, 0, 0, 0, 0, 0],
    ];
    assert_eq!(rows_of(&fb), expected);
}

#[test]
fn disk_is_clipped_and_may_be_huge() {
    let mut fb = Framebuffer::new(3, 3);
    draw_disk(&mut fb, 0, 0, 1, 1);
    assert_eq!(rows_of(&fb), vec![vec![1, 1, 0], vec![1, 0, 0], vec![0, 0, 0]]);
    let mut fb = Framebuffer::new(3, 3);
    draw_disk(&mut fb, -10, 1, 2, 1);
    draw_disk(&mut fb, i32::MIN, i32::MAX, 5, 1);
    assert_eq!(rows_of(&fb), vec![vec![0; 3]; 3]);
    draw_disk(&mut fb, i32::MAX, i32::MIN, usize::MAX, 1);
    assert_eq!(rows_of(&fb), vec![vec![1; 3]; 3]);
    let mut fb = Framebuffer::new(3, 3);
    draw_disk(&mut fb, 1, 1, 0, 4);
    assert_eq!(rows_of(&fb), vec![vec![0, 0, 0], vec![0, 4, 0], vec![0, 0, 0]]);
}

#[test]
fn map_shows_cells_player_and_heading() {
    let maze = maze_of(&["###", "# #", "###"]);
    let player = Player::new(96 * ONE, 96 * ONE, 0, 102944);
    let mut fb = Framebuffer::new(24, 24);
    fb.clear(9);
    render_minimap(&mut fb, &player, Direction::new(ONE, 0).unwrap(), &maze, 10, 10, 4, 64);
    // the player is at 10 + 96 / 64 * 4 = 16; the line is 4 pixels long
    let g = 0x808080;
    let mut expected = vec![vec![9u32; 24]; 24];
    for j in 0..3 {
        for i in 0..3 {
            for dy in 0..4 {
                for dx in 0..4 {
                    expected[10 + 4 * j + dy][10 + 4 * i + dx] = if (i, j) == (1, 1) { 0 } else { g };
                }
            }
        }
    }
    for (dx, dy) in [(0i32, -2i32), (-1, -1), (0, -1), (1, -1), (-2, 0), (-1, 0), (0, 0), (1, 0), (2, 0), (-1, 1), (0, 1), (1, 1), (0, 2)] {
        expected[(16 + dy) as usize][(16 + dx) as usize] = MARKER;
    }
    for x in 16..=20 {
        expected[16][x] = MARKER;
    }
    assert_eq!(rows_of(&fb), expected);
    assert_eq!(MARKER, 0xFFFF00);
}

#[test]
fn heading_line_points_along_the_heading() {
    let maze = maze_of(&["   ", "   ", "   "]);
    let player = Player::new(96 * ONE, 96 * ONE, 0, 102944);
    // scale 10: the radius is 3, the line is 9 pixels long
    for (dir, tip) in [
        (Direction::new(ONE, 0).unwrap(), (34usize, 25usize)),
        (Direction::new(-ONE, 0).unwrap(), (16, 25)),
        (Direction::new(0, ONE).unwrap(), (25, 34)),
        (Direction::new(0, -ONE).unwrap(), (25, 16)),
    ] {
        let mut fb = Framebuffer::new(40, 40);
        render_minimap(&mut fb, &player, dir, &maze, 10, 10, 10, 64);
        // the middle is at 10 + 96 / 64 * 10 = 25
        assert_eq!(fb.get(25, 25), Some(MARKER));
        assert_eq!(fb.get(tip.0, tip.1), Some(MARKER), "{:?}", tip);
        assert_eq!(fb.get(25 + 3, 25), Some(MARKER));
        assert_eq!(fb.get(25 + 3, 25 + 1), Some(0));
    }
    let mut fb = Framebuffer::new(40, 40);
    render_minimap(&mut fb, &player, Direction::new(ONE, 0).unwrap(), &maze, 10, 10, 10, 64);
    assert_eq!(fb.get(35, 25), Some(0));
    assert_eq!(fb.get(34, 24), Some(0));
}

#[test]
fn player_off_the_map_is_drawn_where_it_is() {
    let maze = maze_of(&["#"]);
    let player = Player::new(-64 * ONE, 0, 0, 102944);
    let mut fb = Framebuffer::new(12, 12);
    render_minimap(&mut fb, &player, Direction::new(0, ONE).unwrap(), &maze, 8, 4, 4, 64);
    // 8 - 64 / 64 * 4 = 4
    assert_eq!(fb.get(4, 4), Some(MARKER));
    assert_eq!(fb.get(4, 8), Some(MARKER));
    assert_eq!(fb.get(4, 9), Some(0));
    assert_eq!(fb.get(8, 4), Some(0x808080));
}
