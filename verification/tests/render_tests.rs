use image::{DynamicImage, Rgba, RgbaImage};
use raycaster::fixed::ONE;
use raycaster::framebuffer::Framebuffer;
use raycaster::player::{Direction, Player};
use raycaster::render::{
    column_angle, render3d, render_background, render_walls, Sightlines, GROUND, MAP_OFFSET,
    MAP_SCALE, SKY,
};
use raycaster::sprites::{find_sprites, sprite_offset};
use raycaster::textures::Textures;
use raycaster::walls::project_strip;

const FOV: i64 = 102944;

fn maze_of(rows: &[&str]) -> Vec<Vec<char>> {
    rows.iter().map(|r| r.chars().collect()).collect()
}

fn plain(color: [u8; 3]) -> DynamicImage {
    DynamicImage::ImageRgba8(RgbaImage::from_pixel(8, 8, Rgba([color[0], color[1], color[2], 255])))
}

fn to_fixed(x: f64) -> i64 {
    (x * 65536.0).round() as i64
}

/// What a program computes for a frame with the floating-point functions.
fn sightlines(player: &Player, maze: &Vec<Vec<char>>, block: usize, w: usize) -> Sightlines {
    let heading = player.a as f64 / 65536.0;
    let rays = (0..w)
        .map(|x| {
            let angle = column_angle(player.a, player.fov, x, w) as f64 / 65536.0;
            Direction::new(to_fixed(angle.cos()), to_fixed(angle.sin())).unwrap()
        })
        .collect();
    let bearings = find_sprites(maze)
        .iter()
        .map(|s| match sprite_offset(player, s, block) {
            Some((dx, dy)) => to_fixed((dy as f64).atan2(dx as f64)),
            None => 0,
        })
        .collect();
    Sightlines { heading: Direction::new(to_fixed(heading.cos()), to_fixed(heading.sin())).unwrap(), rays, bearings }
}

#[test]
fn middle_column_looks_along_the_heading() {
    assert_eq!(column_angle(1000, FOV, 320, 640), 1000);
    assert_eq!(column_angle(0, FOV, 0, 640), -(FOV as i128) / 2);
    assert_eq!(column_angle(0, FOV, 160, 640), -(FOV as i128) / 4);
    assert_eq!(column_angle(0, FOV, 480, 640), (FOV as i128) / 4);
    assert_eq!(column_angle(5, 100, 639, 640), 5 + 49);
    assert_eq!(column_angle(7, 100, 0, 1), 7 - 50);
    assert_eq!(column_angle(0, 3, 0, 2), -2);
    assert_eq!(column_angle(i64::MAX, i64::MAX, usize::MAX - 1, usize::MAX) > i64::MAX as i128, true);
    assert_eq!(column_angle(i64::MIN, i64::MIN, usize::MAX - 1, usize::MAX) < i64::MIN as i128, true);
}

#[test]
fn background_is_sky_over_ground() {
    let mut fb = Framebuffer::new(2, 5);
    fb.clear(7);
    render_background(&mut fb);
    let mut out = vec![0u32; 10];
    fb.flush_to(&mut out);
    assert_eq!(out, vec![SKY, SKY, SKY, SKY, GROUND, GROUND, GROUND, GROUND, GROUND, GROUND]);
    assert_eq!((SKY, GROUND), (0x303050, 0x202020));
}

#[test]
fn walls_are_drawn_column_by_column() {
    let maze = maze_of(&["###", "# #", "###"]);
    let player = Player::new(96 * ONE, 96 * ONE, 0, FOV);
    let mut textures = Textures::new();
    textures.insert('#', plain([0x11, 0x22, 0x33]));
    let mut fb = Framebuffer::new(4, 100);
    // the rays look east, south and west; the player looks east
    let east = Direction::new(ONE, 0).unwrap();
    let rays = vec![east, Direction::new(0, ONE).unwrap(), Direction::new(-ONE, 0).unwrap()];
    render_walls(&mut fb, &player, &maze, 64, &textures, east, &rays);
    assert_eq!(project_strip(64, 100, 32 * ONE), (0, 99));
    for y in 0..100 {
        // the ray across the heading and the ray against it show nothing
        assert_eq!(fb.get(0, y), Some(0x112233));
        assert_eq!(fb.get(1, y), Some(0));
        assert_eq!(fb.get(2, y), Some(0));
        assert_eq!(fb.get(3, y), Some(0));
    }
    // seen from the side the wall is nearer along the heading, and taller
    let mut fb = Framebuffer::new(2, 100);
    let far = Player::new(96 * ONE, 96 * ONE, 0, FOV);
    let big = maze_of(&["######", "#    #", "#    #", "#    #", "#    #", "######"]);
    let slanted = Direction::new(39321, 52428).unwrap();
    render_walls(&mut fb, &far, &big, 64, &textures, east, &vec![east, slanted]);
    let straight: Vec<usize> = (0..100).filter(|&y| fb.get(0, y) == Some(0x112233)).collect();
    let aside: Vec<usize> = (0..100).filter(|&y| fb.get(1, y) == Some(0x112233)).collect();
    // straight ahead the wall is 224 units away: 64 * 50 / 224 = 14.3 pixels around row 50
    assert_eq!(project_strip(64, 100, 224 * ONE), (42, 57));
    assert_eq!((straight[0], *straight.last().unwrap()), (42, 57));
    // the slanted ray is 280 steps long, 280 * 0.6 = 168 along the heading
    assert_eq!(project_strip(64, 100, 280 * 39321), (aside[0], *aside.last().unwrap()));
    // more rays than columns
    let mut fb = Framebuffer::new(1, 4);
    render_walls(&mut fb, &player, &maze, 64, &textures, east, &rays);
    assert_eq!(fb.get(0, 2), Some(0x112233));
}

#[test]
fn far_wall_leaves_sky_and_ground() {
    let maze = maze_of(&["#####", "#   #", "#####"]);
    let player = Player::new(70 * ONE, 96 * ONE, 0, FOV);
    let mut textures = Textures::new();
    textures.insert('#', plain([1, 2, 3]));
    let sight = sightlines(&player, &maze, 64, 1);
    let mut fb = Framebuffer::new(1, 100);
    render3d(&mut fb, &player, &maze, 64, &textures, &sight);
    // the only column looks half the field of view to the left and hits the north wall
    let hit_rows: Vec<usize> = (0..100).filter(|&y| fb.get(0, y) == Some(0x010203)).collect();
    assert!(!hit_rows.is_empty());
    let (top, bottom) = (hit_rows[0], *hit_rows.last().unwrap());
    assert_eq!(hit_rows.len(), bottom - top + 1);
    for y in 0..top {
        assert_eq!(fb.get(0, y), Some(SKY));
    }
    for y in bottom + 1..100 {
        assert_eq!(fb.get(0, y), Some(GROUND));
    }
}

#[test]
fn frame_of_a_closed_room() {
    let maze = maze_of(&["#####", "#  1#", "#####"]);
    let player = Player::new(96 * ONE, 96 * ONE, 0, FOV);
    let mut textures = Textures::new();
    textures.insert('#', plain([0x10, 0x20, 0x30]));
    textures.insert('1', plain([0xAA, 0xBB, 0xCC]));
    let (w, h) = (64usize, 48usize);
    let sight = sightlines(&player, &maze, 64, w);
    assert_eq!(sight.rays.len(), w);
    assert_eq!(sight.bearings, vec![0]);
    assert_eq!(sight.rays[w / 2].cos(), ONE);
    assert_eq!(sight.rays[w / 2].sin(), 0);
    let mut fb = Framebuffer::new(w, h);
    fb.clear(0xDEAD);
    render3d(&mut fb, &player, &maze, 64, &textures, &sight);
    // nothing of the old surface is left
    for y in 0..h {
        for x in 0..w {
            assert_ne!(fb.get(x, y), Some(0xDEAD));
        }
    }
    // the map covers 5 x 3 cells from its corner; the first cell is wall
    assert_eq!(fb.get(MAP_OFFSET, MAP_OFFSET), Some(0x808080));
    assert_eq!(fb.get(MAP_OFFSET + 3 * MAP_SCALE, MAP_OFFSET + MAP_SCALE), Some(0xFF0000));
    // the player's disk at 10 + 96 / 64 * 4 = 16
    assert_eq!(fb.get(16, 16), Some(0xFFFF00));
    // the collectible straight ahead at distance 128: 64 * 24 / 128 = 12 pixels, from 26 to 38
    assert_eq!(fb.get(32, 24), Some(0xAABBCC));
    assert_eq!(fb.get(37, 29), Some(0xAABBCC));
    assert_eq!(fb.get(36, 28), Some(0xAABBCC));
    // beside it the walls: the rays right of it hit the south wall
    assert_eq!(fb.get(50, 24), Some(0x102030));
    assert_eq!(fb.get(63, 24), Some(0x102030));
    // above the far wall in the middle columns there is sky, below it ground
    assert_eq!(fb.get(40, 0), Some(SKY));
    assert_eq!(fb.get(40, h - 1), Some(GROUND));
}

#[test]
fn frame_without_sightlines_is_background_and_map() {
    let maze = maze_of(&["#"]);
    let player = Player::new(200 * ONE, 200 * ONE, 0, FOV);
    let textures = Textures::new();
    let sight = Sightlines { heading: Direction::new(ONE, 0).unwrap(), rays: Vec::new(), bearings: Vec::new() };
    let mut fb = Framebuffer::new(30, 30);
    render3d(&mut fb, &player, &maze, 64, &textures, &sight);
    assert_eq!(fb.get(0, 0), Some(SKY));
    assert_eq!(fb.get(29, 14), Some(SKY));
    assert_eq!(fb.get(0, 15), Some(GROUND));
    assert_eq!(fb.get(10, 10), Some(0x808080));
    assert_eq!(fb.get(13, 13), Some(0x808080));
    assert_eq!(fb.get(14, 14), Some(SKY));
    // 10 + 200 / 64 * 4 = 22.5
    assert_eq!(fb.get(22, 22), Some(0xFFFF00));
    assert_eq!(fb.get(26, 22), Some(0xFFFF00));
    assert_eq!(fb.get(27, 22), Some(GROUND));
}

#[test]
fn frame_on_an_empty_surface_does_nothing() {
    let maze = maze_of(&["###", "# #", "###"]);
    let player = Player::new(96 * ONE, 96 * ONE, 0, FOV);
    let textures = Textures::new();
    for (w, h) in [(0usize, 0usize), (0, 5), (5, 0)] {
        let sight = sightlines(&player, &maze, 64, w);
        let mut fb = Framebuffer::new(w, h);
        render3d(&mut fb, &player, &maze, 64, &textures, &sight);
        assert_eq!(fb.len(), 0);
    }
}
