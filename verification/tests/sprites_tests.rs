use image::{DynamicImage, Rgba, RgbaImage};
use raycaster::fixed::{ONE, PI};
use raycaster::framebuffer::Framebuffer;
use raycaster::player::Player;
use raycaster::sprites::{
    center_of, distance, draw_billboard, find_sprites, project_sprite, render_sprite, render_sprites,
    sprite_offset, texture_coord, Billboard, Sprite,
};
use raycaster::textures::Textures;

const FOV: i64 = 102944;

fn maze_of(rows: &[&str]) -> Vec<Vec<char>> {
    rows.iter().map(|r| r.chars().collect()).collect()
}

/// An image whose pixel in column x of row y has the colour 0x01xxyy; the pixels of
/// column 0 have alpha 0, the pixel (1, 1) is black.
fn sprite_image(size: u32) -> DynamicImage {
    DynamicImage::ImageRgba8(RgbaImage::from_fn(size, size, |x, y| {
        if (x, y) == (1, 1) {
            Rgba([0, 0, 0, 255])
        } else {
            Rgba([1, x as u8, y as u8, if x == 0 { 0 } else { 255 }])
        }
    }))
}

fn rows_of(fb: &Framebuffer) -> Vec<Vec<u32>> {
    (0..fb.height()).map(|y| (0..fb.width()).map(|x| fb.get(x, y).unwrap()).collect()).collect()
}

#[test]
fn sprites_are_found_row_by_row() {
    let maze = maze_of(&["#1#3", "2  1", "####", "3"]);
    let found = find_sprites(&maze);
    let expected = vec![
        Sprite { col: 1, row: 0, kind: '1' },
        Sprite { col: 3, row: 0, kind: '3' },
        Sprite { col: 0, row: 1, kind: '2' },
        Sprite { col: 3, row: 1, kind: '1' },
        Sprite { col: 0, row: 3, kind: '3' },
    ];
    assert_eq!(found, expected);
    assert_eq!(find_sprites(&maze_of(&["###", "# #"])), vec![]);
    assert_eq!(find_sprites(&Vec::new()), vec![]);
}

#[test]
fn sprite_stands_in_the_centre_of_its_cell() {
    assert_eq!(center_of(0, 64), Some(32 * ONE));
    assert_eq!(center_of(2, 64), Some(160 * ONE));
    assert_eq!(center_of(3, 1), Some(3 * ONE + ONE / 2));
    assert_eq!(center_of(0, 0), Some(0));
    assert_eq!(center_of(usize::MAX, usize::MAX), None);
    assert_eq!(center_of(usize::MAX, 1), None);
    assert_eq!(center_of(0, usize::MAX), None);
    // the largest centre that is still in the world
    assert_eq!(center_of((1usize << 46) - 1, 1), Some(((1i64 << 46) - 1) * ONE + ONE / 2));
    assert_eq!(center_of(1usize << 46, 1), None);
    let player = Player::new(96 * ONE, 96 * ONE, 0, FOV);
    let sprite = Sprite { col: 2, row: 1, kind: '1' };
    assert_eq!(sprite_offset(&player, &sprite, 64), Some((64 * ONE, 0)));
    let sprite = Sprite { col: 0, row: 3, kind: '1' };
    assert_eq!(sprite_offset(&player, &sprite, 64), Some((-64 * ONE, 128 * ONE)));
    let sprite = Sprite { col: usize::MAX, row: 0, kind: '1' };
    assert_eq!(sprite_offset(&player, &sprite, 64), None);
}

#[test]
fn distance_is_the_rounded_down_length() {
    assert_eq!(distance(3 * ONE, 4 * ONE), (5 * ONE) as u64);
    assert_eq!(distance(-3 * ONE, 4 * ONE), (5 * ONE) as u64);
    assert_eq!(distance(0, 0), 0);
    assert_eq!(distance(0, -7), 7);
    assert_eq!(distance(1, 1), 1);
    assert_eq!(distance(ONE, ONE), 92681);
    assert_eq!(distance(i64::MIN, 0), 1u64 << 63);
    assert_eq!(distance(i64::MIN, i64::MIN), 13043817825332782212);
    assert_eq!(distance(i64::MAX, i64::MIN), 13043817825332782211);
}

#[test]
fn sprite_just_outside_half_the_field_of_view_is_culled() {
    let half = FOV / 2;
    let dist = (100 * ONE) as u64;
    assert!(project_sprite(640, 480, 64, half - 1, 0, dist, FOV).is_some());
    assert!(project_sprite(640, 480, 64, half + 1, 0, dist, FOV).is_none());
    assert!(project_sprite(640, 480, 64, half, 0, dist, FOV).is_none());
    assert!(project_sprite(640, 480, 64, -(half - 1), 0, dist, FOV).is_some());
    assert!(project_sprite(640, 480, 64, -(half + 1), 0, dist, FOV).is_none());
    assert!(project_sprite(640, 480, 64, -half, 0, dist, FOV).is_none());
    // with an odd field of view half of it is no fixed-point number
    assert!(project_sprite(640, 480, 64, 51471, 0, dist, 102943).is_some());
    assert!(project_sprite(640, 480, 64, 51472, 0, dist, 102943).is_none());
}

#[test]
fn sprite_angle_is_taken_relative_to_the_heading() {
    let dist = (100 * ONE) as u64;
    assert!(project_sprite(640, 480, 64, 1000, 1000, dist, FOV).is_some());
    assert!(project_sprite(640, 480, 64, PI - 10, -PI + 10, dist, FOV).is_some());
    assert!(project_sprite(640, 480, 64, PI - 10, 0, dist, FOV).is_none());
    assert!(project_sprite(640, 480, 64, 0, PI, dist, FOV).is_none());
    assert!(project_sprite(640, 480, 64, 7, 5 * 2 * PI, dist, FOV).is_some());
    assert!(project_sprite(640, 480, 64, i64::MAX, i64::MAX, dist, FOV).is_some());
    assert!(project_sprite(640, 480, 64, 0, 0, dist, 0).is_none());
    assert!(project_sprite(640, 480, 64, 0, 0, dist, -5).is_none());
    assert!(project_sprite(640, 480, 64, 0, 0, dist, 1).is_some());
}

#[test]
fn sprite_too_close_is_culled() {
    let half_unit = (ONE / 2) as u64;
    assert!(project_sprite(640, 480, 64, 0, 0, half_unit, FOV).is_none());
    assert!(project_sprite(640, 480, 64, 0, 0, half_unit + 1, FOV).is_some());
    assert!(project_sprite(640, 480, 64, 0, 0, 0, FOV).is_none());
    assert!(project_sprite(640, 480, 64, 0, 0, u64::MAX, FOV).is_some());
}

#[test]
fn billboard_of_a_sprite_straight_ahead() {
    let b = project_sprite(640, 480, 64, 0, 0, (100 * ONE) as u64, FOV).unwrap();
    // 64 * 240 / 100 = 153.6
    assert_eq!(b.size, 153);
    assert_eq!((b.left, b.right, b.top, b.bottom), (320 - 76, 320 + 76, 240 - 76, 240 + 76));
    assert_eq!(b.origin_x, (244 * ONE) as i128);
    assert_eq!(b.origin_y, (164 * ONE) as i128);
}

#[test]
fn billboard_moves_across_the_surface_with_the_angle() {
    let dist = (100 * ONE) as u64;
    // a quarter of the field of view to the right: three quarters of the width
    let b = project_sprite(640, 480, 64, FOV / 4, 0, dist, FOV).unwrap();
    assert_eq!((b.left, b.right), (480 - 76, 480 + 76));
    assert_eq!(b.origin_x, (404 * ONE) as i128);
    let b = project_sprite(640, 480, 64, -FOV / 4, 0, dist, FOV).unwrap();
    assert_eq!((b.left, b.right), (160 - 76, 160 + 76));
    // near the edge the square is clipped to the surface, whose last column it reaches
    let b = project_sprite(640, 480, 64, FOV / 2 - 1, 0, dist, FOV).unwrap();
    assert_eq!((b.left, b.right), (639 - 76, 640));
    let b = project_sprite(640, 480, 64, -(FOV / 2 - 1), 0, dist, FOV).unwrap();
    assert_eq!((b.left, b.right), (0, 76));
    // 640 / 102944 of a pixel right of the edge
    assert_eq!(b.origin_x, -((76 * ONE) as i128) + 407);
}

#[test]
fn billboard_grows_as_the_sprite_comes_closer() {
    let b = project_sprite(640, 480, 64, 0, 0, (10 * ONE) as u64, FOV).unwrap();
    assert_eq!(b.size, 1536);
    assert_eq!((b.left, b.right, b.top, b.bottom), (0, 640, 0, 480));
    let b = project_sprite(640, 480, 64, 0, 0, (20000 * ONE) as u64, FOV).unwrap();
    assert_eq!(b.size, 0);
    assert!(b.right <= b.left);
    let b = project_sprite(0, 0, 64, 0, 0, (10 * ONE) as u64, FOV).unwrap();
    assert_eq!((b.left, b.right, b.top, b.bottom), (0, 0, 0, 0));
    assert!(project_sprite(640, 480, usize::MAX, 0, 0, (10 * ONE) as u64, FOV).is_none());
    let b = project_sprite(usize::MAX, usize::MAX, 1 << 46, 0, 0, (ONE / 2 + 1) as u64, FOV).unwrap();
    assert_eq!((b.left, b.top), (0, 0));
    assert_eq!((b.right, b.bottom), (usize::MAX, usize::MAX));
}

#[test]
fn texture_coord_runs_across_the_square() {
    let origin = (24 * ONE) as i128;
    assert_eq!(texture_coord(24, origin, 16), 0);
    assert_eq!(texture_coord(25, origin, 16), ONE / 16);
    assert_eq!(texture_coord(32, origin, 16), ONE / 2);
    assert_eq!(texture_coord(39, origin, 16), 15 * ONE / 16);
    assert_eq!(texture_coord(40, origin, 16), 65471);
    assert_eq!(texture_coord(23, origin, 16), 0);
    assert_eq!(texture_coord(0, origin, 16), 0);
    assert_eq!(texture_coord(usize::MAX, origin, 1), 65471);
    assert_eq!(texture_coord(24, origin + 1, 16), 0);
}

#[test]
fn sprite_is_painted_with_its_image() {
    let mut textures = Textures::new();
    textures.insert('1', sprite_image(16));
    let maze = maze_of(&["#####", "#  1#", "#####"]);
    let player = Player::new(96 * ONE, 96 * ONE, 0, FOV);
    let sprite = find_sprites(&maze)[0];
    assert_eq!(sprite_offset(&player, &sprite, 64), Some((128 * ONE, 0)));
    let mut fb = Framebuffer::new(64, 64);
    fb.clear(5);
    render_sprite(&mut fb, &player, 64, &sprite, 0, &textures);
    // the square is 64 * 32 / 128 = 16 pixels wide, from 24 to 40
    for y in 0..64usize {
        for x in 0..64usize {
            let inside = (24..40).contains(&x) && (24..40).contains(&y);
            let (tx, ty) = (x as u32 - 24.min(x as u32), y as u32 - 24.min(y as u32));
            let expected = if inside && tx != 0 && (tx, ty) != (1, 1) {
                0x010000 | (tx << 8) | ty
            } else {
                5
            };
            assert_eq!(fb.get(x, y), Some(expected), "at {} {}", x, y);
        }
    }
}

#[test]
fn sprite_that_fills_the_surface_reaches_its_last_column_and_row() {
    let mut textures = Textures::new();
    textures.insert('1', DynamicImage::ImageRgba8(RgbaImage::from_pixel(4, 4, Rgba([7, 7, 7, 255]))));
    // 20 units away the square is 64 * 16 / 20 = 51 pixels large, larger than the surface
    let player = Player::new(204 * ONE, 96 * ONE, 0, FOV);
    let sprite = Sprite { col: 3, row: 1, kind: '1' };
    let mut fb = Framebuffer::new(32, 32);
    render_sprite(&mut fb, &player, 64, &sprite, 0, &textures);
    assert_eq!(rows_of(&fb), vec![vec![0x070707; 32]; 32]);
    // 64 units away it is 16 pixels large; a little to the right it ends with the surface
    let player = Player::new(160 * ONE, 96 * ONE, 0, FOV);
    let b = project_sprite(32, 32, 64, FOV / 4, 0, (64 * ONE) as u64, FOV).unwrap();
    assert_eq!((b.left, b.right, b.top, b.bottom), (16, 32, 8, 24));
    let mut fb = Framebuffer::new(32, 32);
    render_sprite(&mut fb, &player, 64, &sprite, FOV / 4, &textures);
    for y in 0..32usize {
        for x in 0..32usize {
            let inside = (16..32).contains(&x) && (8..24).contains(&y);
            assert_eq!(fb.get(x, y), Some(if inside { 0x070707 } else { 0 }), "at {} {}", x, y);
        }
    }
}

#[test]
fn culled_sprite_paints_nothing() {
    let mut textures = Textures::new();
    textures.insert('1', sprite_image(16));
    let player = Player::new(96 * ONE, 96 * ONE, 0, FOV);
    let sprite = Sprite { col: 3, row: 1, kind: '1' };
    let mut fb = Framebuffer::new(64, 64);
    // the player looks west
    let away = Player::new(96 * ONE, 96 * ONE, PI, FOV);
    render_sprite(&mut fb, &away, 64, &sprite, 0, &textures);
    // the bearing is off to the side
    render_sprite(&mut fb, &player, 64, &sprite, FOV / 2, &textures);
    // the sprite is not in the world
    render_sprite(&mut fb, &player, 64, &Sprite { col: usize::MAX, row: 1, kind: '1' }, 0, &textures);
    // the player stands on the sprite
    let on_it = Player::new(224 * ONE, 96 * ONE, 0, FOV);
    render_sprite(&mut fb, &on_it, 64, &sprite, 0, &textures);
    assert_eq!(rows_of(&fb), vec![vec![0; 64]; 64]);
}

#[test]
fn sprite_without_image_is_a_white_square() {
    let textures = Textures::new();
    let player = Player::new(96 * ONE, 96 * ONE, 0, FOV);
    let sprite = Sprite { col: 3, row: 1, kind: '2' };
    let mut fb = Framebuffer::new(64, 64);
    render_sprite(&mut fb, &player, 64, &sprite, 0, &textures);
    for y in 0..64usize {
        for x in 0..64usize {
            let inside = (24..40).contains(&x) && (24..40).contains(&y);
            assert_eq!(fb.get(x, y), Some(if inside { 0xFFFFFF } else { 0 }));
        }
    }
}

#[test]
fn later_sprite_is_drawn_over_an_earlier_one() {
    let mut textures = Textures::new();
    textures.insert('1', DynamicImage::ImageRgba8(RgbaImage::from_pixel(4, 4, Rgba([1, 1, 1, 255]))));
    textures.insert('2', DynamicImage::ImageRgba8(RgbaImage::from_pixel(4, 4, Rgba([2, 2, 2, 255]))));
    // both stand east of the player, the first in scan order nearer than the second
    let maze = maze_of(&["######", "#  12#", "######"]);
    let player = Player::new(96 * ONE, 96 * ONE, 0, FOV);
    let mut fb = Framebuffer::new(64, 64);
    render_sprites(&mut fb, &player, &maze, 64, &textures, &vec![0, 0]);
    // the nearer is 16 pixels wide, the farther 64 * 32 / 192 = 10, and drawn later
    assert_eq!(fb.get(24, 32), Some(0x010101));
    assert_eq!(fb.get(32, 32), Some(0x020202));
    assert_eq!(fb.get(27, 32), Some(0x020202));
    assert_eq!(fb.get(26, 32), Some(0x010101));
    assert_eq!(fb.get(36, 32), Some(0x020202));
    assert_eq!(fb.get(37, 32), Some(0x010101));
    assert_eq!(fb.get(39, 32), Some(0x010101));
    assert_eq!(fb.get(40, 32), Some(0));
    // with one bearing only the first is drawn, with none nothing
    let mut fb = Framebuffer::new(64, 64);
    render_sprites(&mut fb, &player, &maze, 64, &textures, &vec![0]);
    assert_eq!(fb.get(32, 32), Some(0x010101));
    let mut fb = Framebuffer::new(64, 64);
    render_sprites(&mut fb, &player, &maze, 64, &textures, &vec![]);
    assert_eq!(rows_of(&fb), vec![vec![0; 64]; 64]);
}

#[test]
fn billboard_is_painted_where_it_covers() {
    let mut textures = Textures::new();
    textures.insert('3', DynamicImage::ImageRgba8(RgbaImage::from_pixel(2, 2, Rgba([0, 0, 9, 255]))));
    let b = Billboard { left: 1, right: 3, top: 0, bottom: 2, size: 4, origin_x: 0, origin_y: 0 };
    let mut fb = Framebuffer::new(4, 3);
    draw_billboard(&mut fb, &b, '3', &textures);
    assert_eq!(rows_of(&fb), vec![vec![0, 9, 9, 0], vec![0, 9, 9, 0], vec![0, 0, 0, 0]]);
}
