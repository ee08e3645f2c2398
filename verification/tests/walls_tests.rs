use image::{DynamicImage, Rgba, RgbaImage};
use raycaster::fixed::ONE;
use raycaster::framebuffer::Framebuffer;
use raycaster::player::Direction;
use raycaster::raycaster::{Face, Intersect};
use raycaster::textures::Textures;
use raycaster::walls::{
    correct_distance, cosine_between, project_strip, render_column, texture_u, texture_v,
};

fn wall_hit(distance: i64, hit_x: i64) -> Intersect {
    Intersect { distance, impact: '#', object_type: None, hit_x, hit_y: 0, face: Face::EastWest }
}

/// An image whose pixel in column x of row y has the colour 0x00xxyy.
fn grid_image(w: u32, h: u32) -> DynamicImage {
    DynamicImage::ImageRgba8(RgbaImage::from_fn(w, h, |x, y| Rgba([0, x as u8, y as u8, 255])))
}

fn column(fb: &Framebuffer, x: usize) -> Vec<u32> {
    (0..fb.height()).map(|y| fb.get(x, y).unwrap()).collect()
}

#[test]
fn straight_ahead_the_distance_is_unchanged() {
    for d in [0, 1, ONE, 32 * ONE, 5001 * ONE, i64::MAX] {
        assert_eq!(correct_distance(d, ONE), d);
    }
}

#[test]
fn correction_scales_by_the_cosine() {
    assert_eq!(correct_distance(100 * ONE, ONE / 2), 50 * ONE);
    assert_eq!(correct_distance(100 * ONE, 0), 0);
    assert_eq!(correct_distance(100 * ONE, -ONE), -100 * ONE);
    // cos(45 degrees) as a fixed-point number
    assert_eq!(correct_distance(46 * ONE, 46341), 46 * 46341);
    assert_eq!(correct_distance(3, 1), 0);
    assert_eq!(correct_distance(3, -1), -1);
}

#[test]
fn strip_of_a_wall_at_known_distances() {
    // block 64 on 480 rows: the wall is 64 * 240 / d pixels high
    assert_eq!(project_strip(64, 480, 32 * ONE), (0, 479));
    assert_eq!(project_strip(64, 480, 64 * ONE), (120, 360));
    assert_eq!(project_strip(64, 480, 100 * ONE), (163, 316));
    assert_eq!(project_strip(64, 480, 128 * ONE), (180, 300));
    assert_eq!(project_strip(64, 480, 5001 * ONE), (238, 241));
    assert_eq!(project_strip(64, 480, 1), (0, 479));
    assert_eq!(project_strip(100, 480, 150 * ONE), (160, 320));
}

#[test]
fn strip_never_leaves_the_surface() {
    for h in [1usize, 2, 3, 7, 480] {
        for block in [0usize, 1, 64, usize::MAX] {
            for dist in [1i64, ONE, 64 * ONE, i64::MAX] {
                let (top, bottom) = project_strip(block, h, dist);
                assert!(top <= bottom && bottom < h, "{} {} {}", h, block, dist);
            }
        }
    }
    assert_eq!(project_strip(usize::MAX, usize::MAX, 1), (0, usize::MAX - 1));
    assert_eq!(project_strip(0, 480, ONE), (240, 240));
    assert_eq!(project_strip(64, 1, ONE), (0, 0));
    assert_eq!(project_strip(usize::MAX, usize::MAX, i64::MAX).0 <= usize::MAX / 2, true);
}

#[test]
fn wall_gets_lower_with_the_distance() {
    let mut last = usize::MAX;
    for d in 1..400i64 {
        let (top, bottom) = project_strip(64, 480, d * ONE);
        let height = bottom - top;
        assert!(height <= last);
        last = height;
    }
    assert!(last < 100);
}

#[test]
fn texture_u_is_the_place_within_the_cell() {
    assert_eq!(texture_u(0, 64), 0);
    assert_eq!(texture_u(32 * ONE, 64), ONE / 2);
    assert_eq!(texture_u(64 * ONE, 64), 0);
    assert_eq!(texture_u(64 * ONE - 1, 64), ONE - 1);
    assert_eq!(texture_u(128 * ONE + 16 * ONE, 64), ONE / 4);
    assert_eq!(texture_u(-5, 64), 0);
    assert_eq!(texture_u(i64::MIN, 64), 0);
    assert_eq!(texture_u(50 * ONE, 100), ONE / 2);
    assert_eq!(texture_u(ONE / 2, 1), ONE / 2);
    assert!(texture_u(i64::MAX, usize::MAX) < ONE);
}

#[test]
fn texture_v_runs_down_the_strip() {
    assert_eq!(texture_v(120, 120, 360), 0);
    assert_eq!(texture_v(360, 120, 360), (240 * ONE) / 241);
    assert_eq!(texture_v(5, 5, 5), 0);
    assert_eq!(texture_v(1, 0, 1), ONE / 2);
    assert_eq!(texture_v(usize::MAX, 0, usize::MAX) < ONE, true);
}

#[test]
fn cosine_between_directions_is_their_inner_product() {
    let east = Direction::new(ONE, 0).unwrap();
    let south = Direction::new(0, ONE).unwrap();
    let west = Direction::new(-ONE, 0).unwrap();
    // 0.6 and 0.8, and the cosine and sine of 45 degrees
    let slanted = Direction::new(39321, 52428).unwrap();
    let diagonal = Direction::new(46341, 46341).unwrap();
    assert_eq!(cosine_between(&east, &east), ONE);
    assert_eq!(cosine_between(&east, &south), 0);
    assert_eq!(cosine_between(&east, &west), -ONE);
    assert_eq!(cosine_between(&east, &slanted), 39321);
    assert_eq!(cosine_between(&south, &slanted), 52428);
    assert_eq!(cosine_between(&west, &slanted), -39321);
    assert_eq!(cosine_between(&diagonal, &slanted), (46341 * 39321 + 46341 * 52428) / ONE);
    // a direction and itself make no angle, whatever the rounding of their parts
    assert_eq!(cosine_between(&slanted, &slanted), ONE);
    assert_eq!(cosine_between(&diagonal, &diagonal), ONE);
    assert_eq!((39321 * 39321 + 52428 * 52428) / ONE, ONE - 2);
    // the sum is brought into the range of a cosine
    let over = Direction::new(ONE, 512).unwrap();
    let under = Direction::new(ONE, -512).unwrap();
    assert_eq!(cosine_between(&over, &under), ONE - 4);
    assert_eq!(cosine_between(&over, &Direction::new(ONE, 511).unwrap()), ONE);
    assert_eq!(cosine_between(&over, &Direction::new(-ONE, -511).unwrap()), -ONE);
}

#[test]
fn column_is_painted_from_the_texture() {
    let mut textures = Textures::new();
    textures.insert('#', grid_image(64, 64));
    let mut fb = Framebuffer::new(3, 8);
    fb.clear(1);
    // block 64 on 8 rows at distance 64: the wall is 4 pixels high, rows 2 to 6
    let hit = wall_hit(64 * ONE, 16 * ONE);
    render_column(&mut fb, 1, &hit, ONE, 64, &textures);
    assert_eq!(project_strip(64, 8, 64 * ONE), (2, 6));
    let texel_x = 16u32;
    let expected: Vec<u32> = (0..8usize)
        .map(|y| {
            if (2..=6).contains(&y) {
                let v = ((y as i64 - 2) * ONE) / 5;
                let texel_y = ((v * 64) / ONE) as u32;
                (texel_x << 8) | texel_y
            } else {
                1
            }
        })
        .collect();
    assert_eq!(column(&fb, 1), expected);
    assert_eq!(column(&fb, 0), vec![1; 8]);
    assert_eq!(column(&fb, 2), vec![1; 8]);
}

#[test]
fn column_is_painted_along_the_face_that_was_hit() {
    let mut textures = Textures::new();
    textures.insert('#', grid_image(64, 64));
    // the ray ended 16 units along x and 48 units along y
    let mut hit = wall_hit(64 * ONE, 16 * ONE);
    hit.hit_y = 48 * ONE;
    let mut fb = Framebuffer::new(2, 8);
    render_column(&mut fb, 0, &hit, ONE, 64, &textures);
    hit.face = Face::NorthSouth;
    render_column(&mut fb, 1, &hit, ONE, 64, &textures);
    assert_eq!(fb.get(0, 2), Some(16 << 8));
    assert_eq!(fb.get(1, 2), Some(48 << 8));
}

#[test]
fn column_without_texture_is_white() {
    let textures = Textures::new();
    let mut fb = Framebuffer::new(2, 4);
    render_column(&mut fb, 0, &wall_hit(ONE, 0), ONE, 64, &textures);
    assert_eq!(column(&fb, 0), vec![0xFFFFFF; 4]);
    assert_eq!(column(&fb, 1), vec![0; 4]);
}

#[test]
fn column_of_a_collectible_or_behind_the_camera_is_skipped() {
    let textures = Textures::new();
    let mut fb = Framebuffer::new(2, 4);
    let seen = Intersect {
        distance: 10 * ONE,
        impact: ' ',
        object_type: Some('1'),
        hit_x: 0,
        hit_y: 0,
        face: Face::EastWest,
    };
    render_column(&mut fb, 0, &seen, ONE, 64, &textures);
    render_column(&mut fb, 0, &wall_hit(10 * ONE, 0), 0, 64, &textures);
    render_column(&mut fb, 0, &wall_hit(10 * ONE, 0), -ONE, 64, &textures);
    render_column(&mut fb, 0, &wall_hit(0, 0), ONE, 64, &textures);
    render_column(&mut fb, 5, &wall_hit(10 * ONE, 0), ONE, 64, &textures);
    assert_eq!(column(&fb, 0), vec![0; 4]);
    assert_eq!(column(&fb, 1), vec![0; 4]);
    let mut empty = Framebuffer::new(3, 0);
    render_column(&mut empty, 0, &wall_hit(10 * ONE, 0), ONE, 64, &textures);
    assert_eq!(empty.len(), 0);
}
