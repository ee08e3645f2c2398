use image::{
    DynamicImage, GrayImage, ImageBuffer, Luma, LumaA, Rgb, Rgb32FImage, RgbImage, Rgba,
    Rgba32FImage, RgbaImage,
};
use raycaster::fixed::ONE;
use raycaster::textures::{pack, texel, Textures, COORD_LIMIT, MISSING, TRANSPARENT};

/// An image whose pixel in column x of row y is (10 * x, 20 * y, x + y, alpha).
fn gradient(w: u32, h: u32, alpha: u8) -> DynamicImage {
    DynamicImage::ImageRgba8(RgbaImage::from_fn(w, h, |x, y| {
        Rgba([(10 * x) as u8, (20 * y) as u8, (x + y) as u8, alpha])
    }))
}

fn color_of(x: u32, y: u32) -> u32 {
    ((10 * x) << 16) | ((20 * y) << 8) | (x + y)
}

#[test]
fn pack_puts_red_first() {
    assert_eq!(pack(0x12, 0x34, 0x56), 0x123456);
    assert_eq!(pack(0, 0, 0), 0);
    assert_eq!(pack(255, 255, 255), 0xFFFFFF);
    assert_eq!(pack(1, 0, 0), 0x010000);
    assert_eq!(pack(0, 1, 0), 0x000100);
    assert_eq!(pack(0, 0, 1), 0x000001);
}

#[test]
fn texel_scales_and_clamps() {
    assert_eq!(texel(0, 64), 0);
    assert_eq!(texel(ONE / 2, 64), 32);
    assert_eq!(texel(ONE / 4, 64), 16);
    assert_eq!(texel(ONE - 1, 64), 63);
    assert_eq!(texel(ONE, 64), 63);
    assert_eq!(texel(i64::MAX, 64), 63);
    assert_eq!(texel(-1, 64), 0);
    assert_eq!(texel(i64::MIN, 64), 0);
    assert_eq!(texel(COORD_LIMIT, 1000), 999);
    assert_eq!(texel(COORD_LIMIT, 2000), 1998);
    assert_eq!(texel(ONE / 2, 0), 0);
    assert_eq!(texel(ONE, u32::MAX), ((COORD_LIMIT as u64 * u32::MAX as u64) >> 16) as u32);
    assert_eq!(texel(ONE / 2, 1), 0);
    assert_eq!(texel(ONE / 2, 3), 1);
}

#[test]
fn missing_texture_is_white() {
    let t = Textures::new();
    assert!(!t.contains('#'));
    assert_eq!(t.sample('#', 0, 0), 0xFFFFFF);
    assert_eq!(t.sample_sprite('1', ONE / 2, ONE / 2), 0xFFFFFF);
    assert_eq!(MISSING, 0xFFFFFF);
}

#[test]
fn sample_reads_the_pixel_under_the_coordinates() {
    let mut t = Textures::new();
    t.insert('#', gradient(8, 4, 255));
    assert!(t.contains('#'));
    assert!(!t.contains('A'));
    for x in 0..8u32 {
        for y in 0..4u32 {
            // the middle of the pixel
            let u = ((2 * x + 1) as i64 * ONE) / 16;
            let v = ((2 * y + 1) as i64 * ONE) / 8;
            assert_eq!(t.sample('#', u, v), color_of(x, y));
        }
    }
    assert_eq!(t.sample('#', 0, 0), color_of(0, 0));
    assert_eq!(t.sample('#', ONE - 1, ONE - 1), color_of(7, 3));
    assert_eq!(t.sample('#', ONE / 8, 0), color_of(1, 0));
    assert_eq!(t.sample('#', ONE / 8 - 1, 0), color_of(0, 0));
    assert_eq!(t.sample('A', ONE / 8, 0), 0xFFFFFF);
}

#[test]
fn sample_clamps_coordinates_outside_the_image() {
    let mut t = Textures::new();
    t.insert('#', gradient(8, 4, 255));
    assert_eq!(t.sample('#', -5, -5), color_of(0, 0));
    assert_eq!(t.sample('#', 5 * ONE, 5 * ONE), color_of(7, 3));
    assert_eq!(t.sample('#', i64::MIN, i64::MAX), color_of(0, 3));
    assert_eq!(t.sample('#', i64::MAX, i64::MIN), color_of(7, 0));
}

#[test]
fn sample_ignores_alpha_and_sample_sprite_honours_it() {
    let mut t = Textures::new();
    t.insert('1', gradient(4, 4, 0));
    t.insert('2', gradient(4, 4, 1));
    let u = ONE / 2;
    let v = ONE / 2;
    assert_eq!(t.sample('1', u, v), color_of(2, 2));
    assert_eq!(t.sample_sprite('1', u, v), TRANSPARENT);
    assert_eq!(t.sample_sprite('2', u, v), color_of(2, 2));
    assert_eq!(TRANSPARENT, 0);
}

#[test]
fn later_insert_replaces_the_image() {
    let mut t = Textures::new();
    t.insert('#', DynamicImage::ImageRgb8(RgbImage::from_pixel(2, 2, Rgb([1, 2, 3]))));
    t.insert('A', DynamicImage::ImageRgb8(RgbImage::from_pixel(2, 2, Rgb([9, 9, 9]))));
    assert_eq!(t.sample('#', 0, 0), 0x010203);
    t.insert('#', DynamicImage::ImageRgb8(RgbImage::from_pixel(2, 2, Rgb([4, 5, 6]))));
    assert_eq!(t.sample('#', 0, 0), 0x040506);
    assert_eq!(t.sample('A', 0, 0), 0x090909);
    // an image without alpha is opaque
    assert_eq!(t.sample_sprite('#', 0, 0), 0x040506);
}

#[test]
fn grey_image_is_sampled_as_grey() {
    let mut t = Textures::new();
    t.insert('G', DynamicImage::ImageLuma8(GrayImage::from_pixel(3, 3, Luma([0x7f]))));
    assert_eq!(t.sample('G', ONE / 2, ONE / 2), 0x7f7f7f);
}

#[test]
fn images_of_sixteen_bits_are_sampled_in_eight() {
    let mut t = Textures::new();
    let rgb: ImageBuffer<Rgb<u16>, Vec<u16>> = ImageBuffer::from_pixel(2, 2, Rgb([65535, 32768, 0]));
    t.insert('A', DynamicImage::ImageRgb16(rgb));
    let rgba: ImageBuffer<Rgba<u16>, Vec<u16>> = ImageBuffer::from_pixel(2, 2, Rgba([257, 514, 771, 0]));
    t.insert('B', DynamicImage::ImageRgba16(rgba));
    let grey: ImageBuffer<Luma<u16>, Vec<u16>> = ImageBuffer::from_pixel(2, 2, Luma([65535]));
    t.insert('C', DynamicImage::ImageLuma16(grey));
    let grey_alpha: ImageBuffer<LumaA<u16>, Vec<u16>> = ImageBuffer::from_pixel(2, 2, LumaA([0, 65535]));
    t.insert('D', DynamicImage::ImageLumaA16(grey_alpha));
    let grey_alpha8: ImageBuffer<LumaA<u8>, Vec<u8>> = ImageBuffer::from_pixel(2, 2, LumaA([9, 0]));
    t.insert('E', DynamicImage::ImageLumaA8(grey_alpha8));
    assert_eq!(t.sample('A', 0, 0), 0xFF8000);
    assert_eq!(t.sample('B', 0, 0), 0x010203);
    assert_eq!(t.sample_sprite('B', 0, 0), 0);
    assert_eq!(t.sample('C', 0, 0), 0xFFFFFF);
    assert_eq!(t.sample_sprite('D', 0, 0), 0);
    assert_eq!(t.sample('E', 0, 0), 0x090909);
    assert_eq!(t.sample_sprite('E', 0, 0), 0);
}

#[test]
fn image_of_samples_that_are_no_whole_numbers_counts_as_missing() {
    let mut t = Textures::new();
    t.insert('A', DynamicImage::ImageRgba32F(Rgba32FImage::from_pixel(2, 2, Rgba([0.5, 0.5, 0.5, 1.0]))));
    t.insert('B', DynamicImage::ImageRgb32F(Rgb32FImage::from_pixel(2, 2, Rgb([f32::NAN, 0.0, 1.0]))));
    t.insert(
        'C',
        DynamicImage::ImageRgba32F(Rgba32FImage::from_pixel(
            2,
            2,
            Rgba([f32::NAN, f32::INFINITY, f32::NEG_INFINITY, f32::NAN]),
        )),
    );
    for c in ['A', 'B', 'C'] {
        assert!(t.contains(c));
        assert_eq!(t.sample(c, ONE / 2, ONE / 2), 0xFFFFFF);
        assert_eq!(t.sample_sprite(c, ONE / 2, ONE / 2), 0xFFFFFF);
    }
}

#[test]
fn empty_image_counts_as_missing() {
    let mut t = Textures::new();
    t.insert('#', DynamicImage::new_rgba8(0, 0));
    t.insert('A', DynamicImage::new_rgba8(0, 5));
    t.insert('B', DynamicImage::new_rgba8(5, 0));
    assert!(t.contains('#'));
    for c in ['#', 'A', 'B'] {
        assert_eq!(t.sample(c, ONE / 2, ONE / 2), 0xFFFFFF);
        assert_eq!(t.sample_sprite(c, ONE / 2, ONE / 2), 0xFFFFFF);
    }
}

#[test]
fn characters_beyond_ascii_are_keys_too() {
    let mut t = Textures::new();
    t.insert('é', DynamicImage::ImageRgb8(RgbImage::from_pixel(1, 1, Rgb([1, 1, 1]))));
    t.insert('\u{10FFFF}', DynamicImage::ImageRgb8(RgbImage::from_pixel(1, 1, Rgb([2, 2, 2]))));
    assert_eq!(t.sample('é', 0, 0), 0x010101);
    assert_eq!(t.sample('\u{10FFFF}', 0, 0), 0x020202);
    assert_eq!(t.sample('e', 0, 0), 0xFFFFFF);
}
