use dither::color::{color_distance, luminosity_scaled, Color};
use dither::palette::{
    apply_palette_mapping, base_palette_vec, closest_palette_color, fixed_bilevel_palette,
    generate_palette, pixel_to_palette,
};
use dither::raster::Image;

fn rgb(r: u8, g: u8, b: u8) -> Color {
    Color { r, g, b }
}

fn mk(width: usize, height: usize, pixels: Vec<Color>) -> Image {
    match Image::from_pixels(width, height, pixels) {
        Ok(img) => img,
        Err(_) => panic!("dimensions do not match the buffer"),
    }
}

#[test]
fn luminosity_black_is_zero_white_is_max() {
    assert_eq!(luminosity_scaled(&rgb(0, 0, 0)), 0);
    assert_eq!(luminosity_scaled(&rgb(255, 255, 255)), 2550000);
}

#[test]
fn luminosity_exact_values() {
    assert_eq!(luminosity_scaled(&rgb(255, 0, 0)), 2126 * 255);
    assert_eq!(luminosity_scaled(&rgb(0, 255, 0)), 7152 * 255);
    assert_eq!(luminosity_scaled(&rgb(0, 0, 255)), 722 * 255);
    assert_eq!(luminosity_scaled(&rgb(100, 100, 100)), 1000000);
}

#[test]
fn luminosity_stays_in_range() {
    for c in [rgb(1, 2, 3), rgb(200, 13, 255), rgb(255, 254, 253)] {
        assert!(luminosity_scaled(&c) <= 2550000);
    }
}

#[test]
fn distance_to_self_is_zero_and_symmetric() {
    let a = rgb(12, 200, 7);
    let b = rgb(255, 0, 99);
    assert_eq!(color_distance(&a, &a), 0);
    assert_eq!(color_distance(&b, &b), 0);
    assert_eq!(color_distance(&a, &b), color_distance(&b, &a));
}

#[test]
fn distance_exact_value() {
    assert_eq!(color_distance(&rgb(0, 0, 0), &rgb(3, 4, 0)), 25);
    assert_eq!(color_distance(&rgb(10, 10, 10), &rgb(10, 10, 11)), 1);
}

#[test]
fn nearest_color_tie_returns_earliest() {
    let palette = vec![rgb(0, 0, 0), rgb(2, 0, 0)];
    // (1, 0, 0) is at squared distance 1 from both entries.
    let r = pixel_to_palette(&rgb(1, 0, 0), palette.as_slice());
    assert_eq!(r, rgb(0, 0, 0));
}

#[test]
fn nearest_color_is_minimal() {
    let palette = base_palette_vec();
    let r = pixel_to_palette(&rgb(200, 0, 0), palette.as_slice());
    assert_eq!(r, rgb(255, 0, 0));
    let d = color_distance(&rgb(200, 0, 0), &r);
    for c in palette.iter() {
        assert!(d <= color_distance(&rgb(200, 0, 0), c));
    }
}

#[test]
fn closest_palette_color_picks_from_the_five() {
    assert_eq!(closest_palette_color(&rgb(200, 0, 0)), rgb(255, 0, 0));
    assert_eq!(closest_palette_color(&rgb(10, 10, 10)), rgb(0, 0, 0));
    assert_eq!(closest_palette_color(&rgb(240, 240, 240)), rgb(255, 255, 255));
    assert_eq!(closest_palette_color(&rgb(10, 220, 30)), rgb(0, 255, 0));
}

#[test]
fn fixed_bilevel_palette_entries() {
    let p = fixed_bilevel_palette();
    assert_eq!(
        p,
        vec![rgb(0, 0, 0), rgb(255, 255, 255), rgb(255, 0, 0), rgb(0, 0, 255), rgb(0, 255, 0)]
    );
}

#[test]
fn generate_palette_has_exact_length() {
    assert_eq!(generate_palette(0).len(), 0);
    assert_eq!(generate_palette(1).len(), 1);
    assert_eq!(generate_palette(8).len(), 8);
    assert_eq!(generate_palette(23).len(), 23);
}

#[test]
fn generate_palette_first_entries_match_base() {
    let base = base_palette_vec();
    let pal = generate_palette(8);
    assert_eq!(pal, base);
    let small = generate_palette(3);
    assert_eq!(small, vec![rgb(0, 0, 0), rgb(255, 255, 255), rgb(255, 0, 0)]);
}

#[test]
fn generate_palette_ten_repeats_first_two() {
    let pal = generate_palette(10);
    let base = base_palette_vec();
    assert_eq!(pal[8], base[0]);
    assert_eq!(pal[9], base[1]);
    for i in 0..8 {
        assert_eq!(pal[i], base[i]);
    }
}

#[test]
fn palette_mapping_maps_every_pixel() {
    let pal = generate_palette(4);
    let mut img = mk(2, 1, vec![rgb(200, 10, 10), rgb(20, 230, 20)]);
    apply_palette_mapping(&mut img, pal.as_slice());
    assert_eq!(img.pixels, vec![rgb(255, 0, 0), rgb(0, 255, 0)]);
}
