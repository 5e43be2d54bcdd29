use dither::bayer::{apply_bayer_dithering, generate_bayer_matrix};
use dither::color::Color;
use dither::raster::{get_pixel_luminosity, Image};
use dither::threshold::{
    apply_checkerboard, apply_luminosity_threshold, apply_random_dithering,
    pixel_luminosity_to_custom,
};

fn rgb(r: u8, g: u8, b: u8) -> Color {
    Color { r, g, b }
}

fn mk(width: usize, height: usize, pixels: Vec<Color>) -> Image {
    match Image::from_pixels(width, height, pixels) {
        Ok(img) => img,
        Err(_) => panic!("dimensions do not match the buffer"),
    }
}

#[test]
fn bayer_matrix_order_zero() {
    let m = generate_bayer_matrix(0);
    assert_eq!(m, vec![vec![0u8]]);
}

#[test]
fn bayer_matrix_order_one() {
    let m = generate_bayer_matrix(1);
    assert_eq!(m, vec![vec![0u8, 2], vec![3u8, 1]]);
}

#[test]
fn bayer_matrix_order_two() {
    let m = generate_bayer_matrix(2);
    assert_eq!(
        m,
        vec![
            vec![0u8, 8, 2, 10],
            vec![12u8, 4, 14, 6],
            vec![3u8, 11, 1, 9],
            vec![15u8, 7, 13, 5],
        ]
    );
}

#[test]
fn bayer_matrix_is_a_permutation() {
    for order in 0u8..=4 {
        let m = generate_bayer_matrix(order);
        let side = 1usize << order;
        assert_eq!(m.len(), side);
        let mut seen = vec![false; side * side];
        for line in &m {
            assert_eq!(line.len(), side);
            for &v in line {
                let v = v as usize;
                assert!(v < side * side);
                assert!(!seen[v]);
                seen[v] = true;
            }
        }
        assert!(seen.iter().all(|&s| s));
    }
}

#[test]
fn bayer_dithering_extremes() {
    let white_img = mk(2, 2, vec![rgb(255, 255, 255); 4]);
    let out = apply_bayer_dithering(&white_img, 3);
    assert_eq!(out.pixels, vec![rgb(255, 255, 255); 4]);

    let black_img = mk(2, 2, vec![rgb(0, 0, 0); 4]);
    let out = apply_bayer_dithering(&black_img, 3);
    assert_eq!(out.pixels, vec![rgb(0, 0, 0); 4]);
}

#[test]
fn bayer_dithering_is_deterministic() {
    let img = mk(3, 2, vec![
        rgb(10, 20, 30),
        rgb(200, 100, 50),
        rgb(130, 130, 130),
        rgb(255, 0, 255),
        rgb(60, 200, 10),
        rgb(127, 128, 129),
    ]);
    let once = apply_bayer_dithering(&img, 3);
    let twice = apply_bayer_dithering(&img, 3);
    assert_eq!(once.pixels, twice.pixels);
    // The source image is untouched.
    assert_eq!(img.pixels[0], rgb(10, 20, 30));
    for p in &once.pixels {
        assert!(*p == rgb(0, 0, 0) || *p == rgb(255, 255, 255));
    }
}

#[test]
fn bayer_dithering_order_zero_blacks_out() {
    // The single threshold normalizes over a zero denominator; the exact
    // integer comparison is then never satisfied and every pixel is black.
    let img = mk(2, 1, vec![rgb(255, 255, 255), rgb(1, 2, 3)]);
    let out = apply_bayer_dithering(&img, 0);
    assert_eq!(out.pixels, vec![rgb(0, 0, 0), rgb(0, 0, 0)]);
}

#[test]
fn custom_threshold_boundary() {
    let light = rgb(152, 152, 5);
    let dark = rgb(89, 4, 89);
    assert_eq!(pixel_luminosity_to_custom(&rgb(128, 128, 128), light, dark), light);
    assert_eq!(pixel_luminosity_to_custom(&rgb(127, 127, 127), light, dark), dark);
    assert_eq!(pixel_luminosity_to_custom(&rgb(255, 255, 255), light, dark), light);
    assert_eq!(pixel_luminosity_to_custom(&rgb(0, 0, 0), light, dark), dark);
}

#[test]
fn threshold_on_uniform_images() {
    let light = rgb(152, 152, 5);
    let dark = rgb(89, 4, 89);
    let mut white_img = mk(3, 2, vec![rgb(255, 255, 255); 6]);
    apply_luminosity_threshold(&mut white_img, light, dark);
    assert_eq!(white_img.pixels, vec![light; 6]);

    let mut black_img = mk(3, 2, vec![rgb(0, 0, 0); 6]);
    apply_luminosity_threshold(&mut black_img, light, dark);
    assert_eq!(black_img.pixels, vec![dark; 6]);
}

#[test]
fn checkerboard_on_two_by_two_black() {
    let mut img = mk(2, 2, vec![rgb(0, 0, 0); 4]);
    apply_checkerboard(&mut img);
    assert_eq!(img.get_pixel(0, 0), rgb(255, 255, 255));
    assert_eq!(img.get_pixel(1, 0), rgb(0, 0, 0));
    assert_eq!(img.get_pixel(0, 1), rgb(0, 0, 0));
    assert_eq!(img.get_pixel(1, 1), rgb(255, 255, 255));
}

#[test]
fn random_dithering_extremes_are_forced() {
    let mut white_img = mk(3, 2, vec![rgb(255, 255, 255); 6]);
    apply_random_dithering(&mut white_img);
    assert_eq!(white_img.pixels, vec![rgb(255, 255, 255); 6]);

    let mut black_img = mk(3, 2, vec![rgb(0, 0, 0); 6]);
    apply_random_dithering(&mut black_img);
    assert_eq!(black_img.pixels, vec![rgb(0, 0, 0); 6]);
}

#[test]
fn random_dithering_emits_only_black_or_white() {
    let mut img = mk(4, 3, vec![rgb(97, 17, 201); 12]);
    apply_random_dithering(&mut img);
    for p in &img.pixels {
        assert!(*p == rgb(0, 0, 0) || *p == rgb(255, 255, 255));
    }
}

#[test]
fn pixel_luminosity_lookup() {
    let img = mk(2, 2, vec![rgb(0, 0, 0), rgb(255, 255, 255), rgb(100, 100, 100), rgb(255, 0, 0)]);
    assert_eq!(get_pixel_luminosity(&img, 0, 0), 0);
    assert_eq!(get_pixel_luminosity(&img, 1, 0), 2550000);
    assert_eq!(get_pixel_luminosity(&img, 0, 1), 1000000);
    assert_eq!(get_pixel_luminosity(&img, 1, 1), 2126 * 255);
}

#[test]
fn image_construction_and_updates() {
    let mut img = Image::new(3, 2, rgb(7, 8, 9));
    assert_eq!(img.width, 3);
    assert_eq!(img.height, 2);
    assert_eq!(img.pixels.len(), 6);
    img.put_pixel(2, 1, rgb(1, 1, 1));
    assert_eq!(img.get_pixel(2, 1), rgb(1, 1, 1));
    assert_eq!(img.get_pixel(0, 0), rgb(7, 8, 9));
    img.fill(rgb(0, 0, 0));
    assert_eq!(img.pixels, vec![rgb(0, 0, 0); 6]);
    assert!(Image::from_pixels(2, 2, vec![rgb(0, 0, 0); 3]).is_err());
}
