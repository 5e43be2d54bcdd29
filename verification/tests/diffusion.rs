use dither::color::Color;
use dither::diffusion::{
    apply_error_diffusion_dithering, apply_error_diffusion_palettization,
    apply_floyd_steinberg_dithering,
};
use dither::raster::Image;

fn rgb(r: u8, g: u8, b: u8) -> Color {
    Color { r, g, b }
}

fn mk(width: usize, height: usize, pixels: Vec<Color>) -> Image {
    match Image::from_pixels(width, height, pixels) {
        Ok(img) => img,
        Err(_) => panic!("dimensions do not match the buffer"),
    }
}

#[test]
fn naive_diffusion_single_pixel() {
    let mut img = mk(1, 1, vec![rgb(200, 200, 200)]);
    apply_error_diffusion_dithering(&mut img);
    assert_eq!(img.pixels, vec![rgb(255, 255, 255)]);

    let mut img = mk(1, 1, vec![rgb(100, 100, 100)]);
    apply_error_diffusion_dithering(&mut img);
    assert_eq!(img.pixels, vec![rgb(0, 0, 0)]);
}

#[test]
fn naive_diffusion_pushes_half_error_right() {
    // Luminosity of (100,100,100) is 100: classified black, residue 100,
    // half of it (50) is added to each channel of the right neighbor, whose
    // luminosity 150 then exceeds 127.5 and classifies white.
    let mut img = mk(2, 1, vec![rgb(100, 100, 100), rgb(100, 100, 100)]);
    apply_error_diffusion_dithering(&mut img);
    assert_eq!(img.pixels, vec![rgb(0, 0, 0), rgb(255, 255, 255)]);
}

#[test]
fn naive_diffusion_pushes_half_error_below() {
    let mut img = mk(1, 2, vec![rgb(100, 100, 100), rgb(100, 100, 100)]);
    apply_error_diffusion_dithering(&mut img);
    assert_eq!(img.pixels, vec![rgb(0, 0, 0), rgb(255, 255, 255)]);
}

#[test]
fn naive_diffusion_white_pixels_push_nothing() {
    // A pixel classified white has non-positive residue, flattened to zero.
    let mut img = mk(2, 1, vec![rgb(200, 200, 200), rgb(100, 100, 100)]);
    apply_error_diffusion_dithering(&mut img);
    assert_eq!(img.pixels, vec![rgb(255, 255, 255), rgb(0, 0, 0)]);
}

#[test]
fn palettization_single_pixel() {
    let mut img = mk(1, 1, vec![rgb(200, 0, 0)]);
    apply_error_diffusion_palettization(&mut img);
    assert_eq!(img.pixels, vec![rgb(255, 0, 0)]);
}

#[test]
fn palettization_diffuses_vector_error() {
    // (200,0,0) maps to red (255,0,0), residue (-55,0,0); the right neighbor
    // (100,100,100) becomes (72,100,100), which is nearest to black.
    let mut img = mk(2, 1, vec![rgb(200, 0, 0), rgb(100, 100, 100)]);
    apply_error_diffusion_palettization(&mut img);
    assert_eq!(img.pixels, vec![rgb(255, 0, 0), rgb(0, 0, 0)]);
}

#[test]
fn palettization_emits_only_palette_entries() {
    let mut img = mk(3, 3, vec![
        rgb(10, 200, 30),
        rgb(250, 250, 0),
        rgb(0, 30, 250),
        rgb(128, 128, 128),
        rgb(90, 16, 240),
        rgb(5, 5, 5),
        rgb(250, 250, 250),
        rgb(66, 66, 66),
        rgb(199, 0, 199),
    ]);
    apply_error_diffusion_palettization(&mut img);
    let palette = [
        rgb(0, 0, 0),
        rgb(255, 255, 255),
        rgb(255, 0, 0),
        rgb(0, 0, 255),
        rgb(0, 255, 0),
    ];
    for p in &img.pixels {
        assert!(palette.contains(p));
    }
}

#[test]
fn floyd_steinberg_right_weight_above_threshold() {
    // Luminosity 129 is just above 128: the pixel turns white, the residue
    // 129 - 255 = -126 sends 7/16 of itself to the right neighbor's red
    // channel: 129 - 126 * 7 / 16 = 73.875, truncated to 73. The neighbor's
    // luminosity drops to 117.0944 and it turns black.
    let mut img = mk(2, 1, vec![rgb(129, 129, 129), rgb(129, 129, 129)]);
    apply_floyd_steinberg_dithering(&mut img);
    assert_eq!(img.pixels, vec![rgb(255, 255, 255), rgb(0, 0, 0)]);
}

#[test]
fn floyd_steinberg_right_weight_below_threshold() {
    // Luminosity 127 is just below 128: the pixel turns black, the residue
    // 127 sends 7/16 of itself right: 127 + 127 * 7 / 16 = 182.5625,
    // truncated to 182; the neighbor's luminosity 138.693 turns it white.
    let mut img = mk(2, 1, vec![rgb(127, 127, 127), rgb(127, 127, 127)]);
    apply_floyd_steinberg_dithering(&mut img);
    assert_eq!(img.pixels, vec![rgb(0, 0, 0), rgb(255, 255, 255)]);
}

#[test]
fn floyd_steinberg_below_weight() {
    // In a single column the residue 127 sends 3/16 below:
    // 127 + 127 * 3 / 16 = 150.8125 -> 150, whose luminosity 131.8898
    // exceeds 128 and turns white.
    let mut img = mk(1, 2, vec![rgb(127, 127, 127), rgb(127, 127, 127)]);
    apply_floyd_steinberg_dithering(&mut img);
    assert_eq!(img.pixels, vec![rgb(0, 0, 0), rgb(255, 255, 255)]);
}

#[test]
fn floyd_steinberg_two_by_two() {
    // Full raster scan over a 2x2 gray image: the top-left residue reaches
    // the right (7/16), lower (3/16) and lower-right (5/16) neighbors, and
    // the residues of the later pixels stack on the lower-right one.
    let mut img = mk(2, 2, vec![rgb(127, 127, 127); 4]);
    apply_floyd_steinberg_dithering(&mut img);
    assert_eq!(img.pixels, vec![
        rgb(0, 0, 0),
        rgb(255, 255, 255),
        rgb(255, 255, 255),
        rgb(0, 0, 0),
    ]);
}

#[test]
fn empty_image_stays_empty() {
    let mut img = mk(0, 0, Vec::new());
    apply_error_diffusion_dithering(&mut img);
    assert_eq!(img.pixels.len(), 0);
    let mut img = mk(0, 5, Vec::new());
    apply_error_diffusion_palettization(&mut img);
    assert_eq!(img.pixels.len(), 0);
    let mut img = mk(5, 0, Vec::new());
    apply_floyd_steinberg_dithering(&mut img);
    assert_eq!(img.pixels.len(), 0);
}

#[test]
fn diffusion_emits_only_black_or_white() {
    let mut img = mk(4, 3, vec![rgb(97, 17, 201); 12]);
    apply_error_diffusion_dithering(&mut img);
    for p in &img.pixels {
        assert!(*p == rgb(0, 0, 0) || *p == rgb(255, 255, 255));
    }
    let mut img = mk(4, 3, vec![rgb(97, 17, 201); 12]);
    apply_floyd_steinberg_dithering(&mut img);
    for p in &img.pixels {
        assert!(*p == rgb(0, 0, 0) || *p == rgb(255, 255, 255));
    }
}
