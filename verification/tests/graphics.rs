use photon_graphics::graphics::{create_image, draw_photonimage};
use photon_graphics::pixel_buffer::{AllocationError, PhotonImage, Rgb};

fn rgb(r: u8, g: u8, b: u8) -> Rgb {
    Rgb { r, g, b }
}

fn pixel(img: &PhotonImage, x: u32, y: u32) -> [u8; 4] {
    let base = ((y * img.width + x) * 4) as usize;
    [
        img.raw_pixels[base],
        img.raw_pixels[base + 1],
        img.raw_pixels[base + 2],
        img.raw_pixels[base + 3],
    ]
}

fn force_opaque(img: &mut PhotonImage) {
    let mut i: usize = 3;
    while i < img.raw_pixels.len() {
        img.raw_pixels[i] = 255;
        i += 4;
    }
}

#[test]
fn allocate_2x2_red() {
    let img = create_image(2, 2, rgb(255, 0, 0)).unwrap();
    assert_eq!(img.width, 2);
    assert_eq!(img.height, 2);
    assert_eq!(img.raw_pixels.len(), 16);
    for y in 0..2 {
        for x in 0..2 {
            assert_eq!(pixel(&img, x, y), [255, 0, 0, 100]);
        }
    }
}

#[test]
fn allocate_length_matches_geometry() {
    let img = create_image(3, 5, rgb(17, 34, 51)).unwrap();
    assert_eq!(img.raw_pixels.len(), 3 * 5 * 4);
    for y in 0..5 {
        for x in 0..3 {
            assert_eq!(pixel(&img, x, y), [17, 34, 51, 100]);
        }
    }
}

#[test]
fn allocate_zero_area_is_empty() {
    let img = create_image(0, 7, rgb(1, 2, 3)).unwrap();
    assert_eq!(img.width, 0);
    assert_eq!(img.height, 7);
    assert!(img.raw_pixels.is_empty());
}

#[test]
fn allocate_overflow_is_rejected() {
    let result = create_image(u32::MAX, u32::MAX, rgb(0, 0, 0));
    assert!(matches!(result, Err(AllocationError)));
}

#[test]
fn overlay_opaque_square_at_center() {
    let mut destination = create_image(4, 4, rgb(0, 0, 0)).unwrap();
    let mut source = create_image(2, 2, rgb(255, 255, 255)).unwrap();
    force_opaque(&mut source);
    draw_photonimage(&mut destination, &source, 1, 1);
    for y in 0..4 {
        for x in 0..4 {
            let inside = (1..=2).contains(&x) && (1..=2).contains(&y);
            if inside {
                assert_eq!(pixel(&destination, x, y), [255, 255, 255, 255]);
            } else {
                assert_eq!(pixel(&destination, x, y), [0, 0, 0, 100]);
            }
        }
    }
}

#[test]
fn overlay_entirely_off_canvas_is_noop() {
    let mut destination = create_image(4, 4, rgb(10, 20, 30)).unwrap();
    let source = create_image(2, 2, rgb(200, 200, 200)).unwrap();
    let before = destination.raw_pixels.clone();
    draw_photonimage(&mut destination, &source, 10, 10);
    assert_eq!(destination.raw_pixels, before);
}

#[test]
fn overlay_at_exact_edge_is_noop() {
    let mut destination = create_image(4, 4, rgb(10, 20, 30)).unwrap();
    let source = create_image(2, 2, rgb(200, 200, 200)).unwrap();
    let before = destination.raw_pixels.clone();
    draw_photonimage(&mut destination, &source, 4, 0);
    assert_eq!(destination.raw_pixels, before);
    draw_photonimage(&mut destination, &source, 0, 4);
    assert_eq!(destination.raw_pixels, before);
}

#[test]
fn overlay_identical_geometry_replaces_all() {
    let mut destination = create_image(4, 4, rgb(9, 9, 9)).unwrap();
    let mut source = create_image(4, 4, rgb(1, 2, 3)).unwrap();
    force_opaque(&mut source);
    draw_photonimage(&mut destination, &source, 0, 0);
    assert_eq!(destination.raw_pixels, source.raw_pixels);
    assert_eq!(destination.width, 4);
    assert_eq!(destination.height, 4);
}

#[test]
fn overlay_partially_off_canvas_clips() {
    let mut destination = create_image(4, 4, rgb(0, 0, 0)).unwrap();
    let source = create_image(3, 3, rgb(50, 60, 70)).unwrap();
    draw_photonimage(&mut destination, &source, 2, 2);
    for y in 0..4 {
        for x in 0..4 {
            if x >= 2 && y >= 2 {
                assert_eq!(pixel(&destination, x, y), [50, 60, 70, 100]);
            } else {
                assert_eq!(pixel(&destination, x, y), [0, 0, 0, 100]);
            }
        }
    }
}

#[test]
fn overlay_twice_equals_once() {
    let mut once = create_image(5, 3, rgb(40, 40, 40)).unwrap();
    let mut source = create_image(2, 2, rgb(250, 0, 250)).unwrap();
    force_opaque(&mut source);
    draw_photonimage(&mut once, &source, 1, 1);
    let mut twice = once.clone();
    draw_photonimage(&mut twice, &source, 1, 1);
    assert_eq!(twice.raw_pixels, once.raw_pixels);
}

#[test]
fn overlay_replaces_alpha_channel_too() {
    let mut destination = create_image(2, 1, rgb(0, 0, 0)).unwrap();
    let source = create_image(1, 1, rgb(7, 8, 9)).unwrap();
    draw_photonimage(&mut destination, &source, 0, 0);
    assert_eq!(pixel(&destination, 0, 0), [7, 8, 9, 100]);
    assert_eq!(pixel(&destination, 1, 0), [0, 0, 0, 100]);
}

#[test]
fn overlay_zero_size_source_is_noop() {
    let mut destination = create_image(3, 3, rgb(5, 5, 5)).unwrap();
    let source = create_image(0, 0, rgb(0, 0, 0)).unwrap();
    let before = destination.raw_pixels.clone();
    draw_photonimage(&mut destination, &source, 0, 0);
    assert_eq!(destination.raw_pixels, before);
}
