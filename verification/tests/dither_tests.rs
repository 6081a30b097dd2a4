use atkinson::{add_pixels, atkinson, calc_errpx, check_two_tone, threshold_pixel, Image, Pixel};

fn px(r: u8, g: u8, b: u8, a: u8) -> Pixel {
    Pixel { data: [r, g, b, a] }
}

fn flat_image(w: usize, h: usize, p: Pixel) -> Image {
    Image::new(w, h, vec![p; w * h])
}

fn image_from(w: usize, h: usize, pixels: Vec<Pixel>) -> Image {
    assert_eq!(pixels.len(), w * h);
    Image::new(w, h, pixels)
}

#[test]
fn threshold_pixel_rounds_each_channel() {
    let p = threshold_pixel(&px(127, 128, 0, 255));
    assert_eq!(p.data, [0, 255, 0, 255]);
    let q = threshold_pixel(&px(1, 254, 128, 127));
    assert_eq!(q.data, [0, 255, 255, 0]);
}

#[test]
fn calc_errpx_saturates_and_divides_by_eight() {
    let e = calc_errpx(&px(200, 100, 50, 255), &px(255, 0, 0, 255));
    // 200 - 255 saturates to 0; 100 / 8 = 12; 50 / 8 = 6; 255 - 255 = 0
    assert_eq!(e.data, [0, 12, 6, 0]);
}

#[test]
fn add_pixels_saturates_at_255() {
    let s = add_pixels(&px(250, 10, 0, 255), &px(20, 5, 7, 3));
    assert_eq!(s.data, [255, 15, 7, 255]);
}

#[test]
fn error_arithmetic_stays_in_range() {
    // every original/new channel pair: error is in [0, 31], and adding it
    // to any sample never leaves [0, 255]
    for o in 0..=255u8 {
        for n in [0u8, 127, 128, 255] {
            let e = calc_errpx(&px(o, o, o, o), &px(n, n, n, n));
            for c in 0..4 {
                assert!(e.data[c] <= 31);
            }
            for v in [0u8, 100, 240, 255] {
                let s = add_pixels(&px(v, v, v, v), &e);
                for c in 0..4 {
                    assert!(s.data[c] >= v);
                }
            }
        }
    }
}

#[test]
fn grid_get_and_set_are_row_major() {
    let mut img = image_from(
        2,
        2,
        vec![px(1, 2, 3, 4), px(5, 6, 7, 8), px(9, 10, 11, 12), px(13, 14, 15, 16)],
    );
    assert_eq!(img.width(), 2);
    assert_eq!(img.height(), 2);
    assert_eq!(img.get(0, 0).data, [1, 2, 3, 4]);
    assert_eq!(img.get(1, 0).data, [5, 6, 7, 8]);
    assert_eq!(img.get(0, 1).data, [9, 10, 11, 12]);
    assert_eq!(img.get(1, 1).data, [13, 14, 15, 16]);
    img.set(1, 0, px(42, 43, 44, 45));
    assert_eq!(img.get(1, 0).data, [42, 43, 44, 45]);
    assert_eq!(img.get(0, 0).data, [1, 2, 3, 4]);
}

#[test]
fn dither_leaves_only_black_and_white() {
    let mut img = image_from(
        3,
        3,
        vec![
            px(10, 200, 130, 255),
            px(90, 12, 250, 0),
            px(127, 128, 129, 100),
            px(1, 2, 3, 4),
            px(250, 249, 248, 247),
            px(64, 64, 64, 64),
            px(200, 100, 50, 25),
            px(133, 77, 255, 0),
            px(99, 101, 155, 200),
        ],
    );
    atkinson(&mut img);
    assert!(check_two_tone(&img));
    for y in 0..3 {
        for x in 0..3 {
            for c in 0..4 {
                let v = img.get(x, y).data[c];
                assert!(v == 0 || v == 255);
            }
        }
    }
}

#[test]
fn dither_single_pixel_image() {
    let mut img = flat_image(1, 1, px(127, 128, 0, 255));
    atkinson(&mut img);
    assert!(check_two_tone(&img));
    assert_eq!(img.get(0, 0).data, [0, 255, 0, 255]);
}

#[test]
fn dither_zero_area_images() {
    let mut empty = Image::new(0, 0, Vec::new());
    atkinson(&mut empty);
    assert!(check_two_tone(&empty));

    let mut flat = Image::new(5, 0, Vec::new());
    atkinson(&mut flat);
    assert!(check_two_tone(&flat));

    let mut thin = Image::new(0, 7, Vec::new());
    atkinson(&mut thin);
    assert!(check_two_tone(&thin));
}

#[test]
fn dither_is_deterministic() {
    let pixels = vec![
        px(13, 200, 90, 255),
        px(127, 128, 0, 1),
        px(222, 31, 180, 140),
        px(55, 66, 77, 88),
        px(250, 5, 130, 126),
        px(100, 150, 200, 250),
    ];
    let mut a = image_from(3, 2, pixels.clone());
    let mut b = image_from(3, 2, pixels);
    atkinson(&mut a);
    atkinson(&mut b);
    for y in 0..2 {
        for x in 0..3 {
            assert_eq!(a.get(x, y).data, b.get(x, y).data);
        }
    }
}

#[test]
fn flat_127_field_thresholds_first_pixel_down() {
    // A 2x2 field of (127, 127, 127, 255). The first pixel thresholds to
    // black and alpha stays 255. Its error (15 per colour channel) lands on
    // the three in-bounds neighbours, lifting them to 142, so they
    // threshold up to white; their own error is then zero, because the
    // subtraction 142 - 255 saturates.
    let mut img = flat_image(2, 2, px(127, 127, 127, 255));
    atkinson(&mut img);
    assert!(check_two_tone(&img));
    assert_eq!(img.get(0, 0).data, [0, 0, 0, 255]);
    assert_eq!(img.get(1, 0).data, [255, 255, 255, 255]);
    assert_eq!(img.get(0, 1).data, [255, 255, 255, 255]);
    assert_eq!(img.get(1, 1).data, [255, 255, 255, 255]);
    // alpha was forced to 255 on every pixel
    for y in 0..2 {
        for x in 0..2 {
            assert_eq!(img.get(x, y).data[3], 255);
        }
    }
}

#[test]
fn flat_field_below_error_reach_stays_black() {
    // A 2x2 field of (80, 80, 80, 255): even after receiving diffused
    // error, every colour channel stays below 128 and thresholds to black.
    let mut img = flat_image(2, 2, px(80, 80, 80, 255));
    atkinson(&mut img);
    assert!(check_two_tone(&img));
    for y in 0..2 {
        for x in 0..2 {
            assert_eq!(img.get(x, y).data, [0, 0, 0, 255]);
        }
    }
}

#[test]
fn left_column_never_writes_into_last_column_of_next_row() {
    // Only (0, 0) produces error; every other pixel is already saturated
    // white except (2, 1), which sits where a wrapped up-left offset from
    // x = 0 would land. It must stay untouched and threshold to black.
    let mut img = image_from(
        3,
        2,
        vec![
            px(127, 127, 127, 255),
            px(255, 255, 255, 255),
            px(255, 255, 255, 255),
            px(255, 255, 255, 255),
            px(255, 255, 255, 255),
            px(120, 120, 120, 255),
        ],
    );
    atkinson(&mut img);
    assert_eq!(img.get(0, 0).data, [0, 0, 0, 255]);
    assert_eq!(img.get(2, 1).data, [0, 0, 0, 255]);
}

#[test]
fn three_pixel_grayscale_row() {
    let mut img = image_from(
        3,
        1,
        vec![px(0, 0, 0, 255), px(255, 255, 255, 255), px(128, 128, 128, 255)],
    );
    atkinson(&mut img);
    assert_eq!(img.get(0, 0).data, [0, 0, 0, 255]);
    assert_eq!(img.get(1, 0).data, [255, 255, 255, 255]);
    assert_eq!(img.get(2, 0).data, [255, 255, 255, 255]);
}

#[test]
fn check_two_tone_detects_intermediate_values() {
    let img = image_from(2, 1, vec![px(0, 255, 0, 255), px(255, 254, 0, 255)]);
    assert!(!check_two_tone(&img));
    let ok = image_from(2, 1, vec![px(0, 255, 0, 255), px(255, 255, 0, 255)]);
    assert!(check_two_tone(&ok));
}

#[test]
fn error_diffusion_carries_darkness_to_the_right() {
    // 120 thresholds to black and pushes 15 to the next pixel twice over:
    // (x+1, y) and (x+2, y). The middle pixel receives 15, reaching 135,
    // and flips to white even though its own value was below 128.
    let mut img = image_from(
        3,
        1,
        vec![px(120, 120, 120, 255), px(120, 120, 120, 255), px(120, 120, 120, 255)],
    );
    atkinson(&mut img);
    // (0,0): 120 -> 0, error 15 -> (1,0) = 135, (2,0) = 135
    // (1,0): 135 -> 255, no error (saturating subtraction)
    // (2,0): 135 -> 255
    assert_eq!(img.get(0, 0).data, [0, 0, 0, 255]);
    assert_eq!(img.get(1, 0).data, [255, 255, 255, 255]);
    assert_eq!(img.get(2, 0).data, [255, 255, 255, 255]);
}
