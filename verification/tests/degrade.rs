use comic_ocr::degrade::{
    estimate_ground, jpeg_roundtrip, sample_jpeg_quality, GrayPixels, ScanQuality,
};
use rand::rngs::StdRng;
use rand::SeedableRng;

fn plain() -> GrayPixels {
    let mut pixels = vec![250u8; 64 * 64];
    for y in 20..44 {
        for x in 20..44 {
            pixels[y * 64 + x] = 20;
        }
    }
    GrayPixels { width: 64, height: 64, pixels }
}

#[test]
fn jpeg_changes_pixels_without_destroying_the_shape() {
    let img = plain();
    let out = jpeg_roundtrip(&img, 60).expect("roundtrip");
    assert_eq!((out.width, out.height), (img.width, img.height));
    assert!(
        img.pixels.iter().zip(out.pixels.iter()).any(|(a, b)| a != b),
        "quality 60 must actually perturb pixels"
    );
    // The dark square must survive as dark.
    assert!(out.pixels[32 * 64 + 32] < 80);
}

#[test]
fn ground_estimate_finds_the_bright_mode() {
    assert_eq!(estimate_ground(&plain().pixels), 250);
}

#[test]
fn ground_estimate_ignores_a_dark_majority() {
    let mut pixels = vec![10u8; 100];
    pixels.extend(vec![200u8; 3]);
    pixels.extend(vec![240u8; 2]);
    assert_eq!(estimate_ground(&pixels), 200);
}

#[test]
fn ground_estimate_breaks_ties_towards_the_brightest() {
    let pixels = vec![130u8, 130, 250, 250, 200];
    assert_eq!(estimate_ground(&pixels), 250);
}

#[test]
fn ground_estimate_of_no_pixels_is_white() {
    assert_eq!(estimate_ground(&[]), 255);
}

#[test]
fn ground_estimate_with_no_bright_pixels_is_white() {
    // Every bright value has count 0, so the brightest of the tie wins.
    assert_eq!(estimate_ground(&[0u8, 5, 127]), 255);
}

#[test]
fn jpeg_quality_is_clamped_into_range() {
    let img = plain();
    let zero = jpeg_roundtrip(&img, 0).expect("roundtrip");
    let one = jpeg_roundtrip(&img, 1).expect("roundtrip");
    assert_eq!(zero, one);
    let top = jpeg_roundtrip(&img, 255).expect("roundtrip");
    let hundred = jpeg_roundtrip(&img, 100).expect("roundtrip");
    assert_eq!(top, hundred);
    // Quality matters within the range.
    assert_ne!(one, hundred);
}

#[test]
fn jpeg_roundtrip_is_deterministic() {
    let img = plain();
    assert_eq!(jpeg_roundtrip(&img, 75).unwrap(), jpeg_roundtrip(&img, 75).unwrap());
}

#[test]
fn jpeg_quality_draws_stay_in_the_scan_ranges() {
    for seed in 0..200 {
        let mut rng = StdRng::seed_from_u64(seed);
        let q = sample_jpeg_quality(&mut rng, ScanQuality::Typical);
        assert!((55..=92).contains(&q), "typical draw {q}");
        let q = sample_jpeg_quality(&mut rng, ScanQuality::Poor);
        assert!((22..=55).contains(&q), "poor draw {q}");
    }
}

#[test]
fn jpeg_quality_draw_is_reproducible_from_the_seed() {
    let mut a = StdRng::seed_from_u64(7);
    let mut b = StdRng::seed_from_u64(7);
    for _ in 0..20 {
        assert_eq!(
            sample_jpeg_quality(&mut a, ScanQuality::Typical),
            sample_jpeg_quality(&mut b, ScanQuality::Typical)
        );
    }
}

#[test]
fn an_image_the_encoder_refuses_reports_the_encode_step() {
    let empty = GrayPixels { width: 0, height: 0, pixels: Vec::new() };
    let err = jpeg_roundtrip(&empty, 75).expect_err("zero-sized image");
    assert!(err.starts_with("jpeg encode: "), "unexpected error: {err}");
}
