use idcard_sheet::imgprocutils::ImgProcUtils;
use idcard_sheet::raster::Image;
use idcard_sheet::tone::{tone_sample, MAX_BRIGHTNESS, MAX_CONTRAST};

#[test]
fn no_brightness_and_no_contrast_change_nothing() {
    for x in 0..=255u8 {
        assert_eq!(tone_sample(x, 0, 0), x);
    }
}

#[test]
fn ranges_of_the_amounts() {
    assert_eq!(MAX_BRIGHTNESS, 255);
    assert_eq!(MAX_CONTRAST, 127);
}

#[test]
fn brightness_alone() {
    assert_eq!(tone_sample(100, 10, 0), 106);
    assert_eq!(tone_sample(100, -50, 0), 80);
    assert_eq!(tone_sample(100, 255, 0), 255);
    assert_eq!(tone_sample(100, -255, 0), 0);
    assert_eq!(tone_sample(0, 10, 0), 10);
    assert_eq!(tone_sample(255, 10, 0), 255);
    assert_eq!(tone_sample(255, -10, 0), 245);
}

#[test]
fn contrast_alone() {
    assert_eq!(tone_sample(100, 0, 40), 75);
    assert_eq!(tone_sample(150, 0, 40), 170);
    assert_eq!(tone_sample(200, 0, 40), 255);
    assert_eq!(tone_sample(127, 0, 40), 127);
    assert_eq!(tone_sample(0, 0, -50), 71);
    assert_eq!(tone_sample(255, 0, -50), 183);
    assert_eq!(tone_sample(64, 0, -50), 99);
}

#[test]
fn strongest_contrast_in_both_directions() {
    assert_eq!(tone_sample(0, 0, -127), 127);
    assert_eq!(tone_sample(255, 0, -127), 127);
    assert_eq!(tone_sample(0, 0, 127), 0);
    assert_eq!(tone_sample(255, 0, 127), 255);
    assert_eq!(tone_sample(126, 0, 127), 61);
    assert_eq!(tone_sample(128, 0, 127), 192);
}

#[test]
fn brightness_comes_before_contrast() {
    assert_eq!(tone_sample(37, -20, 30), 0);
    assert_eq!(tone_sample(10, 100, -100), 124);
}

#[test]
fn every_amount_in_range_is_accepted() {
    for b in [-255, -128, -1, 0, 1, 128, 255] {
        for c in [-127, -64, -1, 0, 1, 64, 127] {
            for x in [0u8, 1, 127, 128, 254, 255] {
                let _ = tone_sample(x, b, c);
            }
        }
    }
}

#[test]
fn image_keeps_alpha_and_dimensions() {
    let samples = vec![100, 150, 200, 7, 127, 0, 255, 250];
    let img = Image::new(2, 1, samples).unwrap();
    let out = ImgProcUtils::apply_brightness_contrast(&img, 0, 40);
    assert_eq!(out.width(), 2);
    assert_eq!(out.height(), 1);
    assert_eq!(out.samples(), &vec![75, 170, 255, 7, 127, 0, 255, 250]);
}

#[test]
fn image_without_adjustment_is_unchanged() {
    let samples: Vec<u8> = (0..48u8).map(|i| i.wrapping_mul(11)).collect();
    let img = Image::new(4, 3, samples.clone()).unwrap();
    let out = ImgProcUtils::apply_brightness_contrast(&img, 0, 0);
    assert_eq!(out.samples(), &samples);
}

#[test]
fn empty_image_stays_empty() {
    let img = Image::new(0, 0, Vec::new()).unwrap();
    let out = ImgProcUtils::apply_brightness_contrast(&img, 30, -30);
    assert_eq!(out.width(), 0);
    assert_eq!(out.height(), 0);
    assert!(out.samples().is_empty());
}
