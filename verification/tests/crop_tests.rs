use idcard_sheet::imgprocutils::{
    ImgProcUtils, Rect, BACKGROUND_CUTOFF, CLOSING_RADIUS, CONTOUR_THRESHOLD,
};
use idcard_sheet::raster::Image;

fn uniform(width: u32, height: u32, gray: u8) -> Vec<u8> {
    let mut samples = Vec::new();
    for _ in 0..(width * height) {
        samples.extend_from_slice(&[gray, gray, gray, 255]);
    }
    samples
}

fn paint(samples: &mut Vec<u8>, width: u32, left: u32, top: u32, w: u32, h: u32, rgb: [u8; 3]) {
    for y in top..top + h {
        for x in left..left + w {
            let i = ((y * width + x) * 4) as usize;
            samples[i] = rgb[0];
            samples[i + 1] = rgb[1];
            samples[i + 2] = rgb[2];
        }
    }
}

#[test]
fn constants_of_the_crop() {
    assert_eq!(BACKGROUND_CUTOFF, 240);
    assert_eq!(CLOSING_RADIUS, 11);
    assert_eq!(CONTOUR_THRESHOLD, 1);
}

#[test]
fn bounding_rect_spans_smallest_to_largest_coordinate() {
    let points = vec![(5, 9), (3, 12), (8, 10), (4, 9)];
    assert_eq!(
        ImgProcUtils::bounding_rect_from_points(&points),
        Rect { left: 3, top: 9, width: 6, height: 4 }
    );
}

#[test]
fn bounding_rect_of_one_point_is_one_pixel() {
    assert_eq!(
        ImgProcUtils::bounding_rect_from_points(&vec![(7, 0)]),
        Rect { left: 7, top: 0, width: 1, height: 1 }
    );
}

#[test]
fn largest_bounding_rect_is_chosen() {
    let contours = vec![
        vec![(0, 0), (1, 1)],
        vec![(10, 10), (14, 12)],
        vec![(3, 3), (4, 5)],
    ];
    assert_eq!(
        ImgProcUtils::subject_rect(&contours),
        Some(Rect { left: 10, top: 10, width: 5, height: 3 })
    );
}

#[test]
fn of_equally_large_rects_the_first_is_chosen() {
    let contours = vec![
        vec![(0, 0)],
        vec![(2, 2), (4, 3)],
        vec![(20, 20), (21, 22)],
        vec![(30, 30), (32, 31)],
    ];
    assert_eq!(
        ImgProcUtils::subject_rect(&contours),
        Some(Rect { left: 2, top: 2, width: 3, height: 2 })
    );
}

#[test]
fn no_contour_no_rect() {
    assert_eq!(ImgProcUtils::subject_rect(&Vec::new()), None);
}

#[test]
fn areas_beyond_32_bits_are_told_apart() {
    let contours = vec![
        vec![(0, 0), (0xffff, 0xffff)],
        vec![(0, 0), (0xffff_fffe, 0xffff_fffe)],
        vec![(0, 0), (0x1_0000, 0xffff)],
    ];
    assert_eq!(
        ImgProcUtils::subject_rect(&contours),
        Some(Rect { left: 0, top: 0, width: 0xffff_ffff, height: 0xffff_ffff })
    );
}

#[test]
fn white_image_has_no_subject() {
    let img = Image::new(40, 30, uniform(40, 30, 255)).unwrap();
    assert!(ImgProcUtils::crop_to_subject(&img).is_none());
}

#[test]
fn image_just_above_the_cutoff_has_no_subject() {
    let img = Image::new(40, 30, uniform(40, 30, 241)).unwrap();
    assert!(ImgProcUtils::crop_to_subject(&img).is_none());
}

#[test]
fn empty_image_has_no_subject() {
    let img = Image::new(0, 0, Vec::new()).unwrap();
    assert!(ImgProcUtils::crop_to_subject(&img).is_none());
}

#[test]
fn dark_square_on_white_is_the_subject() {
    let mut samples = uniform(100, 80, 255);
    paint(&mut samples, 100, 30, 25, 20, 15, [40, 40, 40]);
    let img = Image::new(100, 80, samples).unwrap();
    let out = ImgProcUtils::crop_to_subject(&img).unwrap();
    assert_eq!(out.width(), 20);
    assert_eq!(out.height(), 15);
    assert_eq!(out.samples(), &uniform(20, 15, 40));
}

#[test]
fn subject_keeps_the_colours_of_the_image() {
    let mut samples = uniform(100, 80, 255);
    paint(&mut samples, 100, 30, 25, 20, 15, [200, 10, 30]);
    paint(&mut samples, 100, 35, 30, 2, 2, [0, 0, 250]);
    let img = Image::new(100, 80, samples.clone()).unwrap();
    let out = ImgProcUtils::crop_to_subject(&img).unwrap();
    assert_eq!(out.width(), 20);
    assert_eq!(out.height(), 15);
    let expected = Image::new(100, 80, samples).unwrap().crop_imm(30, 25, 20, 15);
    assert_eq!(out.samples(), expected.samples());
    assert_eq!(&out.samples()[0..4], &[200, 10, 30, 255]);
}

#[test]
fn pixels_at_the_cutoff_are_foreground() {
    let mut samples = uniform(100, 80, 255);
    paint(&mut samples, 100, 40, 40, 10, 10, [240, 240, 240]);
    let img = Image::new(100, 80, samples).unwrap();
    let out = ImgProcUtils::crop_to_subject(&img).unwrap();
    assert_eq!((out.width(), out.height()), (10, 10));
}

#[test]
fn closing_bridges_a_narrow_gap() {
    // Two squares ten pixels apart become one region once the mask is
    // closed, so the subject spans both.
    let mut samples = uniform(120, 100, 255);
    paint(&mut samples, 120, 40, 40, 5, 5, [0, 0, 0]);
    paint(&mut samples, 120, 55, 40, 5, 5, [0, 0, 0]);
    let img = Image::new(120, 100, samples).unwrap();
    let out = ImgProcUtils::crop_to_subject(&img).unwrap();
    assert_eq!((out.width(), out.height()), (20, 5));
}

#[test]
fn regions_far_apart_stay_apart_and_the_larger_wins() {
    let mut samples = uniform(200, 100, 255);
    paint(&mut samples, 200, 30, 30, 6, 6, [0, 0, 0]);
    paint(&mut samples, 200, 120, 40, 12, 9, [0, 0, 0]);
    let img = Image::new(200, 100, samples).unwrap();
    let out = ImgProcUtils::crop_to_subject(&img).unwrap();
    assert_eq!((out.width(), out.height()), (12, 9));
}

#[test]
fn subject_lies_within_the_image() {
    let mut samples = uniform(64, 48, 250);
    paint(&mut samples, 64, 0, 10, 64, 3, [10, 20, 30]);
    paint(&mut samples, 64, 50, 0, 4, 48, [90, 20, 30]);
    let img = Image::new(64, 48, samples).unwrap();
    if let Some(out) = ImgProcUtils::crop_to_subject(&img) {
        assert!(out.width() >= 1 && out.width() <= 64);
        assert!(out.height() >= 1 && out.height() <= 48);
        assert_eq!(out.samples().len(), (out.width() * out.height() * 4) as usize);
    }
}

#[test]
fn image_that_is_all_foreground_has_no_border() {
    // Borders are found where foreground meets background to its left or
    // right: a raster without background has none.
    let img = Image::new(40, 30, uniform(40, 30, 0)).unwrap();
    assert!(ImgProcUtils::crop_to_subject(&img).is_none());
}

#[test]
fn grey_of_a_colour_weighs_green_most_and_blue_least() {
    // Pale yellow is brighter than the cutoff although the mean of its
    // samples is not: it is background.
    let mut samples = uniform(100, 80, 255);
    paint(&mut samples, 100, 40, 30, 10, 10, [255, 255, 100]);
    let img = Image::new(100, 80, samples).unwrap();
    assert!(ImgProcUtils::crop_to_subject(&img).is_none());
    // Full yellow is just dark enough to be foreground.
    let mut samples = uniform(100, 80, 255);
    paint(&mut samples, 100, 40, 30, 10, 10, [255, 255, 0]);
    let img = Image::new(100, 80, samples).unwrap();
    let out = ImgProcUtils::crop_to_subject(&img).unwrap();
    assert_eq!((out.width(), out.height()), (10, 10));
}
