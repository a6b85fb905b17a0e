//! The raster routines that this library takes from the `image` and
//! `imageproc` crates. Each function here makes one such call on plain
//! buffers; its contract is taken on trust from the crate's source.
//!
//! A grey raster of `width` by `height` pixels is a buffer of
//! `width * height` samples, row by row from the top.

use vstd::prelude::*;
use crate::raster::{sample_count, valid_dimensions, MAX_PIXELS, MAX_SIDE};

verus! {

/// The grey raster that `image::DynamicImage::to_luma8` makes of an image
/// with four eight-bit samples per pixel.
pub uninterp spec fn luma8_of_rgba8(width: u32, height: u32, samples: Seq<u8>) -> Seq<u8>;

/// The raster that `imageproc::morphology::close` makes of a grey raster
/// under the Euclidean norm: dilated by `radius`, then eroded by it.
pub uninterp spec fn closed_mask(width: u32, height: u32, mask: Seq<u8>, radius: u8) -> Seq<u8>;

/// The borders that `imageproc::contours::find_contours_with_threshold`
/// finds in a grey raster, each as its points `(x, y)` in the order in
/// which the border was followed. Pixels brighter than `threshold` are
/// foreground.
pub uninterp spec fn border_contours(width: u32, height: u32, mask: Seq<u8>, threshold: u8) -> Seq<
    Seq<(u32, u32)>,
>;

/// The raster that `imageproc::contrast::equalize_histogram` makes of a
/// grey raster.
pub uninterp spec fn equalized_luma(width: u32, height: u32, luma: Seq<u8>) -> Seq<u8>;

/// A binary mask of a grey raster: black where the raster is brighter than
/// `cutoff`, white elsewhere.
pub open spec fn inverted_threshold(luma: Seq<u8>, cutoff: u8) -> Seq<u8> {
    Seq::new(
        luma.len(),
        |i: int|
            if luma[i] > cutoff {
                0u8
            } else {
                255u8
            },
    )
}

/// The grey value of a colour: its weighted sum in ten-thousandths,
/// rounded down.
pub open spec fn gray_value(r: u8, g: u8, b: u8) -> int {
    (2126 * r + 7152 * g + 722 * b) / 10000
}

/// The grey raster of an image with four samples per pixel, by
/// [`gray_value`]; alpha is left out.
pub open spec fn gray_of_rgba8(samples: Seq<u8>) -> Seq<u8> {
    Seq::new(
        samples.len() / 4,
        |i: int| gray_value(samples[4 * i], samples[4 * i + 1], samples[4 * i + 2]) as u8,
    )
}

/// Every contour has a point, and every point lies on a raster of `width`
/// by `height` pixels.
pub open spec fn contours_within(contours: Seq<Seq<(u32, u32)>>, width: u32, height: u32) -> bool {
    &&& forall|k: int| 0 <= k < contours.len() ==> (#[trigger] contours[k]).len() > 0
    &&& forall|k: int, i: int|
        0 <= k < contours.len() && 0 <= i < contours[k].len() ==> (#[trigger] contours[k][i]).0
            < width && contours[k][i].1 < height
}

/// The contours as mathematical sequences.
pub open spec fn contour_views(contours: Seq<Vec<(u32, u32)>>) -> Seq<Seq<(u32, u32)>> {
    Seq::new(contours.len(), |k: int| contours[k]@)
}

/// Calls `image::DynamicImage::to_luma8` on an image with four eight-bit
/// samples per pixel. The result is one grey sample per pixel; which grey
/// belongs to which colour is left to the crate and only named here.
#[verifier::external_body]
pub(crate) fn to_luma8(width: u32, height: u32, samples: &Vec<u8>) -> (luma: Vec<u8>)
    requires
        valid_dimensions(width, height),
        samples@.len() == sample_count(width, height),
    ensures
        luma@ == luma8_of_rgba8(width, height, samples@),
        luma@.len() == width * height,
{
    let rgba = image::RgbaImage::from_raw(width, height, samples.clone()).unwrap();
    image::DynamicImage::ImageRgba8(rgba).to_luma8().into_raw()
}

/// Calls `imageproc::contrast::threshold_mut` with the inverted binary
/// type: a sample brighter than `cutoff` becomes 0, every other sample 255.
#[verifier::external_body]
pub(crate) fn threshold_inverted(width: u32, height: u32, luma: Vec<u8>, cutoff: u8) -> (mask: Vec<
    u8,
>)
    requires
        luma@.len() == width * height,
    ensures
        mask@ == inverted_threshold(luma@, cutoff),
{
    let mut gray = image::GrayImage::from_raw(width, height, luma).unwrap();
    imageproc::contrast::threshold_mut(
        &mut gray,
        cutoff,
        imageproc::contrast::ThresholdType::BinaryInverted,
    );
    gray.into_raw()
}

/// Calls `imageproc::morphology::close` with the Euclidean norm. The result
/// has the dimensions of the mask; its samples are only named here.
#[verifier::external_body]
pub(crate) fn close_l2(width: u32, height: u32, mask: &Vec<u8>, radius: u8) -> (closed: Vec<u8>)
    requires
        mask@.len() == width * height,
    ensures
        closed@ == closed_mask(width, height, mask@, radius),
        closed@.len() == mask@.len(),
{
    let gray = image::GrayImage::from_raw(width, height, mask.clone()).unwrap();
    imageproc::morphology::close(&gray, imageproc::distance_transform::Norm::L2, radius).into_raw()
}

/// Calls `imageproc::contours::find_contours_with_threshold` and keeps the
/// points of each border. Which borders are found is only named here; the
/// crate's source shows that each border has at least one point and that
/// every point is a pixel of the raster. Sides above `MAX_SIDE` are left
/// out: the crate follows borders in 32-bit signed coordinates.
#[verifier::external_body]
pub(crate) fn find_contours(width: u32, height: u32, mask: &Vec<u8>, threshold: u8) -> (contours:
    Vec<Vec<(u32, u32)>>)
    requires
        width <= MAX_SIDE,
        height <= MAX_SIDE,
        mask@.len() == width * height,
    ensures
        contour_views(contours@) == border_contours(width, height, mask@, threshold),
        contours_within(contour_views(contours@), width, height),
{
    let gray = image::GrayImage::from_raw(width, height, mask.clone()).unwrap();
    imageproc::contours::find_contours_with_threshold::<u32>(&gray, threshold)
        .into_iter()
        .map(|c| c.points.into_iter().map(|p| (p.x, p.y)).collect())
        .collect()
}

/// Calls `image::imageops::grayscale` on an image with four eight-bit
/// samples per pixel: one grey sample per pixel, the weighted sum of red,
/// green and blue in ten-thousandths, rounded down.
#[verifier::external_body]
pub(crate) fn grayscale(width: u32, height: u32, samples: &Vec<u8>) -> (luma: Vec<u8>)
    requires
        valid_dimensions(width, height),
        samples@.len() == sample_count(width, height),
    ensures
        luma@ == gray_of_rgba8(samples@),
{
    let rgba = image::RgbaImage::from_raw(width, height, samples.clone()).unwrap();
    image::imageops::grayscale(&rgba).into_raw()
}

/// Calls `imageproc::contrast::equalize_histogram`. The result has the
/// dimensions of the raster; its samples are only named here. Rasters of
/// more than `MAX_PIXELS` pixels are left out: the crate counts pixels in
/// 32 bits.
#[verifier::external_body]
pub(crate) fn equalize_histogram(width: u32, height: u32, luma: &Vec<u8>) -> (out: Vec<u8>)
    requires
        width * height <= MAX_PIXELS,
        luma@.len() == width * height,
    ensures
        out@ == equalized_luma(width, height, luma@),
        out@.len() == luma@.len(),
{
    let gray = image::GrayImage::from_raw(width, height, luma.clone()).unwrap();
    imageproc::contrast::equalize_histogram(&gray).into_raw()
}

} // verus!
