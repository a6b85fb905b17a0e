//! The pixel transforms: crop to the subject, tone curve, histogram
//! enhancement.

use vstd::prelude::*;
use crate::raster::{is_crop_of, Image};
use crate::tone::{brightness_in_range, contrast_in_range, tone_sample, toned_samples};
use crate::vision::{
    border_contours, close_l2, closed_mask, contour_views, equalize_histogram, equalized_luma,
    find_contours, gray_of_rgba8, grayscale, inverted_threshold, luma8_of_rgba8,
    threshold_inverted, to_luma8,
};

verus! {

/// Pixels brighter than this are background.
pub const BACKGROUND_CUTOFF: u8 = 240;

/// The radius by which the foreground mask is closed.
pub const CLOSING_RADIUS: u8 = 11;

/// Mask samples of at least this value are foreground when borders are
/// followed.
pub const CONTOUR_THRESHOLD: u8 = 1;

/// A rectangle of pixels: its top left corner and its size.
#[derive(Clone, Copy, Debug, PartialEq, Eq, Structural)]
pub struct Rect {
    pub left: u32,
    pub top: u32,
    pub width: u32,
    pub height: u32,
}

impl Rect {
    /// The number of pixels in the rectangle.
    pub open spec fn area(&self) -> int {
        self.width * self.height
    }

    /// The rectangle is not empty and lies on a raster of `width` by
    /// `height` pixels.
    pub open spec fn inside(&self, width: u32, height: u32) -> bool {
        &&& self.width >= 1
        &&& self.height >= 1
        &&& self.left + self.width <= width
        &&& self.top + self.height <= height
    }
}

/// The smallest `x` among the points; the largest number of its type if
/// there is none.
pub open spec fn min_x(points: Seq<(u32, u32)>) -> u32
    decreases points.len(),
{
    if points.len() == 0 {
        u32::MAX
    } else {
        let rest = min_x(points.drop_last());
        if points.last().0 < rest {
            points.last().0
        } else {
            rest
        }
    }
}

/// The largest `x` among the points; 0 if there is none.
pub open spec fn max_x(points: Seq<(u32, u32)>) -> u32
    decreases points.len(),
{
    if points.len() == 0 {
        0
    } else {
        let rest = max_x(points.drop_last());
        if points.last().0 > rest {
            points.last().0
        } else {
            rest
        }
    }
}

/// The smallest `y` among the points; the largest number of its type if
/// there is none.
pub open spec fn min_y(points: Seq<(u32, u32)>) -> u32
    decreases points.len(),
{
    if points.len() == 0 {
        u32::MAX
    } else {
        let rest = min_y(points.drop_last());
        if points.last().1 < rest {
            points.last().1
        } else {
            rest
        }
    }
}

/// The largest `y` among the points; 0 if there is none.
pub open spec fn max_y(points: Seq<(u32, u32)>) -> u32
    decreases points.len(),
{
    if points.len() == 0 {
        0
    } else {
        let rest = max_y(points.drop_last());
        if points.last().1 > rest {
            points.last().1
        } else {
            rest
        }
    }
}

/// The points can be bounded: there is one, and none has the largest
/// coordinate of its type, so that the size of the bound is a number of
/// that type too.
pub open spec fn boundable(points: Seq<(u32, u32)>) -> bool {
    &&& points.len() > 0
    &&& forall|i: int|
        0 <= i < points.len() ==> (#[trigger] points[i]).0 < u32::MAX && points[i].1 < u32::MAX
}

/// The bounding rectangle of the points: from the smallest to the largest
/// coordinate, both counted in.
pub open spec fn bounding_rect(points: Seq<(u32, u32)>) -> Rect {
    Rect {
        left: min_x(points),
        top: min_y(points),
        width: (max_x(points) - min_x(points) + 1) as u32,
        height: (max_y(points) - min_y(points) + 1) as u32,
    }
}

/// The bounding rectangle of each contour.
pub open spec fn bounding_rects(contours: Seq<Seq<(u32, u32)>>) -> Seq<Rect> {
    Seq::new(contours.len(), |k: int| bounding_rect(contours[k]))
}

/// The rectangle of the largest area; of several such the first. None if
/// there is no rectangle.
pub open spec fn largest_rect(rects: Seq<Rect>) -> Option<Rect>
    decreases rects.len(),
{
    if rects.len() == 0 {
        None
    } else {
        match largest_rect(rects.drop_last()) {
            None => Some(rects.last()),
            Some(best) => if rects.last().area() > best.area() {
                Some(rects.last())
            } else {
                Some(best)
            },
        }
    }
}

/// The mask has a foreground sample.
pub open spec fn has_foreground(mask: Seq<u8>) -> bool {
    exists|i: int| 0 <= i < mask.len() && #[trigger] mask[i] != 0
}

/// The foreground mask of an image: white where its grey raster is no
/// brighter than the background cutoff.
pub open spec fn subject_mask(width: u32, height: u32, samples: Seq<u8>) -> Seq<u8> {
    inverted_threshold(luma8_of_rgba8(width, height, samples), BACKGROUND_CUTOFF)
}

/// The borders of the foreground regions of an image, after its mask was
/// closed.
pub open spec fn subject_contours(width: u32, height: u32, samples: Seq<u8>) -> Seq<
    Seq<(u32, u32)>,
> {
    border_contours(
        width,
        height,
        closed_mask(width, height, subject_mask(width, height, samples), CLOSING_RADIUS),
        CONTOUR_THRESHOLD,
    )
}

/// The rectangle that holds the subject of an image: the largest bounding
/// rectangle of a border of its foreground. None if the image has no
/// foreground or no border is found.
pub open spec fn subject_rect_of(width: u32, height: u32, samples: Seq<u8>) -> Option<Rect> {
    if has_foreground(subject_mask(width, height, samples)) {
        largest_rect(bounding_rects(subject_contours(width, height, samples)))
    } else {
        None
    }
}

/// A colour sample scaled by a grey sample taken as a fraction of 255,
/// rounded to the nearest whole number.
pub open spec fn scaled_by_luma(sample: u8, luma: u8) -> int {
    (2 * sample * luma + 255) / 510
}

/// The samples of an image whose colours are scaled, pixel by pixel, by a
/// grey raster, and whose alpha is made opaque.
pub open spec fn scaled_samples(samples: Seq<u8>, luma: Seq<u8>) -> Seq<u8> {
    Seq::new(
        samples.len(),
        |i: int|
            if i % 4 == 3 {
                255u8
            } else {
                scaled_by_luma(samples[i], luma[i / 4]) as u8
            },
    )
}

/// The transforms of the processing pipeline.
pub struct ImgProcUtils {}

impl ImgProcUtils {
    /// The bounding rectangle of a list of points.
    pub fn bounding_rect_from_points(points: &Vec<(u32, u32)>) -> (rect: Rect)
        requires
            boundable(points@),
        ensures
            rect == bounding_rect(points@),
    {
        let mut lo_x: u32 = u32::MAX;
        let mut hi_x: u32 = 0;
        let mut lo_y: u32 = u32::MAX;
        let mut hi_y: u32 = 0;
        let mut i: usize = 0;
        while i < points.len()
            invariant
                i <= points.len(),
                boundable(points@),
                lo_x == min_x(points@.take(i as int)),
                hi_x == max_x(points@.take(i as int)),
                lo_y == min_y(points@.take(i as int)),
                hi_y == max_y(points@.take(i as int)),
                i > 0 ==> lo_x <= hi_x && lo_y <= hi_y,
                hi_x < u32::MAX,
                hi_y < u32::MAX,
            decreases points.len() - i,
        {
            let (x, y) = points[i];
            proof {
                assert(points@.take(i + 1).drop_last() =~= points@.take(i as int));
                assert(points@.take(i + 1).last() == points@[i as int]);
            }
            if x < lo_x {
                lo_x = x;
            }
            if x > hi_x {
                hi_x = x;
            }
            if y < lo_y {
                lo_y = y;
            }
            if y > hi_y {
                hi_y = y;
            }
            i = i + 1;
        }
        proof {
            assert(points@.take(points.len() as int) =~= points@);
        }
        Rect { left: lo_x, top: lo_y, width: hi_x - lo_x + 1, height: hi_y - lo_y + 1 }
    }

    /// The bounding rectangle of the largest area among those of the
    /// contours; of several such that of the first contour. None if there
    /// is no contour.
    pub fn subject_rect(contours: &Vec<Vec<(u32, u32)>>) -> (res: Option<Rect>)
        requires
            forall|k: int| 0 <= k < contours.len() ==> boundable(#[trigger] contours[k]@),
        ensures
            res == largest_rect(bounding_rects(contour_views(contours@))),
    {
        let ghost rects = bounding_rects(contour_views(contours@));
        let mut best: Option<Rect> = None;
        let mut best_area: u64 = 0;
        let mut k: usize = 0;
        while k < contours.len()
            invariant
                k <= contours.len(),
                rects == bounding_rects(contour_views(contours@)),
                forall|j: int| 0 <= j < contours.len() ==> boundable(#[trigger] contours[j]@),
                best == largest_rect(rects.take(k as int)),
                best matches Some(b) ==> best_area == b.area(),
            decreases contours.len() - k,
        {
            let rect = Self::bounding_rect_from_points(&contours[k]);
            proof {
                assert(rects.take(k + 1).drop_last() =~= rects.take(k as int));
                assert(rects.take(k + 1).last() == rects[k as int]);
                assert(rects[k as int] == rect);
                assert(rect.width * rect.height <= 0xffff_ffff * 0xffff_ffff) by (nonlinear_arith)
                    requires
                        0 <= rect.width <= 0xffff_ffff,
                        0 <= rect.height <= 0xffff_ffff,
                ;
            }
            let area: u64 = rect.width as u64 * rect.height as u64;
            match best {
                None => {
                    best = Some(rect);
                    best_area = area;
                },
                Some(_) => {
                    if area > best_area {
                        best = Some(rect);
                        best_area = area;
                    }
                },
            }
            k = k + 1;
        }
        proof {
            assert(rects.take(contours.len() as int) =~= rects);
        }
        best
    }

    /// Crops the image to its subject by removing a near-white background.
    ///
    /// The image is turned to grey and thresholded at the background
    /// cutoff, inverted, so that what is no brighter than the cutoff is
    /// foreground. The mask is closed, the borders of its regions are
    /// followed, and the image is cropped to the largest bounding rectangle
    /// of a border. An image without foreground has no subject, and
    /// neither has one in which no border is found.
    pub fn crop_to_subject(input: &Image) -> (res: Option<Image>)
        ensures
            input.wf(),
            res is Some <==> subject_rect_of(input.spec_width(), input.spec_height(), input@)
                is Some,
            res is Some <==> has_foreground(
                subject_mask(input.spec_width(), input.spec_height(), input@),
            ) && subject_contours(input.spec_width(), input.spec_height(), input@).len() > 0,
            res matches Some(out) ==> ({
                let rect = subject_rect_of(
                    input.spec_width(),
                    input.spec_height(),
                    input@,
                ).unwrap();
                &&& rect.inside(input.spec_width(), input.spec_height())
                &&& is_crop_of(out, *input, rect.left, rect.top, rect.width, rect.height)
            }),
            (forall|i: int|
                0 <= i < input.spec_width() * input.spec_height() ==> #[trigger] luma8_of_rgba8(
                    input.spec_width(),
                    input.spec_height(),
                    input@,
                )[i] > BACKGROUND_CUTOFF) ==> res is None,
    {
        let width = input.width();
        let height = input.height();
        let luma = to_luma8(width, height, input.samples());
        let mask = threshold_inverted(width, height, luma, BACKGROUND_CUTOFF);
        if !any_foreground(&mask) {
            return None;
        }
        proof {
            let i = choose|i: int| 0 <= i < mask@.len() && #[trigger] mask@[i] != 0;
            assert(luma8_of_rgba8(width, height, input@)[i] <= BACKGROUND_CUTOFF);
        }
        let closed = close_l2(width, height, &mask, CLOSING_RADIUS);
        let contours = find_contours(width, height, &closed, CONTOUR_THRESHOLD);
        proof {
            let views = contour_views(contours@);
            assert forall|k: int| 0 <= k < contours.len() implies boundable(
                #[trigger] contours[k]@,
            ) by {
                assert(views[k] == contours[k]@);
                assert forall|i: int| 0 <= i < contours[k]@.len() implies (
                #[trigger] contours[k]@[i]).0 < u32::MAX && contours[k]@[i].1 < u32::MAX by {
                    assert(views[k][i] == contours[k]@[i]);
                }
            }
        }
        proof {
            lemma_largest_rect_is_one_of(bounding_rects(contour_views(contours@)));
        }
        match Self::subject_rect(&contours) {
            None => None,
            Some(rect) => {
                proof {
                    let k = choose|k: int|
                        0 <= k < contours.len() && bounding_rects(contour_views(contours@))[k]
                            == rect;
                    lemma_bounding_rect_inside(contour_views(contours@)[k], width, height);
                }
                Some(input.crop_imm(rect.left, rect.top, rect.width, rect.height))
            },
        }
    }

    /// Adjusts brightness and contrast: every colour sample goes through
    /// the tone curve, brightness first and contrast second; alpha is kept.
    /// The result has the dimensions of the input.
    pub fn apply_brightness_contrast(input: &Image, brightness: i32, contrast: i32) -> (out: Image)
        requires
            brightness_in_range(brightness as int),
            contrast_in_range(contrast as int),
        ensures
            out.wf(),
            out.spec_width() == input.spec_width(),
            out.spec_height() == input.spec_height(),
            out@ == toned_samples(input@, brightness as int, contrast as int),
    {
        let samples = input.samples();
        let width = input.width();
        let height = input.height();
        let mut toned_buf: Vec<u8> = Vec::new();
        let mut i: usize = 0;
        while i < samples.len()
            invariant
                i <= samples.len(),
                brightness_in_range(brightness as int),
                contrast_in_range(contrast as int),
                toned_buf@.len() == i,
                forall|j: int|
                    0 <= j < i ==> #[trigger] toned_buf@[j] == toned_samples(
                        samples@,
                        brightness as int,
                        contrast as int,
                    )[j],
            decreases samples.len() - i,
        {
            let value = samples[i];
            if i % 4 == 3 {
                toned_buf.push(value);
            } else {
                toned_buf.push(tone_sample(value, brightness, contrast));
            }
            i = i + 1;
        }
        assert(toned_buf@ =~= toned_samples(input@, brightness as int, contrast as int));
        Image::from_parts(width, height, toned_buf)
    }

    /// Scales the colours of an image, pixel by pixel, by a grey raster of
    /// the same dimensions and makes every pixel opaque.
    pub fn scale_by_luma(input: &Image, luma: &Vec<u8>) -> (out: Image)
        requires
            luma@.len() == input.spec_width() * input.spec_height(),
        ensures
            out.wf(),
            out.spec_width() == input.spec_width(),
            out.spec_height() == input.spec_height(),
            out@ == scaled_samples(input@, luma@),
    {
        let samples = input.samples();
        let width = input.width();
        let height = input.height();
        let mut scaled: Vec<u8> = Vec::new();
        let mut i: usize = 0;
        while i < samples.len()
            invariant
                i <= samples.len(),
                samples@.len() == luma@.len() * 4,
                scaled@.len() == i,
                forall|j: int|
                    0 <= j < i ==> #[trigger] scaled@[j] == scaled_samples(samples@, luma@)[j],
            decreases samples.len() - i,
        {
            if i % 4 == 3 {
                scaled.push(255);
            } else {
                let c: u32 = samples[i] as u32;
                let l: u32 = luma[i / 4] as u32;
                assert(2 * c * l + 255 <= 130305) by (nonlinear_arith)
                    requires
                        0 <= c <= 255,
                        0 <= l <= 255,
                ;
                let v: u32 = (2 * c * l + 255) / 510;
                scaled.push(v as u8);
            }
            i = i + 1;
        }
        assert(scaled@ =~= scaled_samples(input@, luma@));
        Image::from_parts(width, height, scaled)
    }

    /// Enhances the image by equalizing the histogram of its grey raster
    /// and scaling each colour by the equalized grey of its pixel. Hue is
    /// kept; alpha becomes opaque.
    pub fn enhance_image(input: &Image) -> (out: Image)
        ensures
            out.wf(),
            out.spec_width() == input.spec_width(),
            out.spec_height() == input.spec_height(),
            out@ == scaled_samples(
                input@,
                equalized_luma(input.spec_width(), input.spec_height(), gray_of_rgba8(input@)),
            ),
    {
        let width = input.width();
        let height = input.height();
        let gray = grayscale(width, height, input.samples());
        let equalized = equalize_histogram(width, height, &gray);
        Self::scale_by_luma(input, &equalized)
    }
}

/// Tells whether a mask has a foreground sample.
fn any_foreground(mask: &Vec<u8>) -> (found: bool)
    ensures
        found == has_foreground(mask@),
{
    let mut i: usize = 0;
    while i < mask.len()
        invariant
            i <= mask.len(),
            forall|j: int| 0 <= j < i ==> #[trigger] mask@[j] == 0,
        decreases mask.len() - i,
    {
        if mask[i] != 0 {
            return true;
        }
        i = i + 1;
    }
    false
}

/// The bounds of a rectangle are coordinates of its points: none lies
/// outside, and each side is touched.
pub proof fn lemma_bounding_rect_is_tight(points: Seq<(u32, u32)>)
    requires
        points.len() > 0,
    ensures
        forall|i: int|
            0 <= i < points.len() ==> min_x(points) <= (#[trigger] points[i]).0 <= max_x(points)
                && min_y(points) <= points[i].1 <= max_y(points),
        exists|i: int| 0 <= i < points.len() && (#[trigger] points[i]).0 == min_x(points),
        exists|i: int| 0 <= i < points.len() && (#[trigger] points[i]).0 == max_x(points),
        exists|i: int| 0 <= i < points.len() && (#[trigger] points[i]).1 == min_y(points),
        exists|i: int| 0 <= i < points.len() && (#[trigger] points[i]).1 == max_y(points),
    decreases points.len(),
{
    let rest = points.drop_last();
    let n = points.len() - 1;
    if rest.len() > 0 {
        lemma_bounding_rect_is_tight(rest);
        assert forall|i: int| 0 <= i < points.len() implies min_x(points) <= (
        #[trigger] points[i]).0 <= max_x(points) && min_y(points) <= points[i].1 <= max_y(
            points,
        ) by {
            if i < n {
                assert(rest[i] == points[i]);
            }
        }
        let a = choose|i: int| 0 <= i < rest.len() && (#[trigger] rest[i]).0 == min_x(rest);
        let b = choose|i: int| 0 <= i < rest.len() && (#[trigger] rest[i]).0 == max_x(rest);
        let c = choose|i: int| 0 <= i < rest.len() && (#[trigger] rest[i]).1 == min_y(rest);
        let d = choose|i: int| 0 <= i < rest.len() && (#[trigger] rest[i]).1 == max_y(rest);
        assert(rest[a] == points[a] && rest[b] == points[b] && rest[c] == points[c] && rest[d]
            == points[d]);
        assert(points[if points[n].0 < min_x(rest) { n } else { a }].0 == min_x(points));
        assert(points[if points[n].0 > max_x(rest) { n } else { b }].0 == max_x(points));
        assert(points[if points[n].1 < min_y(rest) { n } else { c }].1 == min_y(points));
        assert(points[if points[n].1 > max_y(rest) { n } else { d }].1 == max_y(points));
    } else {
        assert(min_x(rest) == u32::MAX && max_x(rest) == 0);
        assert(min_y(rest) == u32::MAX && max_y(rest) == 0);
        assert(points.last() == points[0]);
        assert(points[0].0 == min_x(points) && points[0].0 == max_x(points));
        assert(points[0].1 == min_y(points) && points[0].1 == max_y(points));
    }
}

/// The bounding rectangle of points on a raster is not empty and lies on
/// the raster.
pub proof fn lemma_bounding_rect_inside(points: Seq<(u32, u32)>, width: u32, height: u32)
    requires
        points.len() > 0,
        forall|i: int|
            0 <= i < points.len() ==> (#[trigger] points[i]).0 < width && points[i].1 < height,
    ensures
        bounding_rect(points).inside(width, height),
{
    lemma_bounding_rect_is_tight(points);
    let b = choose|i: int| 0 <= i < points.len() && (#[trigger] points[i]).0 == max_x(points);
    let d = choose|i: int| 0 <= i < points.len() && (#[trigger] points[i]).1 == max_y(points);
    let a = choose|i: int| 0 <= i < points.len() && (#[trigger] points[i]).0 == min_x(points);
    let c = choose|i: int| 0 <= i < points.len() && (#[trigger] points[i]).1 == min_y(points);
    assert(points[a].0 <= max_x(points) && points[c].1 <= max_y(points));
    assert(points[b].0 < width && points[d].1 < height);
}

/// The largest rectangle is one of the rectangles, wherever there is one.
pub proof fn lemma_largest_rect_is_one_of(rects: Seq<Rect>)
    ensures
        largest_rect(rects) is Some <==> rects.len() > 0,
        largest_rect(rects) matches Some(best) ==> exists|k: int|
            0 <= k < rects.len() && #[trigger] rects[k] == best,
    decreases rects.len(),
{
    if rects.len() > 0 {
        let rest = rects.drop_last();
        lemma_largest_rect_is_one_of(rest);
        let last = rects.len() - 1;
        match largest_rect(rest) {
            None => {
                assert(rects[last] == largest_rect(rects).unwrap());
            },
            Some(best) => {
                let k = choose|k: int| 0 <= k < rest.len() && #[trigger] rest[k] == best;
                assert(rects[k] == best);
                assert(rects[if rects[last].area() > best.area() { last } else { k }]
                    == largest_rect(rects).unwrap());
            },
        }
    }
}

/// No rectangle is larger than the largest, and none before it is as
/// large: of several rectangles of the largest area the first is taken.
pub proof fn lemma_largest_rect_is_first_largest(rects: Seq<Rect>)
    requires
        rects.len() > 0,
    ensures
        largest_rect(rects) is Some,
        forall|i: int|
            0 <= i < rects.len() ==> (#[trigger] rects[i]).area() <= largest_rect(
                rects,
            ).unwrap().area(),
        exists|k: int|
            0 <= k < rects.len() && #[trigger] rects[k] == largest_rect(rects).unwrap() && forall|
                i: int,
            |
                0 <= i < k ==> (#[trigger] rects[i]).area() < rects[k].area(),
    decreases rects.len(),
{
    let rest = rects.drop_last();
    let last = rects.len() - 1;
    if rest.len() > 0 {
        lemma_largest_rect_is_first_largest(rest);
        let best = largest_rect(rest).unwrap();
        let k0 = choose|k: int|
            0 <= k < rest.len() && #[trigger] rest[k] == best && forall|i: int|
                0 <= i < k ==> (#[trigger] rest[i]).area() < rest[k].area();
        assert forall|i: int| 0 <= i < rects.len() implies (#[trigger] rects[i]).area()
            <= largest_rect(rects).unwrap().area() by {
            if i < last {
                assert(rest[i] == rects[i]);
            }
        }
        let k = if rects[last].area() > best.area() { last } else { k0 };
        assert(rects[k0] == rest[k0]);
        assert(rects[k] == largest_rect(rects).unwrap());
        assert forall|i: int| 0 <= i < k implies (#[trigger] rects[i]).area() < rects[k].area() by {
            assert(rest[i] == rects[i]);
        }
    } else {
        assert(rects[0] == largest_rect(rects).unwrap());
    }
}

} // verus!
