//! The pixel buffer that the transforms work on: eight bits per sample,
//! four samples per pixel (red, green, blue, alpha), rows from the top,
//! pixels from the left, no padding.

use vstd::prelude::*;
use vstd::arithmetic::div_mod::{lemma_div_pos_is_pos, lemma_fundamental_div_mod};
use crate::errors::DecodeError;
use crate::format::PixelFormat;

verus! {

/// The largest width or height of an image.
pub const MAX_SIDE: u32 = 0x7fff_ffff;

/// The largest number of pixels of an image.
pub const MAX_PIXELS: u64 = 0xffff_ffff;

/// The dimensions are within what the raster routines can address.
pub open spec fn valid_dimensions(width: u32, height: u32) -> bool {
    width <= MAX_SIDE && height <= MAX_SIDE && width * height <= MAX_PIXELS
}

/// The number of samples of an image of the given dimensions.
pub open spec fn sample_count(width: u32, height: u32) -> int {
    width * height * 4
}

/// The position, in the sample buffer of an image `width` pixels wide, of
/// channel `c` of the pixel in column `x` of row `y`.
pub open spec fn sample_index(width: int, x: int, y: int, c: int) -> int {
    (y * width + x) * 4 + c
}

/// A decoded image. Its buffer is exactly as long as its dimensions demand.
#[derive(Debug)]
pub struct Image {
    width: u32,
    height: u32,
    samples: Vec<u8>,
}

impl View for Image {
    type V = Seq<u8>;

    /// The samples of the image.
    closed spec fn view(&self) -> Seq<u8> {
        self.samples@
    }
}

/// The rectangle that a crop really takes: the asked one cut down to what
/// lies inside an image of `iw` by `ih` pixels. Returned as left, top,
/// width, height.
pub open spec fn clipped_rect(iw: u32, ih: u32, x: u32, y: u32, width: u32, height: u32) -> (
    u32,
    u32,
    u32,
    u32,
) {
    let left = if x < iw { x } else { iw };
    let top = if y < ih { y } else { ih };
    let w = if width as int <= iw - left { width } else { (iw - left) as u32 };
    let h = if height as int <= ih - top { height } else { (ih - top) as u32 };
    (left, top, w, h)
}

/// An image as a mathematical value.
pub struct ImageModel {
    pub width: u32,
    pub height: u32,
    pub samples: Seq<u8>,
}

/// The samples of the rectangle of `w` by `h` pixels whose top left corner
/// is the pixel in column `left` of row `top` of an image `src_width`
/// pixels wide with the samples `src`.
pub open spec fn cropped_samples(
    src: Seq<u8>,
    src_width: int,
    left: int,
    top: int,
    w: int,
    h: int,
) -> Seq<u8> {
    Seq::new(
        (w * h * 4) as nat,
        |i: int| src[sample_index(src_width, left + (i / 4) % w, top + (i / 4) / w, i % 4)],
    )
}

/// `out` holds exactly the pixels of the rectangle of `src` that is `w`
/// wide and `h` high and has its top left corner in column `left` of row
/// `top`.
pub open spec fn is_crop_of(out: Image, src: Image, left: u32, top: u32, w: u32, h: u32) -> bool {
    &&& out.spec_width() == w
    &&& out.spec_height() == h
    &&& out.wf()
    &&& forall|q: int, r: int, c: int|
        0 <= q < w && 0 <= r < h && 0 <= c < 4 ==> #[trigger] out@[sample_index(w as int, q, r, c)]
            == src@[sample_index(src.spec_width() as int, left + q, top + r, c)]
}

impl Image {
    #[verifier::type_invariant]
    closed spec fn inv(&self) -> bool {
        &&& valid_dimensions(self.width, self.height)
        &&& self.samples@.len() == sample_count(self.width, self.height)
    }

    /// The width in pixels.
    pub closed spec fn spec_width(&self) -> u32 {
        self.width
    }

    /// The height in pixels.
    pub closed spec fn spec_height(&self) -> u32 {
        self.height
    }

    /// The dimensions are valid and the buffer matches them. Every image
    /// that exists at run time is well formed.
    pub open spec fn wf(&self) -> bool {
        &&& valid_dimensions(self.spec_width(), self.spec_height())
        &&& self@.len() == sample_count(self.spec_width(), self.spec_height())
    }

    /// The image as a mathematical value.
    pub open spec fn model(&self) -> ImageModel {
        ImageModel { width: self.spec_width(), height: self.spec_height(), samples: self@ }
    }

    /// Makes an image from its dimensions and its samples. Dimensions that
    /// are too large are reported first, then a buffer of the wrong length.
    pub fn new(width: u32, height: u32, samples: Vec<u8>) -> (res: Result<Image, DecodeError>)
        ensures
            res is Ok <==> valid_dimensions(width, height) && samples@.len() == sample_count(
                width,
                height,
            ),
            res matches Ok(img) ==> img.spec_width() == width && img.spec_height() == height
                && img@ == samples@ && img.wf(),
            res matches Err(e) ==> (e == DecodeError::TooLarge <==> !valid_dimensions(
                width,
                height,
            )) && (e == DecodeError::BufferMismatch <==> valid_dimensions(width, height)),
    {
        assert(width * height <= 0xffff_ffff * 0xffff_ffff) by (nonlinear_arith)
            requires
                0 <= width <= 0xffff_ffff,
                0 <= height <= 0xffff_ffff,
        ;
        let pixels: u64 = width as u64 * height as u64;
        if width > MAX_SIDE || height > MAX_SIDE || pixels > MAX_PIXELS {
            return Err(DecodeError::TooLarge);
        }
        if samples.len() as u64 != pixels * 4 {
            return Err(DecodeError::BufferMismatch);
        }
        Ok(Image { width, height, samples })
    }

    /// Makes an image from parts that are known to match.
    pub(crate) fn from_parts(width: u32, height: u32, samples: Vec<u8>) -> (img: Image)
        requires
            valid_dimensions(width, height),
            samples@.len() == sample_count(width, height),
        ensures
            img.spec_width() == width,
            img.spec_height() == height,
            img@ == samples@,
            img.wf(),
    {
        Image { width, height, samples }
    }

    /// The colour layout: red, green, blue and alpha of eight bits each.
    pub fn format(&self) -> (format: PixelFormat)
        ensures
            format == PixelFormat::Rgba8,
            self@.len() == crate::format::samples_of(
                self.spec_width() as nat,
                self.spec_height() as nat,
                format,
            ),
    {
        proof {
            use_type_invariant(self);
        }
        PixelFormat::Rgba8
    }

    /// The width in pixels.
    pub fn width(&self) -> (w: u32)
        ensures
            w == self.spec_width(),
            self.wf(),
    {
        proof {
            use_type_invariant(self);
        }
        self.width
    }

    /// The height in pixels.
    pub fn height(&self) -> (h: u32)
        ensures
            h == self.spec_height(),
            self.wf(),
    {
        proof {
            use_type_invariant(self);
        }
        self.height
    }

    /// The samples, row by row from the top.
    pub fn samples(&self) -> (s: &Vec<u8>)
        ensures
            s@ == self@,
            self.wf(),
    {
        proof {
            use_type_invariant(self);
        }
        &self.samples
    }

    /// Gives up the image for its samples.
    pub fn into_samples(self) -> (s: Vec<u8>)
        ensures
            s@ == self@,
            self.wf(),
    {
        proof {
            use_type_invariant(&self);
        }
        self.samples
    }

    /// A copy of the rectangle of `width` by `height` pixels whose top left
    /// corner is the pixel in column `x` of row `y`. What of the rectangle
    /// lies outside the image is left out.
    pub fn crop_imm(&self, x: u32, y: u32, width: u32, height: u32) -> (out: Image)
        ensures
            self.wf(),
            out.wf(),
            ({
                let (left, top, w, h) = clipped_rect(
                    self.spec_width(),
                    self.spec_height(),
                    x,
                    y,
                    width,
                    height,
                );
                is_crop_of(out, *self, left, top, w, h)
            }),
    {
        proof {
            use_type_invariant(self);
        }
        let left: u32 = if x < self.width { x } else { self.width };
        let top: u32 = if y < self.height { y } else { self.height };
        let w: u32 = if width <= self.width - left { width } else { self.width - left };
        let h: u32 = if height <= self.height - top { height } else { self.height - top };
        assert(w * h <= self.width * self.height) by (nonlinear_arith)
            requires
                0 <= w <= self.width,
                0 <= h <= self.height,
        ;
        let row_len: u64 = w as u64 * 4;
        let total: usize = self.samples.len();
        let mut samples: Vec<u8> = Vec::new();
        let mut r: u32 = 0;
        while r < h
            invariant
                r <= h,
                total == self.samples@.len(),
                left + w <= self.width,
                top + h <= self.height,
                row_len == w * 4,
                valid_dimensions(self.width, self.height),
                self.samples@.len() == sample_count(self.width, self.height),
                samples@.len() == r * w * 4,
                forall|q: int, rr: int, c: int|
                    0 <= q < w && 0 <= rr < r && 0 <= c < 4 ==> #[trigger] samples@[sample_index(
                        w as int,
                        q,
                        rr,
                        c,
                    )] == self.samples@[sample_index(self.width as int, left + q, top + rr, c)],
            decreases h - r,
        {
            proof {
                lemma_row_in_image(
                    self.width as int,
                    self.height as int,
                    (top + r) as int,
                    left as int,
                    w as int,
                );
                assert((r + 1) * w * 4 == r * w * 4 + w * 4) by (nonlinear_arith);
            }
            let base: u64 = ((top + r) as u64 * self.width as u64 + left as u64) * 4;
            let mut i: u64 = 0;
            while i < row_len
                invariant
                    i <= row_len,
                    r < h,
                    row_len == w * 4,
                    total == self.samples@.len(),
                    base == ((top + r) * self.width + left) * 4,
                    base + row_len <= self.samples@.len(),
                    samples@.len() == r * w * 4 + i,
                    forall|q: int, rr: int, c: int|
                        0 <= q < w && 0 <= rr < r && 0 <= c < 4
                            ==> #[trigger] samples@[sample_index(w as int, q, rr, c)]
                            == self.samples@[sample_index(
                            self.width as int,
                            left + q,
                            top + rr,
                            c,
                        )],
                    forall|k: int|
                        0 <= k < i ==> #[trigger] samples@[r * w * 4 + k] == self.samples@[base
                            + k],
                decreases row_len - i,
            {
                let ghost before = samples@;
                samples.push(self.samples[(base + i) as usize]);
                proof {
                    assert forall|q: int, rr: int, c: int|
                        0 <= q < w && 0 <= rr < r && 0 <= c < 4 implies #[trigger] samples@[sample_index(
                        w as int,
                        q,
                        rr,
                        c,
                    )] == self.samples@[sample_index(
                        self.width as int,
                        left + q,
                        top + rr,
                        c,
                    )] by {
                        lemma_sample_index_bound(w as int, r as int, q, rr, c);
                        assert(samples@[sample_index(w as int, q, rr, c)] == before[sample_index(
                            w as int,
                            q,
                            rr,
                            c,
                        )]);
                    }
                }
                i = i + 1;
            }
            proof {
                assert forall|q: int, rr: int, c: int|
                    0 <= q < w && 0 <= rr < r + 1 && 0 <= c < 4 implies #[trigger] samples@[sample_index(
                    w as int,
                    q,
                    rr,
                    c,
                )] == self.samples@[sample_index(
                    self.width as int,
                    left + q,
                    top + rr,
                    c,
                )] by {
                    if rr == r {
                        let k = q * 4 + c;
                        assert(sample_index(w as int, q, rr, c) == r * w * 4 + k)
                            by (nonlinear_arith)
                            requires
                                rr == r,
                                k == q * 4 + c,
                        ;
                        assert(sample_index(self.width as int, left + q, top + rr, c) == base + k)
                            by (nonlinear_arith)
                            requires
                                rr == r,
                                k == q * 4 + c,
                                base == ((top + r) * self.width + left) * 4,
                        ;
                        assert(samples@[r * w * 4 + k] == self.samples@[base + k]);
                    }
                }
            }
            r = r + 1;
        }
        assert(h * w * 4 == w * h * 4) by (nonlinear_arith);
        Image::from_parts(w, h, samples)
    }
}

/// The stretch of `w` pixels that starts in column `left` of row `row` lies
/// inside the buffer of an image of `width` by `height` pixels.
proof fn lemma_row_in_image(width: int, height: int, row: int, left: int, w: int)
    requires
        0 <= row < height,
        0 <= left,
        0 <= w,
        left + w <= width,
    ensures
        0 <= (row * width + left) * 4,
        (row * width + left) * 4 + w * 4 <= width * height * 4,
        row * width <= width * height,
{
    assert(row * width + width <= width * height) by (nonlinear_arith)
        requires
            0 <= row < height,
            0 <= width,
    ;
    assert(0 <= row * width) by (nonlinear_arith)
        requires
            0 <= row,
            0 <= width,
    ;
}

/// A sample of a row above row `rows` lies before the end of those rows.
proof fn lemma_sample_index_bound(width: int, rows: int, q: int, r: int, c: int)
    requires
        0 <= q < width,
        0 <= r < rows,
        0 <= c < 4,
    ensures
        0 <= sample_index(width, q, r, c) < rows * width * 4,
{
    assert((r * width + q) * 4 + c < rows * width * 4) by (nonlinear_arith)
        requires
            0 <= q < width,
            0 <= r < rows,
            0 <= c < 4,
    ;
    assert(0 <= (r * width + q) * 4 + c) by (nonlinear_arith)
        requires
            0 <= q < width,
            0 <= r < rows,
            0 <= c < 4,
    ;
}

/// A crop, sample by sample: the samples of `out` are those of the
/// rectangle, row by row.
pub proof fn lemma_crop_samples(out: Image, src: Image, left: u32, top: u32, w: u32, h: u32)
    requires
        is_crop_of(out, src, left, top, w, h),
    ensures
        out@ == cropped_samples(
            src@,
            src.spec_width() as int,
            left as int,
            top as int,
            w as int,
            h as int,
        ),
{
    let expected = cropped_samples(
        src@,
        src.spec_width() as int,
        left as int,
        top as int,
        w as int,
        h as int,
    );
    assert(out@.len() == w * h * 4);
    assert forall|i: int| 0 <= i < out@.len() implies out@[i] == expected[i] by {
        let p = i / 4;
        let c = i % 4;
        assert(0 <= p < w * h);
        assert(w > 0) by (nonlinear_arith)
            requires
                0 <= p < w * h,
                w >= 0,
        ;
        let q = p % (w as int);
        let r = p / (w as int);
        lemma_fundamental_div_mod(p, w as int);
        lemma_div_pos_is_pos(p, w as int);
        assert(r < h) by (nonlinear_arith)
            requires
                p == w * r + q,
                0 <= q,
                p < w * h,
                w > 0,
        ;
        assert(sample_index(w as int, q, r, c) == i) by (nonlinear_arith)
            requires
                p == w * r + q,
                i == 4 * p + c,
        ;
        assert(out@[sample_index(w as int, q, r, c)] == src@[sample_index(
            src.spec_width() as int,
            left + q,
            top + r,
            c,
        )]);
    }
    assert(out@ =~= expected);
}

} // verus!
