//! The document in the making: the layout, the processing pipeline, the
//! images that were processed and the pages that were composed.

use vstd::prelude::*;
use vstd::arithmetic::div_mod::lemma_fundamental_div_mod;
use crate::configs::PageMarginConfig;
use crate::errors::ConfigError;
use crate::imgprocutils::{subject_rect_of, ImgProcUtils};
use crate::procop::ProcOp;
use crate::raster::{cropped_samples, lemma_crop_samples, Image, ImageModel};
use crate::sheet::{compose_sheet, is_sheet, Page};
use crate::tone::toned_samples;

verus! {

/// The number of copies of an image on its sheet.
pub const COPIES_PER_SHEET: u32 = 8;

/// The resolution, in thousandths of a dot per inch, at which an image of
/// `pixel_width` by `pixel_height` pixels covers a card of `width` by
/// `height` micrometres: the mean of the resolutions along the two axes,
/// rounded down.
///
/// An inch is 25 400 micrometres, so the resolution along an axis is
/// 25 400 times the pixels by the micrometres, and the mean of the two is
/// `12 700 * (pixel_width / width + pixel_height / height)`.
pub open spec fn avg_dpi(width: u32, height: u32, pixel_width: u32, pixel_height: u32) -> int {
    (12_700_000 * (pixel_width * height + pixel_height * width)) / (width * height)
}

/// The resolution, in thousandths of a dot per inch, at which an image of
/// `pixel_width` by `pixel_height` pixels covers a card of `width` by
/// `height` micrometres.
pub fn calc_dpi(width: u32, height: u32, pixel_width: u32, pixel_height: u32) -> (dpi: u64)
    requires
        width > 0,
        height > 0,
    ensures
        dpi == avg_dpi(width, height, pixel_width, pixel_height),
{
    proof {
        lemma_avg_dpi_bound(width, height, pixel_width, pixel_height);
    }
    let a: u128 = pixel_width as u128 * height as u128;
    let b: u128 = pixel_height as u128 * width as u128;
    let area: u128 = width as u128 * height as u128;
    let dpi: u128 = (12_700_000 * (a + b)) / area;
    dpi as u64
}

/// The resolution at which an image covers a card of `width` by `height`
/// micrometres, in thousandths of a dot per inch.
pub fn calc_avg_dpi(width: u32, height: u32, img: &Image) -> (dpi: u64)
    requires
        width > 0,
        height > 0,
    ensures
        dpi == avg_dpi(width, height, img.spec_width(), img.spec_height()),
{
    calc_dpi(width, height, img.width(), img.height())
}

proof fn lemma_avg_dpi_bound(width: u32, height: u32, pixel_width: u32, pixel_height: u32)
    requires
        width > 0,
        height > 0,
    ensures
        pixel_width * height <= 0xffff_ffff * 0xffff_ffff,
        pixel_height * width <= 0xffff_ffff * 0xffff_ffff,
        0 < width * height <= 0xffff_ffff * 0xffff_ffff,
        0 <= avg_dpi(width, height, pixel_width, pixel_height) <= 12_700_000 * (pixel_width
            + pixel_height),
{
    let a = pixel_width * height;
    let b = pixel_height * width;
    let area = width * height;
    assert(0 <= a <= 0xffff_ffff * 0xffff_ffff) by (nonlinear_arith)
        requires
            a == pixel_width * height,
            0 <= pixel_width <= 0xffff_ffff,
            0 <= height <= 0xffff_ffff,
    ;
    assert(0 <= b <= 0xffff_ffff * 0xffff_ffff) by (nonlinear_arith)
        requires
            b == pixel_height * width,
            0 <= pixel_height <= 0xffff_ffff,
            0 <= width <= 0xffff_ffff,
    ;
    assert(0 < area <= 0xffff_ffff * 0xffff_ffff) by (nonlinear_arith)
        requires
            area == width * height,
            0 < width <= 0xffff_ffff,
            0 < height <= 0xffff_ffff,
    ;
    let n = 12_700_000 * (a + b);
    let bound = 12_700_000 * (pixel_width + pixel_height);
    assert(n <= bound * area) by (nonlinear_arith)
        requires
            n == 12_700_000 * (a + b),
            bound == 12_700_000 * (pixel_width + pixel_height),
            a == pixel_width * height,
            b == pixel_height * width,
            area == width * height,
            width >= 1,
            height >= 1,
            pixel_width >= 0,
            pixel_height >= 0,
    ;
    assert(0 <= n / area <= bound) by (nonlinear_arith)
        requires
            0 <= n <= bound * area,
            area > 0,
    ;
}

/// The resolution along one axis, in thousandths of a dot per inch and
/// rounded down, at which `pixels` pixels cover `length` micrometres.
pub open spec fn axis_dpi(pixels: u32, length: u32) -> int {
    (25_400_000 * pixels) / (length as int)
}

/// The resolution of an image on a card is the mean of its resolutions
/// along the two axes: twice the one differs from the sum of the others by
/// at most one thousandth of a dot per inch, which is what rounding down
/// can take away.
pub proof fn lemma_avg_dpi_is_the_mean(width: u32, height: u32, pixel_width: u32, pixel_height: u32)
    requires
        width > 0,
        height > 0,
    ensures
        axis_dpi(pixel_width, width) + axis_dpi(pixel_height, height) - 1 <= 2 * avg_dpi(
            width,
            height,
            pixel_width,
            pixel_height,
        ) <= axis_dpi(pixel_width, width) + axis_dpi(pixel_height, height) + 1,
{
    let a = 25_400_000 * pixel_width;
    let b = 25_400_000 * pixel_height;
    let w = width as int;
    let h = height as int;
    let d = w * h;
    let n = 12_700_000 * (pixel_width * height + pixel_height * width);
    let fx = a / w;
    let fy = b / h;
    let avg = n / d;
    assert(d > 0) by (nonlinear_arith)
        requires
            d == w * h,
            w > 0,
            h > 0,
    ;
    assert(avg == avg_dpi(width, height, pixel_width, pixel_height));
    lemma_fundamental_div_mod(a, w);
    lemma_fundamental_div_mod(b, h);
    lemma_fundamental_div_mod(n, d);
    assert(2 * n == a * h + b * w) by (nonlinear_arith)
        requires
            n == 12_700_000 * (pixel_width * height + pixel_height * width),
            a == 25_400_000 * pixel_width,
            b == 25_400_000 * pixel_height,
            w == width,
            h == height,
    ;
    assert((fx + fy) * d <= 2 * n && 2 * n < (fx + fy + 2) * d) by (nonlinear_arith)
        requires
            2 * n == a * h + b * w,
            a == w * fx + a % w,
            b == h * fy + b % h,
            0 <= a % w < w,
            0 <= b % h < h,
            d == w * h,
            w > 0,
            h > 0,
    ;
    assert(2 * avg * d <= 2 * n && 2 * n < (2 * avg + 2) * d) by (nonlinear_arith)
        requires
            n == d * avg + n % d,
            0 <= n % d < d,
    ;
    assert(2 * avg < fx + fy + 2) by (nonlinear_arith)
        requires
            2 * avg * d <= 2 * n,
            2 * n < (fx + fy + 2) * d,
            d > 0,
    ;
    assert(fx + fy < 2 * avg + 2) by (nonlinear_arith)
        requires
            (fx + fy) * d <= 2 * n,
            2 * n < (2 * avg + 2) * d,
            d > 0,
    ;
}

/// The image after one processing operation. A crop that finds no subject
/// leaves the image as it is.
pub open spec fn apply_op(op: ProcOp, m: ImageModel) -> ImageModel {
    match op {
        ProcOp::Crop2Subject => match subject_rect_of(m.width, m.height, m.samples) {
            Some(rect) => ImageModel {
                width: rect.width,
                height: rect.height,
                samples: cropped_samples(
                    m.samples,
                    m.width as int,
                    rect.left as int,
                    rect.top as int,
                    rect.width as int,
                    rect.height as int,
                ),
            },
            None => m,
        },
        ProcOp::Contrast(c) => ImageModel {
            width: m.width,
            height: m.height,
            samples: toned_samples(m.samples, 0, c as int),
        },
        ProcOp::Brightness(b) => ImageModel {
            width: m.width,
            height: m.height,
            samples: toned_samples(m.samples, b as int, 0),
        },
    }
}

/// The image after the operations of a pipeline, each applied to the
/// result of the one before it.
pub open spec fn run_pipeline(ops: Seq<ProcOp>, m: ImageModel) -> ImageModel
    decreases ops.len(),
{
    if ops.len() == 0 {
        m
    } else {
        apply_op(ops.last(), run_pipeline(ops.drop_last(), m))
    }
}

/// Every operation of the list has an amount within its range.
pub open spec fn all_valid(ops: Seq<ProcOp>) -> bool {
    forall|i: int| 0 <= i < ops.len() ==> (#[trigger] ops[i]).wf()
}

/// Applies one processing operation to an image.
pub fn apply_proc_op(op: ProcOp, image: Image) -> (out: Image)
    requires
        op.wf(),
    ensures
        out.wf(),
        out.model() == apply_op(op, image.model()),
{
    match op {
        ProcOp::Crop2Subject => {
            match ImgProcUtils::crop_to_subject(&image) {
                Some(out) => {
                    proof {
                        let rect = subject_rect_of(
                            image.spec_width(),
                            image.spec_height(),
                            image@,
                        ).unwrap();
                        lemma_crop_samples(
                            out,
                            image,
                            rect.left,
                            rect.top,
                            rect.width,
                            rect.height,
                        );
                    }
                    out
                },
                None => image,
            }
        },
        ProcOp::Contrast(c) => ImgProcUtils::apply_brightness_contrast(&image, 0, c),
        ProcOp::Brightness(b) => ImgProcUtils::apply_brightness_contrast(&image, b, 0),
    }
}

/// A document in the making.
pub struct PdfDocUtil {
    cfg: PageMarginConfig,
    image_processors: Vec<ProcOp>,
    images: Vec<Image>,
    pages: Vec<Page>,
}

impl PdfDocUtil {
    /// The layout of the document's pages.
    pub closed spec fn spec_cfg(&self) -> PageMarginConfig {
        self.cfg
    }

    /// The processing pipeline, in the order of registration.
    pub closed spec fn spec_processors(&self) -> Seq<ProcOp> {
        self.image_processors@
    }

    /// The processed images, in the order in which they were added.
    pub closed spec fn spec_images(&self) -> Seq<Image> {
        self.images@
    }

    /// The pages, in the order in which they were added.
    pub closed spec fn spec_pages(&self) -> Seq<Page> {
        self.pages@
    }

    /// The layout is usable and every operation of the pipeline has an
    /// amount within its range. A new document is well formed and every
    /// method keeps it so.
    pub open spec fn wf(&self) -> bool {
        self.spec_cfg().is_valid() && all_valid(self.spec_processors())
    }

    /// Starts an empty document with the given layout, if the layout is
    /// usable.
    pub fn new(cfg: PageMarginConfig) -> (res: Result<PdfDocUtil, ConfigError>)
        ensures
            res is Ok <==> cfg.is_valid(),
            res matches Ok(doc) ==> doc.wf() && doc.spec_cfg() == cfg
                && doc.spec_processors().len() == 0 && doc.spec_images().len() == 0
                && doc.spec_pages().len() == 0,
            res matches Err(e) ==> (e == ConfigError::NonPositiveLength
                <==> !cfg.lengths_positive()) && (e == ConfigError::CardDoesNotFit
                <==> cfg.lengths_positive()),
    {
        match cfg.validate() {
            Ok(()) => Ok(
                PdfDocUtil {
                    cfg,
                    image_processors: Vec::new(),
                    images: Vec::new(),
                    pages: Vec::new(),
                },
            ),
            Err(e) => Err(e),
        }
    }

    /// Appends an operation to the processing pipeline. An operation whose
    /// amount is out of range is refused and the pipeline stays as it is.
    pub fn register_image_processor(&mut self, op: ProcOp) -> (res: Result<(), ConfigError>)
        requires
            old(self).wf(),
        ensures
            final(self).wf(),
            final(self).spec_cfg() == old(self).spec_cfg(),
            final(self).spec_images() == old(self).spec_images(),
            final(self).spec_pages() == old(self).spec_pages(),
            op.wf() ==> res is Ok && final(self).spec_processors() == old(self).spec_processors().push(op),
            !op.wf() ==> res == Err::<(), ConfigError>(ConfigError::OutOfRange) && final(self).spec_processors() == old(self).spec_processors(),
    {
        if op.is_valid() {
            self.image_processors.push(op);
            Ok(())
        } else {
            Err(ConfigError::OutOfRange)
        }
    }

    /// Appends one page to the document.
    pub fn add_page_to_document(&mut self, page: Page)
        requires
            old(self).wf(),
        ensures
            final(self).wf(),
            final(self).spec_cfg() == old(self).spec_cfg(),
            final(self).spec_processors() == old(self).spec_processors(),
            final(self).spec_images() == old(self).spec_images(),
            final(self).spec_pages() == old(self).spec_pages().push(page),
    {
        self.pages.push(page);
    }

    /// Runs an image through the processing pipeline: every operation in
    /// the order of registration, each on the result of the one before.
    pub fn process_image(&self, image: Image) -> (out: Image)
        requires
            self.wf(),
        ensures
            out.wf(),
            out.model() == run_pipeline(self.spec_processors(), image.model()),
    {
        let ghost start = image.model();
        let width: u32 = image.width();
        let mut current = image;
        let mut i: usize = 0;
        assert(self.image_processors@.take(0) =~= Seq::<ProcOp>::empty());
        while i < self.image_processors.len()
            invariant
                i <= self.image_processors.len(),
                all_valid(self.image_processors@),
                current.wf(),
                start == image.model(),
                current.model() == run_pipeline(
                    self.image_processors@.take(i as int),
                    image.model(),
                ),
            decreases self.image_processors.len() - i,
        {
            let op = self.image_processors[i];
            proof {
                let next = self.image_processors@.take(i + 1);
                assert(next.drop_last() =~= self.image_processors@.take(i as int));
                assert(next.last() == op);
            }
            current = apply_proc_op(op, current);
            i = i + 1;
        }
        assert(self.image_processors@.take(i as int) =~= self.image_processors@);
        current
    }

    /// Adds the sheet of one image to the document: the image goes through
    /// the processing pipeline, is stored as the next image of the
    /// document, and its copies are laid out on new pages at the
    /// resolution at which it covers a card. The caption, if any, is
    /// written on the last of these pages.
    pub fn add_card_side(&mut self, image: Image, text: Option<String>)
        requires
            old(self).wf(),
        ensures
            final(self).wf(),
            final(self).spec_cfg() == old(self).spec_cfg(),
            final(self).spec_processors() == old(self).spec_processors(),
            final(self).spec_images().len() == old(self).spec_images().len() + 1,
            final(self).spec_images().drop_last() == old(self).spec_images(),
            final(self).spec_images().last().model() == run_pipeline(
                old(self).spec_processors(),
                image.model(),
            ),
            final(self).spec_pages().len() > old(self).spec_pages().len(),
            final(self).spec_pages().take(old(self).spec_pages().len() as int) == old(self).spec_pages(),
            is_sheet(
                final(self).spec_pages().skip(old(self).spec_pages().len() as int),
                old(self).spec_cfg(),
                COPIES_PER_SHEET as nat,
                avg_dpi(
                    old(self).spec_cfg().card_width,
                    old(self).spec_cfg().card_height,
                    final(self).spec_images().last().spec_width(),
                    final(self).spec_images().last().spec_height(),
                ) as u64,
                old(self).spec_images().len() as usize,
                text,
            ),
    {
        let processed = self.process_image(image);
        let dpi = calc_avg_dpi(self.cfg.card_width, self.cfg.card_height, &processed);
        let image_id = self.images.len();
        let mut sheet = compose_sheet(&self.cfg, COPIES_PER_SHEET, dpi, image_id, text);
        let ghost sheet_pages = sheet@;
        let ghost old_pages = self.pages@;
        let ghost old_images = self.images@;
        self.images.push(processed);
        self.pages.append(&mut sheet);
        proof {
            assert(self.images@.drop_last() =~= old_images);
            assert(self.pages@.take(old_pages.len() as int) =~= old_pages);
            assert(self.pages@.skip(old_pages.len() as int) =~= sheet_pages);
        }
    }

    /// The layout of the document's pages.
    pub fn cfg(&self) -> (cfg: &PageMarginConfig)
        ensures
            *cfg == self.spec_cfg(),
    {
        &self.cfg
    }

    /// The processing pipeline, in the order of registration.
    pub fn image_processors(&self) -> (ops: &Vec<ProcOp>)
        ensures
            ops@ == self.spec_processors(),
    {
        &self.image_processors
    }

    /// The processed images, in the order in which they were added.
    pub fn images(&self) -> (images: &Vec<Image>)
        ensures
            images@ == self.spec_images(),
    {
        &self.images
    }

    /// The pages, in the order in which they were added.
    pub fn pages(&self) -> (pages: &Vec<Page>)
        ensures
            pages@ == self.spec_pages(),
    {
        &self.pages
    }
}

} // verus!
