//! The colour layouts that a page can embed, and the length of the sample
//! buffer that each of them demands.

use vstd::prelude::*;
use crate::errors::DecodeError;

verus! {

/// The colour layout of a decoded bitmap, as its decoder names it.
#[derive(Clone, Copy, Debug, PartialEq, Eq, Structural)]
pub enum ColorKind {
    L8,
    La8,
    Rgb8,
    Rgba8,
    L16,
    La16,
    Rgb16,
    Rgba16,
    Rgb32F,
    Rgba32F,
    /// A layout that has no place in a page, such as a palette.
    Other,
}

/// The colour layout of an image that a page embeds.
#[derive(Clone, Copy, Debug, PartialEq, Eq, Structural)]
pub enum PixelFormat {
    Gray8,
    GrayAlpha8,
    Rgb8,
    Rgba8,
    Gray16,
    GrayAlpha16,
    Rgb16,
    Rgba16,
    RgbF32,
    RgbaF32,
}

impl PixelFormat {
    /// The number of samples of one pixel.
    pub open spec fn spec_channel_count(&self) -> nat {
        match self {
            PixelFormat::Gray8 | PixelFormat::Gray16 => 1,
            PixelFormat::GrayAlpha8 | PixelFormat::GrayAlpha16 => 2,
            PixelFormat::Rgb8 | PixelFormat::Rgb16 | PixelFormat::RgbF32 => 3,
            PixelFormat::Rgba8 | PixelFormat::Rgba16 | PixelFormat::RgbaF32 => 4,
        }
    }

    /// The number of bytes of one sample.
    pub open spec fn spec_sample_size(&self) -> nat {
        match self {
            PixelFormat::Gray8
            | PixelFormat::GrayAlpha8
            | PixelFormat::Rgb8
            | PixelFormat::Rgba8 => 1,
            PixelFormat::Gray16
            | PixelFormat::GrayAlpha16
            | PixelFormat::Rgb16
            | PixelFormat::Rgba16 => 2,
            PixelFormat::RgbF32 | PixelFormat::RgbaF32 => 4,
        }
    }

    /// The number of samples of one pixel.
    pub fn channel_count(&self) -> (n: usize)
        ensures
            n == self.spec_channel_count(),
    {
        match self {
            PixelFormat::Gray8 | PixelFormat::Gray16 => 1,
            PixelFormat::GrayAlpha8 | PixelFormat::GrayAlpha16 => 2,
            PixelFormat::Rgb8 | PixelFormat::Rgb16 | PixelFormat::RgbF32 => 3,
            PixelFormat::Rgba8 | PixelFormat::Rgba16 | PixelFormat::RgbaF32 => 4,
        }
    }

    /// The number of bytes of one sample.
    pub fn sample_size(&self) -> (n: usize)
        ensures
            n == self.spec_sample_size(),
    {
        match self {
            PixelFormat::Gray8
            | PixelFormat::GrayAlpha8
            | PixelFormat::Rgb8
            | PixelFormat::Rgba8 => 1,
            PixelFormat::Gray16
            | PixelFormat::GrayAlpha16
            | PixelFormat::Rgb16
            | PixelFormat::Rgba16 => 2,
            PixelFormat::RgbF32 | PixelFormat::RgbaF32 => 4,
        }
    }
}

/// The layout in which a bitmap of the given kind is embedded; none for a
/// kind that has no place in a page.
pub open spec fn format_of(kind: ColorKind) -> Option<PixelFormat> {
    match kind {
        ColorKind::L8 => Some(PixelFormat::Gray8),
        ColorKind::La8 => Some(PixelFormat::GrayAlpha8),
        ColorKind::Rgb8 => Some(PixelFormat::Rgb8),
        ColorKind::Rgba8 => Some(PixelFormat::Rgba8),
        ColorKind::L16 => Some(PixelFormat::Gray16),
        ColorKind::La16 => Some(PixelFormat::GrayAlpha16),
        ColorKind::Rgb16 => Some(PixelFormat::Rgb16),
        ColorKind::Rgba16 => Some(PixelFormat::Rgba16),
        ColorKind::Rgb32F => Some(PixelFormat::RgbF32),
        ColorKind::Rgba32F => Some(PixelFormat::RgbaF32),
        ColorKind::Other => None,
    }
}

/// The number of samples of an image of the given dimensions and layout.
pub open spec fn samples_of(width: nat, height: nat, format: PixelFormat) -> nat {
    width * height * format.spec_channel_count()
}

/// The layout in which a bitmap of the given kind is embedded.
pub fn raw_format(kind: ColorKind) -> (res: Result<PixelFormat, DecodeError>)
    ensures
        match format_of(kind) {
            Some(format) => res == Ok::<PixelFormat, DecodeError>(format),
            None => res == Err::<PixelFormat, DecodeError>(DecodeError::UnsupportedFormat),
        },
{
    match kind {
        ColorKind::L8 => Ok(PixelFormat::Gray8),
        ColorKind::La8 => Ok(PixelFormat::GrayAlpha8),
        ColorKind::Rgb8 => Ok(PixelFormat::Rgb8),
        ColorKind::Rgba8 => Ok(PixelFormat::Rgba8),
        ColorKind::L16 => Ok(PixelFormat::Gray16),
        ColorKind::La16 => Ok(PixelFormat::GrayAlpha16),
        ColorKind::Rgb16 => Ok(PixelFormat::Rgb16),
        ColorKind::Rgba16 => Ok(PixelFormat::Rgba16),
        ColorKind::Rgb32F => Ok(PixelFormat::RgbF32),
        ColorKind::Rgba32F => Ok(PixelFormat::RgbaF32),
        ColorKind::Other => Err(DecodeError::UnsupportedFormat),
    }
}

/// Checks that a buffer of `samples` samples is exactly what an image of
/// the given dimensions and layout demands: no sample missing, none left
/// over, no partial row.
pub fn check_buffer(width: usize, height: usize, format: PixelFormat, samples: usize) -> (res:
    Result<(), DecodeError>)
    ensures
        res is Ok <==> samples == samples_of(width as nat, height as nat, format),
        res is Err ==> res == Err::<(), DecodeError>(DecodeError::BufferMismatch),
{
    let per_row = match width.checked_mul(format.channel_count()) {
        Some(n) => n,
        None => {
            proof {
                lemma_product_grows(
                    width as int * format.spec_channel_count() as int,
                    height as int,
                    samples as int,
                    width as int,
                    format.spec_channel_count() as int,
                );
            }
            return if height == 0 && samples == 0 {
                Ok(())
            } else {
                Err(DecodeError::BufferMismatch)
            };
        },
    };
    match per_row.checked_mul(height) {
        Some(n) => {
            assert(n == samples_of(width as nat, height as nat, format)) by (nonlinear_arith)
                requires
                    n == per_row * height,
                    per_row == width * format.spec_channel_count(),
            ;
            if n == samples {
                Ok(())
            } else {
                Err(DecodeError::BufferMismatch)
            }
        },
        None => {
            assert(samples != samples_of(width as nat, height as nat, format))
                by (nonlinear_arith)
                requires
                    per_row * height > usize::MAX,
                    samples <= usize::MAX,
                    per_row == width * format.spec_channel_count(),
            ;
            Err(DecodeError::BufferMismatch)
        },
    }
}

/// A row that is longer than every buffer makes an image that is longer
/// than every buffer, unless the image has no row.
proof fn lemma_product_grows(row: int, height: int, samples: int, width: int, channels: int)
    requires
        row == width * channels,
        row > usize::MAX,
        0 <= height,
        0 <= samples <= usize::MAX,
        0 <= width,
        0 <= channels,
    ensures
        height == 0 ==> width * height * channels == 0,
        height > 0 ==> width * height * channels > samples,
{
    if height == 0 {
        assert(width * height * channels == 0) by (nonlinear_arith)
            requires
                height == 0,
        ;
    } else {
        assert(width * height * channels >= row) by (nonlinear_arith)
            requires
                row == width * channels,
                height >= 1,
                row >= 0,
        ;
    }
}

} // verus!
