//! The failures that the library reports to its caller.

use vstd::prelude::*;

verus! {

/// A fault in what the user configured: checked before any image is touched.
#[derive(Clone, Copy, Debug, PartialEq, Eq, Structural)]
pub enum ConfigError {
    /// The token names no known processing operation.
    UnknownOperation,
    /// The operation is known but its value is no decimal number.
    InvalidValue,
    /// The value lies outside the range of its operation.
    OutOfRange,
    /// A length of the page layout is zero.
    NonPositiveLength,
    /// A single card with its margins is larger than the page.
    CardDoesNotFit,
}

/// A fault in the data of an image that was handed to the library.
#[derive(Clone, Copy, Debug, PartialEq, Eq, Structural)]
pub enum DecodeError {
    /// The colour layout is none of those that a page can embed.
    UnsupportedFormat,
    /// The sample buffer is not exactly as long as the dimensions demand.
    BufferMismatch,
    /// The raster is larger than the raster routines can address.
    TooLarge,
}

impl ConfigError {
    /// The text shown to the user for this fault.
    pub fn message(&self) -> (text: String)
        ensures
            text@ == self.spec_message(),
    {
        match self {
            ConfigError::UnknownOperation => "Unknown color".to_string(),
            ConfigError::InvalidValue => "Invalid Value.".to_string(),
            ConfigError::OutOfRange => "Value out of range.".to_string(),
            ConfigError::NonPositiveLength => "Layout lengths must be positive.".to_string(),
            ConfigError::CardDoesNotFit => "Card does not fit on the page.".to_string(),
        }
    }

    /// The characters of [`ConfigError::message`].
    pub open spec fn spec_message(&self) -> Seq<char> {
        match self {
            ConfigError::UnknownOperation => "Unknown color"@,
            ConfigError::InvalidValue => "Invalid Value."@,
            ConfigError::OutOfRange => "Value out of range."@,
            ConfigError::NonPositiveLength => "Layout lengths must be positive."@,
            ConfigError::CardDoesNotFit => "Card does not fit on the page."@,
        }
    }
}

impl DecodeError {
    /// The text shown to the user for this fault.
    pub fn message(&self) -> (text: String)
        ensures
            text@ == self.spec_message(),
    {
        match self {
            DecodeError::UnsupportedFormat => "invalid raw image format".to_string(),
            DecodeError::BufferMismatch => "invalid pixel format".to_string(),
            DecodeError::TooLarge => "image too large".to_string(),
        }
    }

    /// The characters of [`DecodeError::message`].
    pub open spec fn spec_message(&self) -> Seq<char> {
        match self {
            DecodeError::UnsupportedFormat => "invalid raw image format"@,
            DecodeError::BufferMismatch => "invalid pixel format"@,
            DecodeError::TooLarge => "image too large"@,
        }
    }
}

} // verus!
