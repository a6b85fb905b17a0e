//! The physical layout of a sheet: page, card, margins and spacing.

use vstd::prelude::*;
use crate::errors::ConfigError;

verus! {

/// Sizes and distances of a sheet, each in whole micrometres.
#[derive(Clone, Copy, Debug, PartialEq, Eq, Structural)]
pub struct PageMarginConfig {
    pub page_width: u32,
    pub page_height: u32,
    pub card_width: u32,
    pub card_height: u32,
    pub margin_top: u32,
    pub margin_left: u32,
    pub margin_bottom: u32,
    pub horizontal_spacing: u32,
    pub vertical_spacing: u32,
}

impl PageMarginConfig {
    /// Every length is positive.
    pub open spec fn lengths_positive(&self) -> bool {
        &&& self.page_width > 0
        &&& self.page_height > 0
        &&& self.card_width > 0
        &&& self.card_height > 0
        &&& self.margin_top > 0
        &&& self.margin_left > 0
        &&& self.margin_bottom > 0
        &&& self.horizontal_spacing > 0
        &&& self.vertical_spacing > 0
    }

    /// One card fits on an empty page: beside the left margin, and between
    /// the top and bottom margins.
    pub open spec fn card_fits(&self) -> bool {
        &&& self.card_width + self.margin_left <= self.page_width
        &&& self.card_height + self.margin_top + self.margin_bottom <= self.page_height
    }

    /// The layout is usable: positive lengths and a card that fits.
    pub open spec fn is_valid(&self) -> bool {
        self.lengths_positive() && self.card_fits()
    }

    /// The height of the lower edge of the first row of a fresh page.
    pub open spec fn top_row(&self) -> int {
        self.page_height - self.margin_top - self.card_height
    }

    /// Checks the layout. A zero length is reported first, then a card that
    /// does not fit.
    pub fn validate(&self) -> (res: Result<(), ConfigError>)
        ensures
            res is Ok <==> self.is_valid(),
            res == Err::<(), ConfigError>(ConfigError::NonPositiveLength)
                <==> !self.lengths_positive(),
            res == Err::<(), ConfigError>(ConfigError::CardDoesNotFit)
                <==> self.lengths_positive() && !self.card_fits(),
    {
        if self.page_width == 0 || self.page_height == 0 || self.card_width == 0
            || self.card_height == 0 || self.margin_top == 0 || self.margin_left == 0
            || self.margin_bottom == 0 || self.horizontal_spacing == 0
            || self.vertical_spacing == 0 {
            return Err(ConfigError::NonPositiveLength);
        }
        let wide: u64 = self.card_width as u64 + self.margin_left as u64;
        let tall: u64 = self.card_height as u64 + self.margin_top as u64
            + self.margin_bottom as u64;
        if wide > self.page_width as u64 || tall > self.page_height as u64 {
            return Err(ConfigError::CardDoesNotFit);
        }
        Ok(())
    }
}

impl Default for PageMarginConfig {
    /// An A4 page of 210 mm by 297 mm carrying CR80 cards of 85.6 mm by
    /// 54 mm, with margins of 10 mm, 18 mm between cards in a row and 10 mm
    /// between rows.
    fn default() -> (cfg: Self)
        ensures
            cfg == (PageMarginConfig {
                page_width: 210_000,
                page_height: 297_000,
                card_width: 85_600,
                card_height: 54_000,
                margin_top: 10_000,
                margin_left: 10_000,
                margin_bottom: 10_000,
                horizontal_spacing: 18_000,
                vertical_spacing: 10_000,
            }),
            cfg.is_valid(),
    {
        PageMarginConfig {
            page_width: 210_000,
            page_height: 297_000,
            card_width: 85_600,
            card_height: 54_000,
            margin_top: 10_000,
            margin_left: 10_000,
            margin_bottom: 10_000,
            horizontal_spacing: 18_000,
            vertical_spacing: 10_000,
        }
    }
}

} // verus!
