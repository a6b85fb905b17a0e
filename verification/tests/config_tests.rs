use idcard_sheet::configs::PageMarginConfig;
use idcard_sheet::errors::{ConfigError, DecodeError};

fn sample() -> PageMarginConfig {
    PageMarginConfig::default()
}

#[test]
fn default_is_a4_with_cr80_cards() {
    let cfg = PageMarginConfig::default();
    assert_eq!(cfg.page_width, 210_000);
    assert_eq!(cfg.page_height, 297_000);
    assert_eq!(cfg.card_width, 85_600);
    assert_eq!(cfg.card_height, 54_000);
    assert_eq!(cfg.margin_top, 10_000);
    assert_eq!(cfg.margin_left, 10_000);
    assert_eq!(cfg.margin_bottom, 10_000);
    assert_eq!(cfg.horizontal_spacing, 18_000);
    assert_eq!(cfg.vertical_spacing, 10_000);
}

#[test]
fn default_config_is_valid() {
    assert_eq!(sample().validate(), Ok(()));
}

#[test]
fn zero_length_is_refused() {
    let mut cfg = sample();
    cfg.horizontal_spacing = 0;
    assert_eq!(cfg.validate(), Err(ConfigError::NonPositiveLength));
    let mut cfg = sample();
    cfg.page_width = 0;
    assert_eq!(cfg.validate(), Err(ConfigError::NonPositiveLength));
}

#[test]
fn zero_length_is_reported_before_a_card_that_does_not_fit() {
    let mut cfg = sample();
    cfg.card_width = 500_000;
    cfg.margin_top = 0;
    assert_eq!(cfg.validate(), Err(ConfigError::NonPositiveLength));
}

#[test]
fn card_wider_than_page_is_refused() {
    let mut cfg = sample();
    cfg.card_width = 200_001;
    assert_eq!(cfg.validate(), Err(ConfigError::CardDoesNotFit));
}

#[test]
fn card_that_just_fits_beside_the_left_margin_is_accepted() {
    let mut cfg = sample();
    cfg.card_width = 200_000;
    assert_eq!(cfg.validate(), Ok(()));
}

#[test]
fn card_taller_than_page_between_margins_is_refused() {
    let mut cfg = sample();
    cfg.card_height = 277_001;
    assert_eq!(cfg.validate(), Err(ConfigError::CardDoesNotFit));
    cfg.card_height = 277_000;
    assert_eq!(cfg.validate(), Ok(()));
}

#[test]
fn largest_lengths_do_not_overflow() {
    let cfg = PageMarginConfig {
        page_width: u32::MAX,
        page_height: u32::MAX,
        card_width: u32::MAX,
        card_height: u32::MAX,
        margin_top: u32::MAX,
        margin_left: u32::MAX,
        margin_bottom: u32::MAX,
        horizontal_spacing: u32::MAX,
        vertical_spacing: u32::MAX,
    };
    assert_eq!(cfg.validate(), Err(ConfigError::CardDoesNotFit));
}

#[test]
fn config_error_messages() {
    assert_eq!(ConfigError::UnknownOperation.message(), "Unknown color");
    assert_eq!(ConfigError::InvalidValue.message(), "Invalid Value.");
    assert_eq!(ConfigError::OutOfRange.message(), "Value out of range.");
    assert_eq!(ConfigError::NonPositiveLength.message(), "Layout lengths must be positive.");
    assert_eq!(ConfigError::CardDoesNotFit.message(), "Card does not fit on the page.");
}

#[test]
fn decode_error_messages() {
    assert_eq!(DecodeError::UnsupportedFormat.message(), "invalid raw image format");
    assert_eq!(DecodeError::BufferMismatch.message(), "invalid pixel format");
    assert_eq!(DecodeError::TooLarge.message(), "image too large");
}
