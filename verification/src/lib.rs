//! Printable sheets of identity-card images.
//!
//! A source image runs through an ordered list of pixel transforms and is
//! then tiled, a fixed number of copies per sheet, over pages of a fixed
//! physical size. This crate holds the transforms, the grid layout with its
//! row wrap and page overflow, and the draw instructions of each page.
//! Lengths are whole micrometres and resolutions are thousandths of a dot
//! per inch, so that every rule here is stated over integers.

pub mod configs;
pub mod errors;
pub mod format;
pub mod imgprocutils;
pub mod layout;
pub mod pdf_doc_util;
pub mod procop;
pub mod raster;
pub mod sheet;
pub mod tone;
pub mod vision;
