use idcard_sheet::errors::DecodeError;
use idcard_sheet::format::PixelFormat;
use idcard_sheet::raster::{Image, MAX_PIXELS, MAX_SIDE};

fn numbered(width: u32, height: u32) -> Image {
    let mut samples = Vec::new();
    for y in 0..height {
        for x in 0..width {
            samples.push(x as u8);
            samples.push(y as u8);
            samples.push((x + y) as u8);
            samples.push(255);
        }
    }
    Image::new(width, height, samples).unwrap()
}

#[test]
fn buffer_must_match_the_dimensions() {
    assert!(Image::new(2, 2, vec![0; 16]).is_ok());
    assert_eq!(Image::new(2, 2, vec![0; 15]).unwrap_err(), DecodeError::BufferMismatch);
    assert_eq!(Image::new(2, 2, vec![0; 17]).unwrap_err(), DecodeError::BufferMismatch);
    assert_eq!(Image::new(0, 5, vec![0; 4]).unwrap_err(), DecodeError::BufferMismatch);
    assert!(Image::new(0, 5, Vec::new()).is_ok());
}

#[test]
fn dimensions_have_limits() {
    assert_eq!(MAX_SIDE, 0x7fff_ffff);
    assert_eq!(MAX_PIXELS, 0xffff_ffff);
    assert_eq!(Image::new(0x8000_0000, 0, Vec::new()).unwrap_err(), DecodeError::TooLarge);
    assert_eq!(Image::new(0, 0x8000_0000, Vec::new()).unwrap_err(), DecodeError::TooLarge);
    assert_eq!(Image::new(0x1_0000, 0x1_0000, Vec::new()).unwrap_err(), DecodeError::TooLarge);
    assert_eq!(
        Image::new(0x1_0000, 0xffff, Vec::new()).unwrap_err(),
        DecodeError::BufferMismatch
    );
}

#[test]
fn accessors_give_back_what_went_in() {
    let samples: Vec<u8> = (0..24).collect();
    let img = Image::new(3, 2, samples.clone()).unwrap();
    assert_eq!(img.width(), 3);
    assert_eq!(img.height(), 2);
    assert_eq!(img.samples(), &samples);
    assert_eq!(img.format(), PixelFormat::Rgba8);
    assert_eq!(img.format().channel_count(), 4);
    assert_eq!(img.into_samples(), samples);
}

#[test]
fn crop_copies_the_rectangle() {
    let img = numbered(5, 4);
    let out = img.crop_imm(1, 2, 3, 2);
    assert_eq!(out.width(), 3);
    assert_eq!(out.height(), 2);
    assert_eq!(
        out.samples(),
        &vec![
            1, 2, 3, 255, 2, 2, 4, 255, 3, 2, 5, 255, //
            1, 3, 4, 255, 2, 3, 5, 255, 3, 3, 6, 255,
        ]
    );
}

#[test]
fn crop_of_everything_is_the_image() {
    let img = numbered(5, 4);
    let out = img.crop_imm(0, 0, 5, 4);
    assert_eq!(out.samples(), img.samples());
}

#[test]
fn crop_is_cut_down_to_the_image() {
    let img = numbered(5, 4);
    let out = img.crop_imm(3, 3, 10, 10);
    assert_eq!(out.width(), 2);
    assert_eq!(out.height(), 1);
    assert_eq!(out.samples(), &vec![3, 3, 6, 255, 4, 3, 7, 255]);
    let out = img.crop_imm(7, 9, 2, 2);
    assert_eq!(out.width(), 0);
    assert_eq!(out.height(), 0);
    assert!(out.samples().is_empty());
    let out = img.crop_imm(u32::MAX, 0, u32::MAX, u32::MAX);
    assert_eq!(out.width(), 0);
    assert_eq!(out.height(), 4);
}
