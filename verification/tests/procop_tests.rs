use idcard_sheet::errors::ConfigError;
use idcard_sheet::procop::{parse_proc_op, ProcOp};

#[test]
fn crop_token() {
    assert_eq!(parse_proc_op("c2s"), Ok(ProcOp::Crop2Subject));
    assert_eq!(parse_proc_op("C2S"), Ok(ProcOp::Crop2Subject));
    assert_eq!(parse_proc_op("c2S"), Ok(ProcOp::Crop2Subject));
}

#[test]
fn contrast_token() {
    assert_eq!(parse_proc_op("contrast:40"), Ok(ProcOp::Contrast(40)));
    assert_eq!(parse_proc_op("contrast:30"), Ok(ProcOp::Contrast(30)));
    assert_eq!(parse_proc_op("Contrast:-12"), Ok(ProcOp::Contrast(-12)));
    assert_eq!(parse_proc_op("CONTRAST:+5"), Ok(ProcOp::Contrast(5)));
    assert_eq!(parse_proc_op("contrast:0"), Ok(ProcOp::Contrast(0)));
    assert_eq!(parse_proc_op("contrast:007"), Ok(ProcOp::Contrast(7)));
}

#[test]
fn brightness_token() {
    assert_eq!(parse_proc_op("brightness:-10"), Ok(ProcOp::Brightness(-10)));
    assert_eq!(parse_proc_op("BrightNess:200"), Ok(ProcOp::Brightness(200)));
}

#[test]
fn fraction_is_dropped() {
    assert_eq!(parse_proc_op("contrast:30.7"), Ok(ProcOp::Contrast(30)));
    assert_eq!(parse_proc_op("contrast:-30.7"), Ok(ProcOp::Contrast(-30)));
    assert_eq!(parse_proc_op("contrast:30."), Ok(ProcOp::Contrast(30)));
    assert_eq!(parse_proc_op("contrast:.5"), Ok(ProcOp::Contrast(0)));
    assert_eq!(parse_proc_op("contrast:-.5"), Ok(ProcOp::Contrast(0)));
    assert_eq!(parse_proc_op("contrast:127.999"), Ok(ProcOp::Contrast(127)));
}

#[test]
fn limits_of_the_ranges() {
    assert_eq!(parse_proc_op("contrast:127"), Ok(ProcOp::Contrast(127)));
    assert_eq!(parse_proc_op("contrast:-127"), Ok(ProcOp::Contrast(-127)));
    assert_eq!(parse_proc_op("contrast:128"), Err(ConfigError::OutOfRange));
    assert_eq!(parse_proc_op("contrast:-128"), Err(ConfigError::OutOfRange));
    assert_eq!(parse_proc_op("brightness:255"), Ok(ProcOp::Brightness(255)));
    assert_eq!(parse_proc_op("brightness:-255"), Ok(ProcOp::Brightness(-255)));
    assert_eq!(parse_proc_op("brightness:256"), Err(ConfigError::OutOfRange));
    assert_eq!(parse_proc_op("brightness:-256"), Err(ConfigError::OutOfRange));
}

#[test]
fn long_numbers_are_out_of_range() {
    assert_eq!(parse_proc_op("contrast:999999"), Err(ConfigError::OutOfRange));
    assert_eq!(parse_proc_op("contrast:1000000"), Err(ConfigError::OutOfRange));
    assert_eq!(parse_proc_op("contrast:1000001"), Err(ConfigError::OutOfRange));
    assert_eq!(
        parse_proc_op("brightness:99999999999999999999999999999999999999999999"),
        Err(ConfigError::OutOfRange)
    );
    assert_eq!(
        parse_proc_op("brightness:-4294967297"),
        Err(ConfigError::OutOfRange)
    );
    assert_eq!(
        parse_proc_op("brightness:0000000000000000000000000000000000000000012"),
        Ok(ProcOp::Brightness(12))
    );
}

#[test]
fn value_that_is_no_number_is_invalid() {
    for token in [
        "contrast:abc",
        "contrast:",
        "contrast:-",
        "contrast:+",
        "contrast:.",
        "contrast:-.",
        "contrast:1e2",
        "contrast:1.2.3",
        "contrast:5:6",
        "contrast: 5",
        "contrast:5 ",
        "contrast:--5",
        "contrast:0x10",
        "contrast:inf",
        "contrast:nan",
        "brightness:1,2",
        "brightness:٣",
    ] {
        assert_eq!(parse_proc_op(token), Err(ConfigError::InvalidValue), "{}", token);
    }
}

#[test]
fn missing_value_is_invalid() {
    assert_eq!(parse_proc_op("contrast"), Err(ConfigError::InvalidValue));
    assert_eq!(parse_proc_op("brightness"), Err(ConfigError::InvalidValue));
    assert_eq!(parse_proc_op("BRIGHTNESS"), Err(ConfigError::InvalidValue));
}

#[test]
fn other_names_are_unknown() {
    for token in [
        "",
        ":",
        ":5",
        "c2",
        "c2sx",
        "c2s:",
        "c2s:1",
        " c2s",
        "crop",
        "contrastx:5",
        "contras:5",
        "contrast :5",
        "brightnes:5",
        "sharpen:3",
        "ｃ2s",
    ] {
        assert_eq!(parse_proc_op(token), Err(ConfigError::UnknownOperation), "{}", token);
    }
}

#[test]
fn only_capital_letters_count_as_their_small_ones() {
    // '"' is 32 below 'B' as 'B' is 32 below 'b'.
    assert_eq!(parse_proc_op("\"rightness:5"), Err(ConfigError::UnknownOperation));
    // 0x12 is 32 below '2'.
    assert_eq!(parse_proc_op("c\u{12}s"), Err(ConfigError::UnknownOperation));
}

#[test]
fn validity_of_operations() {
    assert!(ProcOp::Crop2Subject.is_valid());
    assert!(ProcOp::Contrast(127).is_valid());
    assert!(ProcOp::Contrast(-127).is_valid());
    assert!(!ProcOp::Contrast(128).is_valid());
    assert!(!ProcOp::Contrast(i32::MIN).is_valid());
    assert!(ProcOp::Brightness(-255).is_valid());
    assert!(!ProcOp::Brightness(256).is_valid());
    assert!(!ProcOp::Brightness(i32::MAX).is_valid());
}
