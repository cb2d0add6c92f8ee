use optionsbot::text::{parse_i32, parse_u16, parse_u32, IntParseError};
use std::num::IntErrorKind;

fn kind_of(e: &std::num::ParseIntError) -> IntParseError {
    match e.kind() {
        IntErrorKind::Empty => IntParseError::Empty,
        IntErrorKind::InvalidDigit => IntParseError::InvalidDigit,
        IntErrorKind::PosOverflow => IntParseError::PosOverflow,
        IntErrorKind::NegOverflow => IntParseError::NegOverflow,
        _ => panic!("unexpected kind"),
    }
}

#[test]
fn parse_i32_accepts_plain_and_signed_numbers() {
    assert_eq!(parse_i32("42"), Ok(42));
    assert_eq!(parse_i32("-7"), Ok(-7));
    assert_eq!(parse_i32("+5"), Ok(5));
    assert_eq!(parse_i32("007"), Ok(7));
    assert_eq!(parse_i32("2147483647"), Ok(i32::MAX));
    assert_eq!(parse_i32("-2147483648"), Ok(i32::MIN));
}

#[test]
fn parse_i32_reports_the_kind_of_error() {
    assert_eq!(parse_i32(""), Err(IntParseError::Empty));
    assert_eq!(parse_i32("-"), Err(IntParseError::InvalidDigit));
    assert_eq!(parse_i32("+"), Err(IntParseError::InvalidDigit));
    assert_eq!(parse_i32(" 1"), Err(IntParseError::InvalidDigit));
    assert_eq!(parse_i32("1a"), Err(IntParseError::InvalidDigit));
    assert_eq!(parse_i32("2147483648"), Err(IntParseError::PosOverflow));
    assert_eq!(parse_i32("-2147483649"), Err(IntParseError::NegOverflow));
    assert_eq!(parse_i32("+-1"), Err(IntParseError::InvalidDigit));
    assert_eq!(parse_i32("99999999999999999999"), Err(IntParseError::PosOverflow));
    assert_eq!(parse_i32("99999999999x"), Err(IntParseError::PosOverflow));
    assert_eq!(parse_i32("9x9999999999"), Err(IntParseError::InvalidDigit));
}

#[test]
fn parse_u32_refuses_minus_sign() {
    assert_eq!(parse_u32("-1"), Err(IntParseError::InvalidDigit));
    assert_eq!(parse_u32("-0"), Err(IntParseError::InvalidDigit));
    assert_eq!(parse_u32("4294967295"), Ok(u32::MAX));
    assert_eq!(parse_u32("4294967296"), Err(IntParseError::PosOverflow));
    assert_eq!(parse_u32("+12"), Ok(12));
}

#[test]
fn parse_u16_bounds() {
    assert_eq!(parse_u16("0"), Ok(0));
    assert_eq!(parse_u16("65535"), Ok(65535));
    assert_eq!(parse_u16("65536"), Err(IntParseError::PosOverflow));
    assert_eq!(parse_u16("1.5"), Err(IntParseError::InvalidDigit));
}

#[test]
fn parsers_agree_with_std() {
    let samples = [
        "", "0", "1", "-1", "+1", "+", "-", "12", "0012", "-0", "+0", "255", "65535", "65536",
        "2147483647", "2147483648", "-2147483648", "-2147483649", "4294967295", "4294967296",
        "1 ", " 1", "1_000", "\u{661}\u{662}", "12e3", "--1", "++1", "+-1", "99999999999x",
        "-99999999999x", "70000a", "0000000000000000000000000001",
    ];
    for s in samples.iter() {
        assert_eq!(parse_i32(s), s.parse::<i32>().map_err(|e| kind_of(&e)), "i32 on {:?}", s);
        assert_eq!(parse_u32(s), s.parse::<u32>().map_err(|e| kind_of(&e)), "u32 on {:?}", s);
        assert_eq!(parse_u16(s), s.parse::<u16>().map_err(|e| kind_of(&e)), "u16 on {:?}", s);
    }
}

#[test]
fn error_messages_are_std_texts() {
    for s in ["", "x", "70000", "-1"] {
        let std_err = s.parse::<u16>().unwrap_err();
        assert_eq!(parse_u16(s).unwrap_err().to_string(), std_err.to_string());
    }
    let std_err = "-2147483649".parse::<i32>().unwrap_err();
    assert_eq!(parse_i32("-2147483649").unwrap_err().to_string(), std_err.to_string());
}

#[test]
fn parse_reads_back_display() {
    for i in [-2147483648i32, -1000, -1, 0, 1, 9, 10, 2024, 2147483647] {
        assert_eq!(parse_i32(&format!("{}", i)), Ok(i));
    }
    for n in [0u16, 1, 99, 100, 65535] {
        assert_eq!(parse_u16(&format!("{}", n)), Ok(n));
    }
}
