//! The numeric literal layer: exact values, radixes, overflow detection and
//! the float literal's error cases.

use parsecomx::errors::{ParsingErrorKind, StrParsingErrorKind};
use parsecomx::parsers::num::{float_parser, int_parser, number_str_parser, uint_parser};
use parsecomx::parsers::ParserInput;
use parsecomx::traits::Parser;

fn leaf_is_overflow(error: &ParsingErrorKind<parsecomx::errors::StrParsingErrors>) -> bool {
    match error {
        ParsingErrorKind::Custom(errs) => {
            matches!(errs.errors[0], StrParsingErrorKind::NumberOverflow)
        }
        _ => false,
    }
}

#[test]
fn decimal_u32() {
    let p = uint_parser::<u32>(10);
    let (rest, output) = p.parse(ParserInput::new("4294967295")).unwrap();
    assert_eq!(output, u32::MAX);
    assert_eq!(rest.data, "");
}

#[test]
fn hex_u32_lower_and_upper() {
    let p = uint_parser::<u32>(16);
    let (_, output) = p.parse(ParserInput::new("ff")).unwrap();
    assert_eq!(output, 255);
    let (_, output2) = p.parse(ParserInput::new("FF")).unwrap();
    assert_eq!(output2, 255);
}

#[test]
fn binary_u8() {
    let p = uint_parser::<u8>(2);
    let (rest, output) = p.parse(ParserInput::new("1012")).unwrap();
    assert_eq!(output, 5);
    assert_eq!(rest.data, "2");
}

#[test]
fn u8_overflow_boundary() {
    let p = uint_parser::<u8>(10);
    let (_, output) = p.parse(ParserInput::new("255")).unwrap();
    assert_eq!(output, 255);
    let (_, error) = p.parse(ParserInput::new("256")).unwrap_err();
    assert!(leaf_is_overflow(&error.error));
    assert_eq!(error.index, 0);
}

#[test]
fn i32_boundaries() {
    let p = int_parser::<i32>(10);
    let (_, output) = p.parse(ParserInput::new("-2147483648")).unwrap();
    assert_eq!(output, i32::MIN);
    let (_, output2) = p.parse(ParserInput::new("2147483647")).unwrap();
    assert_eq!(output2, i32::MAX);
    let (_, error) = p.parse(ParserInput::new("-2147483649")).unwrap_err();
    assert!(leaf_is_overflow(&error.error));
    let (_, error2) = p.parse(ParserInput::new("2147483648")).unwrap_err();
    assert!(leaf_is_overflow(&error2.error));
}

#[test]
fn i64_min_and_huge_magnitude() {
    let p = int_parser::<i64>(10);
    let (_, output) = p.parse(ParserInput::new("-9223372036854775808")).unwrap();
    assert_eq!(output, i64::MIN);
    let (_, error) = p
        .parse(ParserInput::new("340282366920938463463374607431768211456"))
        .unwrap_err();
    assert!(leaf_is_overflow(&error.error));
    assert_eq!(error.index, 0);
}

#[test]
fn number_str_carries_sign() {
    let p = number_str_parser(10, true);
    let (rest, output) = p.parse(ParserInput::new("37")).unwrap();
    assert_eq!(output, "-37");
    assert_eq!(rest.data, "");
}

#[test]
fn empty_input_reports_unexpected_end() {
    let p = uint_parser::<u32>(10);
    let (_, error) = p.parse(ParserInput::new("")).unwrap_err();
    assert_eq!(error.index, 0);
    match error.error {
        ParsingErrorKind::Custom(errs) => {
            assert!(matches!(errs.errors[0], StrParsingErrorKind::UnexpectedEnd));
        }
        _ => panic!("expected a concrete error"),
    }
}

#[test]
fn lone_minus_reports_expecting_digit() {
    let p = int_parser::<i32>(10);
    let (_, error) = p.parse(ParserInput::new("-")).unwrap_err();
    assert_eq!(error.index, 1);
    match error.error {
        ParsingErrorKind::Custom(errs) => {
            assert!(matches!(
                errs.errors[0],
                StrParsingErrorKind::UnexpectedEnd
            ));
        }
        _ => panic!("expected a concrete error"),
    }
}

#[test]
fn float_fraction_only() {
    let p = float_parser();
    let (rest, literal) = p.parse(ParserInput::new(".5")).unwrap();
    assert_eq!(literal, ".5");
    assert_eq!(rest.data, "");
    assert_eq!(literal.parse::<f32>().unwrap(), 0.5_f32);
}

#[test]
fn float_both_parts() {
    let p = float_parser();
    let (rest, literal) = p.parse(ParserInput::new("-3.25xyz")).unwrap();
    assert_eq!(literal, "-3.25");
    assert_eq!(rest.data, "xyz");
    assert_eq!(literal.parse::<f64>().unwrap(), -3.25_f64);
}

#[test]
fn float_with_neither_part_is_invalid() {
    let p = float_parser();
    let (rest, error) = p.parse(ParserInput::new("abc")).unwrap_err();
    assert_eq!(rest.data, "abc");
    assert_eq!(error.index, 0);
    match error.error {
        ParsingErrorKind::Custom(errs) => {
            assert!(matches!(errs.errors[0], StrParsingErrorKind::InvalidFloat));
        }
        _ => panic!("expected a concrete error"),
    }
}

#[test]
fn float_lone_dot_is_invalid() {
    let p = float_parser();
    let (rest, error) = p.parse(ParserInput::new(".")).unwrap_err();
    assert_eq!(rest.data, ".");
    assert_eq!(error.index, 0);
    match error.error {
        ParsingErrorKind::Custom(errs) => {
            assert!(matches!(errs.errors[0], StrParsingErrorKind::InvalidFloat));
        }
        _ => panic!("expected a concrete error"),
    }
}
