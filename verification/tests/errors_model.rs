//! The error model: merging, precedence of concrete errors over the generic
//! marker, and the tagged either-error helpers.

use parsecomx::errors::{
    EitherError, ParsingError, ParsingErrorKind, StrParsingErrorKind, StrParsingErrors,
};
use parsecomx::parsers::str::{string_parser, StringParser};
use parsecomx::parsers::ParserInput;
use parsecomx::traits::{Parser, ParserError};

#[test]
fn either_error_accessors() {
    let left: EitherError<u32, bool> = EitherError::LeftError(7);
    assert_eq!(left.first_error(), Some(7));
    let left2: EitherError<u32, bool> = EitherError::LeftError(7);
    assert_eq!(left2.second_error(), None);
    let right: EitherError<u32, bool> = EitherError::RightError(true);
    assert_eq!(right.second_error(), Some(true));
    let right2: EitherError<u32, bool> = EitherError::RightError(true);
    assert_eq!(right2.first_error(), None);
}

#[test]
fn str_errors_append_concatenates_in_order() {
    let a = StrParsingErrors::with_error_kind(StrParsingErrorKind::UnexpectedEnd);
    let b = StrParsingErrors::with_error_kind(StrParsingErrorKind::ExpectingDigit);
    let merged = a.append(b);
    assert_eq!(merged.errors.len(), 2);
    assert!(matches!(merged.errors[0], StrParsingErrorKind::UnexpectedEnd));
    assert!(matches!(merged.errors[1], StrParsingErrorKind::ExpectingDigit));
}

#[test]
fn concrete_error_beats_verify_marker() {
    let concrete: ParsingErrorKind<StrParsingErrors> = ParsingErrorKind::Custom(
        StrParsingErrors::with_error_kind(StrParsingErrorKind::NumberOverflow),
    );
    let merged = concrete.append(ParsingErrorKind::VerifyError);
    match merged {
        ParsingErrorKind::Custom(errs) => {
            assert_eq!(errs.errors.len(), 1);
            assert!(matches!(errs.errors[0], StrParsingErrorKind::NumberOverflow));
        }
        _ => panic!("the concrete error must survive the merge"),
    }

    let marker: ParsingErrorKind<StrParsingErrors> = ParsingErrorKind::VerifyError;
    let concrete2: ParsingErrorKind<StrParsingErrors> = ParsingErrorKind::Custom(
        StrParsingErrors::with_error_kind(StrParsingErrorKind::InvalidFloat),
    );
    let merged2 = marker.append(concrete2);
    match merged2 {
        ParsingErrorKind::Custom(errs) => {
            assert!(matches!(errs.errors[0], StrParsingErrorKind::InvalidFloat));
        }
        _ => panic!("the concrete error must survive the merge"),
    }
}

#[test]
fn positioned_error_merge_keeps_first_position() {
    let first: ParsingError<StrParsingErrors> = ParsingError {
        error: ParsingErrorKind::Custom(StrParsingErrors::with_error_kind(
            StrParsingErrorKind::UnexpectedEnd,
        )),
        index: 3,
    };
    let second: ParsingError<StrParsingErrors> = ParsingError {
        error: ParsingErrorKind::Custom(StrParsingErrors::with_error_kind(
            StrParsingErrorKind::ExpectingDigit,
        )),
        index: 9,
    };
    let merged = first.append(second);
    assert_eq!(merged.index, 3);
    match merged.error {
        ParsingErrorKind::Custom(errs) => assert_eq!(errs.errors.len(), 2),
        _ => panic!("expected a concrete error"),
    }
}

#[test]
fn string_parser_reports_expected_and_found() {
    let p: StringParser = string_parser(String::from("abc"));
    let (rest, error) = p.parse(ParserInput::new("abx!")).unwrap_err();
    assert_eq!(rest.data, "abx!");
    assert_eq!(error.index, 0);
    match error.error {
        ParsingErrorKind::Custom(errs) => match &errs.errors[0] {
            StrParsingErrorKind::UnexpectedString { expected, found } => {
                assert_eq!(expected, "abc");
                assert_eq!(found, "abx!");
            }
            _ => panic!("expected an UnexpectedString leaf"),
        },
        _ => panic!("expected a concrete error"),
    }
}

#[test]
fn string_parser_matches_prefix() {
    let p = string_parser(String::from("abc"));
    let (rest, output) = p.parse(ParserInput::new("abcdef")).unwrap();
    assert_eq!(output, "abc");
    assert_eq!(rest.data, "def");
    assert_eq!(rest.index, 3);
}

#[test]
fn error_set_is_not_empty() {
    let e = StrParsingErrors::with_error_kind(StrParsingErrorKind::UnexpectedEnd);
    assert_eq!(e.errors.len(), 1);
}

#[test]
fn error_pinned_to_index() {
    let e: ParsingError<StrParsingErrors> =
        ParsingError::at(ParsingErrorKind::VerifyError, 17);
    assert_eq!(e.index, 17);
    assert!(matches!(e.error, ParsingErrorKind::VerifyError));
}

#[test]
fn input_from_value_starts_at_zero() {
    let input: parsecomx::parsers::ParserInput<&str> = "abc".into();
    assert_eq!(input.data, "abc");
    assert_eq!(input.index, 0);
}
