//! The string-literal grammar: plain characters, every escape sequence, and
//! the failure cases at the quotes.

use parsecomx::errors::{ParsingErrorKind, StrParsingErrorKind};
use parsecomx::parsers::str::{any_char, string_literal_parser};
use parsecomx::parsers::ParserInput;
use parsecomx::traits::Parser;

#[test]
fn any_char_reads_one_character() {
    let p = any_char();
    let (rest, output) = p.parse(ParserInput::new("xy")).unwrap();
    assert_eq!(output, 'x');
    assert_eq!(rest.data, "y");
    assert_eq!(rest.index, 1);
}

#[test]
fn any_char_fails_on_empty_input() {
    let p = any_char();
    let (rest, error) = p.parse(ParserInput::new("")).unwrap_err();
    assert_eq!(rest.data, "");
    assert_eq!(error.index, 0);
    match error.error {
        ParsingErrorKind::Custom(errs) => {
            assert!(matches!(errs.errors[0], StrParsingErrorKind::UnexpectedEnd));
        }
        _ => panic!("expected a concrete error"),
    }
}

#[test]
fn empty_string_literal() {
    let p = string_literal_parser();
    let (rest, output) = p.parse(ParserInput::new("\"\"rest")).unwrap();
    assert_eq!(output, "");
    assert_eq!(rest.data, "rest");
    assert_eq!(rest.index, 2);
}

#[test]
fn every_escape_sequence() {
    let p = string_literal_parser();
    let (rest, output) = p.parse(ParserInput::new("\"a\\nb\\tc\\rd\\\"e\"")).unwrap();
    assert_eq!(output, "a\nb\tc\rd\"e");
    assert_eq!(rest.data, "");
}

#[test]
fn unterminated_literal_fails() {
    let p = string_literal_parser();
    let result = p.parse(ParserInput::new("\"abc"));
    let (_, error) = result.unwrap_err();
    // The characters were consumed; the closing quote is missing at offset 4.
    assert_eq!(error.index, 4);
}

#[test]
fn missing_opening_quote_fails_at_start() {
    let p = string_literal_parser();
    let (rest, error) = p.parse(ParserInput::new("abc")).unwrap_err();
    assert_eq!(rest.data, "abc");
    assert_eq!(error.index, 0);
    match error.error {
        ParsingErrorKind::Custom(errs) => {
            assert!(matches!(
                errs.errors[0],
                StrParsingErrorKind::UnexpectedChar {
                    expected: '"',
                    found: 'a'
                }
            ));
        }
        _ => panic!("expected a concrete error"),
    }
}

#[test]
fn unknown_escape_stops_the_character_run() {
    // Backslash-z is no escape sequence: the character run ends at the failed
    // escape attempt (which committed the backslash), and the literal then
    // fails expecting the closing quote where 'z' stands.
    let p = string_literal_parser();
    let (_, error) = p.parse(ParserInput::new("\"a\\z\"")).unwrap_err();
    assert_eq!(error.index, 3);
}
