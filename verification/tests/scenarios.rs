//! End-to-end scenarios: grammars assembled from the public surface and run
//! against concrete inputs.

use parsecomx::parsers::num::{float_parser, int_parser, uint_parser};
use parsecomx::parsers::str::{char_parser, string_literal_parser, whitespaces_parser};
use parsecomx::parsers::ParserInput;
use parsecomx::traits::{Parser, ParserOps};

#[test]
fn match_single_char_against_hello() {
    let p = char_parser('h');
    let (rest, output) = p.parse(ParserInput::new("hello")).unwrap();
    assert_eq!(output, 'h');
    assert_eq!(rest.data, "ello");
    assert_eq!(rest.index, 1);
}

#[test]
fn signed_decimal_as_i32() {
    let p = int_parser::<i32>(10);
    let (rest, output) = p.parse(ParserInput::new("-1234")).unwrap();
    assert_eq!(output, -1234);
    assert_eq!(rest.data, "");
    assert_eq!(rest.index, 5);
}

#[test]
fn unsigned_decimal_rejects_leading_sign() {
    let p = uint_parser::<u32>(10);
    let (rest, error) = p.parse(ParserInput::new("-256")).unwrap_err();
    assert_eq!(rest.data, "-256");
    assert_eq!(error.index, 0);
    match error.error {
        parsecomx::errors::ParsingErrorKind::Custom(errs) => {
            assert_eq!(errs.errors.len(), 1);
            assert!(matches!(
                errs.errors[0],
                parsecomx::errors::StrParsingErrorKind::ExpectingDigit
            ));
        }
        _ => panic!("expected a concrete error"),
    }
}

#[test]
fn float_with_empty_fraction() {
    let p = float_parser();
    let (rest, literal) = p.parse(ParserInput::new("-2.")).unwrap();
    assert_eq!(rest.data, "");
    assert_eq!(literal, "-2.");
    let value: f32 = literal.parse().unwrap();
    assert_eq!(value, -2.0_f32);
}

#[test]
fn bracketed_comma_separated_list() {
    let element = whitespaces_parser()
        .then_parse(int_parser::<i32>(10))
        .then_consume(whitespaces_parser());
    let p = char_parser('[')
        .then_parse(element.sep_by(char_parser(',')))
        .then_consume(char_parser(']'));
    let (rest, output) = p.parse(ParserInput::new("[1, 2, 3, 4, 5]")).unwrap();
    assert_eq!(rest.data, "");
    assert_eq!(output, vec![1, 2, 3, 4, 5]);
}

#[test]
fn quoted_string_literal_with_escapes() {
    let p = string_literal_parser();
    let input = "\"hello\\n\\\"J\\\"  \\t this is with tabs 'rr\"";
    let (rest, output) = p.parse(ParserInput::new(input)).unwrap();
    assert_eq!(rest.data, "");
    assert_eq!(output, "hello\n\"J\"  \t this is with tabs 'rr");
}
