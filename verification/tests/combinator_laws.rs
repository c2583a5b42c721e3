//! The combinator laws on concrete values: position bookkeeping,
//! backtracking, repetition, separated lists and error merging.

use parsecomx::errors::{ParsingErrorKind, StrParsingErrorKind};
use parsecomx::parsers::num::{int_parser, number_str_parser, uint_parser};
use parsecomx::parsers::str::{any_char, char_parser, string_parser, whitespaces_parser};
use parsecomx::parsers::ParserInput;
use parsecomx::traits::{Parser, ParserOps};

#[test]
fn advance_equals_consumed_length() {
    let p = string_parser(String::from("hel"));
    let input = ParserInput::new("hello");
    let before_len = input.data.chars().count();
    let (rest, output) = p.parse(input).unwrap();
    assert_eq!(output, "hel");
    let after_len = rest.data.chars().count();
    assert_eq!(rest.index - 0, before_len - after_len);
    assert_eq!(rest.index, 3);
    assert_eq!(rest.data, "lo");
}

#[test]
fn or_else_backtracks_partial_consumption() {
    // The first branch consumes 'a' before failing on 'b'; the second branch
    // must still see the whole original input, 'a' included.
    let branch1 = char_parser('a').then_parse(char_parser('b'));
    let branch2 = char_parser('a').then_parse(char_parser('x'));
    let p = branch1.or_else(branch2);
    let (rest, output) = p.parse(ParserInput::new("ax")).unwrap();
    assert_eq!(output, 'x');
    assert_eq!(rest.data, "");
    assert_eq!(rest.index, 2);
}

#[test]
fn verify_restores_original_input() {
    let p = any_char().verify(parsecomx::parsers::num::IsDigit { radix: 10 });
    let (rest, error) = p.parse(ParserInput::new("x9")).unwrap_err();
    assert_eq!(rest.data, "x9");
    assert_eq!(rest.index, 0);
    assert_eq!(error.index, 0);
    assert!(matches!(error.error, ParsingErrorKind::VerifyError));
}

#[test]
fn many_never_fails() {
    let p = any_char()
        .verify(parsecomx::parsers::num::IsDigit { radix: 10 })
        .many();
    let (rest, output) = p.parse(ParserInput::new("abc")).unwrap();
    assert_eq!(output, Vec::<char>::new());
    assert_eq!(rest.data, "abc");
    assert_eq!(rest.index, 0);

    let (rest2, output2) = p.parse(ParserInput::new("42x")).unwrap();
    assert_eq!(output2, vec!['4', '2']);
    assert_eq!(rest2.data, "x");
    assert_eq!(rest2.index, 2);
}

#[test]
fn many1_fails_with_first_attempts_error() {
    let child = any_char().verify(parsecomx::parsers::num::IsDigit { radix: 10 });
    let single_error = child.parse(ParserInput::new("abc")).unwrap_err().1;
    let p = any_char()
        .verify(parsecomx::parsers::num::IsDigit { radix: 10 })
        .many1();
    let (rest, error) = p.parse(ParserInput::new("abc")).unwrap_err();
    assert_eq!(rest.data, "abc");
    assert_eq!(error.index, single_error.index);
    assert!(matches!(error.error, ParsingErrorKind::VerifyError));
    assert!(matches!(single_error.error, ParsingErrorKind::VerifyError));
}

#[test]
fn sep_by_leaves_failed_separator_unconsumed() {
    let p = number_str_parser(10, false).sep_by(char_parser(','));
    let (rest, output) = p.parse(ParserInput::new("1,2]")).unwrap();
    assert_eq!(output, vec![String::from("1"), String::from("2")]);
    assert_eq!(rest.data, "]");
    assert_eq!(rest.index, 3);
}

#[test]
fn sep_by_propagates_element_error_after_separator() {
    let p = number_str_parser(10, false).sep_by(char_parser(','));
    let (_, error) = p.parse(ParserInput::new("1,2,")).unwrap_err();
    assert_eq!(error.index, 4);
    match error.error {
        ParsingErrorKind::Custom(errs) => {
            assert!(matches!(
                errs.errors[0],
                StrParsingErrorKind::UnexpectedEnd
            ));
        }
        _ => panic!("expected a concrete error"),
    }
}

#[test]
fn sep_by_requires_first_element() {
    let p = number_str_parser(10, false).sep_by(char_parser(','));
    let (rest, error) = p.parse(ParserInput::new(",1")).unwrap_err();
    assert_eq!(rest.data, ",1");
    assert_eq!(error.index, 0);
}

#[test]
fn or_else_concatenates_error_sets() {
    let p = char_parser('a').or_else(char_parser('b'));
    let (rest, error) = p.parse(ParserInput::new("c")).unwrap_err();
    assert_eq!(rest.data, "c");
    assert_eq!(error.index, 0);
    match error.error {
        ParsingErrorKind::Custom(errs) => {
            assert_eq!(errs.errors.len(), 2);
            assert!(matches!(
                errs.errors[0],
                StrParsingErrorKind::UnexpectedChar {
                    expected: 'a',
                    found: 'c'
                }
            ));
            assert!(matches!(
                errs.errors[1],
                StrParsingErrorKind::UnexpectedChar {
                    expected: 'b',
                    found: 'c'
                }
            ));
        }
        _ => panic!("expected a concrete error"),
    }
}

#[test]
fn map_result_failure_rewinds_to_start() {
    // The digit run itself succeeds and consumes "999", but the conversion
    // overflows; the failure must restore the whole original input, not the
    // post-digit-run rest.
    let p = uint_parser::<u8>(10);
    let (rest, error) = p.parse(ParserInput::new("999xyz")).unwrap_err();
    assert_eq!(rest.data, "999xyz");
    assert_eq!(rest.index, 0);
    assert_eq!(error.index, 0);
    match error.error {
        ParsingErrorKind::Custom(errs) => {
            assert!(matches!(
                errs.errors[0],
                StrParsingErrorKind::NumberOverflow
            ));
        }
        _ => panic!("expected a concrete error"),
    }
}

#[test]
fn and_then_does_not_backtrack_first_step() {
    let p = char_parser('a').and_then(char_parser('b'));
    let (rest, error) = p.parse(ParserInput::new("ax")).unwrap_err();
    // The failure is reported where the second step failed: after 'a'.
    assert_eq!(rest.data, "x");
    assert_eq!(error.index, 1);
}

#[test]
fn optional_discards_failure_of_backtracking_child() {
    let p = char_parser('a').optional();
    let (rest, output) = p.parse(ParserInput::new("xyz")).unwrap();
    assert_eq!(output, None);
    assert_eq!(rest.data, "xyz");
    assert_eq!(rest.index, 0);

    let (rest2, output2) = p.parse(ParserInput::new("abc")).unwrap();
    assert_eq!(output2, Some('a'));
    assert_eq!(rest2.data, "bc");
}

#[test]
fn then_consume_keeps_first_output() {
    let p = char_parser('a').then_consume(char_parser('b'));
    let (rest, output) = p.parse(ParserInput::new("abc")).unwrap();
    assert_eq!(output, 'a');
    assert_eq!(rest.data, "c");
    assert_eq!(rest.index, 2);
}

#[test]
fn flat_map_threads_sign_into_digit_run() {
    let p = int_parser::<i64>(10);
    let (rest, output) = p.parse(ParserInput::new("42")).unwrap();
    assert_eq!(output, 42);
    assert_eq!(rest.data, "");
}

#[test]
fn whitespaces_consume_all_whitespace() {
    let p = whitespaces_parser();
    let (rest, _) = p.parse(ParserInput::new(" \t\r\n  x")).unwrap();
    assert_eq!(rest.data, "x");
    assert_eq!(rest.index, 6);
}
