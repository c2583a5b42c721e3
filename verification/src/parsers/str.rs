//! Primitive text parsers — the leaves of every grammar — and the derived
//! whitespace and string-literal grammars.

use vstd::prelude::*;
use vstd::string::{StrSliceExecFns, StringExecFns};

use crate::combinators::{
    lemma_and_then_productive, lemma_map_productive, lemma_or_else_productive,
    lemma_verify_productive, AndThen, Many, MapParser, OrElse, PairFirst, PairSecond, Verify,
};
use crate::errors::{ParsingError, ParsingErrorKind, SpecError, StrParsingErrorKind, StrParsingErrors};
use crate::parsers::{ParserInput, ParserResult, SpecInput};
use crate::traits::{productive, MapFn, Parser, PredFn, SpecStep, ThenConsume, ThenParse};

verus! {

/// Succeeds with the next character and advances by one; fails with
/// `UnexpectedEnd` at the current index if the input is empty.
pub struct AnyChar;

impl Parser for AnyChar {
    type Output = char;

    type Error = StrParsingErrors;

    open spec fn spec_parse(&self, input: SpecInput) -> SpecStep<
        char,
        Seq<StrParsingErrorKind<Seq<char>>>,
    > {
        if input.data.len() == 0 {
            Err(
                (
                    input,
                    SpecError {
                        error: ParsingErrorKind::Custom(seq![StrParsingErrorKind::UnexpectedEnd]),
                        index: input.index,
                    },
                ),
            )
        } else {
            Ok((SpecInput { data: input.data.skip(1), index: input.index + 1 }, input.data[0]))
        }
    }

    proof fn lemma_parse_invariant(&self, input: SpecInput) {
        if input.data.len() == 0 {
            assert(input.data =~= input.data.skip(0));
        }
    }

    fn parse<'a>(&self, input: ParserInput<&'a str>) -> (r: ParserResult<
        &'a str,
        Self::Output,
        Self::Error,
    >) {
        let n = input.data.unicode_len();
        if n == 0 {
            Err(
                (
                    input,
                    ParsingError::at(
                        ParsingErrorKind::Custom(
                            StrParsingErrors::with_error_kind(StrParsingErrorKind::UnexpectedEnd),
                        ),
                        input.index,
                    ),
                ),
            )
        } else {
            let c = input.data.get_char(0);
            let rest = input.advance(1);
            Ok((rest, c))
        }
    }
}

/// A successful character match always consumes exactly that character.
pub proof fn lemma_any_char_productive()
    ensures
        productive(AnyChar),
{
}

/// The parser for one arbitrary character.
pub fn any_char() -> (p: AnyChar)
    ensures
        p == AnyChar,
        p.wf(),
{
    AnyChar
}

/// Matches one expected character: succeeds and advances by one if the next
/// character equals `expected`; fails with `UnexpectedChar` at the original
/// position without consuming anything.
pub struct CharParser {
    pub expected: char,
}

impl Parser for CharParser {
    type Output = char;

    type Error = StrParsingErrors;

    open spec fn spec_parse(&self, input: SpecInput) -> SpecStep<
        char,
        Seq<StrParsingErrorKind<Seq<char>>>,
    > {
        match (AnyChar).spec_parse(input) {
            Err(e) => Err(e),
            Ok((rest, c)) => if c == self.expected {
                Ok((rest, c))
            } else {
                Err(
                    (
                        input,
                        SpecError {
                            error: ParsingErrorKind::Custom(
                                seq![
                                    StrParsingErrorKind::UnexpectedChar {
                                        expected: self.expected,
                                        found: c,
                                    },
                                ],
                            ),
                            index: input.index,
                        },
                    ),
                )
            },
        }
    }

    proof fn lemma_parse_invariant(&self, input: SpecInput) {
        (AnyChar).lemma_parse_invariant(input);
        assert(input.data =~= input.data.skip(0));
    }

    fn parse<'a>(&self, input: ParserInput<&'a str>) -> (r: ParserResult<
        &'a str,
        Self::Output,
        Self::Error,
    >) {
        let inner = AnyChar;
        match inner.parse(input) {
            Err(e) => Err(e),
            Ok((rest, c)) => {
                if c == self.expected {
                    Ok((rest, c))
                } else {
                    Err(
                        (
                            input,
                            ParsingError::at(
                                ParsingErrorKind::Custom(
                                    StrParsingErrors::with_error_kind(
                                        StrParsingErrorKind::UnexpectedChar {
                                            expected: self.expected,
                                            found: c,
                                        },
                                    ),
                                ),
                                input.index,
                            ),
                        ),
                    )
                }
            },
        }
    }
}

/// The parser for one expected character.
pub fn char_parser(expected: char) -> (p: CharParser)
    ensures
        p == (CharParser { expected }),
        p.wf(),
{
    CharParser { expected }
}

/// Relies on String::push: appends the character to the end of the string.
#[verifier::external_body]
pub fn push_char(s: &mut String, c: char)
    ensures
        final(s)@ == old(s)@.push(c),
{
    s.push(c);
}

/// Whether `data` begins with `prefix`, compared character by character.
pub fn str_starts_with(data: &str, prefix: &str) -> (b: bool)
    requires
        prefix@.len() <= data@.len(),
    ensures
        b == (data@.take(prefix@.len() as int) == prefix@),
{
    let n = prefix.unicode_len();
    let mut i: usize = 0;
    while i < n
        invariant
            n == prefix@.len() <= data@.len(),
            0 <= i <= n,
            forall|j: int| 0 <= j < i ==> data@[j] == prefix@[j],
        decreases n - i,
    {
        if data.get_char(i) != prefix.get_char(i) {
            proof {
                assert(data@.take(n as int)[i as int] != prefix@[i as int]);
            }
            return false;
        }
        i += 1;
    }
    proof {
        assert(data@.take(n as int) =~= prefix@);
    }
    true
}

/// Matches an exact literal: succeeds and advances by the literal's length if
/// the input starts with it; otherwise fails with `UnexpectedString` at the
/// original position without consuming anything.
pub struct StringParser {
    pub expected: String,
}

impl Parser for StringParser {
    type Output = String;

    type Error = StrParsingErrors;

    open spec fn spec_parse(&self, input: SpecInput) -> SpecStep<
        Seq<char>,
        Seq<StrParsingErrorKind<Seq<char>>>,
    > {
        let e = self.expected@;
        if e.len() <= input.data.len() && input.data.take(e.len() as int) == e {
            Ok((SpecInput { data: input.data.skip(e.len() as int), index: input.index + e.len() }, e))
        } else {
            Err(
                (
                    input,
                    SpecError {
                        error: ParsingErrorKind::Custom(
                            seq![
                                StrParsingErrorKind::UnexpectedString {
                                    expected: e,
                                    found: input.data,
                                },
                            ],
                        ),
                        index: input.index,
                    },
                ),
            )
        }
    }

    proof fn lemma_parse_invariant(&self, input: SpecInput) {
        assert(input.data =~= input.data.skip(0));
    }

    fn parse<'a>(&self, input: ParserInput<&'a str>) -> (r: ParserResult<
        &'a str,
        Self::Output,
        Self::Error,
    >) {
        let elen = self.expected.as_str().unicode_len();
        let n = input.data.unicode_len();
        if elen <= n && str_starts_with(input.data, self.expected.as_str()) {
            let rest = input.advance(elen);
            Ok((rest, self.expected.clone()))
        } else {
            let found = String::from_str(input.data);
            Err(
                (
                    input,
                    ParsingError::at(
                        ParsingErrorKind::Custom(
                            StrParsingErrors::with_error_kind(
                                StrParsingErrorKind::UnexpectedString {
                                    expected: self.expected.clone(),
                                    found,
                                },
                            ),
                        ),
                        input.index,
                    ),
                ),
            )
        }
    }
}

/// The parser for an exact literal.
pub fn string_parser(expected: String) -> (p: StringParser)
    ensures
        p == (StringParser { expected }),
        p.wf(),
{
    StringParser { expected }
}

/// A successful expected-character match always consumes that character.
pub proof fn lemma_char_parser_productive(p: CharParser)
    ensures
        productive(p),
{
}

/// The predicate accepting whitespace characters.
pub struct IsWhitespace;

/// Whether `c` is a whitespace character: space, tab, line feed, carriage
/// return, vertical tab or form feed.
pub open spec fn spec_is_whitespace(c: char) -> bool {
    c == ' ' || c == '\t' || c == '\n' || c == '\r' || c == '\u{b}' || c == '\u{c}'
}

impl PredFn for IsWhitespace {
    type In = char;

    open spec fn spec_test(&self, c: char) -> bool {
        spec_is_whitespace(c)
    }

    fn test(&self, c: &char) -> (b: bool) {
        *c == ' ' || *c == '\t' || *c == '\n' || *c == '\r' || *c == '\u{b}' || *c == '\u{c}'
    }
}

/// The pure function discarding a parsed value.
pub struct ToUnit;

impl MapFn for ToUnit {
    type In = Vec<char>;

    type Out = ();

    open spec fn spec_map(&self, v: Seq<char>) -> () {
        ()
    }

    fn map_value(&self, v: Vec<char>) -> (r: ()) {
        ()
    }
}

/// The whitespace grammar: zero-or-more whitespace characters, discarded.
pub type WhitespacesParser = MapParser<Many<Verify<AnyChar, IsWhitespace>>, ToUnit>;

/// The whitespace grammar.
pub open spec fn spec_whitespaces_parser() -> WhitespacesParser {
    MapParser { p: Many { p: Verify { p: AnyChar, pred: IsWhitespace } }, mapper: ToUnit }
}

/// The parser skipping zero-or-more whitespace characters.
pub fn whitespaces_parser() -> (p: WhitespacesParser)
    ensures
        p == spec_whitespaces_parser(),
        p.wf(),
{
    let p = MapParser { p: Many { p: Verify { p: AnyChar, pred: IsWhitespace } }, mapper: ToUnit };
    proof {
        lemma_any_char_productive();
        lemma_verify_productive(Verify { p: AnyChar, pred: IsWhitespace });
    }
    p
}

/// The predicate accepting the characters a string literal may hold plainly:
/// everything except the closing quote and the escape introducer.
pub struct PlainStrChar;

impl PredFn for PlainStrChar {
    type In = char;

    open spec fn spec_test(&self, c: char) -> bool {
        c != '"' && c != '\\'
    }

    fn test(&self, c: &char) -> (b: bool) {
        *c != '"' && *c != '\\'
    }
}

/// The pure function replacing a matched character with a fixed one, used to
/// turn a matched escape letter into the character it denotes.
pub struct ConstChar {
    pub out: char,
}

impl MapFn for ConstChar {
    type In = char;

    type Out = char;

    open spec fn spec_map(&self, c: char) -> char {
        self.out
    }

    fn map_value(&self, c: char) -> (r: char) {
        self.out
    }
}

/// The pure function collecting parsed characters into a string.
pub struct CharsToString;

impl MapFn for CharsToString {
    type In = Vec<char>;

    type Out = String;

    open spec fn spec_map(&self, v: Seq<char>) -> Seq<char> {
        v
    }

    fn map_value(&self, v: Vec<char>) -> (r: String) {
        let mut s = String::new();
        let n = v.len();
        let mut i: usize = 0;
        proof {
            assert(s@ =~= v@.take(0));
        }
        while i < n
            invariant
                n == v@.len(),
                0 <= i <= n,
                s@ == v@.take(i as int),
            decreases n - i,
        {
            push_char(&mut s, v[i]);
            proof {
                assert(v@.take(i + 1) =~= v@.take(i as int).push(v@[i as int]));
            }
            i += 1;
        }
        proof {
            assert(v@.take(n as int) =~= v@);
            assert(v.deep_view() =~= v@);
        }
        s
    }
}

/// What may stand after the escape introducer: a quote kept as itself, or one
/// of the letters `n`, `t`, `r` turned into the control character it denotes.
pub type EscapeBodyParser = OrElse<
    CharParser,
    OrElse<
        MapParser<CharParser, ConstChar>,
        OrElse<MapParser<CharParser, ConstChar>, MapParser<CharParser, ConstChar>>,
    >,
>;

/// An escape sequence: a backslash, then the escape body.
pub type EscapeParser = ThenParse<CharParser, EscapeBodyParser>;

/// One character of a string literal: any character other than a quote or a
/// backslash, or an escape sequence.
pub type LiteralCharParser = OrElse<Verify<AnyChar, PlainStrChar>, EscapeParser>;

/// The string-literal grammar: a quote, zero-or-more literal characters
/// collected into a string, and a closing quote.
pub type StringLiteralParser = ThenConsume<
    ThenParse<CharParser, MapParser<Many<LiteralCharParser>, CharsToString>>,
    CharParser,
>;

/// The escape-body grammar.
pub open spec fn spec_escape_body() -> EscapeBodyParser {
    OrElse {
        p1: CharParser { expected: '"' },
        p2: OrElse {
            p1: MapParser { p: CharParser { expected: 'n' }, mapper: ConstChar { out: '\n' } },
            p2: OrElse {
                p1: MapParser { p: CharParser { expected: 't' }, mapper: ConstChar { out: '\t' } },
                p2: MapParser { p: CharParser { expected: 'r' }, mapper: ConstChar { out: '\r' } },
            },
        },
    }
}

/// The grammar of one string-literal character.
pub open spec fn spec_literal_char() -> LiteralCharParser {
    OrElse {
        p1: Verify { p: AnyChar, pred: PlainStrChar },
        p2: MapParser {
            p: AndThen { p1: CharParser { expected: '\\' }, p2: spec_escape_body() },
            mapper: PairSecond { _marker: core::marker::PhantomData },
        },
    }
}

/// The string-literal grammar.
pub open spec fn spec_string_literal_parser() -> StringLiteralParser {
    MapParser {
        p: AndThen {
            p1: MapParser {
                p: AndThen {
                    p1: CharParser { expected: '"' },
                    p2: MapParser { p: Many { p: spec_literal_char() }, mapper: CharsToString },
                },
                mapper: PairSecond { _marker: core::marker::PhantomData },
            },
            p2: CharParser { expected: '"' },
        },
        mapper: PairFirst { _marker: core::marker::PhantomData },
    }
}

/// One string-literal character always consumes input.
pub proof fn lemma_literal_char_productive()
    ensures
        productive(spec_literal_char()),
{
    lemma_any_char_productive();
    lemma_verify_productive(Verify { p: AnyChar, pred: PlainStrChar });
    lemma_char_parser_productive(CharParser { expected: '\\' });
    lemma_char_parser_productive(CharParser { expected: '"' });
    lemma_char_parser_productive(CharParser { expected: 'n' });
    lemma_char_parser_productive(CharParser { expected: 't' });
    lemma_char_parser_productive(CharParser { expected: 'r' });
    lemma_map_productive(
        MapParser { p: CharParser { expected: 'n' }, mapper: ConstChar { out: '\n' } },
    );
    lemma_map_productive(
        MapParser { p: CharParser { expected: 't' }, mapper: ConstChar { out: '\t' } },
    );
    lemma_map_productive(
        MapParser { p: CharParser { expected: 'r' }, mapper: ConstChar { out: '\r' } },
    );
    lemma_or_else_productive(
        OrElse {
            p1: MapParser { p: CharParser { expected: 't' }, mapper: ConstChar { out: '\t' } },
            p2: MapParser { p: CharParser { expected: 'r' }, mapper: ConstChar { out: '\r' } },
        },
    );
    lemma_or_else_productive(
        OrElse {
            p1: MapParser { p: CharParser { expected: 'n' }, mapper: ConstChar { out: '\n' } },
            p2: OrElse {
                p1: MapParser { p: CharParser { expected: 't' }, mapper: ConstChar { out: '\t' } },
                p2: MapParser { p: CharParser { expected: 'r' }, mapper: ConstChar { out: '\r' } },
            },
        },
    );
    lemma_or_else_productive(spec_escape_body());
    lemma_and_then_productive(
        AndThen { p1: CharParser { expected: '\\' }, p2: spec_escape_body() },
    );
    lemma_map_productive(
        MapParser {
            p: AndThen { p1: CharParser { expected: '\\' }, p2: spec_escape_body() },
            mapper: PairSecond { _marker: core::marker::PhantomData },
        },
    );
    lemma_or_else_productive(spec_literal_char());
}

/// The parser for a quoted string literal with escape sequences: a quote,
/// the literal's characters (plain, or escaped as backslash-quote,
/// backslash-n, backslash-t, backslash-r), and a closing quote; the output is
/// the denoted string.
pub fn string_literal_parser() -> (p: StringLiteralParser)
    ensures
        p == spec_string_literal_parser(),
        p.wf(),
{
    let p: StringLiteralParser = MapParser {
        p: AndThen {
            p1: MapParser {
                p: AndThen {
                    p1: CharParser { expected: '"' },
                    p2: MapParser {
                        p: Many {
                            p: OrElse {
                                p1: Verify { p: AnyChar, pred: PlainStrChar },
                                p2: MapParser {
                                    p: AndThen {
                                        p1: CharParser { expected: '\\' },
                                        p2: OrElse {
                                            p1: CharParser { expected: '"' },
                                            p2: OrElse {
                                                p1: MapParser {
                                                    p: CharParser { expected: 'n' },
                                                    mapper: ConstChar { out: '\n' },
                                                },
                                                p2: OrElse {
                                                    p1: MapParser {
                                                        p: CharParser { expected: 't' },
                                                        mapper: ConstChar { out: '\t' },
                                                    },
                                                    p2: MapParser {
                                                        p: CharParser { expected: 'r' },
                                                        mapper: ConstChar { out: '\r' },
                                                    },
                                                },
                                            },
                                        },
                                    },
                                    mapper: PairSecond::new(),
                                },
                            },
                        },
                        mapper: CharsToString,
                    },
                },
                mapper: PairSecond::new(),
            },
            p2: CharParser { expected: '"' },
        },
        mapper: PairFirst::new(),
    };
    proof {
        lemma_literal_char_productive();
    }
    p
}

} // verus!
