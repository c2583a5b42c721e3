//! The error model: a closed set of leaf failure reasons, a non-empty ordered
//! collection of leaves gathered from failed alternatives, and a wrapper
//! pairing an error with the absolute position where the failing attempt
//! began, with a merge ("append") operation used when alternatives are tried.

use vstd::prelude::*;

use crate::traits::ParserError;

verus! {

/// One failed attempt tagged by which of two tried parsers produced it.
#[derive(Debug)]
pub enum EitherError<E1, E2> {
    LeftError(E1),
    RightError(E2),
}

impl<E1, E2> EitherError<E1, E2> {
    /// The error, if the first (left) parser produced it.
    pub fn first_error(self) -> (r: Option<E1>)
        ensures
            match self {
                EitherError::LeftError(e) => r == Some(e),
                EitherError::RightError(_) => r is None,
            },
    {
        match self {
            EitherError::LeftError(error) => Some(error),
            _ => None,
        }
    }

    /// The error, if the second (right) parser produced it.
    pub fn second_error(self) -> (r: Option<E2>)
        ensures
            match self {
                EitherError::RightError(e) => r == Some(e),
                EitherError::LeftError(_) => r is None,
            },
    {
        match self {
            EitherError::RightError(error) => Some(error),
            _ => None,
        }
    }
}

/// Either the generic verification-failure marker produced by `Verify`, or a
/// concrete error of the underlying error type.
#[derive(Debug)]
pub enum ParsingErrorKind<E> {
    VerifyError,
    Custom(E),
}

impl<E: DeepView> DeepView for ParsingErrorKind<E> {
    type V = ParsingErrorKind<E::V>;

    open spec fn deep_view(&self) -> Self::V {
        match self {
            ParsingErrorKind::VerifyError => ParsingErrorKind::VerifyError,
            ParsingErrorKind::Custom(e) => ParsingErrorKind::Custom(e.deep_view()),
        }
    }
}

impl<E: ParserError> ParsingErrorKind<E> {
    /// Applies `f` to the concrete error, if any; the generic marker is kept
    /// as it is.
    pub fn map<F: crate::traits::MapFn<In = E>>(self, f: F) -> (r: ParsingErrorKind<F::Out>)
        ensures
            r.deep_view() == self.deep_view().spec_map_kind(|e| f.spec_map(e)),
    {
        match self {
            ParsingErrorKind::Custom(e) => ParsingErrorKind::Custom(f.map_value(e)),
            ParsingErrorKind::VerifyError => ParsingErrorKind::VerifyError,
        }
    }
}

impl<E> ParsingErrorKind<E> {
    /// Specification-level image of `map`: applies `f` under `Custom`.
    pub open spec fn spec_map_kind<R>(self, f: spec_fn(E) -> R) -> ParsingErrorKind<R> {
        match self {
            ParsingErrorKind::Custom(e) => ParsingErrorKind::Custom(f(e)),
            ParsingErrorKind::VerifyError => ParsingErrorKind::VerifyError,
        }
    }
}

impl<E: ParserError> ParserError for ParsingErrorKind<E> {
    /// Merging keeps concrete errors over the generic marker: two concrete
    /// errors are appended, a concrete error absorbs the marker, and the
    /// marker yields to whatever it is merged with.
    open spec fn spec_append(a: Self::V, b: Self::V) -> Self::V {
        match (a, b) {
            (ParsingErrorKind::Custom(x), ParsingErrorKind::Custom(y)) => ParsingErrorKind::Custom(
                E::spec_append(x, y),
            ),
            (ParsingErrorKind::Custom(x), ParsingErrorKind::VerifyError) => ParsingErrorKind::Custom(
                x,
            ),
            (ParsingErrorKind::VerifyError, other) => other,
        }
    }

    fn append(self, new: Self) -> (r: Self) {
        match (self, new) {
            (ParsingErrorKind::Custom(e), ParsingErrorKind::Custom(new_e)) => ParsingErrorKind::Custom(
                e.append(new_e),
            ),
            (ParsingErrorKind::Custom(e), ParsingErrorKind::VerifyError) => ParsingErrorKind::Custom(
                e,
            ),
            (ParsingErrorKind::VerifyError, new) => new,
        }
    }
}

/// Law: merging keeps concrete errors over the generic verification-failure
/// marker, so user-facing messages stay informative: a concrete error
/// absorbs the marker from either side, and two concrete errors are appended
/// in order.
pub proof fn lemma_append_prefers_concrete<E: ParserError>(a: E::V, b: E::V)
    ensures
        <ParsingErrorKind<E> as ParserError>::spec_append(
            ParsingErrorKind::Custom(a),
            ParsingErrorKind::VerifyError,
        ) == ParsingErrorKind::<E::V>::Custom(a),
        <ParsingErrorKind<E> as ParserError>::spec_append(
            ParsingErrorKind::VerifyError,
            ParsingErrorKind::Custom(b),
        ) == ParsingErrorKind::<E::V>::Custom(b),
        <ParsingErrorKind<E> as ParserError>::spec_append(
            ParsingErrorKind::Custom(a),
            ParsingErrorKind::Custom(b),
        ) == ParsingErrorKind::<E::V>::Custom(E::spec_append(a, b)),
{
}

/// An error paired with the absolute position where the failing attempt
/// began.
#[derive(Debug)]
pub struct ParsingError<E> {
    pub error: ParsingErrorKind<E>,
    pub index: usize,
}

/// Specification-level image of a `ParsingError`.
pub struct SpecError<E> {
    pub error: ParsingErrorKind<E>,
    pub index: int,
}

impl<E: DeepView> DeepView for ParsingError<E> {
    type V = SpecError<E::V>;

    open spec fn deep_view(&self) -> Self::V {
        SpecError { error: self.error.deep_view(), index: self.index as int }
    }
}

impl<E> ParsingError<E> {
    /// An error pinned to the given absolute index.
    pub fn at(error: ParsingErrorKind<E>, index: usize) -> (r: Self)
        ensures
            r == (ParsingError { error, index }),
    {
        ParsingError { error, index }
    }
}

impl<E: ParserError> ParsingError<E> {
    /// Merges two errors tried at the same branch point: the kinds are merged
    /// by their precedence rule and the position of the first is kept.
    pub fn append(self, new: Self) -> (r: Self)
        ensures
            r.deep_view() == (SpecError {
                error: <ParsingErrorKind<E> as ParserError>::spec_append(
                    self.deep_view().error,
                    new.deep_view().error,
                ),
                index: self.deep_view().index,
            }),
    {
        let ParsingError { error, index } = self;
        ParsingError { error: error.append(new.error), index }
    }
}

/// A leaf failure reason over text. The payload type `S` is `String` in
/// executable code and `Seq<char>` at the specification level.
#[derive(Debug)]
#[allow(inconsistent_fields)]
pub enum StrParsingErrorKind<S> {
    UnexpectedEnd,
    UnexpectedChar { expected: char, found: char },
    UnexpectedString { expected: S, found: S },
    ExpectingDigit,
    NumberOverflow,
    InvalidFloat,
}

impl DeepView for StrParsingErrorKind<String> {
    type V = StrParsingErrorKind<Seq<char>>;

    open spec fn deep_view(&self) -> Self::V {
        match self {
            StrParsingErrorKind::UnexpectedEnd => StrParsingErrorKind::UnexpectedEnd,
            StrParsingErrorKind::UnexpectedChar { expected, found } => (StrParsingErrorKind::UnexpectedChar {
                expected: *expected,
                found: *found,
            }),
            StrParsingErrorKind::UnexpectedString { expected, found } => (StrParsingErrorKind::UnexpectedString {
                expected: expected@,
                found: found@,
            }),
            StrParsingErrorKind::ExpectingDigit => StrParsingErrorKind::ExpectingDigit,
            StrParsingErrorKind::NumberOverflow => StrParsingErrorKind::NumberOverflow,
            StrParsingErrorKind::InvalidFloat => StrParsingErrorKind::InvalidFloat,
        }
    }
}

/// An ordered, non-empty collection of leaf failure reasons gathered from one
/// or more failed alternatives at the same branch point.
#[derive(Debug)]
pub struct StrParsingErrors {
    pub errors: Vec<StrParsingErrorKind<String>>,
}

impl DeepView for StrParsingErrors {
    type V = Seq<StrParsingErrorKind<Seq<char>>>;

    open spec fn deep_view(&self) -> Self::V {
        self.errors.deep_view()
    }
}

impl StrParsingErrors {
    /// A collection holding the one given leaf.
    pub fn with_error_kind(kind: StrParsingErrorKind<String>) -> (r: Self)
        ensures
            r.deep_view() == seq![kind.deep_view()],
    {
        let mut errors: Vec<StrParsingErrorKind<String>> = Vec::new();
        let ghost kv = kind.deep_view();
        errors.push(kind);
        let r = StrParsingErrors { errors };
        proof {
            assert(r.deep_view() =~= seq![kv]);
        }
        r
    }
}

impl ParserError for StrParsingErrors {
    /// Merging concatenates the two collections, first operand first.
    open spec fn spec_append(a: Self::V, b: Self::V) -> Self::V {
        a + b
    }

    fn append(self, new: Self) -> (r: Self) {
        let mut errors = self.errors;
        let mut new_errors = new.errors;
        let ghost a = self.deep_view();
        let ghost b = new.deep_view();
        errors.append(&mut new_errors);
        let r = StrParsingErrors { errors };
        proof {
            assert(r.deep_view() =~= a + b);
        }
        r
    }
}

} // verus!
