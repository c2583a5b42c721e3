//! The parser capability contract and the small function-object contracts
//! (output map, predicate, fallible map, error map) that combinators are
//! parameterized by.

use vstd::prelude::*;

use crate::combinators::{
    AndThen, Flatten, Many, Many1, MapError, MapParser, MapResult, Optional, OrElse, PairFirst,
    PairSecond, SepBy, Verify,
};
use crate::errors::SpecError;
use crate::parsers::{spec_advances, ParserInput, ParserResult, SpecInput};

verus! {

/// An error type that supports merging the errors of two failed alternatives
/// tried at the same branch point.
pub trait ParserError: DeepView + Sized {
    /// Specification-level image of `append`.
    spec fn spec_append(a: Self::V, b: Self::V) -> Self::V;

    /// Merges `self` (the earlier attempt) with `new` (the later attempt).
    fn append(self, new: Self) -> (r: Self)
        ensures
            r.deep_view() == Self::spec_append(self.deep_view(), new.deep_view()),
    ;
}

/// A pure total function from `In` to `Out`, given by a specification-level
/// function and an executable function proved to agree with it.
pub trait MapFn: Sized {
    type In: DeepView;

    type Out: DeepView;

    /// Specification-level image of `map_value`.
    spec fn spec_map(&self, v: <Self::In as DeepView>::V) -> <Self::Out as DeepView>::V;

    /// Applies the function.
    fn map_value(&self, v: Self::In) -> (r: Self::Out)
        ensures
            r.deep_view() == self.spec_map(v.deep_view()),
    ;
}

/// A pure total predicate on `In`.
pub trait PredFn: Sized {
    type In: DeepView;

    /// Specification-level image of `test`.
    spec fn spec_test(&self, v: <Self::In as DeepView>::V) -> bool;

    /// Evaluates the predicate.
    fn test(&self, v: &Self::In) -> (b: bool)
        ensures
            b == self.spec_test(v.deep_view()),
    ;
}

/// Relates a specification-level `Result` to an executable one: same side,
/// and the executable payload's view equals the specification payload.
pub open spec fn try_matches<O: DeepView, E: DeepView>(
    s: Result<<O as DeepView>::V, <E as DeepView>::V>,
    r: Result<O, E>,
) -> bool {
    match (s, r) {
        (Ok(sv), Ok(rv)) => rv.deep_view() == sv,
        (Err(se), Err(re)) => re.deep_view() == se,
        _ => false,
    }
}

/// A pure total fallible function from `In` to `Out` or an error.
pub trait TryMapFn: Sized {
    type In: DeepView;

    type Out: DeepView;

    type Err: ParserError;

    /// Specification-level image of `try_map_value`.
    spec fn spec_try_map(&self, v: <Self::In as DeepView>::V) -> Result<
        <Self::Out as DeepView>::V,
        <Self::Err as DeepView>::V,
    >;

    /// Applies the function.
    fn try_map_value(&self, v: Self::In) -> (r: Result<Self::Out, Self::Err>)
        ensures
            try_matches::<Self::Out, Self::Err>(self.spec_try_map(v.deep_view()), r),
    ;
}

/// A pure total function translating a positioned-error kind (the generic
/// verification-failure marker or a concrete error) into a new error type.
pub trait ErrMapFn: Sized {
    type In: ParserError;

    type Out: ParserError;

    /// Specification-level image of `map_err_value`.
    spec fn spec_map_err(
        &self,
        e: crate::errors::ParsingErrorKind<<Self::In as DeepView>::V>,
    ) -> <Self::Out as DeepView>::V;

    /// Applies the function.
    fn map_err_value(&self, e: crate::errors::ParsingErrorKind<Self::In>) -> (r: Self::Out)
        ensures
            r.deep_view() == self.spec_map_err(e.deep_view()),
    ;
}

/// The specification-level outcome of one parse step: on success the
/// remaining input and the output's view, on failure the input at which the
/// failure was detected and the positioned error's view.
pub type SpecStep<O, E> = Result<(SpecInput, O), (SpecInput, SpecError<E>)>;

/// Relates a specification-level parse outcome to an executable one: same
/// side, equal cursors, and equal views of output respectively error.
pub open spec fn step_matches<'a, O: DeepView, E: DeepView>(
    s: SpecStep<<O as DeepView>::V, <E as DeepView>::V>,
    r: ParserResult<&'a str, O, E>,
) -> bool {
    match (s, r) {
        (Ok((si, so)), Ok((ri, ro))) => ri@ == si && ro.deep_view() == so,
        (Err((si, se)), Err((ri, re))) => ri@ == si && re.deep_view() == se,
        _ => false,
    }
}

/// A parser that strictly consumes input on every success, on every input.
/// Repetition combinators require this of their child so that repetition
/// terminates.
pub open spec fn productive<P: Parser>(p: P) -> bool {
    forall|i: SpecInput|
        (#[trigger] p.spec_parse(i)) matches Ok(step) ==> step.0.data.len() < i.data.len()
}

/// The single capability contract every combinator and primitive implements:
/// consume positioned input and return either the remaining input with the
/// output, or the input at the failure with a positioned error.
///
/// `spec_parse` is the parser's denotation — a total specification-level
/// function — and `parse` is proved to return exactly what it says. The
/// contract of `lemma_parse_invariant` is the universal position-bookkeeping
/// law: on every outcome the cursor moves forward by exactly the number of
/// characters consumed, the remainder is the corresponding suffix, and a
/// reported error position never lies before the attempt's start.
pub trait Parser: Sized {
    type Output: DeepView;

    type Error: ParserError;

    /// Structural well-formedness of this parser value (for example, that the
    /// child of a repetition combinator is productive). Parsers without such
    /// obligations leave this `true`.
    open spec fn wf(&self) -> bool {
        true
    }

    /// The denotation: what `parse` returns, stated over views.
    spec fn spec_parse(&self, input: SpecInput) -> SpecStep<
        <Self::Output as DeepView>::V,
        <Self::Error as DeepView>::V,
    >;

    /// Position bookkeeping holds of every outcome of the denotation.
    proof fn lemma_parse_invariant(&self, input: SpecInput)
        requires
            self.wf(),
        ensures
            match self.spec_parse(input) {
                Ok((rest, _)) => spec_advances(input, rest),
                Err((rest, e)) => spec_advances(input, rest) && input.index <= e.index,
            },
    ;

    /// Runs the parser.
    fn parse<'a>(&self, input: ParserInput<&'a str>) -> (r: ParserResult<
        &'a str,
        Self::Output,
        Self::Error,
    >)
        requires
            self.wf(),
            input@.inv(),
        ensures
            step_matches::<Self::Output, Self::Error>(self.spec_parse(input@), r),
    ;

}

/// The combinator methods every parser offers. This is a blanket extension of
/// [`Parser`]: each method wraps `self` in the corresponding combinator
/// value, and its contract pins the value built.
pub trait ParserOps: Parser {
    /// Sequencing: this parser, then `other` on the remainder.
    fn and_then<Q: Parser>(self, other: Q) -> (r: AndThen<Self, Q>)
        ensures
            r == (AndThen { p1: self, p2: other }),
    ;

    /// Alternation: this parser, or `other` on the same input if this one
    /// fails.
    fn or_else<Q: Parser>(self, other: Q) -> (r: OrElse<Self, Q>)
        ensures
            r == (OrElse { p1: self, p2: other }),
    ;

    /// Post-processes a successful output with a pure function.
    fn map<G: MapFn<In = Self::Output>>(self, mapper: G) -> (r: MapParser<Self, G>)
        ensures
            r == (MapParser { p: self, mapper }),
    ;

    /// Post-processes the error payload only; the position is untouched.
    fn map_err<G: ErrMapFn<In = Self::Error>>(self, err_mapper: G) -> (r: MapError<Self, G>)
        ensures
            r == (MapError { p: self, err_mapper }),
    ;

    /// Re-validates/converts a successful output; on failure the pre-attempt
    /// input is restored.
    fn map_result<G: TryMapFn<In = Self::Output, Err = Self::Error>>(self, result_mapper: G) -> (r:
        MapResult<Self, G>)
        ensures
            r == (MapResult { p: self, result_mapper }),
    ;

    /// One-or-more repetition.
    fn many1(self) -> (r: Many1<Self>)
        ensures
            r == (Many1 { p: self }),
    ;

    /// Zero-or-more repetition.
    fn many(self) -> (r: Many<Self>)
        ensures
            r == (Many { p: self }),
    ;

    /// Sequencing keeping only this parser's output.
    fn then_consume<Q: Parser<Error = Self::Error>>(self, other: Q) -> (r: ThenConsume<Self, Q>)
        ensures
            r.p == (AndThen { p1: self, p2: other }),
    ;

    /// Sequencing keeping only the second parser's output.
    fn then_parse<Q: Parser<Error = Self::Error>>(self, other: Q) -> (r: ThenParse<Self, Q>)
        ensures
            r.p == (AndThen { p1: self, p2: other }),
    ;

    /// Keeps a successful output only if the predicate accepts it; otherwise
    /// fails at the original position with the generic verification-failure
    /// marker.
    fn verify<G: PredFn<In = Self::Output>>(self, pred: G) -> (r: Verify<Self, G>)
        ensures
            r == (Verify { p: self, pred }),
    ;

    /// Never fails: wraps success in `Some`, turns failure into `None` at
    /// the failed attempt's input.
    fn optional(self) -> (r: Optional<Self>)
        ensures
            r == Optional(self),
    ;

    /// For a parser whose output is itself a parser: runs the produced parser
    /// on the remainder.
    fn flatten(self) -> (r: Flatten<Self>) where
        Self::Output: Parser<Error = Self::Error> + DeepView<V = Self::Output>,

        ensures
            r == Flatten(self),
    ;

    /// Data-dependent sequencing: maps the output to a parser and runs it on
    /// the remainder.
    fn flat_map<G, Q>(self, mapper: G) -> (r: Flatten<MapParser<Self, G>>) where
        G: MapFn<In = Self::Output, Out = Q>,
        Q: Parser<Error = Self::Error> + DeepView<V = Q>,

        ensures
            r == Flatten(MapParser { p: self, mapper }),
    ;

    /// A non-empty list of this parser's matches separated by `separator`'s
    /// matches.
    fn sep_by<Q: Parser<Error = Self::Error>>(self, separator: Q) -> (r: SepBy<Self, Q>)
        ensures
            r == (SepBy { p: self, separator }),
    ;
}

impl<P: Parser> ParserOps for P {
    fn and_then<Q: Parser>(self, other: Q) -> (r: AndThen<Self, Q>) {
        AndThen { p1: self, p2: other }
    }

    fn or_else<Q: Parser>(self, other: Q) -> (r: OrElse<Self, Q>) {
        OrElse { p1: self, p2: other }
    }

    fn map<G: MapFn<In = Self::Output>>(self, mapper: G) -> (r: MapParser<Self, G>) {
        MapParser { p: self, mapper }
    }

    fn map_err<G: ErrMapFn<In = Self::Error>>(self, err_mapper: G) -> (r: MapError<Self, G>) {
        MapError { p: self, err_mapper }
    }

    fn map_result<G: TryMapFn<In = Self::Output, Err = Self::Error>>(self, result_mapper: G) -> (r:
        MapResult<Self, G>) {
        MapResult { p: self, result_mapper }
    }

    fn many1(self) -> (r: Many1<Self>) {
        Many1 { p: self }
    }

    fn many(self) -> (r: Many<Self>) {
        Many { p: self }
    }

    fn then_consume<Q: Parser<Error = Self::Error>>(self, other: Q) -> (r: ThenConsume<Self, Q>) {
        MapParser { p: AndThen { p1: self, p2: other }, mapper: PairFirst::new() }
    }

    fn then_parse<Q: Parser<Error = Self::Error>>(self, other: Q) -> (r: ThenParse<Self, Q>) {
        MapParser { p: AndThen { p1: self, p2: other }, mapper: PairSecond::new() }
    }

    fn verify<G: PredFn<In = Self::Output>>(self, pred: G) -> (r: Verify<Self, G>) {
        Verify { p: self, pred }
    }

    fn optional(self) -> (r: Optional<Self>) {
        Optional(self)
    }

    fn flatten(self) -> (r: Flatten<Self>) where
        Self::Output: Parser<Error = Self::Error> + DeepView<V = Self::Output>,
     {
        Flatten(self)
    }

    fn flat_map<G, Q>(self, mapper: G) -> (r: Flatten<MapParser<Self, G>>) where
        G: MapFn<In = Self::Output, Out = Q>,
        Q: Parser<Error = Self::Error> + DeepView<V = Q>,
     {
        Flatten(MapParser { p: self, mapper })
    }

    fn sep_by<Q: Parser<Error = Self::Error>>(self, separator: Q) -> (r: SepBy<Self, Q>) {
        SepBy { p: self, separator }
    }
}

/// The parser built by [`ParserOps::then_consume`].
pub type ThenConsume<P1, P2> = MapParser<
    AndThen<P1, P2>,
    PairFirst<<P1 as Parser>::Output, <P2 as Parser>::Output>,
>;

/// The parser built by [`ParserOps::then_parse`].
pub type ThenParse<P1, P2> = MapParser<
    AndThen<P1, P2>,
    PairSecond<<P1 as Parser>::Output, <P2 as Parser>::Output>,
>;

} // verus!
