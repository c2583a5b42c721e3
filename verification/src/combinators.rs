//! The combinators: sequencing, alternation, transformation, verification,
//! optionality, repetition, monadic flattening and separated lists. Each one
//! is a distinct parser value implementing the one capability contract, closed
//! under composition.

use vstd::prelude::*;

use crate::errors::{ParsingError, ParsingErrorKind, SpecError};
use crate::parsers::{
    lemma_advances_trans, lemma_parse_many_invariant, parse_many, spec_advances, spec_parse_many,
    ParserInput, ParserResult, SpecInput,
};
use crate::traits::{
    productive, ErrMapFn, MapFn, Parser, ParserError, PredFn, SpecStep, TryMapFn,
};

verus! {

/// Sequencing: `p1`, then `p2` on the remainder; the outputs are paired.
/// If `p1` fails its error is surfaced as-is; if `p2` fails its error is
/// surfaced at `p2`'s failure position — the consumption of `p1` is not
/// backtracked.
pub struct AndThen<P1, P2> {
    pub p1: P1,
    pub p2: P2,
}

impl<P1, P2> Parser for AndThen<P1, P2> where P1: Parser, P2: Parser<Error = P1::Error> {
    type Output = (P1::Output, P2::Output);

    type Error = P1::Error;

    open spec fn wf(&self) -> bool {
        self.p1.wf() && self.p2.wf()
    }

    open spec fn spec_parse(&self, input: SpecInput) -> SpecStep<
        <Self::Output as DeepView>::V,
        <Self::Error as DeepView>::V,
    > {
        match self.p1.spec_parse(input) {
            Err(e) => Err(e),
            Ok((rest1, o1)) => match self.p2.spec_parse(rest1) {
                Err(e) => Err(e),
                Ok((rest2, o2)) => Ok((rest2, (o1, o2))),
            },
        }
    }

    proof fn lemma_parse_invariant(&self, input: SpecInput) {
        self.p1.lemma_parse_invariant(input);
        match self.p1.spec_parse(input) {
            Err(_) => {},
            Ok((rest1, _)) => {
                self.p2.lemma_parse_invariant(rest1);
                match self.p2.spec_parse(rest1) {
                    Err((rest2, _)) => {
                        lemma_advances_trans(input, rest1, rest2);
                    },
                    Ok((rest2, _)) => {
                        lemma_advances_trans(input, rest1, rest2);
                    },
                }
            },
        }
    }

    fn parse<'a>(&self, input: ParserInput<&'a str>) -> (r: ParserResult<
        &'a str,
        Self::Output,
        Self::Error,
    >) {
        proof {
            self.p1.lemma_parse_invariant(input@);
        }
        match self.p1.parse(input) {
            Err(e) => Err(e),
            Ok((rest, output)) => match self.p2.parse(rest) {
                Err(e) => Err(e),
                Ok((rest2, output2)) => Ok((rest2, (output, output2))),
            },
        }
    }
}

/// Alternation: `p1` against the input; on failure, `p2` against the same
/// original input (full backtrack). If both fail, the errors are merged and
/// the position of the first attempt's error is kept.
pub struct OrElse<P1, P2> {
    pub p1: P1,
    pub p2: P2,
}

impl<P1, P2> Parser for OrElse<P1, P2> where
    P1: Parser,
    P2: Parser<Output = P1::Output, Error = P1::Error>,
 {
    type Output = P1::Output;

    type Error = P1::Error;

    open spec fn wf(&self) -> bool {
        self.p1.wf() && self.p2.wf()
    }

    open spec fn spec_parse(&self, input: SpecInput) -> SpecStep<
        <Self::Output as DeepView>::V,
        <Self::Error as DeepView>::V,
    > {
        match self.p1.spec_parse(input) {
            Ok(step) => Ok(step),
            Err((_, e1)) => match self.p2.spec_parse(input) {
                Ok(step) => Ok(step),
                Err((rest2, e2)) => Err(
                    (
                        rest2,
                        SpecError {
                            error: <ParsingErrorKind<P1::Error> as ParserError>::spec_append(
                                e1.error,
                                e2.error,
                            ),
                            index: e1.index,
                        },
                    ),
                ),
            },
        }
    }

    proof fn lemma_parse_invariant(&self, input: SpecInput) {
        self.p1.lemma_parse_invariant(input);
        self.p2.lemma_parse_invariant(input);
    }

    fn parse<'a>(&self, input: ParserInput<&'a str>) -> (r: ParserResult<
        &'a str,
        Self::Output,
        Self::Error,
    >) {
        match self.p1.parse(input) {
            Ok(res) => Ok(res),
            Err((_, error)) => match self.p2.parse(input) {
                Ok(res) => Ok(res),
                Err((input2, error2)) => Err((input2, error.append(error2))),
            },
        }
    }
}

/// Transformation: post-processes a successful output with a pure function;
/// the error branch is untouched.
pub struct MapParser<P, F> {
    pub p: P,
    pub mapper: F,
}

impl<P, F> Parser for MapParser<P, F> where P: Parser, F: MapFn<In = P::Output> {
    type Output = F::Out;

    type Error = P::Error;

    open spec fn wf(&self) -> bool {
        self.p.wf()
    }

    open spec fn spec_parse(&self, input: SpecInput) -> SpecStep<
        <Self::Output as DeepView>::V,
        <Self::Error as DeepView>::V,
    > {
        match self.p.spec_parse(input) {
            Err(e) => Err(e),
            Ok((rest, o)) => Ok((rest, self.mapper.spec_map(o))),
        }
    }

    proof fn lemma_parse_invariant(&self, input: SpecInput) {
        self.p.lemma_parse_invariant(input);
    }

    fn parse<'a>(&self, input: ParserInput<&'a str>) -> (r: ParserResult<
        &'a str,
        Self::Output,
        Self::Error,
    >) {
        match self.p.parse(input) {
            Err(e) => Err(e),
            Ok((rest, output)) => Ok((rest, self.mapper.map_value(output))),
        }
    }
}

/// Transformation of the error payload only: the failing position is kept and
/// the translated error becomes the concrete error of the new error type.
pub struct MapError<P, F> {
    pub p: P,
    pub err_mapper: F,
}

impl<P, F> Parser for MapError<P, F> where P: Parser, F: ErrMapFn<In = P::Error> {
    type Output = P::Output;

    type Error = F::Out;

    open spec fn wf(&self) -> bool {
        self.p.wf()
    }

    open spec fn spec_parse(&self, input: SpecInput) -> SpecStep<
        <Self::Output as DeepView>::V,
        <Self::Error as DeepView>::V,
    > {
        match self.p.spec_parse(input) {
            Ok(step) => Ok(step),
            Err((rest, e)) => Err(
                (
                    rest,
                    SpecError {
                        error: ParsingErrorKind::Custom(self.err_mapper.spec_map_err(e.error)),
                        index: e.index,
                    },
                ),
            ),
        }
    }

    proof fn lemma_parse_invariant(&self, input: SpecInput) {
        self.p.lemma_parse_invariant(input);
    }

    fn parse<'a>(&self, input: ParserInput<&'a str>) -> (r: ParserResult<
        &'a str,
        Self::Output,
        Self::Error,
    >) {
        match self.p.parse(input) {
            Ok(res) => Ok(res),
            Err((rest, failure)) => {
                let ParsingError { error, index } = failure;
                let new_error = ParsingError::at(
                    ParsingErrorKind::Custom(self.err_mapper.map_err_value(error)),
                    index,
                );
                Err((rest, new_error))
            },
        }
    }
}

/// Fallible transformation: re-validates/converts a successful output; on
/// conversion failure the original pre-attempt input is restored, so the
/// failure looks as if nothing was consumed.
pub struct MapResult<P, F> {
    pub p: P,
    pub result_mapper: F,
}

impl<P, F> Parser for MapResult<P, F> where
    P: Parser,
    F: TryMapFn<In = P::Output, Err = P::Error>,
 {
    type Output = F::Out;

    type Error = P::Error;

    open spec fn wf(&self) -> bool {
        self.p.wf()
    }

    open spec fn spec_parse(&self, input: SpecInput) -> SpecStep<
        <Self::Output as DeepView>::V,
        <Self::Error as DeepView>::V,
    > {
        match self.p.spec_parse(input) {
            Err(e) => Err(e),
            Ok((rest, o)) => match self.result_mapper.spec_try_map(o) {
                Ok(o2) => Ok((rest, o2)),
                Err(e) => Err(
                    (
                        input,
                        SpecError { error: ParsingErrorKind::Custom(e), index: input.index },
                    ),
                ),
            },
        }
    }

    proof fn lemma_parse_invariant(&self, input: SpecInput) {
        self.p.lemma_parse_invariant(input);
        assert(input.data =~= input.data.skip(0));
    }

    fn parse<'a>(&self, input: ParserInput<&'a str>) -> (r: ParserResult<
        &'a str,
        Self::Output,
        Self::Error,
    >) {
        match self.p.parse(input) {
            Err(e) => Err(e),
            Ok((rest, output)) => match self.result_mapper.try_map_value(output) {
                Ok(output2) => Ok((rest, output2)),
                Err(error) => Err(
                    (input, ParsingError::at(ParsingErrorKind::Custom(error), input.index)),
                ),
            },
        }
    }
}

/// One-or-more repetition: the child parser, then zero-or-more further
/// matches. If the very first attempt fails, the repetition fails with that
/// attempt's exact error.
pub struct Many1<P> {
    pub p: P,
}

impl<P: Parser> Parser for Many1<P> {
    type Output = Vec<P::Output>;

    type Error = P::Error;

    open spec fn wf(&self) -> bool {
        self.p.wf() && productive(self.p)
    }

    open spec fn spec_parse(&self, input: SpecInput) -> SpecStep<
        <Self::Output as DeepView>::V,
        <Self::Error as DeepView>::V,
    > {
        match self.p.spec_parse(input) {
            Err(e) => Err(e),
            Ok((rest, o)) => {
                let tail = spec_parse_many(self.p, rest);
                Ok((tail.0, seq![o] + tail.1))
            },
        }
    }

    proof fn lemma_parse_invariant(&self, input: SpecInput) {
        self.p.lemma_parse_invariant(input);
        match self.p.spec_parse(input) {
            Err(_) => {},
            Ok((rest, _)) => {
                lemma_parse_many_invariant(self.p, rest);
                lemma_advances_trans(input, rest, spec_parse_many(self.p, rest).0);
            },
        }
    }

    fn parse<'a>(&self, input: ParserInput<&'a str>) -> (r: ParserResult<
        &'a str,
        Self::Output,
        Self::Error,
    >) {
        proof {
            self.p.lemma_parse_invariant(input@);
        }
        match self.p.parse(input) {
            Err(e) => Err(e),
            Ok((rest, output)) => {
                let (rest2, mut outputs) = parse_many(&self.p, rest);
                let ghost tail = spec_parse_many(self.p, rest@);
                outputs.insert(0, output);
                proof {
                    assert(outputs.deep_view() =~= seq![output.deep_view()] + tail.1);
                }
                Ok((rest2, outputs))
            },
        }
    }
}

/// Zero-or-more repetition: never fails; the terminating failure's input
/// becomes the final remainder and its error is discarded.
pub struct Many<P> {
    pub p: P,
}

impl<P: Parser> Parser for Many<P> {
    type Output = Vec<P::Output>;

    type Error = P::Error;

    open spec fn wf(&self) -> bool {
        self.p.wf() && productive(self.p)
    }

    open spec fn spec_parse(&self, input: SpecInput) -> SpecStep<
        <Self::Output as DeepView>::V,
        <Self::Error as DeepView>::V,
    > {
        let step = spec_parse_many(self.p, input);
        Ok((step.0, step.1))
    }

    proof fn lemma_parse_invariant(&self, input: SpecInput) {
        lemma_parse_many_invariant(self.p, input);
    }

    fn parse<'a>(&self, input: ParserInput<&'a str>) -> (r: ParserResult<
        &'a str,
        Self::Output,
        Self::Error,
    >) {
        let (rest, outputs) = parse_many(&self.p, input);
        Ok((rest, outputs))
    }
}

/// Verification: the child parser's output is kept only if the predicate
/// accepts it; otherwise the attempt is discarded and the parse fails at the
/// original position with the generic verification-failure marker.
pub struct Verify<P, Pred> {
    pub p: P,
    pub pred: Pred,
}

impl<P, Pred> Parser for Verify<P, Pred> where P: Parser, Pred: PredFn<In = P::Output> {
    type Output = P::Output;

    type Error = P::Error;

    open spec fn wf(&self) -> bool {
        self.p.wf()
    }

    open spec fn spec_parse(&self, input: SpecInput) -> SpecStep<
        <Self::Output as DeepView>::V,
        <Self::Error as DeepView>::V,
    > {
        match self.p.spec_parse(input) {
            Err(e) => Err(e),
            Ok((rest, o)) => if self.pred.spec_test(o) {
                Ok((rest, o))
            } else {
                Err(
                    (
                        input,
                        SpecError { error: ParsingErrorKind::VerifyError, index: input.index },
                    ),
                )
            },
        }
    }

    proof fn lemma_parse_invariant(&self, input: SpecInput) {
        self.p.lemma_parse_invariant(input);
        assert(input.data =~= input.data.skip(0));
    }

    fn parse<'a>(&self, input: ParserInput<&'a str>) -> (r: ParserResult<
        &'a str,
        Self::Output,
        Self::Error,
    >) {
        match self.p.parse(input) {
            Err(e) => Err(e),
            Ok((rest, output)) => {
                if self.pred.test(&output) {
                    Ok((rest, output))
                } else {
                    Err((input, ParsingError::at(ParsingErrorKind::VerifyError, input.index)))
                }
            },
        }
    }
}

/// Optionality: never fails; success is wrapped in `Some`, and on child
/// failure the failed attempt's (non-advancing) input is returned with
/// `None` — the error is discarded entirely.
pub struct Optional<P>(pub P);

impl<P: Parser> Parser for Optional<P> {
    type Output = Option<P::Output>;

    type Error = P::Error;

    open spec fn wf(&self) -> bool {
        self.0.wf()
    }

    open spec fn spec_parse(&self, input: SpecInput) -> SpecStep<
        <Self::Output as DeepView>::V,
        <Self::Error as DeepView>::V,
    > {
        match self.0.spec_parse(input) {
            Ok((rest, o)) => Ok((rest, Some(o))),
            Err((rest, _)) => Ok((rest, None)),
        }
    }

    proof fn lemma_parse_invariant(&self, input: SpecInput) {
        self.0.lemma_parse_invariant(input);
    }

    fn parse<'a>(&self, input: ParserInput<&'a str>) -> (r: ParserResult<
        &'a str,
        Self::Output,
        Self::Error,
    >) {
        match self.0.parse(input) {
            Ok((rest, output)) => Ok((rest, Some(output))),
            Err((rest, _)) => Ok((rest, None)),
        }
    }
}

/// Monadic flattening: for a parser whose output is itself a parser, runs the
/// produced parser against the remainder, threading errors through unchanged.
pub struct Flatten<P>(pub P);

impl<P> Parser for Flatten<P> where
    P: Parser,
    P::Output: Parser<Error = P::Error> + DeepView<V = P::Output>,
 {
    type Output = <P::Output as Parser>::Output;

    type Error = P::Error;

    open spec fn wf(&self) -> bool {
        &&& self.0.wf()
        &&& forall|x: P::Output| (#[trigger] x.deep_view()) == x
        &&& forall|i: SpecInput|
            (#[trigger] self.0.spec_parse(i)) matches Ok(step) ==> step.1.wf()
    }

    open spec fn spec_parse(&self, input: SpecInput) -> SpecStep<
        <Self::Output as DeepView>::V,
        <Self::Error as DeepView>::V,
    > {
        match self.0.spec_parse(input) {
            Err(e) => Err(e),
            Ok((rest, q)) => q.spec_parse(rest),
        }
    }

    proof fn lemma_parse_invariant(&self, input: SpecInput) {
        self.0.lemma_parse_invariant(input);
        match self.0.spec_parse(input) {
            Err(_) => {},
            Ok((rest, q)) => {
                q.lemma_parse_invariant(rest);
                match q.spec_parse(rest) {
                    Ok((rest2, _)) => {
                        lemma_advances_trans(input, rest, rest2);
                    },
                    Err((rest2, _)) => {
                        lemma_advances_trans(input, rest, rest2);
                    },
                }
            },
        }
    }

    fn parse<'a>(&self, input: ParserInput<&'a str>) -> (r: ParserResult<
        &'a str,
        Self::Output,
        Self::Error,
    >) {
        proof {
            self.0.lemma_parse_invariant(input@);
        }
        match self.0.parse(input) {
            Err(e) => Err(e),
            Ok((rest, produced)) => produced.parse(rest),
        }
    }
}

/// Law: alternation backtracks. When the first branch fails, the second
/// branch is applied to the identical original input — no partial consumption
/// of the failed branch leaks into it — and a success of the second branch is
/// the alternation's outcome unchanged.
pub proof fn lemma_or_else_backtracks<P1, P2>(p: OrElse<P1, P2>, input: SpecInput) where
    P1: Parser,
    P2: Parser<Output = P1::Output, Error = P1::Error>,

    requires
        p.p1.spec_parse(input) is Err,
    ensures
        p.p2.spec_parse(input) matches Ok(step) ==> (p.spec_parse(input) matches Ok(step2)
            && step2 == step),
{
}

/// Law: when both alternation branches fail, the merged error carries the
/// two branches' errors appended (for the textual error type: the
/// concatenation of both branches' leaves), the position of the first
/// branch's error, and the failure input of the second, later branch.
pub proof fn lemma_or_else_error_append<P1, P2>(p: OrElse<P1, P2>, input: SpecInput) where
    P1: Parser,
    P2: Parser<Output = P1::Output, Error = P1::Error>,

    ensures
        p.p1.spec_parse(input) matches Err(e1) ==> (p.p2.spec_parse(input) matches Err(e2)
            ==> (p.spec_parse(input) matches Err(e) && e.0 == e2.0 && e.1.index == e1.1.index
            && e.1.error == <ParsingErrorKind<P1::Error> as ParserError>::spec_append(
            e1.1.error,
            e2.1.error,
        ))),
{
}

/// Law: verification backtracks. When the predicate rejects the child's
/// output, the attempt is discarded entirely: the parse fails with the
/// identical original input, at the original position, with the generic
/// verification-failure marker.
pub proof fn lemma_verify_backtracks<P, Pred>(p: Verify<P, Pred>, input: SpecInput) where
    P: Parser,
    Pred: PredFn<In = P::Output>,

    ensures
        p.p.spec_parse(input) matches Ok(step) ==> (!p.pred.spec_test(step.1) ==> (p.spec_parse(
            input,
        ) matches Err(e) && e.0 == input && e.1.index == input.index && e.1.error is VerifyError)),
{
}

/// Law: zero-or-more repetition never fails, whatever its child does.
pub proof fn lemma_many_never_fails<P: Parser>(p: Many<P>, input: SpecInput)
    ensures
        p.spec_parse(input) is Ok,
{
}

/// Law: one-or-more repetition fails exactly where the first attempt fails,
/// and then with that attempt's exact error.
pub proof fn lemma_many1_fails_iff_first<P: Parser>(p: Many1<P>, input: SpecInput)
    ensures
        p.spec_parse(input) is Err <==> p.p.spec_parse(input) is Err,
        p.p.spec_parse(input) matches Err(e) ==> (p.spec_parse(input) matches Err(e2) && e2
            == e),
{
}

/// Law: a conversion failure rewinds. Where the child parser succeeded but
/// the fallible map rejected its output, the parse fails with the original
/// pre-attempt input and position — not the post-parse rest — and the
/// rejection as its concrete error.
pub proof fn lemma_map_result_rewinds<P, F>(p: MapResult<P, F>, input: SpecInput) where
    P: Parser,
    F: TryMapFn<In = P::Output, Err = P::Error>,

    ensures
        p.p.spec_parse(input) matches Ok(step) ==> (p.result_mapper.spec_try_map(step.1)
            matches Err(e) ==> (p.spec_parse(input) matches Err(f) && f.0 == input && f.1.index
            == input.index && f.1.error == ParsingErrorKind::Custom(e))),
{
}

/// Law: a separated list requires at least one element: where the element
/// parser fails at the very start, the list fails with that exact error.
pub proof fn lemma_sep_by_needs_first_element<P, S>(p: SepBy<P, S>, input: SpecInput) where
    P: Parser,
    S: Parser<Error = P::Error>,

    ensures
        p.p.spec_parse(input) matches Err(e) ==> (p.spec_parse(input) matches Err(e2) && e2
            == e),
{
}

/// Law: a trailing separator attempt that fails ends the list cleanly: the
/// cursor stays where it was before the attempt, the separator is not
/// consumed, and no error is raised.
pub proof fn lemma_sep_by_stops_at_failed_separator<P, S>(p: SepBy<P, S>, input: SpecInput) where
    P: Parser,
    S: Parser<Error = P::Error>,

    ensures
        p.separator.spec_parse(input) is Err ==> (spec_sep_by_tail(p.p, p.separator, input)
            matches Ok(step) && step.0 == input && step.1 == Seq::<
            <P::Output as DeepView>::V,
        >::empty()),
{
}

/// Law: where a separator succeeded but the element after it failed, the
/// whole list fails with the element's error — a malformed element after a
/// separator is not silently truncated away.
pub proof fn lemma_sep_by_element_error_propagates<P, S>(p: SepBy<P, S>, input: SpecInput) where
    P: Parser,
    S: Parser<Error = P::Error>,

    ensures
        p.separator.spec_parse(input) matches Ok(step) ==> (p.p.spec_parse(step.0) matches Err(
            e,
        ) ==> (spec_sep_by_tail(p.p, p.separator, input) matches Err(e2) && e2 == e)),
{
}

/// Sequencing strictly consumes on success if either step does.
pub proof fn lemma_and_then_productive<P1, P2>(p: AndThen<P1, P2>) where
    P1: Parser,
    P2: Parser<Error = P1::Error>,

    requires
        p.p1.wf(),
        p.p2.wf(),
        productive(p.p1) || productive(p.p2),
    ensures
        productive(p),
{
    assert forall|i: SpecInput|
        ((#[trigger] p.spec_parse(i)) matches Ok(step) ==> step.0.data.len() < i.data.len()) by {
        p.p1.lemma_parse_invariant(i);
        match p.p1.spec_parse(i) {
            Err(_) => {},
            Ok((rest1, _)) => {
                p.p2.lemma_parse_invariant(rest1);
            },
        }
    }
}

/// Alternation strictly consumes on success if both branches do.
pub proof fn lemma_or_else_productive<P1, P2>(p: OrElse<P1, P2>) where
    P1: Parser,
    P2: Parser<Output = P1::Output, Error = P1::Error>,

    requires
        productive(p.p1),
        productive(p.p2),
    ensures
        productive(p),
{
}

/// Mapping the output does not change what is consumed.
pub proof fn lemma_map_productive<P, F>(p: MapParser<P, F>) where
    P: Parser,
    F: MapFn<In = P::Output>,

    requires
        productive(p.p),
    ensures
        productive(p),
{
}

/// Mapping the error does not change what is consumed on success.
pub proof fn lemma_map_err_productive<P, F>(p: MapError<P, F>) where
    P: Parser,
    F: ErrMapFn<In = P::Error>,

    requires
        productive(p.p),
    ensures
        productive(p),
{
}

/// A fallible output map does not change what is consumed on success.
pub proof fn lemma_map_result_productive<P, F>(p: MapResult<P, F>) where
    P: Parser,
    F: TryMapFn<In = P::Output, Err = P::Error>,

    requires
        productive(p.p),
    ensures
        productive(p),
{
}

/// Verification does not change what is consumed on success.
pub proof fn lemma_verify_productive<P, Pred>(p: Verify<P, Pred>) where
    P: Parser,
    Pred: PredFn<In = P::Output>,

    requires
        productive(p.p),
    ensures
        productive(p),
{
}

/// One-or-more repetition strictly consumes on success: at least the first
/// match does.
pub proof fn lemma_many1_productive<P: Parser>(p: Many1<P>)
    requires
        p.p.wf(),
        productive(p.p),
    ensures
        productive(p),
{
    assert forall|i: SpecInput|
        ((#[trigger] p.spec_parse(i)) matches Ok(step) ==> step.0.data.len() < i.data.len()) by {
        match p.p.spec_parse(i) {
            Err(_) => {},
            Ok((rest, _)) => {
                lemma_parse_many_invariant(p.p, rest);
            },
        }
    }
}

/// Flattening strictly consumes on success if every parser the child can
/// produce does.
pub proof fn lemma_flatten_productive<P>(p: Flatten<P>) where
    P: Parser,
    P::Output: Parser<Error = P::Error> + DeepView<V = P::Output>,

    requires
        p.0.wf(),
        forall|i: SpecInput| (#[trigger] p.0.spec_parse(i)) matches Ok(step) ==> productive(step.1),
    ensures
        productive(p),
{
    assert forall|i: SpecInput|
        ((#[trigger] p.spec_parse(i)) matches Ok(step) ==> step.0.data.len() < i.data.len()) by {
        p.0.lemma_parse_invariant(i);
    }
}

/// The pure function keeping the first component of a pair, used by
/// [`ParserOps::then_consume`].
pub struct PairFirst<A, B> {
    pub _marker: core::marker::PhantomData<(A, B)>,
}

impl<A, B> PairFirst<A, B> {
    /// The (only) value of this type.
    pub fn new() -> (r: Self) {
        PairFirst { _marker: core::marker::PhantomData }
    }
}

impl<A: DeepView, B: DeepView> MapFn for PairFirst<A, B> {
    type In = (A, B);

    type Out = A;

    open spec fn spec_map(&self, v: (A::V, B::V)) -> A::V {
        v.0
    }

    fn map_value(&self, v: (A, B)) -> (r: A) {
        v.0
    }
}

/// The pure function keeping the second component of a pair, used by
/// [`ParserOps::then_parse`].
pub struct PairSecond<A, B> {
    pub _marker: core::marker::PhantomData<(A, B)>,
}

impl<A, B> PairSecond<A, B> {
    /// The (only) value of this type.
    pub fn new() -> (r: Self) {
        PairSecond { _marker: core::marker::PhantomData }
    }
}

impl<A: DeepView, B: DeepView> MapFn for PairSecond<A, B> {
    type In = (A, B);

    type Out = B;

    open spec fn spec_map(&self, v: (A::V, B::V)) -> B::V {
        v.1
    }

    fn map_value(&self, v: (A, B)) -> (r: B) {
        v.1
    }
}

/// Separated list: one element, then repeatedly a separator followed by an
/// element. The list stops, without consuming, the moment a separator fails;
/// an element failing after a successful separator fails the whole parse.
pub struct SepBy<P, SepP> {
    pub p: P,
    pub separator: SepP,
}

/// The denotation of the repeated separator-then-element phase of [`SepBy`],
/// starting after the first element. Stops cleanly where the separator fails;
/// propagates the element's error where the separator succeeded.
pub open spec fn spec_sep_by_tail<P, S>(p: P, sep: S, input: SpecInput) -> Result<
    (SpecInput, Seq<<P::Output as DeepView>::V>),
    (SpecInput, SpecError<<P::Error as DeepView>::V>),
> where P: Parser, S: Parser<Error = P::Error>
    decreases input.data.len(),
{
    match sep.spec_parse(input) {
        Err(_) => Ok((input, Seq::empty())),
        Ok((rest1, _)) => match p.spec_parse(rest1) {
            Err(e) => Err(e),
            Ok((rest2, o)) => if rest2.data.len() < input.data.len() {
                match spec_sep_by_tail(p, sep, rest2) {
                    Ok((fin, os)) => Ok((fin, seq![o] + os)),
                    Err(e) => Err(e),
                }
            } else {
                Ok((rest2, seq![o]))
            },
        },
    }
}

/// Position bookkeeping for [`spec_sep_by_tail`].
pub proof fn lemma_sep_by_tail_invariant<P, S>(p: P, sep: S, input: SpecInput) where
    P: Parser,
    S: Parser<Error = P::Error>,

    requires
        p.wf(),
        sep.wf(),
    ensures
        match spec_sep_by_tail(p, sep, input) {
            Ok((rest, _)) => spec_advances(input, rest),
            Err((rest, e)) => spec_advances(input, rest) && input.index <= e.index,
        },
    decreases input.data.len(),
{
    sep.lemma_parse_invariant(input);
    match sep.spec_parse(input) {
        Err(_) => {
            assert(input.data =~= input.data.skip(0));
        },
        Ok((rest1, _)) => {
            p.lemma_parse_invariant(rest1);
            match p.spec_parse(rest1) {
                Err((rest2, _)) => {
                    lemma_advances_trans(input, rest1, rest2);
                },
                Ok((rest2, o)) => {
                    lemma_advances_trans(input, rest1, rest2);
                    if rest2.data.len() < input.data.len() {
                        lemma_sep_by_tail_invariant(p, sep, rest2);
                        match spec_sep_by_tail(p, sep, rest2) {
                            Ok((fin, _)) => {
                                lemma_advances_trans(input, rest2, fin);
                            },
                            Err((fin, _)) => {
                                lemma_advances_trans(input, rest2, fin);
                            },
                        }
                    }
                },
            }
        },
    }
}

impl<P, SepP> Parser for SepBy<P, SepP> where P: Parser, SepP: Parser<Error = P::Error> {
    type Output = Vec<P::Output>;

    type Error = P::Error;

    open spec fn wf(&self) -> bool {
        self.p.wf() && self.separator.wf() && productive(self.p)
    }

    open spec fn spec_parse(&self, input: SpecInput) -> SpecStep<
        <Self::Output as DeepView>::V,
        <Self::Error as DeepView>::V,
    > {
        match self.p.spec_parse(input) {
            Err(e) => Err(e),
            Ok((rest, o)) => match spec_sep_by_tail(self.p, self.separator, rest) {
                Ok((fin, os)) => Ok((fin, seq![o] + os)),
                Err(e) => Err(e),
            },
        }
    }

    proof fn lemma_parse_invariant(&self, input: SpecInput) {
        self.p.lemma_parse_invariant(input);
        match self.p.spec_parse(input) {
            Err(_) => {},
            Ok((rest, _)) => {
                lemma_sep_by_tail_invariant(self.p, self.separator, rest);
                match spec_sep_by_tail(self.p, self.separator, rest) {
                    Ok((fin, _)) => {
                        lemma_advances_trans(input, rest, fin);
                    },
                    Err((fin, _)) => {
                        lemma_advances_trans(input, rest, fin);
                    },
                }
            },
        }
    }

    fn parse<'a>(&self, input: ParserInput<&'a str>) -> (r: ParserResult<
        &'a str,
        Self::Output,
        Self::Error,
    >) {
        proof {
            self.p.lemma_parse_invariant(input@);
        }
        let first = self.p.parse(input);
        match first {
            Err(e) => Err(e),
            Ok((rest, output)) => {
                let ghost first_view = output.deep_view();
                let mut result: Vec<P::Output> = Vec::new();
                result.push(output);
                let mut current_input = rest;
                proof {
                    assert(result.deep_view() =~= seq![first_view]);
                }
                loop
                    invariant
                        self.wf(),
                        current_input@.inv(),
                        result.deep_view().len() >= 1,
                        match spec_sep_by_tail(self.p, self.separator, current_input@) {
                            Ok((fin, os)) => self.spec_parse(input@) == Ok::<
                                (SpecInput, Seq<<P::Output as DeepView>::V>),
                                (SpecInput, SpecError<<P::Error as DeepView>::V>),
                            >((fin, result.deep_view() + os)),
                            Err(e) => self.spec_parse(input@) == Err::<
                                (SpecInput, Seq<<P::Output as DeepView>::V>),
                                (SpecInput, SpecError<<P::Error as DeepView>::V>),
                            >(e),
                        },
                    decreases current_input@.data.len(),
                {
                    proof {
                        self.separator.lemma_parse_invariant(current_input@);
                    }
                    match self.separator.parse(current_input) {
                        Err(_) => {
                            proof {
                                assert(result.deep_view() + Seq::<
                                    <P::Output as DeepView>::V,
                                >::empty() =~= result.deep_view());
                            }
                            return Ok((current_input, result));
                        },
                        Ok((rest1, _)) => {
                            proof {
                                self.p.lemma_parse_invariant(rest1@);
                            }
                            match self.p.parse(rest1) {
                                Err((input_e, error)) => {
                                    return Err((input_e, error));
                                },
                                Ok((rest2, output2)) => {
                                    let ghost pre = result.deep_view();
                                    let ghost ov = output2.deep_view();
                                    let ghost tail = spec_sep_by_tail(
                                        self.p,
                                        self.separator,
                                        rest2@,
                                    );
                                    result.push(output2);
                                    current_input = rest2;
                                    proof {
                                        assert(result.deep_view() =~= pre + seq![ov]);
                                        if tail is Ok {
                                            assert((pre + seq![ov]) + tail->Ok_0.1 =~= pre + (
                                            seq![ov] + tail->Ok_0.1));
                                        }
                                    }
                                },
                            }
                        },
                    }
                }
            },
        }
    }
}

} // verus!
