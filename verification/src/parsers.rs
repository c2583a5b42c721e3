//! Positioned input: an immutable cursor over the remaining input, tracking
//! the absolute offset of that remainder within the original input.

pub mod num;
pub mod str;

pub use self::num::{float_parser, int_parser, number_str_parser, uint_parser};
pub use self::str::{
    any_char, char_parser, string_literal_parser, string_parser, whitespaces_parser,
};

use vstd::prelude::*;
use vstd::string::StrSliceExecFns;

use crate::errors::ParsingError;
use crate::traits::{productive, Parser};

verus! {

/// The remaining input `data` together with the absolute offset `index` of
/// `data`'s start within the original input.
#[derive(Clone, Copy, Debug)]
pub struct ParserInput<T> {
    pub data: T,
    pub index: usize,
}

/// The result of one parse step: on success the remaining input and the
/// output, on failure the input at which the failure was detected and the
/// positioned error.
pub type ParserResult<I, O, E> = Result<(ParserInput<I>, O), (ParserInput<I>, ParsingError<E>)>;

/// Specification-level image of a `ParserInput` over text: the remaining
/// characters and the absolute offset of the first of them.
pub struct SpecInput {
    pub data: Seq<char>,
    pub index: int,
}

impl SpecInput {
    /// The absolute offset never exceeds `usize` range even after the whole
    /// remainder is consumed.
    pub open spec fn inv(self) -> bool {
        0 <= self.index && self.index + self.data.len() <= usize::MAX
    }
}

impl<'a> View for ParserInput<&'a str> {
    type V = SpecInput;

    open spec fn view(&self) -> SpecInput {
        SpecInput { data: self.data@, index: self.index as int }
    }
}

/// How the cursor after a parse step relates to the cursor before it: the
/// index never decreases, the advance equals the number of characters
/// consumed, and the remainder is the corresponding suffix of the input.
pub open spec fn spec_advances(pre: SpecInput, post: SpecInput) -> bool {
    &&& pre.index <= post.index <= pre.index + pre.data.len()
    &&& post.data.len() == pre.data.len() - (post.index - pre.index)
    &&& post.data == pre.data.skip(post.index - pre.index)
}

/// Cursor advancement composes: two successive steps make one step.
pub proof fn lemma_advances_trans(a: SpecInput, b: SpecInput, c: SpecInput)
    requires
        spec_advances(a, b),
        spec_advances(b, c),
    ensures
        spec_advances(a, c),
{
    assert(c.data =~= a.data.skip(c.index - a.index));
}

impl<T> From<T> for ParserInput<T> {
    fn from(value: T) -> (r: Self) {
        ParserInput { data: value, index: 0 }
    }
}

impl<T> vstd::std_specs::convert::FromSpecImpl<T> for ParserInput<T> {
    open spec fn obeys_from_spec() -> bool {
        true
    }

    open spec fn from_spec(t: T) -> Self {
        ParserInput { data: t, index: 0 }
    }
}

impl<'a> ParserInput<&'a str> {
    /// Wraps a whole input value as a cursor at offset zero.
    pub fn new(data: &'a str) -> (r: Self)
        ensures
            r@.data == data@,
            r@.index == 0,
            r@.inv(),
    {
        let len = data.unicode_len();
        ParserInput { data, index: 0 }
    }

    /// A new cursor with `data` sliced from offset `by` and `index` increased
    /// by `by`.
    pub fn advance(self, by: usize) -> (r: Self)
        requires
            self@.inv(),
            by <= self@.data.len(),
        ensures
            r@.index == self@.index + by,
            r@.data == self@.data.skip(by as int),
            spec_advances(self@, r@),
            r@.inv(),
    {
        let len = self.data.unicode_len();
        ParserInput { data: self.data.substring_char(by, len), index: self.index + by }
    }
}

/// The denotation of zero-or-more repetition of `p`: successive matches until
/// the first failure, whose returned input becomes the final remainder and
/// whose error is discarded.
pub open spec fn spec_parse_many<P: Parser>(p: P, input: SpecInput) -> (
    SpecInput,
    Seq<<P::Output as DeepView>::V>,
)
    decreases input.data.len(),
{
    match p.spec_parse(input) {
        Err((rest, _)) => (rest, Seq::empty()),
        Ok((rest, o)) => if rest.data.len() < input.data.len() {
            let tail = spec_parse_many(p, rest);
            (tail.0, seq![o] + tail.1)
        } else {
            (rest, seq![o])
        },
    }
}

/// Position bookkeeping for [`spec_parse_many`].
pub proof fn lemma_parse_many_invariant<P: Parser>(p: P, input: SpecInput)
    requires
        p.wf(),
    ensures
        spec_advances(input, spec_parse_many(p, input).0),
    decreases input.data.len(),
{
    p.lemma_parse_invariant(input);
    match p.spec_parse(input) {
        Err(_) => {},
        Ok((rest, _)) => {
            if rest.data.len() < input.data.len() {
                lemma_parse_many_invariant(p, rest);
                lemma_advances_trans(input, rest, spec_parse_many(p, rest).0);
            }
        },
    }
}

/// Runs `parser` repeatedly against successive remainders until it fails;
/// the failing attempt's input becomes the final remainder and its error is
/// discarded. Implemented iteratively, so the stack does not grow with the
/// repetition count.
pub fn parse_many<'a, P: Parser>(parser: &P, input: ParserInput<&'a str>) -> (r: (
    ParserInput<&'a str>,
    Vec<P::Output>,
))
    requires
        parser.wf(),
        productive(*parser),
        input@.inv(),
    ensures
        r.0@ == spec_parse_many(*parser, input@).0,
        r.1.deep_view() == spec_parse_many(*parser, input@).1,
{
    let mut result: Vec<P::Output> = Vec::new();
    let mut current_input = input;
    proof {
        assert(result.deep_view() =~= Seq::<<P::Output as DeepView>::V>::empty());
    }
    loop
        invariant
            parser.wf(),
            productive(*parser),
            current_input@.inv(),
            spec_parse_many(*parser, input@).0 == spec_parse_many(*parser, current_input@).0,
            spec_parse_many(*parser, input@).1 == result.deep_view() + spec_parse_many(
                *parser,
                current_input@,
            ).1,
        decreases current_input@.data.len(),
    {
        proof {
            parser.lemma_parse_invariant(current_input@);
        }
        match parser.parse(current_input) {
            Ok((rest, output)) => {
                let ghost pre = result.deep_view();
                let ghost ov = output.deep_view();
                let ghost tail = spec_parse_many(*parser, rest@);
                result.push(output);
                current_input = rest;
                proof {
                    assert(result.deep_view() =~= pre + seq![ov]);
                    assert((pre + seq![ov]) + tail.1 =~= pre + (seq![ov] + tail.1));
                }
            },
            Err((failed_input, _)) => {
                proof {
                    assert(result.deep_view() + Seq::<
                        <P::Output as DeepView>::V,
                    >::empty() =~= result.deep_view());
                }
                return (failed_input, result);
            },
        }
    }
}

} // verus!
