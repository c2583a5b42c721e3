//! The numeric literal layer: digit classification, digit-run parsing built
//! from the combinators, and checked conversion of numeral strings into
//! native integers.

use vstd::prelude::*;
use vstd::string::StringExecFns;

use crate::combinators::{
    lemma_flatten_productive, lemma_many1_productive, lemma_map_err_productive,
    lemma_map_productive, lemma_verify_productive, AndThen, Flatten, Many1, MapError, MapParser,
    MapResult, Optional, PairSecond, Verify,
};
use crate::errors::{ParsingErrorKind, StrParsingErrorKind, StrParsingErrors};
use crate::parsers::str::{lemma_any_char_productive, push_char, AnyChar, CharParser};
use crate::parsers::{spec_parse_many, ParserInput, ParserResult, SpecInput};
use crate::traits::{productive, ErrMapFn, MapFn, Parser, PredFn, SpecStep, ThenParse, TryMapFn};

verus! {

/// The value a character denotes as a digit: `0`–`9` for the decimal digits,
/// `10`–`35` for letters in either case, and `36` (no digit in any supported
/// radix) for everything else.
pub open spec fn spec_digit_value(c: char) -> int {
    let u = c as u32;
    if 48 <= u <= 57 {
        u - 48
    } else if 97 <= u <= 122 {
        10 + (u - 97)
    } else if 65 <= u <= 90 {
        10 + (u - 65)
    } else {
        36
    }
}

/// Whether `c` is a digit of the given radix.
pub open spec fn spec_is_digit(c: char, radix: u32) -> bool {
    spec_digit_value(c) < radix
}

/// The digit value of `c`, or `36` where `c` is no digit at all.
pub fn char_digit_value(c: char) -> (r: u32)
    ensures
        r == spec_digit_value(c),
{
    let u = c as u32;
    if 48 <= u && u <= 57 {
        u - 48
    } else if 97 <= u && u <= 122 {
        10 + (u - 97)
    } else if 65 <= u && u <= 90 {
        10 + (u - 65)
    } else {
        36
    }
}

/// Whether `c` is a digit of the given radix.
pub fn digit_in_radix(c: char, radix: u32) -> (r: bool)
    ensures
        r == spec_is_digit(c, radix),
{
    char_digit_value(c) < radix
}

/// The integer a run of digits denotes, most significant digit first.
pub open spec fn spec_digits_value(s: Seq<char>, radix: u32) -> int
    decreases s.len(),
{
    if s.len() == 0 {
        0
    } else {
        spec_digits_value(s.drop_last(), radix) * radix + spec_digit_value(s.last())
    }
}

/// Whether every character of `s` is a digit of the given radix.
pub open spec fn spec_all_digits(s: Seq<char>, radix: u32) -> bool {
    forall|i: int| 0 <= i < s.len() ==> spec_is_digit(#[trigger] s[i], radix)
}

/// The shape of a numeral string: an optional leading minus sign followed by
/// at least one digit of the radix.
pub open spec fn spec_numeral_wf(s: Seq<char>, radix: u32) -> bool {
    if s.len() > 0 && s[0] == '-' {
        s.len() >= 2 && spec_all_digits(s.skip(1), radix)
    } else {
        s.len() >= 1 && spec_all_digits(s, radix)
    }
}

/// The signed integer a numeral string denotes.
pub open spec fn spec_numeral_value(s: Seq<char>, radix: u32) -> int {
    if s.len() > 0 && s[0] == '-' {
        -spec_digits_value(s.skip(1), radix)
    } else {
        spec_digits_value(s, radix)
    }
}

/// A digit run never denotes a negative integer.
pub proof fn lemma_digits_value_nonneg(s: Seq<char>, radix: u32)
    ensures
        spec_digits_value(s, radix) >= 0,
    decreases s.len(),
{
    if s.len() > 0 {
        lemma_digits_value_nonneg(s.drop_last(), radix);
        let prefix = spec_digits_value(s.drop_last(), radix);
        let d = spec_digit_value(s.last());
        assert(prefix * radix + d >= 0) by (nonlinear_arith)
            requires
                prefix >= 0,
                radix >= 0,
                d >= 0,
        ;
    }
}

/// Reading one more digit multiplies the prefix value by the radix and adds
/// that digit.
pub proof fn lemma_digits_value_step(s: Seq<char>, radix: u32, i: int)
    requires
        0 <= i < s.len(),
    ensures
        spec_digits_value(s.take(i + 1), radix) == spec_digits_value(s.take(i), radix) * radix
            + spec_digit_value(s[i]),
{
    assert(s.take(i + 1).drop_last() =~= s.take(i));
    assert(s.take(i + 1).last() == s[i]);
}

/// The value of a digit run is monotone in the length of its prefix.
pub proof fn lemma_digits_value_prefix_le(s: Seq<char>, radix: u32, i: int, j: int)
    requires
        1 <= radix,
        0 <= i <= j <= s.len(),
    ensures
        spec_digits_value(s.take(i), radix) <= spec_digits_value(s.take(j), radix),
    decreases j - i,
{
    if i < j {
        lemma_digits_value_prefix_le(s, radix, i, j - 1);
        lemma_digits_value_step(s, radix, j - 1);
        lemma_digits_value_nonneg(s.take(j - 1), radix);
        let prefix = spec_digits_value(s.take(j - 1), radix);
        let d = spec_digit_value(s[j - 1]);
        assert(prefix <= prefix * radix + d) by (nonlinear_arith)
            requires
                prefix >= 0,
                radix >= 1,
                d >= 0,
        ;
    }
}

/// The registry entry attaching radix-aware parsing to one native integer
/// type: its signedness, its range, and a checked conversion from a parsed
/// sign and magnitude, with overflow detection.
pub trait ParseableInteger: Sized + DeepView<V = Self> {
    /// Whether the type is signed.
    spec fn spec_signed() -> bool;

    /// The least value of the type.
    spec fn spec_min() -> int;

    /// The greatest value of the type.
    spec fn spec_max() -> int;

    /// The value of the type denoting the integer `v`.
    spec fn spec_from_int(v: int) -> Self;

    /// The type's range surrounds zero, fits below `u64::MAX` and above its
    /// negation, and an unsigned type admits nothing negative.
    proof fn lemma_range()
        ensures
            Self::spec_min() <= 0 <= Self::spec_max(),
            Self::spec_max() <= u64::MAX as int,
            -(u64::MAX as int) <= Self::spec_min(),
            !Self::spec_signed() ==> Self::spec_min() == 0,
    ;

    /// The checked conversion: `Some` exactly where the signed magnitude lies
    /// in the type's range.
    fn of_parts(negative: bool, magnitude: u64) -> (r: Option<Self>)
        ensures
            ({
                let v = if negative {
                    -(magnitude as int)
                } else {
                    magnitude as int
                };
                match r {
                    Some(n) => Self::spec_min() <= v <= Self::spec_max() && n.deep_view()
                        == Self::spec_from_int(v),
                    None => !(Self::spec_min() <= v <= Self::spec_max()),
                }
            }),
    ;
}

impl ParseableInteger for u8 {
    open spec fn spec_signed() -> bool {
        false
    }

    open spec fn spec_min() -> int {
        0
    }

    open spec fn spec_max() -> int {
        u8::MAX as int
    }

    open spec fn spec_from_int(v: int) -> Self {
        v as u8
    }

    proof fn lemma_range() {
    }

    fn of_parts(negative: bool, magnitude: u64) -> (r: Option<Self>) {
        if negative && magnitude > 0 {
            None
        } else if magnitude <= u8::MAX as u64 {
            Some(magnitude as u8)
        } else {
            None
        }
    }
}

impl ParseableInteger for u16 {
    open spec fn spec_signed() -> bool {
        false
    }

    open spec fn spec_min() -> int {
        0
    }

    open spec fn spec_max() -> int {
        u16::MAX as int
    }

    open spec fn spec_from_int(v: int) -> Self {
        v as u16
    }

    proof fn lemma_range() {
    }

    fn of_parts(negative: bool, magnitude: u64) -> (r: Option<Self>) {
        if negative && magnitude > 0 {
            None
        } else if magnitude <= u16::MAX as u64 {
            Some(magnitude as u16)
        } else {
            None
        }
    }
}

impl ParseableInteger for u32 {
    open spec fn spec_signed() -> bool {
        false
    }

    open spec fn spec_min() -> int {
        0
    }

    open spec fn spec_max() -> int {
        u32::MAX as int
    }

    open spec fn spec_from_int(v: int) -> Self {
        v as u32
    }

    proof fn lemma_range() {
    }

    fn of_parts(negative: bool, magnitude: u64) -> (r: Option<Self>) {
        if negative && magnitude > 0 {
            None
        } else if magnitude <= u32::MAX as u64 {
            Some(magnitude as u32)
        } else {
            None
        }
    }
}

impl ParseableInteger for u64 {
    open spec fn spec_signed() -> bool {
        false
    }

    open spec fn spec_min() -> int {
        0
    }

    open spec fn spec_max() -> int {
        u64::MAX as int
    }

    open spec fn spec_from_int(v: int) -> Self {
        v as u64
    }

    proof fn lemma_range() {
    }

    fn of_parts(negative: bool, magnitude: u64) -> (r: Option<Self>) {
        if negative && magnitude > 0 {
            None
        } else {
            Some(magnitude)
        }
    }
}

impl ParseableInteger for usize {
    open spec fn spec_signed() -> bool {
        false
    }

    open spec fn spec_min() -> int {
        0
    }

    open spec fn spec_max() -> int {
        usize::MAX as int
    }

    open spec fn spec_from_int(v: int) -> Self {
        v as usize
    }

    proof fn lemma_range() {
    }

    fn of_parts(negative: bool, magnitude: u64) -> (r: Option<Self>) {
        if negative && magnitude > 0 {
            None
        } else if magnitude <= usize::MAX as u64 {
            Some(magnitude as usize)
        } else {
            None
        }
    }
}

impl ParseableInteger for i8 {
    open spec fn spec_signed() -> bool {
        true
    }

    open spec fn spec_min() -> int {
        i8::MIN as int
    }

    open spec fn spec_max() -> int {
        i8::MAX as int
    }

    open spec fn spec_from_int(v: int) -> Self {
        v as i8
    }

    proof fn lemma_range() {
    }

    fn of_parts(negative: bool, magnitude: u64) -> (r: Option<Self>) {
        if negative {
            if magnitude <= 128 {
                Some((-(magnitude as i64)) as i8)
            } else {
                None
            }
        } else {
            if magnitude <= i8::MAX as u64 {
                Some(magnitude as i8)
            } else {
                None
            }
        }
    }
}

impl ParseableInteger for i16 {
    open spec fn spec_signed() -> bool {
        true
    }

    open spec fn spec_min() -> int {
        i16::MIN as int
    }

    open spec fn spec_max() -> int {
        i16::MAX as int
    }

    open spec fn spec_from_int(v: int) -> Self {
        v as i16
    }

    proof fn lemma_range() {
    }

    fn of_parts(negative: bool, magnitude: u64) -> (r: Option<Self>) {
        if negative {
            if magnitude <= 32768 {
                Some((-(magnitude as i64)) as i16)
            } else {
                None
            }
        } else {
            if magnitude <= i16::MAX as u64 {
                Some(magnitude as i16)
            } else {
                None
            }
        }
    }
}

impl ParseableInteger for i32 {
    open spec fn spec_signed() -> bool {
        true
    }

    open spec fn spec_min() -> int {
        i32::MIN as int
    }

    open spec fn spec_max() -> int {
        i32::MAX as int
    }

    open spec fn spec_from_int(v: int) -> Self {
        v as i32
    }

    proof fn lemma_range() {
    }

    fn of_parts(negative: bool, magnitude: u64) -> (r: Option<Self>) {
        if negative {
            if magnitude <= 2147483648 {
                Some((-(magnitude as i64)) as i32)
            } else {
                None
            }
        } else {
            if magnitude <= i32::MAX as u64 {
                Some(magnitude as i32)
            } else {
                None
            }
        }
    }
}

impl ParseableInteger for i64 {
    open spec fn spec_signed() -> bool {
        true
    }

    open spec fn spec_min() -> int {
        i64::MIN as int
    }

    open spec fn spec_max() -> int {
        i64::MAX as int
    }

    open spec fn spec_from_int(v: int) -> Self {
        v as i64
    }

    proof fn lemma_range() {
    }

    fn of_parts(negative: bool, magnitude: u64) -> (r: Option<Self>) {
        if negative {
            if magnitude <= 9223372036854775808u64 {
                if magnitude == 9223372036854775808u64 {
                    Some(i64::MIN)
                } else {
                    Some(-(magnitude as i64))
                }
            } else {
                None
            }
        } else {
            if magnitude <= i64::MAX as u64 {
                Some(magnitude as i64)
            } else {
                None
            }
        }
    }
}

impl ParseableInteger for isize {
    open spec fn spec_signed() -> bool {
        true
    }

    open spec fn spec_min() -> int {
        isize::MIN as int
    }

    open spec fn spec_max() -> int {
        isize::MAX as int
    }

    open spec fn spec_from_int(v: int) -> Self {
        v as isize
    }

    proof fn lemma_range() {
    }

    fn of_parts(negative: bool, magnitude: u64) -> (r: Option<Self>) {
        if negative {
            if magnitude < isize::MAX as u64 {
                Some(-(magnitude as isize))
            } else if magnitude == (isize::MAX as u64) + 1 {
                Some(isize::MIN)
            } else if magnitude == isize::MAX as u64 {
                Some(-(magnitude as isize))
            } else {
                None
            }
        } else {
            if magnitude <= isize::MAX as u64 {
                Some(magnitude as isize)
            } else {
                None
            }
        }
    }
}

/// The checked conversion of an assembled numeral string into the native
/// integer type `N`: exactly the numerals of `N`'s radix shape whose value
/// lies in `N`'s range convert; everything else is a `NumberOverflow`.
pub struct IntFromNumeral<N> {
    pub radix: u32,
    pub _marker: core::marker::PhantomData<N>,
}

impl<N> IntFromNumeral<N> {
    /// The conversion for the given radix.
    pub fn new(radix: u32) -> (r: Self)
        ensures
            r.radix == radix,
    {
        IntFromNumeral { radix, _marker: core::marker::PhantomData }
    }
}

impl<N: ParseableInteger> TryMapFn for IntFromNumeral<N> {
    type In = String;

    type Out = N;

    type Err = StrParsingErrors;

    open spec fn spec_try_map(&self, v: Seq<char>) -> Result<
        N,
        Seq<StrParsingErrorKind<Seq<char>>>,
    > {
        if 2 <= self.radix <= 36 && spec_numeral_wf(v, self.radix) && N::spec_min()
            <= spec_numeral_value(v, self.radix) <= N::spec_max() {
            Ok(N::spec_from_int(spec_numeral_value(v, self.radix)))
        } else {
            Err(seq![StrParsingErrorKind::NumberOverflow])
        }
    }

    fn try_map_value(&self, v: String) -> (r: Result<N, StrParsingErrors>) {
        let radix = self.radix;
        if radix < 2 || radix > 36 {
            return Err(StrParsingErrors::with_error_kind(StrParsingErrorKind::NumberOverflow));
        }
        let s = v.as_str();
        let n = s.unicode_len();
        let mut start: usize = 0;
        let mut negative = false;
        if n > 0 && s.get_char(0) == '-' {
            negative = true;
            start = 1;
        }
        if start >= n {
            return Err(StrParsingErrors::with_error_kind(StrParsingErrorKind::NumberOverflow));
        }
        let ghost digits: Seq<char> = if negative {
            v@.skip(1)
        } else {
            v@
        };
        proof {
            assert(digits.len() == n - start);
        }
        let mut mag: u64 = 0;
        let mut i: usize = start;
        while i < n
            invariant
                radix == self.radix,
                2 <= radix <= 36,
                s@ == v@,
                n == v@.len(),
                start <= i <= n,
                start == 1 <==> negative,
                start <= 1,
                negative ==> n > 0 && v@[0] == '-',
                !negative ==> !(n > 0 && v@[0] == '-'),
                digits == if negative {
                    v@.skip(1)
                } else {
                    v@
                },
                digits.len() == n - start,
                forall|j: int| 0 <= j < i - start ==> spec_is_digit(#[trigger] digits[j], radix),
                mag as int == spec_digits_value(digits.take(i - start), radix),
            decreases n - i,
        {
            let c = s.get_char(i);
            let d = char_digit_value(c);
            proof {
                assert(digits[i - start] == c);
            }
            if d >= radix {
                proof {
                    assert(!spec_is_digit(digits[i - start], radix));
                    assert(!spec_all_digits(digits, radix));
                    assert(!spec_numeral_wf(v@, radix));
                }
                return Err(
                    StrParsingErrors::with_error_kind(StrParsingErrorKind::NumberOverflow),
                );
            }
            let limit = (u64::MAX - d as u64) / (radix as u64);
            proof {
                let m = mag as int;
                let rr = radix as int;
                let dd = d as int;
                let mx = u64::MAX as int;
                lemma_digits_value_step(digits, radix, i - start);
                if m <= (mx - dd) / rr {
                    assert(m * rr + dd <= mx) by (nonlinear_arith)
                        requires
                            m <= (mx - dd) / rr,
                            2 <= rr,
                            0 <= dd < rr,
                            0 <= mx,
                            dd <= mx,
                    ;
                } else {
                    assert(m * rr + dd > mx) by (nonlinear_arith)
                        requires
                            m > (mx - dd) / rr,
                            2 <= rr,
                            0 <= dd < rr,
                            0 <= mx,
                            dd <= mx,
                    ;
                }
            }
            if mag > limit {
                proof {
                    // The value of the digits read so far already exceeds
                    // u64::MAX, so the whole run's value lies outside the
                    // range of every supported type.
                    lemma_digits_value_prefix_le(digits, radix, i - start + 1, digits.len() as int);
                    assert(digits.take(digits.len() as int) =~= digits);
                    N::lemma_range();
                    assert(spec_digits_value(digits, radix) > u64::MAX as int);
                }
                return Err(
                    StrParsingErrors::with_error_kind(StrParsingErrorKind::NumberOverflow),
                );
            }
            mag = mag * (radix as u64) + (d as u64);
            i += 1;
        }
        proof {
            assert(digits.take(digits.len() as int) =~= digits);
            assert(spec_all_digits(digits, radix));
            assert(spec_numeral_wf(v@, radix));
            if negative {
                assert(spec_numeral_value(v@, radix) == -(mag as int));
            } else {
                assert(spec_numeral_value(v@, radix) == mag as int);
            }
        }
        match N::of_parts(negative, mag) {
            Some(x) => Ok(x),
            None => Err(StrParsingErrors::with_error_kind(StrParsingErrorKind::NumberOverflow)),
        }
    }
}

/// The predicate accepting digits of one radix.
pub struct IsDigit {
    pub radix: u32,
}

impl PredFn for IsDigit {
    type In = char;

    open spec fn spec_test(&self, c: char) -> bool {
        spec_is_digit(c, self.radix)
    }

    fn test(&self, c: &char) -> (b: bool) {
        digit_in_radix(*c, self.radix)
    }
}

/// The pure function assembling a parsed digit run into a numeral string,
/// prepending a minus sign where the numeral is negative.
pub struct JoinDigits {
    pub signed: bool,
}

impl MapFn for JoinDigits {
    type In = Vec<char>;

    type Out = String;

    open spec fn spec_map(&self, v: Seq<char>) -> Seq<char> {
        if self.signed {
            seq!['-'] + v
        } else {
            v
        }
    }

    fn map_value(&self, v: Vec<char>) -> (r: String) {
        let ghost prefix: Seq<char> = if self.signed {
            seq!['-']
        } else {
            Seq::empty()
        };
        let mut s = String::new();
        if self.signed {
            push_char(&mut s, '-');
        }
        proof {
            assert(s@ =~= prefix + v@.take(0));
        }
        let n = v.len();
        let mut i: usize = 0;
        while i < n
            invariant
                n == v@.len(),
                0 <= i <= n,
                prefix == if self.signed {
                    seq!['-']
                } else {
                    Seq::<char>::empty()
                },
                s@ == prefix + v@.take(i as int),
            decreases n - i,
        {
            push_char(&mut s, v[i]);
            proof {
                assert(v@.take(i + 1) =~= v@.take(i as int).push(v@[i as int]));
                assert(s@ =~= prefix + v@.take(i + 1));
            }
            i += 1;
        }
        proof {
            assert(v@.take(n as int) =~= v@);
            assert(v.deep_view() =~= v@);
            if !self.signed {
                assert(prefix + v@ =~= v@);
            }
        }
        s
    }
}

/// The pure function translating the generic verification-failure marker a
/// failed digit check leaves behind into the concrete `ExpectingDigit` error;
/// a concrete error passes through untouched.
pub struct DigitErrMap;

impl ErrMapFn for DigitErrMap {
    type In = StrParsingErrors;

    type Out = StrParsingErrors;

    open spec fn spec_map_err(
        &self,
        e: ParsingErrorKind<Seq<StrParsingErrorKind<Seq<char>>>>,
    ) -> Seq<StrParsingErrorKind<Seq<char>>> {
        match e {
            ParsingErrorKind::VerifyError => seq![StrParsingErrorKind::ExpectingDigit],
            ParsingErrorKind::Custom(errs) => errs,
        }
    }

    fn map_err_value(&self, e: ParsingErrorKind<StrParsingErrors>) -> (r: StrParsingErrors) {
        match e {
            ParsingErrorKind::VerifyError => StrParsingErrors::with_error_kind(
                StrParsingErrorKind::ExpectingDigit,
            ),
            ParsingErrorKind::Custom(errs) => errs,
        }
    }
}

/// The shape of the digit-run grammar: one-or-more digit characters, joined
/// into a numeral string, with the digit check's generic failure translated
/// into `ExpectingDigit`.
pub type DigitRunTree = MapError<MapParser<Many1<Verify<AnyChar, IsDigit>>, JoinDigits>, DigitErrMap>;

/// The digit-run grammar for one radix and signedness.
pub open spec fn spec_digit_run(radix: u32, signed: bool) -> DigitRunTree {
    MapError {
        p: MapParser {
            p: Many1 { p: Verify { p: AnyChar, pred: IsDigit { radix } } },
            mapper: JoinDigits { signed },
        },
        err_mapper: DigitErrMap,
    }
}

/// The digit-run grammar is well formed: a digit match always consumes the
/// matched character.
pub proof fn lemma_digit_run_wf(radix: u32, signed: bool)
    ensures
        spec_digit_run(radix, signed).wf(),
{
    lemma_any_char_productive();
    lemma_verify_productive(Verify { p: AnyChar, pred: IsDigit { radix } });
}

/// A digit-run parser: one-or-more digits of the radix, assembled into a
/// numeral string carrying the requested sign. Built from `AnyChar`, a digit
/// verification, one-or-more repetition and the two pure functions above.
#[derive(Clone, Copy, Debug)]
pub struct NumberStrParser {
    pub radix: u32,
    pub signed: bool,
}

impl DeepView for NumberStrParser {
    type V = NumberStrParser;

    open spec fn deep_view(&self) -> Self {
        *self
    }
}

impl Parser for NumberStrParser {
    type Output = String;

    type Error = StrParsingErrors;

    open spec fn spec_parse(&self, input: SpecInput) -> SpecStep<
        Seq<char>,
        Seq<StrParsingErrorKind<Seq<char>>>,
    > {
        spec_digit_run(self.radix, self.signed).spec_parse(input)
    }

    proof fn lemma_parse_invariant(&self, input: SpecInput) {
        lemma_digit_run_wf(self.radix, self.signed);
        spec_digit_run(self.radix, self.signed).lemma_parse_invariant(input);
    }

    fn parse<'a>(&self, input: ParserInput<&'a str>) -> (r: ParserResult<
        &'a str,
        Self::Output,
        Self::Error,
    >) {
        let tree: DigitRunTree = MapError {
            p: MapParser {
                p: Many1 { p: Verify { p: AnyChar, pred: IsDigit { radix: self.radix } } },
                mapper: JoinDigits { signed: self.signed },
            },
            err_mapper: DigitErrMap,
        };
        proof {
            assert(tree == spec_digit_run(self.radix, self.signed));
            lemma_digit_run_wf(self.radix, self.signed);
        }
        tree.parse(input)
    }
}

/// A digit run strictly consumes input on every success.
pub proof fn lemma_number_str_productive(p: NumberStrParser)
    ensures
        productive(p),
{
    lemma_any_char_productive();
    lemma_verify_productive(Verify { p: AnyChar, pred: IsDigit { radix: p.radix } });
    lemma_many1_productive(Many1 { p: Verify { p: AnyChar, pred: IsDigit { radix: p.radix } } });
    lemma_map_productive(
        MapParser {
            p: Many1 { p: Verify { p: AnyChar, pred: IsDigit { radix: p.radix } } },
            mapper: JoinDigits { signed: p.signed },
        },
    );
    lemma_map_err_productive(spec_digit_run(p.radix, p.signed));
    assert forall|i: SpecInput|
        ((#[trigger] p.spec_parse(i)) matches Ok(step) ==> step.0.data.len() < i.data.len()) by {
        assert(p.spec_parse(i) == spec_digit_run(p.radix, p.signed).spec_parse(i));
    }
}


/// What repeated digit matching consumes and returns: exactly the longest
/// leading run of digits, as characters, in order.
pub proof fn lemma_digit_many_output(radix: u32, input: SpecInput)
    ensures
        ({
            let step = spec_parse_many(Verify { p: AnyChar, pred: IsDigit { radix } }, input);
            &&& step.1 =~= input.data.take(step.1.len() as int)
            &&& spec_all_digits(step.1, radix)
            &&& step.1.len() == input.data.len() - step.0.data.len()
        }),
    decreases input.data.len(),
{
    let p = Verify { p: AnyChar, pred: IsDigit { radix } };
    let step = spec_parse_many(p, input);
    match p.spec_parse(input) {
        Err(_) => {
            assert(step.1 =~= input.data.take(0));
        },
        Ok((rest, c)) => {
            lemma_digit_many_output(radix, rest);
            let tail = spec_parse_many(p, rest);
            assert(rest.data =~= input.data.skip(1));
            assert(step.1 =~= input.data.take(step.1.len() as int)) by {
                assert forall|k: int| 0 <= k < step.1.len() implies step.1[k] == input.data[k] by {
                    if k > 0 {
                        assert(tail.1[k - 1] == rest.data[k - 1]);
                    }
                }
            }
            assert(spec_all_digits(step.1, radix)) by {
                assert forall|k: int| 0 <= k < step.1.len() implies spec_is_digit(
                    #[trigger] step.1[k],
                    radix,
                ) by {
                    if k > 0 {
                        assert(spec_is_digit(tail.1[k - 1], radix));
                    }
                }
            }
        },
    }
}

/// What the digit-run parser returns on success: the sign prefix it was
/// asked for, followed by exactly the digits it consumed — the longest
/// non-empty leading run of digits of its radix.
pub proof fn lemma_number_str_output(p: NumberStrParser, input: SpecInput)
    ensures
        p.spec_parse(input) matches Ok(step) ==> ({
            let digits = input.data.take(input.data.len() - step.0.data.len());
            &&& input.data.len() > step.0.data.len()
            &&& spec_all_digits(digits, p.radix)
            &&& step.1 == if p.signed {
                seq!['-'] + digits
            } else {
                digits
            }
        }),
{
    let radix = p.radix;
    let child = Verify { p: AnyChar, pred: IsDigit { radix } };
    if p.spec_parse(input) is Ok {
        let step = p.spec_parse(input)->Ok_0;
        lemma_digit_many_output(radix, SpecInput { data: input.data.skip(1), index: input.index + 1 });
        let rest1 = SpecInput { data: input.data.skip(1), index: input.index + 1 };
        let tail = spec_parse_many(child, rest1);
        let digits = input.data.take(input.data.len() - step.0.data.len());
        assert(seq![input.data[0]] + tail.1 =~= digits) by {
            assert(tail.1 =~= rest1.data.take(tail.1.len() as int));
            assert forall|k: int| 0 <= k < digits.len() implies (seq![input.data[0]]
                + tail.1)[k] == digits[k] by {
                if k > 0 {
                    assert(tail.1[k - 1] == rest1.data[k - 1]);
                }
            }
        }
        assert(spec_all_digits(digits, radix)) by {
            assert forall|k: int| 0 <= k < digits.len() implies spec_is_digit(
                #[trigger] digits[k],
                radix,
            ) by {
                if k > 0 {
                    assert(spec_is_digit(tail.1[k - 1], radix));
                }
            }
        }
        if p.signed {
            assert(step.1 =~= seq!['-'] + digits);
        } else {
            assert(step.1 =~= digits);
        }
    }
}

/// The digit-run parser: one-or-more digits of `radix`, assembled into a
/// numeral string; `signed` says whether the numeral carries a minus sign.
pub fn number_str_parser(radix: u32, signed: bool) -> (p: NumberStrParser)
    ensures
        p == (NumberStrParser { radix, signed }),
        p.wf(),
{
    NumberStrParser { radix, signed }
}

/// An unsigned-integer parser: a digit run with no sign allowed, converted
/// into `N` with overflow detection.
pub type UintParser<N> = MapResult<NumberStrParser, IntFromNumeral<N>>;

/// The parser for an unsigned integer of type `N` in the given radix. A
/// leading sign is rejected by the digit verification at the first character.
pub fn uint_parser<N: ParseableInteger>(radix: u32) -> (p: UintParser<N>)
    requires
        2 <= radix <= 36,
        !N::spec_signed(),
    ensures
        p.p == (NumberStrParser { radix, signed: false }),
        p.result_mapper.radix == radix,
        p.wf(),
{
    MapResult {
        p: NumberStrParser { radix, signed: false },
        result_mapper: IntFromNumeral::new(radix),
    }
}

/// The pure function choosing the digit-run parser according to whether a
/// minus sign was present before it.
pub struct SignToNumeral {
    pub radix: u32,
}

impl MapFn for SignToNumeral {
    type In = Option<char>;

    type Out = NumberStrParser;

    open spec fn spec_map(&self, v: Option<char>) -> NumberStrParser {
        NumberStrParser { radix: self.radix, signed: v is Some }
    }

    fn map_value(&self, v: Option<char>) -> (r: NumberStrParser) {
        NumberStrParser { radix: self.radix, signed: v.is_some() }
    }
}

/// A signed-numeral parser: an optional minus sign, threaded into the
/// digit-run parser so that the assembled numeral string carries the sign.
pub type SignedNumeralParser = Flatten<MapParser<Optional<CharParser>, SignToNumeral>>;

/// The signed-numeral grammar for one radix.
pub open spec fn spec_signed_numeral(radix: u32) -> SignedNumeralParser {
    Flatten(
        MapParser { p: Optional(CharParser { expected: '-' }), mapper: SignToNumeral { radix } },
    )
}

/// The signed-numeral grammar is well formed.
pub proof fn lemma_signed_numeral_wf(radix: u32)
    ensures
        spec_signed_numeral(radix).wf(),
{
}

/// A signed numeral strictly consumes input on every success: whether or not
/// a sign is present, the digit run does.
pub proof fn lemma_signed_numeral_productive(radix: u32)
    ensures
        productive(spec_signed_numeral(radix)),
{
    lemma_signed_numeral_wf(radix);
    assert forall|q: NumberStrParser| #[trigger] productive(q) by {
        lemma_number_str_productive(q);
    }
    lemma_flatten_productive(spec_signed_numeral(radix));
}

/// The signed-numeral grammar for one radix.
pub fn signed_numeral_parser(radix: u32) -> (p: SignedNumeralParser)
    ensures
        p == spec_signed_numeral(radix),
        p.wf(),
{
    let p = Flatten(
        MapParser { p: Optional(CharParser { expected: '-' }), mapper: SignToNumeral { radix } },
    );
    proof {
        lemma_signed_numeral_wf(radix);
    }
    p
}

/// A signed-integer parser: an optional sign threaded into the digit run,
/// converted into `N` with overflow detection.
pub type IntParser<N> = MapResult<SignedNumeralParser, IntFromNumeral<N>>;

/// The parser for a signed integer of type `N` in the given radix.
pub fn int_parser<N: ParseableInteger>(radix: u32) -> (p: IntParser<N>)
    requires
        2 <= radix <= 36,
        N::spec_signed(),
    ensures
        p.p == spec_signed_numeral(radix),
        p.result_mapper.radix == radix,
        p.wf(),
{
    let p = MapResult { p: signed_numeral_parser(radix), result_mapper: IntFromNumeral::new(radix) };
    p
}


/// Law: on success, the unsigned-integer parser returns exactly the value of
/// the non-empty leading digit run it consumed, read in its radix, and that
/// value lies in the type's range.
pub proof fn lemma_uint_parser_value<N: ParseableInteger>(p: UintParser<N>, input: SpecInput)
    requires
        2 <= p.result_mapper.radix <= 36,
        p.p == (NumberStrParser { radix: p.result_mapper.radix, signed: false }),
    ensures
        p.spec_parse(input) matches Ok(step) ==> ({
            let radix = p.result_mapper.radix;
            let n = input.data.len() - step.0.data.len();
            let digits = input.data.take(n as int);
            &&& 1 <= n <= input.data.len()
            &&& spec_all_digits(digits, radix)
            &&& N::spec_min() <= spec_digits_value(digits, radix) <= N::spec_max()
            &&& step.1 == N::spec_from_int(spec_digits_value(digits, radix))
        }),
{
    let radix = p.result_mapper.radix;
    lemma_number_str_output(p.p, input);
    if p.spec_parse(input) is Ok {
        let inner = p.p.spec_parse(input)->Ok_0;
        let n = input.data.len() - inner.0.data.len();
        let digits = input.data.take(n as int);
        // The numeral is the digit run itself: its first character is a
        // digit, so it carries no minus sign, and its value is the run's.
        assert(inner.1 == digits);
        assert(spec_is_digit(digits[0], radix));
        assert(digits[0] != '-');
        assert(spec_numeral_wf(digits, radix));
        assert(spec_numeral_value(digits, radix) == spec_digits_value(digits, radix));
    }
}

/// Law: on success, the signed-integer parser returns exactly the signed
/// value of what it consumed: the value of the digit run, negated where a
/// minus sign preceded it.
pub proof fn lemma_int_parser_value<N: ParseableInteger>(p: IntParser<N>, input: SpecInput)
    requires
        2 <= p.result_mapper.radix <= 36,
        p.p == spec_signed_numeral(p.result_mapper.radix),
    ensures
        p.spec_parse(input) matches Ok(step) ==> ({
            let radix = p.result_mapper.radix;
            let negative = input.data.len() > 0 && input.data[0] == '-';
            let start = if negative { 1int } else { 0int };
            let n = input.data.len() - step.0.data.len() - start;
            let digits = input.data.skip(start).take(n);
            let v = if negative {
                -spec_digits_value(digits, radix)
            } else {
                spec_digits_value(digits, radix)
            };
            &&& 1 <= n <= input.data.len() - start
            &&& spec_all_digits(digits, radix)
            &&& N::spec_min() <= v <= N::spec_max()
            &&& step.1 == N::spec_from_int(v)
        }),
{
    let radix = p.result_mapper.radix;
    if p.spec_parse(input) is Ok {
        let sign_step = Optional(CharParser { expected: '-' }).spec_parse(input)->Ok_0;
        let negative = input.data.len() > 0 && input.data[0] == '-';
        let start = if negative { 1int } else { 0int };
        let mid = sign_step.0;
        assert(mid.data == input.data.skip(start));
        let num = NumberStrParser { radix, signed: negative };
        lemma_number_str_output(num, mid);
        let inner = num.spec_parse(mid)->Ok_0;
        let n = mid.data.len() - inner.0.data.len();
        let digits = mid.data.take(n as int);
        assert(spec_is_digit(digits[0], radix));
        assert(digits[0] != '-');
        if negative {
            // The assembled numeral is '-' followed by the digit run.
            assert(inner.1 == seq!['-'] + digits);
            assert(inner.1[0] == '-');
            assert((seq!['-'] + digits).skip(1) =~= digits);
            assert(spec_numeral_wf(inner.1, radix));
            assert(spec_numeral_value(inner.1, radix) == -spec_digits_value(digits, radix));
        } else {
            assert(inner.1 == digits);
            assert(spec_numeral_wf(inner.1, radix));
            assert(spec_numeral_value(inner.1, radix) == spec_digits_value(digits, radix));
        }
        assert(digits =~= input.data.skip(start).take(n as int));
    }
}

/// The pure fallible function assembling an optional integer part and an
/// optional fractional part into a float literal `int.frac`; both parts
/// absent is the one malformed combination, `InvalidFloat`.
pub struct FloatAssemble;

impl TryMapFn for FloatAssemble {
    type In = (Option<String>, Option<String>);

    type Out = String;

    type Err = StrParsingErrors;

    open spec fn spec_try_map(&self, v: (Option<Seq<char>>, Option<Seq<char>>)) -> Result<
        Seq<char>,
        Seq<StrParsingErrorKind<Seq<char>>>,
    > {
        if v.0 is None && v.1 is None {
            Err(seq![StrParsingErrorKind::InvalidFloat])
        } else {
            let int_part = match v.0 {
                Some(s) => s,
                None => Seq::empty(),
            };
            let dec_part = match v.1 {
                Some(s) => s,
                None => Seq::empty(),
            };
            Ok(int_part + seq!['.'] + dec_part)
        }
    }

    fn try_map_value(&self, v: (Option<String>, Option<String>)) -> (r: Result<
        String,
        StrParsingErrors,
    >) {
        let (int_part, dec_part) = v;
        if int_part.is_none() && dec_part.is_none() {
            return Err(StrParsingErrors::with_error_kind(StrParsingErrorKind::InvalidFloat));
        }
        let ghost iv: Seq<char> = match int_part {
            Some(ref s) => s@,
            None => Seq::empty(),
        };
        let ghost dv: Seq<char> = match dec_part {
            Some(ref s) => s@,
            None => Seq::empty(),
        };
        let mut s = match int_part {
            Some(x) => x,
            None => String::new(),
        };
        push_char(&mut s, '.');
        proof {
            assert(s@ =~= iv + seq!['.']);
        }
        match dec_part {
            Some(x) => {
                s.append(x.as_str());
            },
            None => {},
        }
        proof {
            assert(s@ =~= iv + seq!['.'] + dv);
        }
        Ok(s)
    }
}

/// A float-literal parser: an optional signed integer part and an optional
/// `.`-prefixed fractional part, both individually optional, assembled into
/// the literal `int.frac`; at least one of the two parts must be present.
/// Conversion to a native float value is left to the caller.
pub type FloatParser = MapResult<
    AndThen<Optional<SignedNumeralParser>, Optional<ThenParse<CharParser, NumberStrParser>>>,
    FloatAssemble,
>;

/// The float-literal grammar.
pub open spec fn spec_float_parser() -> FloatParser {
    MapResult {
        p: AndThen {
            p1: Optional(spec_signed_numeral(10)),
            p2: Optional(
                MapParser {
                    p: AndThen {
                        p1: CharParser { expected: '.' },
                        p2: NumberStrParser { radix: 10, signed: false },
                    },
                    mapper: PairSecond { _marker: core::marker::PhantomData },
                },
            ),
        },
        result_mapper: FloatAssemble,
    }
}

/// The parser for a float literal in decimal notation.
pub fn float_parser() -> (p: FloatParser)
    ensures
        p == spec_float_parser(),
        p.wf(),
{
    let p: FloatParser = MapResult {
        p: AndThen {
            p1: Optional(signed_numeral_parser(10)),
            p2: Optional(
                MapParser {
                    p: AndThen {
                        p1: CharParser { expected: '.' },
                        p2: NumberStrParser { radix: 10, signed: false },
                    },
                    mapper: PairSecond::new(),
                },
            ),
        },
        result_mapper: FloatAssemble,
    };
    proof {
        lemma_signed_numeral_wf(10);
    }
    p
}

} // verus!
