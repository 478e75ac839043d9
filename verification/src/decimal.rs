//! Signed decimal literals: an optional sign, digits, and optionally a point
//! and more digits.

use vstd::prelude::*;
use crate::number::{is_number, parse_number};
use crate::chars::is_digit;
use crate::text::{lemma_position, lemma_position_is, position, split_around, split_once};

verus! {

/// The sign of a literal.
#[derive(Debug, Clone, Copy, PartialEq, Eq, Structural)]
pub enum Sign {
    Positive,
    Negative,
}

/// A literal as it was written: its sign and its digits, kept as text, so
/// that leading zeros and any length survive.
#[derive(Debug, Eq)]
pub enum DecimalNumber {
    /// A literal without a point.
    Whole { sign: Sign, value: String },
    /// A literal with digits on both sides of a point.
    Decimal { sign: Sign, whole: String, fraction: String },
}

/// What a `DecimalNumber` holds, with its text as sequences of characters.
pub enum DecimalView {
    Whole { sign: Sign, value: Seq<char> },
    Decimal { sign: Sign, whole: Seq<char>, fraction: Seq<char> },
}

impl View for DecimalNumber {
    type V = DecimalView;

    open spec fn view(&self) -> DecimalView {
        match self {
            DecimalNumber::Whole { sign, value } => DecimalView::Whole {
                sign: *sign,
                value: value@,
            },
            DecimalNumber::Decimal { sign, whole, fraction } => DecimalView::Decimal {
                sign: *sign,
                whole: whole@,
                fraction: fraction@,
            },
        }
    }
}

impl Clone for DecimalNumber {
    fn clone(&self) -> (r: Self)
        ensures
            r@ == self@,
    {
        match self {
            DecimalNumber::Whole { sign, value } => DecimalNumber::Whole {
                sign: *sign,
                value: value.clone(),
            },
            DecimalNumber::Decimal { sign, whole, fraction } => DecimalNumber::Decimal {
                sign: *sign,
                whole: whole.clone(),
                fraction: fraction.clone(),
            },
        }
    }
}

impl PartialEq for DecimalNumber {
    fn eq(&self, other: &Self) -> (r: bool) {
        match (self, other) {
            (
                DecimalNumber::Whole { sign: s1, value: v1 },
                DecimalNumber::Whole { sign: s2, value: v2 },
            ) => *s1 == *s2 && *v1 == *v2,
            (
                DecimalNumber::Decimal { sign: s1, whole: w1, fraction: f1 },
                DecimalNumber::Decimal { sign: s2, whole: w2, fraction: f2 },
            ) => *s1 == *s2 && *w1 == *w2 && *f1 == *f2,
            _ => false,
        }
    }
}

/// Two literals are equal where they hold the same sign and the same text.
impl vstd::std_specs::cmp::PartialEqSpecImpl for DecimalNumber {
    open spec fn obeys_eq_spec() -> bool {
        true
    }

    open spec fn eq_spec(&self, other: &Self) -> bool {
        self@ == other@
    }
}

impl DecimalView {
    /// Every group of digits is a number: not empty, and digits throughout.
    pub open spec fn wf(self) -> bool {
        match self {
            DecimalView::Whole { value, .. } => is_number(value),
            DecimalView::Decimal { whole, fraction, .. } => is_number(whole) && is_number(
                fraction,
            ),
        }
    }

    /// The sign of the literal.
    pub open spec fn sign(self) -> Sign {
        match self {
            DecimalView::Whole { sign, .. } => sign,
            DecimalView::Decimal { sign, .. } => sign,
        }
    }

    /// The literal without its sign.
    pub open spec fn magnitude_text(self) -> Seq<char> {
        match self {
            DecimalView::Whole { value, .. } => value,
            DecimalView::Decimal { whole, fraction, .. } => whole + seq!['.'] + fraction,
        }
    }

    /// The literal in its shortest form: `-` before a negative one, nothing
    /// before a positive one, then the digits as they are held.
    pub open spec fn text(self) -> Seq<char> {
        match self.sign() {
            Sign::Positive => self.magnitude_text(),
            Sign::Negative => seq!['-'] + self.magnitude_text(),
        }
    }
}

/// Whether `s` starts with a sign character, `+` or `-`.
pub open spec fn has_sign(s: Seq<char>) -> bool {
    s.len() > 0 && (s[0] == '-' || s[0] == '+')
}

/// The sign that `s` states: negative where it starts with `-`, positive
/// otherwise.
pub open spec fn sign_of(s: Seq<char>) -> Sign {
    if s.len() > 0 && s[0] == '-' {
        Sign::Negative
    } else {
        Sign::Positive
    }
}

/// `s` without its sign character, if it starts with one. One character at
/// most is taken off.
pub open spec fn unsigned_part(s: Seq<char>) -> Seq<char> {
    if has_sign(s) {
        s.skip(1)
    } else {
        s
    }
}

/// The literal that unsigned text stands for under a given sign: digits
/// around the first point, or digits alone where there is no point.
pub open spec fn magnitude_of(sign: Sign, s: Seq<char>) -> Option<DecimalView> {
    match split_around(s, '.') {
        Some((whole, fraction)) => if is_number(whole) && is_number(fraction) {
            Some(DecimalView::Decimal { sign, whole, fraction })
        } else {
            None
        },
        None => if is_number(s) {
            Some(DecimalView::Whole { sign, value: s })
        } else {
            None
        },
    }
}

/// The literal that `s` stands for, if it is one.
pub open spec fn decimal_of(s: Seq<char>) -> Option<DecimalView> {
    magnitude_of(sign_of(s), unsigned_part(s))
}

/// Unsigned text without a point is a literal exactly where it is a number.
pub proof fn lemma_magnitude_whole(sign: Sign, digits: Seq<char>)
    requires
        is_number(digits),
    ensures
        magnitude_of(sign, digits) == Some(DecimalView::Whole { sign, value: digits }),
{
    lemma_position_is(digits, '.', digits.len() as int);
}

/// Two numbers around a point are a fractional literal.
pub proof fn lemma_magnitude_fraction(sign: Sign, whole: Seq<char>, fraction: Seq<char>)
    requires
        is_number(whole),
        is_number(fraction),
    ensures
        magnitude_of(sign, whole + seq!['.'] + fraction) == Some(
            DecimalView::Decimal { sign, whole, fraction },
        ),
{
    let s = whole + seq!['.'] + fraction;
    let p = whole.len() as int;
    lemma_position_is(s, '.', p);
    assert(s.take(p) =~= whole);
    assert(s.skip(p + 1) =~= fraction);
}

/// One or more digits, with or without a sign before them, are a whole
/// literal: the sign is the one written, positive where none is, and the
/// digits are kept as they stand.
pub proof fn lemma_whole_literal(digits: Seq<char>)
    requires
        is_number(digits),
    ensures
        decimal_of(digits) == Some(DecimalView::Whole { sign: Sign::Positive, value: digits }),
        decimal_of(seq!['+'] + digits) == Some(
            DecimalView::Whole { sign: Sign::Positive, value: digits },
        ),
        decimal_of(seq!['-'] + digits) == Some(
            DecimalView::Whole { sign: Sign::Negative, value: digits },
        ),
{
    assert((seq!['+'] + digits).skip(1) =~= digits);
    assert((seq!['-'] + digits).skip(1) =~= digits);
    lemma_magnitude_whole(Sign::Positive, digits);
    lemma_magnitude_whole(Sign::Negative, digits);
}

/// One or more digits, a point and one or more digits, with or without a
/// sign before them, are a fractional literal: the sign is the one written,
/// positive where none is, and both groups of digits are kept as they stand.
pub proof fn lemma_fraction_literal(whole: Seq<char>, fraction: Seq<char>)
    requires
        is_number(whole),
        is_number(fraction),
    ensures
        decimal_of(whole + seq!['.'] + fraction) == Some(
            DecimalView::Decimal { sign: Sign::Positive, whole, fraction },
        ),
        decimal_of(seq!['+'] + (whole + seq!['.'] + fraction)) == Some(
            DecimalView::Decimal { sign: Sign::Positive, whole, fraction },
        ),
        decimal_of(seq!['-'] + (whole + seq!['.'] + fraction)) == Some(
            DecimalView::Decimal { sign: Sign::Negative, whole, fraction },
        ),
{
    let s = whole + seq!['.'] + fraction;
    assert((seq!['+'] + s).skip(1) =~= s);
    assert((seq!['-'] + s).skip(1) =~= s);
    lemma_magnitude_fraction(Sign::Positive, whole, fraction);
    lemma_magnitude_fraction(Sign::Negative, whole, fraction);
}

/// Every literal that is read holds numbers only: no group of digits is
/// empty, and none holds anything but digits.
pub proof fn lemma_decimal_of_wf(s: Seq<char>)
    ensures
        decimal_of(s) matches Some(d) ==> d.wf(),
{
}

/// A literal is read from its own text, or from its text behind a `+`:
/// whatever is read from `s`, `s` is the text of it, but for a `+` that may
/// stand before a positive literal.
pub proof fn lemma_decimal_of_text(s: Seq<char>)
    ensures
        decimal_of(s) matches Some(d) ==> s == d.text() || (d.sign() == Sign::Positive && s
            == seq!['+'] + d.text()),
{
    lemma_position(unsigned_part(s), '.');
}

/// In a literal a sign can only stand first: the first character is a sign
/// or a digit, every other one is a digit or the point, and the last one is a
/// digit.
pub proof fn lemma_literal_chars(s: Seq<char>)
    requires
        decimal_of(s) is Some,
    ensures
        s.len() > 0,
        is_digit(s.first()) || s.first() == '+' || s.first() == '-',
        forall|i: int| 1 <= i < s.len() ==> is_digit(s[i]) || s[i] == '.',
        is_digit(s.last()),
{
    let u = unsigned_part(s);
    let k = s.len() - u.len();
    lemma_position(u, '.');
    let p = position(u, '.') as int;
    assert forall|i: int| 0 <= i < u.len() implies is_digit(u[i]) || (u[i] == '.' && 0 < i
        < u.len() - 1) by {
        if p < u.len() {
            let whole = u.take(p);
            let fraction = u.skip(p + 1);
            if i < p {
                assert(u[i] == whole[i]);
            } else if i > p {
                assert(u[i] == fraction[i - p - 1]);
            }
        }
    }
    assert forall|i: int| 1 <= i < s.len() implies is_digit(s[i]) || s[i] == '.' by {
        assert(s[i] == u[i - k]);
    }
    assert(s.last() == u[u.len() - 1]);
}

/// A well-formed literal is read back from its text as it is.
pub proof fn lemma_text_reparses(d: DecimalView)
    requires
        d.wf(),
    ensures
        decimal_of(d.text()) == Some(d),
{
    match d {
        DecimalView::Whole { value, .. } => {
            lemma_whole_literal(value);
        },
        DecimalView::Decimal { whole, fraction, .. } => {
            lemma_fraction_literal(whole, fraction);
        },
    }
}

/// Reading is idempotent: the text of a literal that was read from `s` reads
/// as the same literal.
pub proof fn lemma_reparse(s: Seq<char>)
    ensures
        decimal_of(s) matches Some(d) ==> decimal_of(d.text()) == Some(d),
{
    if let Some(d) = decimal_of(s) {
        lemma_text_reparses(d);
    }
}

/// Takes the sign off `input`: the sign it states, and what follows the sign
/// character, or all of `input` where it starts with none.
pub fn strip_sign(input: &str) -> (r: (Sign, &str))
    ensures
        r.0 == sign_of(input@),
        r.1@ == unsigned_part(input@),
{
    let mut it = input.chars();
    match it.next() {
        Some('-') => (Sign::Negative, input.substring_char(1, input.unicode_len())),
        Some('+') => (Sign::Positive, input.substring_char(1, input.unicode_len())),
        _ => (Sign::Positive, input),
    }
}

impl DecimalNumber {
    /// Every group of digits is a number: not empty, and digits throughout.
    /// It holds of every literal that was read from text.
    pub open spec fn wf(&self) -> bool {
        self@.wf()
    }

    /// The literal as text: `-` before a negative one, then the digits as
    /// they are held, with the point between them where there are two groups.
    /// The text of a well-formed literal reads as that literal again.
    pub fn to_text(&self) -> (r: String)
        ensures
            r@ == self@.text(),
            self.wf() ==> decimal_of(r@) == Some(self@),
    {
        proof {
            reveal_strlit("-");
            reveal_strlit(".");
            if self.wf() {
                lemma_text_reparses(self@);
            }
        }
        let mut out = String::new();
        match self {
            DecimalNumber::Whole { sign, value } => {
                if let Sign::Negative = sign {
                    out.append("-");
                }
                out.append(value.as_str());
            },
            DecimalNumber::Decimal { sign, whole, fraction } => {
                if let Sign::Negative = sign {
                    out.append("-");
                }
                out.append(whole.as_str());
                out.append(".");
                out.append(fraction.as_str());
            },
        }
        assert(out@ =~= self@.text());
        out
    }
}

/// Reads `input` as a signed decimal literal.
///
/// The result is `None` exactly where `input` is no literal: where it is
/// empty or a sign alone, where anything but a digit stands beside the sign
/// and the first point, or where a side of the point is empty.
pub fn parse_decimal(input: &str) -> (r: Option<DecimalNumber>)
    ensures
        match r {
            Some(d) => decimal_of(input@) == Some(d@) && d.wf(),
            None => decimal_of(input@) is None,
        },
{
    if input.is_empty() {
        return None;
    }
    let (sign, number_part) = strip_sign(input);
    if number_part.is_empty() {
        return None;
    }
    match split_once(number_part, '.') {
        Some((whole_part, fraction_part)) => {
            if parse_number(whole_part) && parse_number(fraction_part) {
                Some(
                    DecimalNumber::Decimal {
                        sign,
                        whole: whole_part.to_owned(),
                        fraction: fraction_part.to_owned(),
                    },
                )
            } else {
                None
            }
        },
        None => {
            if parse_number(number_part) {
                Some(DecimalNumber::Whole { sign, value: number_part.to_owned() })
            } else {
                None
            }
        },
    }
}

} // verus!
