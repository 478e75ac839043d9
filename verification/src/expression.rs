//! Expressions: one literal, or two literals around a binary operator.

use vstd::prelude::*;
use crate::chars::{is_operator, is_whitespace};
use crate::decimal::{decimal_of, lemma_literal_chars, parse_decimal, DecimalNumber, DecimalView};
use crate::text::{
    is_blank, lemma_trimmed_blank, lemma_trimmed_is_slice, lemma_trimmed_padded,
    lemma_trimmed_same, trim, trimmed,
};

verus! {

/// A binary operator.
#[derive(Debug, Clone, Copy, PartialEq, Eq, Structural)]
pub enum Operator {
    /// Written `+`.
    Add,
    /// Written `-`.
    Sub,
    /// Written `*`.
    Mul,
    /// Written `/`.
    Div,
}

/// What a text was recognised as.
#[derive(Debug, Eq)]
pub enum Expression {
    /// One literal.
    Single(DecimalNumber),
    /// Two literals and the operator between them.
    Operation { left: DecimalNumber, op: Operator, right: DecimalNumber },
}

/// What an `Expression` holds, with its literals as `DecimalView`s.
pub enum ExpressionView {
    Single(DecimalView),
    Operation { left: DecimalView, op: Operator, right: DecimalView },
}

impl View for Expression {
    type V = ExpressionView;

    open spec fn view(&self) -> ExpressionView {
        match self {
            Expression::Single(d) => ExpressionView::Single(d@),
            Expression::Operation { left, op, right } => ExpressionView::Operation {
                left: left@,
                op: *op,
                right: right@,
            },
        }
    }
}

impl Clone for Expression {
    fn clone(&self) -> (r: Self)
        ensures
            r@ == self@,
    {
        match self {
            Expression::Single(d) => Expression::Single(d.clone()),
            Expression::Operation { left, op, right } => Expression::Operation {
                left: left.clone(),
                op: *op,
                right: right.clone(),
            },
        }
    }
}

impl PartialEq for Expression {
    fn eq(&self, other: &Self) -> (r: bool) {
        match (self, other) {
            (Expression::Single(a), Expression::Single(b)) => *a == *b,
            (
                Expression::Operation { left: l1, op: o1, right: r1 },
                Expression::Operation { left: l2, op: o2, right: r2 },
            ) => *l1 == *l2 && *o1 == *o2 && *r1 == *r2,
            _ => false,
        }
    }
}

/// Two expressions are equal where they have the same shape and hold equal
/// literals and the same operator.
impl vstd::std_specs::cmp::PartialEqSpecImpl for Expression {
    open spec fn obeys_eq_spec() -> bool {
        true
    }

    open spec fn eq_spec(&self, other: &Self) -> bool {
        self@ == other@
    }
}

impl ExpressionView {
    /// Every literal in the expression is well formed.
    pub open spec fn wf(self) -> bool {
        match self {
            ExpressionView::Single(d) => d.wf(),
            ExpressionView::Operation { left, right, .. } => left.wf() && right.wf(),
        }
    }
}

impl Expression {
    /// Every literal in the expression is well formed. It holds of every
    /// expression that was read from text.
    pub open spec fn wf(&self) -> bool {
        self@.wf()
    }
}

/// The operator that an operator character stands for.
pub open spec fn operator_of(c: char) -> Operator
    recommends
        is_operator(c),
{
    if c == '+' {
        Operator::Add
    } else if c == '-' {
        Operator::Sub
    } else if c == '*' {
        Operator::Mul
    } else {
        Operator::Div
    }
}

/// Index `i` of `s` may hold the operator of an expression: it is not the
/// first index, it holds an operator character, and the character before it
/// is none. An operator character at the start of `s` or right behind
/// another can only be a sign.
pub open spec fn is_candidate(s: Seq<char>, i: int) -> bool {
    &&& 0 < i < s.len()
    &&& is_operator(s[i])
    &&& !is_operator(s[i - 1])
}

/// The literal that stands before index `i` of `s`, white space around it
/// set aside.
pub open spec fn left_operand(s: Seq<char>, i: int) -> Option<DecimalView> {
    decimal_of(trimmed(s.take(i)))
}

/// The literal that stands behind index `i` of `s`, white space around it
/// set aside.
pub open spec fn right_operand(s: Seq<char>, i: int) -> Option<DecimalView> {
    decimal_of(trimmed(s.skip(i + 1)))
}

/// `s` reads as an operation whose operator is at index `i`: the index is a
/// candidate and a literal stands on each side of it.
pub open spec fn splits_at(s: Seq<char>, i: int) -> bool {
    &&& is_candidate(s, i)
    &&& left_operand(s, i) is Some
    &&& right_operand(s, i) is Some
}

/// The least index from `i` on at which `s` reads as an operation, if there
/// is one.
pub open spec fn split_point_from(s: Seq<char>, i: int) -> Option<int>
    decreases s.len() - i,
{
    if i >= s.len() {
        None
    } else if splits_at(s, i) {
        Some(i)
    } else {
        split_point_from(s, i + 1)
    }
}

/// The least index at which `s` reads as an operation, if there is one.
pub open spec fn split_point(s: Seq<char>) -> Option<int> {
    split_point_from(s, 0)
}

/// The expression that `s` stands for, if it is one: the operation at its
/// split point, or else the single literal that the whole of `s` holds, white
/// space around it set aside.
pub open spec fn expression_of(s: Seq<char>) -> Option<ExpressionView> {
    match split_point(s) {
        Some(i) => Some(
            ExpressionView::Operation {
                left: left_operand(s, i).unwrap(),
                op: operator_of(s[i]),
                right: right_operand(s, i).unwrap(),
            },
        ),
        None => match decimal_of(trimmed(s)) {
            Some(d) => Some(ExpressionView::Single(d)),
            None => None,
        },
    }
}

/// Where `s` reads as an operation at no index from `i` up to `k`, the search
/// from `i` finds what the search from `k` finds.
pub proof fn lemma_split_point_skips(s: Seq<char>, i: int, k: int)
    requires
        0 <= i <= k,
        forall|j: int| i <= j < k ==> !splits_at(s, j),
    ensures
        split_point_from(s, i) == split_point_from(s, k),
    decreases k - i,
{
    if i < k {
        lemma_split_point_skips(s, i + 1, k);
    }
}

/// Text reads as an operation at one index at most: the first candidate with
/// a literal on each side is the only one.
pub proof fn lemma_split_unique(s: Seq<char>, i: int, j: int)
    requires
        splits_at(s, i),
        splits_at(s, j),
    ensures
        i == j,
{
    if i < j {
        lemma_no_later_split(s, i, j);
    } else if j < i {
        lemma_no_later_split(s, j, i);
    }
}

proof fn lemma_no_later_split(s: Seq<char>, i: int, j: int)
    requires
        splits_at(s, i),
        is_candidate(s, j),
        i < j,
    ensures
        left_operand(s, j) is None,
{
    let before_i = s.take(i);
    let (a, b) = lemma_trimmed_is_slice(before_i);
    lemma_literal_chars(before_i.subrange(a, b));

    let before_j = s.take(j);
    let (c, d) = lemma_trimmed_is_slice(before_j);
    let left = before_j.subrange(c, d);
    assert(before_j[i] == s[i]);
    assert(left[i - c] == s[i]);
    if decimal_of(left) is Some {
        lemma_literal_chars(left);
    }
}

/// Where `s` reads as an operation at index `i`, that operation is the
/// expression it stands for.
pub proof fn lemma_operation_at(s: Seq<char>, i: int)
    requires
        splits_at(s, i),
    ensures
        expression_of(s) == Some(
            ExpressionView::Operation {
                left: left_operand(s, i).unwrap(),
                op: operator_of(s[i]),
                right: right_operand(s, i).unwrap(),
            },
        ),
{
    assert forall|j: int| 0 <= j < i implies !splits_at(s, j) by {
        if splits_at(s, j) {
            lemma_split_unique(s, i, j);
        }
    }
    lemma_split_point_skips(s, 0, i);
}

/// A literal alone, white space around it or not, is a single: no index of
/// it reads as an operation, whether it has a sign or not.
pub proof fn lemma_single_literal(s: Seq<char>)
    requires
        decimal_of(trimmed(s)) is Some,
    ensures
        expression_of(s) == Some(ExpressionView::Single(decimal_of(trimmed(s)).unwrap())),
{
    let (a, b) = lemma_trimmed_is_slice(s);
    let literal = s.subrange(a, b);
    lemma_literal_chars(literal);
    assert forall|j: int| 0 <= j < s.len() implies !splits_at(s, j) by {
        if is_candidate(s, j) {
            assert(literal[j - a] == s[j]);
            assert(is_blank(s.take(j)));
            lemma_trimmed_blank(s.take(j));
        }
    }
    lemma_split_point_skips(s, 0, s.len() as int);
}

/// A literal is the single of itself.
pub proof fn lemma_literal_is_single(s: Seq<char>)
    requires
        decimal_of(s) is Some,
    ensures
        expression_of(s) == Some(ExpressionView::Single(decimal_of(s).unwrap())),
{
    lemma_literal_chars(s);
    lemma_trimmed_same(s);
    lemma_single_literal(s);
}

/// Two literals around an operator character read as the operation of the
/// two, whatever white space stands around each of them.
pub proof fn lemma_operation_literal(
    left: Seq<char>,
    c: char,
    right: Seq<char>,
    pad: (Seq<char>, Seq<char>, Seq<char>, Seq<char>),
)
    requires
        decimal_of(left) is Some,
        decimal_of(right) is Some,
        is_operator(c),
        is_blank(pad.0),
        is_blank(pad.1),
        is_blank(pad.2),
        is_blank(pad.3),
    ensures
        expression_of(pad.0 + left + pad.1 + seq![c] + pad.2 + right + pad.3) == Some(
            ExpressionView::Operation {
                left: decimal_of(left).unwrap(),
                op: operator_of(c),
                right: decimal_of(right).unwrap(),
            },
        ),
{
    let before = pad.0 + left + pad.1;
    let behind = pad.2 + right + pad.3;
    let s = before + seq![c] + behind;
    let i = before.len() as int;
    assert(s =~= pad.0 + left + pad.1 + seq![c] + pad.2 + right + pad.3);
    lemma_literal_chars(left);
    lemma_literal_chars(right);
    lemma_trimmed_padded(pad.0, left, pad.1);
    lemma_trimmed_padded(pad.2, right, pad.3);
    assert(s.take(i) =~= before);
    assert(s.skip(i + 1) =~= behind);
    assert(!is_operator(s[i - 1])) by {
        if pad.1.len() > 0 {
            assert(s[i - 1] == pad.1.last());
        } else {
            assert(s[i - 1] == left.last());
        }
    }
    lemma_operation_at(s, i);
}

/// The operator that `c` stands for. `None` where `c` is no operator
/// character.
pub fn operator_from_char(c: char) -> (r: Option<Operator>)
    ensures
        r is Some <==> is_operator(c),
        r matches Some(op) ==> op == operator_of(c),
{
    if c == '+' {
        Some(Operator::Add)
    } else if c == '-' {
        Some(Operator::Sub)
    } else if c == '*' {
        Some(Operator::Mul)
    } else if c == '/' {
        Some(Operator::Div)
    } else {
        None
    }
}

/// Reads `input` as an expression.
///
/// The characters are tried from the second one on. The first candidate with
/// a literal on each side gives the operation; a candidate without is passed
/// over. Where none is found, all of `input` is read as one literal.
/// The result is `None` exactly where neither reading succeeds.
pub fn parse_expression(input: &str) -> (r: Option<Expression>)
    ensures
        match r {
            Some(e) => expression_of(input@) == Some(e@) && e.wf(),
            None => expression_of(input@) is None,
        },
{
    let n = input.unicode_len();
    let mut i: usize = 0;
    let mut after_operator = false;
    for c in it: input.chars()
        invariant
            it.seq() == input@,
            input@.len() == n,
            i == it.index(),
            i > 0 ==> after_operator == is_operator(input@[i - 1]),
            forall|j: int| 0 <= j < i ==> !splits_at(input@, j),
    {
        let operator = operator_from_char(c);
        if let Some(op) = operator {
            if i > 0 && !after_operator {
                let left = parse_decimal(trim(input.substring_char(0, i)));
                let right = parse_decimal(trim(input.substring_char(i + 1, n)));
                if let (Some(left), Some(right)) = (left, right) {
                    proof {
                        lemma_split_point_skips(input@, 0, i as int);
                    }
                    return Some(Expression::Operation { left, op, right });
                }
            }
        }
        after_operator = operator.is_some();
        i += 1;
    }
    proof {
        lemma_split_point_skips(input@, 0, n as int);
    }
    match parse_decimal(trim(input)) {
        Some(d) => Some(Expression::Single(d)),
        None => None,
    }
}

} // verus!
