//! Unsigned runs of digits.

use vstd::prelude::*;
use crate::chars::{is_digit, parse_digit};

verus! {

/// A number is a non-empty sequence of digits.
pub open spec fn is_number(s: Seq<char>) -> bool {
    &&& s.len() > 0
    &&& forall|i: int| 0 <= i < s.len() ==> is_digit(#[trigger] s[i])
}

/// Tells whether `input` is a number: not empty, and digits throughout.
pub fn parse_number(input: &str) -> (b: bool)
    ensures
        b == is_number(input@),
{
    for c in it: input.chars()
        invariant
            it.seq() == input@,
            forall|i: int| 0 <= i < it.index() ==> is_digit(#[trigger] input@[i]),
    {
        if !parse_digit(c) {
            return false;
        }
    }
    !input.is_empty()
}

/// A number can be told from its last character and what stands before it:
/// one character is a number where it is a digit, and a longer sequence
/// where its last character is a digit and the rest is a number.
pub proof fn lemma_number_by_last(s: Seq<char>)
    ensures
        s.len() == 0 ==> !is_number(s),
        s.len() == 1 ==> (is_number(s) <==> is_digit(s[0])),
        s.len() > 1 ==> (is_number(s) <==> is_number(s.drop_last()) && is_digit(s.last())),
{
    if s.len() > 1 {
        let t = s.drop_last();
        if is_number(s) {
            assert(is_number(t));
        }
        if is_number(t) && is_digit(s.last()) {
            assert forall|i: int| 0 <= i < s.len() implies is_digit(#[trigger] s[i]) by {
                if i < t.len() {
                    assert(s[i] == t[i]);
                }
            }
        }
    }
}

} // verus!
