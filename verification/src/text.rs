//! Cutting text: trimming white space and splitting at a character.

use vstd::prelude::*;
use crate::chars::{is_whitespace, whitespace_char};

verus! {

/// `s` without the white space at its start.
pub open spec fn trimmed_start(s: Seq<char>) -> Seq<char>
    decreases s.len(),
{
    if s.len() > 0 && is_whitespace(s.first()) {
        trimmed_start(s.drop_first())
    } else {
        s
    }
}

/// `s` without the white space at its end.
pub open spec fn trimmed_end(s: Seq<char>) -> Seq<char>
    decreases s.len(),
{
    if s.len() > 0 && is_whitespace(s.last()) {
        trimmed_end(s.drop_last())
    } else {
        s
    }
}

/// `s` without the white space at its start and at its end.
pub open spec fn trimmed(s: Seq<char>) -> Seq<char> {
    trimmed_end(trimmed_start(s))
}

/// `s` is white space throughout. The empty sequence is.
pub open spec fn is_blank(s: Seq<char>) -> bool {
    forall|i: int| 0 <= i < s.len() ==> is_whitespace(#[trigger] s[i])
}

/// The number of characters of `s` that stand before its first `c`;
/// the length of `s` where `c` does not occur in it.
pub open spec fn position(s: Seq<char>, c: char) -> nat
    decreases s.len(),
{
    if s.len() == 0 || s.first() == c {
        0
    } else {
        1 + position(s.drop_first(), c)
    }
}

/// The two parts of `s` around its first `c`, if `c` occurs in it.
pub open spec fn split_around(s: Seq<char>, c: char) -> Option<(Seq<char>, Seq<char>)> {
    let p = position(s, c) as int;
    if p < s.len() {
        Some((s.take(p), s.skip(p + 1)))
    } else {
        None
    }
}

/// `position(s, c)` is the one index that holds `c` with no `c` before it,
/// or the length of `s`.
pub proof fn lemma_position(s: Seq<char>, c: char)
    ensures
        position(s, c) <= s.len(),
        position(s, c) < s.len() ==> s[position(s, c) as int] == c,
        forall|i: int| 0 <= i < position(s, c) ==> s[i] != c,
    decreases s.len(),
{
    if s.len() > 0 && s.first() != c {
        let t = s.drop_first();
        lemma_position(t, c);
        assert forall|i: int| 0 <= i < position(s, c) implies s[i] != c by {
            if i > 0 {
                assert(s[i] == t[i - 1]);
            }
        }
    }
}

/// An index `p` with no `c` before it, which holds `c` or ends `s`, is
/// `position(s, c)`.
pub proof fn lemma_position_is(s: Seq<char>, c: char, p: int)
    requires
        0 <= p <= s.len(),
        p < s.len() ==> s[p] == c,
        forall|i: int| 0 <= i < p ==> s[i] != c,
    ensures
        position(s, c) == p,
{
    lemma_position(s, c);
}

/// Dropping `k` leading white-space characters does not change what remains
/// after trimming the start.
pub proof fn lemma_trimmed_start_skip(s: Seq<char>, k: int)
    requires
        0 <= k <= s.len(),
        forall|i: int| 0 <= i < k ==> is_whitespace(s[i]),
    ensures
        trimmed_start(s) == trimmed_start(s.skip(k)),
    decreases k,
{
    if k == 0 {
        assert(s.skip(0) =~= s);
    } else {
        let t = s.drop_first();
        lemma_trimmed_start_skip(t, k - 1);
        assert(t.skip(k - 1) =~= s.skip(k));
    }
}

/// Dropping trailing white space down to length `k` does not change what
/// remains after trimming the end.
pub proof fn lemma_trimmed_end_take(s: Seq<char>, k: int)
    requires
        0 <= k <= s.len(),
        forall|i: int| k <= i < s.len() ==> is_whitespace(s[i]),
    ensures
        trimmed_end(s) == trimmed_end(s.take(k)),
    decreases s.len() - k,
{
    if k == s.len() {
        assert(s.take(k) =~= s);
    } else {
        let t = s.drop_last();
        lemma_trimmed_end_take(t, k);
        assert(t.take(k) =~= s.take(k));
    }
}

/// Trimming the start leaves a suffix of `s`: the one from index `a` on,
/// with white space only before `a` and none at `a`.
pub proof fn lemma_trimmed_start_is_suffix(s: Seq<char>) -> (a: int)
    ensures
        0 <= a <= s.len(),
        trimmed_start(s) == s.skip(a),
        forall|i: int| 0 <= i < a ==> is_whitespace(s[i]),
        a < s.len() ==> !is_whitespace(s[a]),
    decreases s.len(),
{
    if s.len() > 0 && is_whitespace(s.first()) {
        let t = s.drop_first();
        let b = lemma_trimmed_start_is_suffix(t);
        assert forall|i: int| 0 <= i < b + 1 implies is_whitespace(s[i]) by {
            if i > 0 {
                assert(s[i] == t[i - 1]);
            }
        }
        b + 1
    } else {
        0
    }
}

/// Trimming the end leaves a prefix of `s`: the one of length `b`, with
/// white space only from `b` on and none just before `b`.
pub proof fn lemma_trimmed_end_is_prefix(s: Seq<char>) -> (b: int)
    ensures
        0 <= b <= s.len(),
        trimmed_end(s) == s.take(b),
        forall|i: int| b <= i < s.len() ==> is_whitespace(s[i]),
        0 < b ==> !is_whitespace(s[b - 1]),
    decreases s.len(),
{
    if s.len() > 0 && is_whitespace(s.last()) {
        let t = s.drop_last();
        let b = lemma_trimmed_end_is_prefix(t);
        assert forall|i: int| b <= i < s.len() implies is_whitespace(s[i]) by {
            if i < t.len() {
                assert(s[i] == t[i]);
            }
        }
        b
    } else {
        s.len() as int
    }
}

/// Trimming leaves a slice of `s`: the one from `r.0` up to `r.1`, with
/// white space only outside it, and none at either end of it.
pub proof fn lemma_trimmed_is_slice(s: Seq<char>) -> (r: (int, int))
    ensures
        0 <= r.0 <= r.1 <= s.len(),
        trimmed(s) == s.subrange(r.0, r.1),
        forall|i: int| 0 <= i < r.0 ==> is_whitespace(s[i]),
        forall|i: int| r.1 <= i < s.len() ==> is_whitespace(s[i]),
        r.0 < r.1 ==> !is_whitespace(s[r.0]) && !is_whitespace(s[r.1 - 1]),
{
    let a = lemma_trimmed_start_is_suffix(s);
    let t = s.skip(a);
    let b = lemma_trimmed_end_is_prefix(t);
    assert forall|i: int| a + b <= i < s.len() implies is_whitespace(s[i]) by {
        assert(s[i] == t[i - a]);
    }
    (a, a + b)
}

/// Text that is white space throughout trims to nothing.
pub proof fn lemma_trimmed_blank(s: Seq<char>)
    requires
        is_blank(s),
    ensures
        trimmed(s) == Seq::<char>::empty(),
{
    lemma_trimmed_start_skip(s, s.len() as int);
}

/// Text that neither starts nor ends with white space trims to itself.
pub proof fn lemma_trimmed_same(s: Seq<char>)
    requires
        s.len() > 0 ==> !is_whitespace(s.first()) && !is_whitespace(s.last()),
    ensures
        trimmed(s) == s,
{
}

/// Text that neither starts nor ends with white space is what trimming
/// leaves of it with white space put before it and behind it.
pub proof fn lemma_trimmed_padded(before: Seq<char>, core: Seq<char>, behind: Seq<char>)
    requires
        is_blank(before),
        is_blank(behind),
        core.len() > 0 ==> !is_whitespace(core.first()) && !is_whitespace(core.last()),
    ensures
        trimmed(before + core + behind) == core,
{
    let s = before + core + behind;
    if core.len() == 0 {
        assert(is_blank(s));
        lemma_trimmed_blank(s);
    } else {
        let rest = core + behind;
        lemma_trimmed_start_skip(s, before.len() as int);
        assert(s.skip(before.len() as int) =~= rest);
        lemma_trimmed_end_take(rest, core.len() as int);
    }
}

/// The slice of `s` between the first and the last character that is not
/// white space; empty where `s` holds white space only.
pub fn trim(s: &str) -> (r: &str)
    ensures
        r@ == trimmed(s@),
{
    let n = s.unicode_len();
    let mut start: usize = 0;
    let mut end: usize = 0;
    let mut i: usize = 0;
    for c in it: s.chars()
        invariant
            it.seq() == s@,
            s@.len() == n,
            i == it.index(),
            start <= end <= i,
            start == end ==> start == i,
            forall|j: int| 0 <= j < start ==> is_whitespace(s@[j]),
            forall|j: int| end <= j < i ==> is_whitespace(s@[j]),
            start < end ==> !is_whitespace(s@[start as int]) && !is_whitespace(s@[end - 1]),
    {
        if whitespace_char(c) {
            if start == end {
                start = i + 1;
                end = i + 1;
            }
        } else {
            end = i + 1;
        }
        i += 1;
    }
    let r = s.substring_char(start, end);
    proof {
        lemma_trimmed_start_skip(s@, start as int);
        lemma_trimmed_end_take(s@.skip(start as int), end - start);
    }
    r
}

/// Splits `s` around its first `c`: the text before it and the text after it.
/// `None` where `c` does not occur in `s`.
pub fn split_once(s: &str, c: char) -> (r: Option<(&str, &str)>)
    ensures
        match r {
            Some((before, after)) => split_around(s@, c) == Some((before@, after@)),
            None => split_around(s@, c) is None,
        },
{
    let n = s.unicode_len();
    let mut i: usize = 0;
    for d in it: s.chars()
        invariant
            it.seq() == s@,
            s@.len() == n,
            i == it.index(),
            forall|j: int| 0 <= j < i ==> s@[j] != c,
    {
        if d == c {
            proof {
                lemma_position_is(s@, c, i as int);
            }
            return Some((s.substring_char(0, i), s.substring_char(i + 1, n)));
        }
        i += 1;
    }
    proof {
        lemma_position_is(s@, c, n as int);
    }
    None
}

} // verus!
