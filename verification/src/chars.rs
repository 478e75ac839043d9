//! Character classes.

use vstd::prelude::*;

verus! {

/// The ASCII decimal digits, `'0'` to `'9'`.
pub open spec fn is_digit(c: char) -> bool {
    '0' <= c <= '9'
}

/// The characters that can stand for a binary operator: `+`, `-`, `*`, `/`.
/// The first two can also be the sign of a literal.
pub open spec fn is_operator(c: char) -> bool {
    c == '+' || c == '-' || c == '*' || c == '/'
}

/// U+0009, the first of the five ASCII control characters that count as white space.
pub const TAB: char = '\u{9}';

/// U+000D, the last of them.
pub const CARRIAGE_RETURN: char = '\u{D}';

/// U+0085.
pub const NEXT_LINE: char = '\u{85}';

/// U+00A0.
pub const NO_BREAK_SPACE: char = '\u{A0}';

/// U+1680.
pub const OGHAM_SPACE_MARK: char = '\u{1680}';

/// U+2000, the first of the eleven spaces of fixed width.
pub const EN_QUAD: char = '\u{2000}';

/// U+200A, the last of them.
pub const HAIR_SPACE: char = '\u{200A}';

/// U+2028.
pub const LINE_SEPARATOR: char = '\u{2028}';

/// U+2029.
pub const PARAGRAPH_SEPARATOR: char = '\u{2029}';

/// U+202F.
pub const NARROW_NO_BREAK_SPACE: char = '\u{202F}';

/// U+205F.
pub const MEDIUM_MATHEMATICAL_SPACE: char = '\u{205F}';

/// U+3000.
pub const IDEOGRAPHIC_SPACE: char = '\u{3000}';

/// White space as Unicode defines it (`White_Space`): the blank, the ASCII
/// controls from tab to carriage return, and the spaces and line breaks
/// beyond ASCII.
pub open spec fn is_whitespace(c: char) -> bool {
    ||| TAB <= c <= CARRIAGE_RETURN
    ||| c == ' '
    ||| c == NEXT_LINE
    ||| c == NO_BREAK_SPACE
    ||| c == OGHAM_SPACE_MARK
    ||| EN_QUAD <= c <= HAIR_SPACE
    ||| c == LINE_SEPARATOR
    ||| c == PARAGRAPH_SEPARATOR
    ||| c == NARROW_NO_BREAK_SPACE
    ||| c == MEDIUM_MATHEMATICAL_SPACE
    ||| c == IDEOGRAPHIC_SPACE
}

/// Tells whether `c` is an ASCII decimal digit.
pub fn parse_digit(c: char) -> (b: bool)
    ensures
        b == is_digit(c),
{
    '0' <= c && c <= '9'
}

/// Tells whether `c` is white space as Unicode defines it.
pub fn whitespace_char(c: char) -> (b: bool)
    ensures
        b == is_whitespace(c),
{
    if c <= ' ' {
        c == ' ' || (TAB <= c && c <= CARRIAGE_RETURN)
    } else if c < NEXT_LINE {
        false
    } else if c <= HAIR_SPACE {
        c == NEXT_LINE || c == NO_BREAK_SPACE || c == OGHAM_SPACE_MARK || EN_QUAD <= c
    } else {
        c == LINE_SEPARATOR || c == PARAGRAPH_SEPARATOR || c == NARROW_NO_BREAK_SPACE || c
            == MEDIUM_MATHEMATICAL_SPACE || c == IDEOGRAPHIC_SPACE
    }
}

} // verus!
