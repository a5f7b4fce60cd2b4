//! Character classes used by the scanner.
use vstd::prelude::*;

verus! {

/// What `char::is_alphanumeric` answers for a character beyond ASCII that is
/// not white space (the Unicode `Alphabetic` property or a numeric general
/// category).
pub uninterp spec fn unicode_alphanumeric(c: char) -> bool;

/// White space in the standard classification, the Unicode `White_Space`
/// property: U+0009 to U+000D, U+0020, U+0085, U+00A0, U+1680, U+2000 to
/// U+200A, U+2028, U+2029, U+202F, U+205F and U+3000.
pub open spec fn is_white_space(c: char) -> bool {
    let u = c as u32;
    ||| 0x09 <= u <= 0x0d
    ||| u == 0x20
    ||| u == 0x85
    ||| u == 0xa0
    ||| u == 0x1680
    ||| 0x2000 <= u <= 0x200a
    ||| u == 0x2028
    ||| u == 0x2029
    ||| u == 0x202f
    ||| u == 0x205f
    ||| u == 0x3000
}

/// Letters and digits: within ASCII `0-9`, `A-Z` and `a-z`; beyond ASCII no
/// white-space character, and otherwise the Unicode classification.
pub open spec fn is_alphanumeric(c: char) -> bool {
    if (c as u32) < 0x80 {
        ('0' as u32 <= c as u32 && c as u32 <= '9' as u32)
            || ('A' as u32 <= c as u32 && c as u32 <= 'Z' as u32)
            || ('a' as u32 <= c as u32 && c as u32 <= 'z' as u32)
    } else {
        !is_white_space(c) && unicode_alphanumeric(c)
    }
}

/// The characters that each make a token of their own.
pub open spec fn is_punctuation(c: char) -> bool {
    c == '{' || c == '}' || c == '(' || c == ')' || c == '<' || c == '>' || c == '-' || c == ':'
}

/// A character that may stand in a name.
pub open spec fn is_name_char(c: char) -> bool {
    is_alphanumeric(c) || c == '_'
}

/// Relies on `char::is_whitespace`: true exactly for characters with the
/// Unicode `White_Space` property.
#[verifier::external_body]
pub(crate) fn white_space(c: char) -> (r: bool)
    ensures
        r == is_white_space(c),
{
    c.is_whitespace()
}

/// Relies on `char::is_alphanumeric`: true exactly for alphabetic or numeric
/// characters, which within ASCII are `0-9`, `A-Z` and `a-z`, and which take
/// in no white-space character.
#[verifier::external_body]
pub(crate) fn alphanumeric(c: char) -> (r: bool)
    ensures
        r == is_alphanumeric(c),
        (c as u32) >= 0x80 && !is_white_space(c) ==> r == unicode_alphanumeric(c),
{
    c.is_alphanumeric()
}

/// A name character is neither white space nor punctuation.
pub proof fn lemma_name_char_class(c: char)
    ensures
        is_name_char(c) ==> !is_white_space(c) && !is_punctuation(c),
{
}

/// Tells whether `c` may stand in a name.
pub fn name_char(c: char) -> (r: bool)
    ensures
        r == is_name_char(c),
{
    alphanumeric(c) || c == '_'
}

} // verus!
