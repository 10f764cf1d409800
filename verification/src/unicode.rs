//! What Unicode says of characters.

use crate::strs::ascii_lower;
use vstd::prelude::*;

verus! {

/// All characters are of ASCII.
pub open spec fn is_ascii_text(text: Seq<char>) -> bool {
    forall|i: int| 0 <= i < text.len() ==> (#[trigger] text[i]) <= '\u{7f}'
}

/// No character is an upper-case letter of ASCII.
pub open spec fn no_capitals(text: Seq<char>) -> bool {
    forall|i: int| 0 <= i < text.len() ==> !('A' <= (#[trigger] text[i]) <= 'Z')
}

/// A text that is not all ASCII, in lower case.
pub uninterp spec fn unicode_lowercase(text: Seq<char>) -> Seq<char>;

/// `text` in lower case.
pub open spec fn lowercase(text: Seq<char>) -> Seq<char> {
    if is_ascii_text(text) {
        ascii_lower(text)
    } else {
        unicode_lowercase(text)
    }
}

/// `str::to_lowercase`: the lower-case equivalent by the Unicode tables, which
/// depends on the text alone. In a text of ASCII the letters `A` to `Z` become
/// `a` to `z` and everything else stays; no text has one of `A` to `Z` left.
#[verifier::external_body]
pub(crate) fn to_lowercase(s: &str) -> (r: String)
    ensures
        is_ascii_text(s@) ==> r@ == ascii_lower(s@),
        !is_ascii_text(s@) ==> r@ == unicode_lowercase(s@),
        no_capitals(r@),
{
    s.to_lowercase()
}

/// `c` is white space: it has the White_Space property of Unicode.
pub open spec fn is_space(c: char) -> bool {
    ||| '\u{9}' <= c <= '\u{d}'
    ||| c == ' '
    ||| c == '\u{85}'
    ||| c == '\u{a0}'
    ||| c == '\u{1680}'
    ||| '\u{2000}' <= c <= '\u{200a}'
    ||| c == '\u{2028}'
    ||| c == '\u{2029}'
    ||| c == '\u{202f}'
    ||| c == '\u{205f}'
    ||| c == '\u{3000}'
}

/// `char::is_whitespace`: the White_Space property of Unicode, which the listed
/// characters have and no others.
#[verifier::external_body]
pub(crate) fn is_whitespace(c: char) -> (r: bool)
    ensures
        r == is_space(c),
{
    c.is_whitespace()
}

/// A character beyond ASCII in upper case, which may be several characters.
pub uninterp spec fn unicode_uppercase(c: char) -> Seq<char>;

/// `c` in upper case, which may be several characters.
pub open spec fn uppercase(c: char) -> Seq<char> {
    if c <= '\u{7f}' {
        seq![
            if 'a' <= c <= 'z' {
                (c as u32 - 32) as char
            } else {
                c
            },
        ]
    } else {
        unicode_uppercase(c)
    }
}

/// `char::to_uppercase`: the upper-case equivalent by the Unicode tables, which
/// depends on the character alone and is never empty. Of ASCII the letters `a`
/// to `z` become `A` to `Z` and everything else stays.
#[verifier::external_body]
pub(crate) fn to_uppercase(c: char) -> (r: String)
    ensures
        c <= '\u{7f}' ==> r@ == uppercase(c),
        c > '\u{7f}' ==> r@ == unicode_uppercase(c),
        r@.len() > 0,
{
    c.to_uppercase().to_string()
}

/// A character beyond ASCII is a letter.
pub uninterp spec fn unicode_letter(c: char) -> bool;

/// `c` is a letter.
pub open spec fn is_letter(c: char) -> bool {
    if c <= '\u{7f}' {
        'A' <= c <= 'Z' || 'a' <= c <= 'z'
    } else {
        unicode_letter(c)
    }
}

/// `char::is_alphabetic`: the Alphabetic property of Unicode, which depends on
/// the character alone. Of ASCII `A` to `Z` and `a` to `z` have it.
#[verifier::external_body]
pub(crate) fn is_alphabetic(c: char) -> (r: bool)
    ensures
        c <= '\u{7f}' ==> r == is_letter(c),
        c > '\u{7f}' ==> r == unicode_letter(c),
{
    c.is_alphabetic()
}

} // verus!
