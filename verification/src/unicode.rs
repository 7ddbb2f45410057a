//! Character classes, as the standard library decides them.
//!
//! The standard library tests a character against the Unicode character
//! database. Whitespace is a short list of code points and is written out
//! here. The alphabetic and the numeric characters are far too many for
//! that: each of the two classes is a name without a definition. Known of
//! it is that the standard library's test of a character gives the named
//! answer, what that answer is on ASCII, and that an alphabetic character is
//! alphanumeric.

use vstd::prelude::*;

verus! {

/// Whether `c` has the Unicode property `Alphabetic`.
pub uninterp spec fn alphabetic(c: char) -> bool;

/// Whether `c` is alphabetic or numeric in the sense of Unicode.
pub uninterp spec fn alphanumeric(c: char) -> bool;

/// Whether `c` is one of the 128 ASCII characters.
pub open spec fn is_ascii_char(c: char) -> bool {
    c <= '\u{7f}'
}

/// Whether `c` is one of the 52 ASCII letters.
pub open spec fn ascii_letter(c: char) -> bool {
    ('a' <= c <= 'z') || ('A' <= c <= 'Z')
}

/// Whether `c` is one of the ten ASCII digits.
pub open spec fn ascii_digit(c: char) -> bool {
    '0' <= c <= '9'
}

/// Whether `c` has the Unicode property `White_Space`: one of the 25 code
/// points that the character database lists under it.
pub open spec fn whitespace(c: char) -> bool {
    ||| '\u{9}' <= c <= '\u{d}'
    ||| c == '\u{20}'
    ||| c == '\u{85}'
    ||| c == '\u{a0}'
    ||| c == '\u{1680}'
    ||| '\u{2000}' <= c <= '\u{200a}'
    ||| c == '\u{2028}'
    ||| c == '\u{2029}'
    ||| c == '\u{202f}'
    ||| c == '\u{205f}'
    ||| c == '\u{3000}'
}

/// `char::is_alphabetic` answers by the `Alphabetic` property; the answer
/// depends on the character alone. Of the ASCII characters the letters have
/// the property and no other.
pub assume_specification[ char::is_alphabetic ](c: char) -> (b: bool)
    ensures
        b == alphabetic(c),
        is_ascii_char(c) ==> b == ascii_letter(c),
;

/// `char::is_alphanumeric` answers whether the character is alphabetic or
/// numeric; the answer depends on the character alone. So it is true of
/// every alphabetic character. Of the ASCII characters the letters and the
/// digits are alphanumeric and no other.
pub assume_specification[ char::is_alphanumeric ](c: char) -> (b: bool)
    ensures
        b == alphanumeric(c),
        alphabetic(c) ==> b,
        is_ascii_char(c) ==> b == (ascii_letter(c) || ascii_digit(c)),
;

/// `char::is_whitespace` answers by the `White_Space` property.
pub assume_specification[ char::is_whitespace ](c: char) -> (b: bool)
    ensures
        b == whitespace(c),
;

} // verus!
