//! Character properties the diff engine and the writer depend on.
//!
//! Word splitting needs the Unicode character classes of `std`, and the
//! wrapping writer needs the terminal cell width of a character from the
//! `unicode_width` crate.  Both are pure functions of the character alone, so
//! their results are given names here; nothing else is assumed about them
//! beyond the few facts that the sources of those functions show plainly.

use vstd::prelude::*;

verus! {

/// Whether `c` has the Unicode `Alphabetic` property, as decided by
/// `char::is_alphabetic`.
pub uninterp spec fn alphabetic(c: char) -> bool;

/// Whether `c` has the Unicode `Lowercase` property, as decided by
/// `char::is_lowercase`.
pub uninterp spec fn lowercase(c: char) -> bool;

/// Whether `c` has the Unicode `White_Space` property, as decided by
/// `char::is_whitespace`.
pub uninterp spec fn whitespace(c: char) -> bool;

/// The terminal cell width of `c` according to `unicode_width`, or `None` for
/// control characters.
pub uninterp spec fn cell_width(c: char) -> Option<usize>;

/// Relies on char::is_alphabetic: true exactly for characters with the
/// Unicode Alphabetic property, a function of the character alone.
pub assume_specification[ char::is_alphabetic ](c: char) -> (r: bool)
    ensures
        r == alphabetic(c),
;

/// Relies on char::is_lowercase: true exactly for characters with the Unicode
/// Lowercase property, a function of the character alone.
pub assume_specification[ char::is_lowercase ](c: char) -> (r: bool)
    ensures
        r == lowercase(c),
;

/// Relies on char::is_whitespace: true exactly for characters with the
/// Unicode White_Space property, a function of the character alone.
pub assume_specification[ char::is_whitespace ](c: char) -> (r: bool)
    ensures
        r == whitespace(c),
;

/// Relies on char::is_ascii_digit, documented as true exactly for `'0'`
/// through `'9'`.
pub assume_specification[ char::is_ascii_digit ](c: &char) -> (r: bool)
    ensures
        r == ('0' <= *c && *c <= '9'),
;

/// Relies on unicode_width's width for a single character: a function of the
/// character alone; `None` for control characters, and one cell for printable
/// ASCII, both of which its table lookup shows plainly.
pub assume_specification[ <char as unicode_width::UnicodeWidthChar>::width ](c: char) -> (r:
    Option<usize>)
    ensures
        r == cell_width(c),
        ' ' <= c && c < '\u{7f}' ==> r == Some(1usize),
;

/// The number of terminal cells a character occupies in this crate's output:
/// tabs count as four cells, control characters as zero, and every other
/// character as its Unicode cell width.
pub open spec fn display_width(c: char) -> nat {
    if c == '\t' {
        4
    } else {
        match cell_width(c) {
            Some(w) => w as nat,
            None => 0,
        }
    }
}

/// Compute [`display_width`].
pub fn char_display_width(c: char) -> (w: usize)
    ensures
        w as nat == display_width(c),
{
    if c == '\t' {
        4
    } else {
        match unicode_width::UnicodeWidthChar::width(c) {
            Some(w) => w,
            None => 0,
        }
    }
}

} // verus!
