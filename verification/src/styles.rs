//! An explicit model of terminal text styling.
//!
//! A [`Style`] is a plain value: an optional foreground colour, an optional
//! background colour and the bold/dim attributes.  Rendering a style produces
//! the ANSI escape sequence that switches the terminal to it ([`Style::prefix`])
//! and the sequence that resets the terminal afterwards ([`Style::suffix`]).
//! The empty style renders as no escape sequence at all, so unstyled text is
//! written byte-for-byte.

use vstd::prelude::*;
use vstd::string::*;

verus! {

/// A terminal colour, or [`Color::Unset`] for "leave the terminal default".
#[derive(Clone, Copy, PartialEq, Eq, Structural, Debug)]
pub enum Color {
    Unset,
    Black,
    Red,
    Green,
    Yellow,
    Blue,
    Magenta,
    Cyan,
    White,
    BrightRed,
}

/// A text style: foreground/background colour plus bold and dim attributes.
#[derive(Clone, Copy, PartialEq, Eq, Structural, Debug)]
pub struct Style {
    pub fg: Color,
    pub bg: Color,
    pub bold: bool,
    pub dim: bool,
}

/// The ANSI SGR code selecting `c` as foreground colour.
pub open spec fn fg_code(c: Color) -> Seq<char> {
    match c {
        Color::Unset => Seq::empty(),
        Color::Black => "30"@,
        Color::Red => "31"@,
        Color::Green => "32"@,
        Color::Yellow => "33"@,
        Color::Blue => "34"@,
        Color::Magenta => "35"@,
        Color::Cyan => "36"@,
        Color::White => "37"@,
        Color::BrightRed => "91"@,
    }
}

/// The ANSI SGR code selecting `c` as background colour.
pub open spec fn bg_code(c: Color) -> Seq<char> {
    match c {
        Color::Unset => Seq::empty(),
        Color::Black => "40"@,
        Color::Red => "41"@,
        Color::Green => "42"@,
        Color::Yellow => "43"@,
        Color::Blue => "44"@,
        Color::Magenta => "45"@,
        Color::Cyan => "46"@,
        Color::White => "47"@,
        Color::BrightRed => "101"@,
    }
}

/// The list of SGR codes a style consists of, in the order they are emitted:
/// bold, dim, foreground, background.
pub open spec fn code_parts(s: Style) -> Seq<Seq<char>> {
    (if s.bold {
        seq!["1"@]
    } else {
        Seq::empty()
    }) + (if s.dim {
        seq!["2"@]
    } else {
        Seq::empty()
    }) + (if s.fg != Color::Unset {
        seq![fg_code(s.fg)]
    } else {
        Seq::empty()
    }) + (if s.bg != Color::Unset {
        seq![bg_code(s.bg)]
    } else {
        Seq::empty()
    })
}

/// Concatenate code strings with `;` separators.
pub open spec fn join_codes(parts: Seq<Seq<char>>) -> Seq<char>
    decreases parts.len(),
{
    if parts.len() == 0 {
        Seq::empty()
    } else if parts.len() == 1 {
        parts[0]
    } else {
        parts[0] + ";"@ + join_codes(parts.drop_first())
    }
}

/// Appending one more code to a joined list adds one `;` separator, unless the
/// list was empty.
pub proof fn lemma_join_codes_push(parts: Seq<Seq<char>>, code: Seq<char>)
    ensures
        join_codes(parts.push(code)) == if parts.len() == 0 {
            code
        } else {
            join_codes(parts) + ";"@ + code
        },
    decreases parts.len(),
{
    if parts.len() == 0 {
        assert(parts.push(code) =~= seq![code]);
    } else {
        assert(parts.push(code).drop_first() =~= parts.drop_first().push(code));
        lemma_join_codes_push(parts.drop_first(), code);
        if parts.len() == 1 {
            assert(parts.push(code)[0] == parts[0]);
        }
    }
}

/// Whether the style carries any attribute at all.
pub open spec fn has_codes(s: Style) -> bool {
    s.bold || s.dim || s.fg != Color::Unset || s.bg != Color::Unset
}

/// The escape sequence that switches the terminal to style `s`; empty for the
/// plain style.
pub open spec fn style_prefix(s: Style) -> Seq<char> {
    if has_codes(s) {
        "\u{1b}["@ + join_codes(code_parts(s)) + "m"@
    } else {
        Seq::empty()
    }
}

/// The escape sequence that resets the terminal after style `s`; empty for the
/// plain style.
pub open spec fn style_suffix(s: Style) -> Seq<char> {
    if has_codes(s) {
        "\u{1b}[0m"@
    } else {
        Seq::empty()
    }
}

/// A style's escape sequences are empty exactly when the style carries no
/// attribute.
pub proof fn lemma_style_marks_len(s: Style)
    ensures
        style_prefix(s).len() > 0 <==> has_codes(s),
        style_suffix(s).len() > 0 <==> has_codes(s),
{
    reveal_strlit("\u{1b}[");
    reveal_strlit("m");
    reveal_strlit("\u{1b}[0m");
}

/// `text` as it appears in the output when written in style `s`: wrapped in
/// the style's escape sequences if styling is enabled, bare otherwise.
pub open spec fn styled_text(s: Style, text: Seq<char>, styling_enabled: bool) -> Seq<char> {
    if styling_enabled {
        style_prefix(s) + text + style_suffix(s)
    } else {
        text
    }
}

/// The plain style as a spec value.
pub open spec fn spec_plain_style() -> Style {
    Style { fg: Color::Unset, bg: Color::Unset, bold: false, dim: false }
}

/// The banner/undercurl error style as a spec value.
pub open spec fn spec_error_style() -> Style {
    Style { fg: Color::BrightRed, bg: Color::Unset, bold: true, dim: false }
}

/// The macro name style as a spec value.
pub open spec fn spec_macro_style() -> Style {
    Style { fg: Color::Magenta, bg: Color::Unset, bold: false, dim: false }
}

/// The operator style as a spec value.
pub open spec fn spec_op_style() -> Style {
    Style { fg: Color::Blue, bg: Color::Unset, bold: true, dim: false }
}

/// The left-operand style as a spec value.
pub open spec fn spec_left_style() -> Style {
    Style { fg: Color::Cyan, bg: Color::Unset, bold: false, dim: false }
}

/// The right-operand style as a spec value.
pub open spec fn spec_right_style() -> Style {
    Style { fg: Color::Yellow, bg: Color::Unset, bold: false, dim: false }
}

/// The note style as a spec value.
pub open spec fn spec_note_style() -> Style {
    Style { fg: Color::Unset, bg: Color::Unset, bold: true, dim: false }
}

/// The dimmed style as a spec value.
pub open spec fn spec_dimmed_style() -> Style {
    Style { fg: Color::Unset, bg: Color::Unset, bold: false, dim: true }
}

impl Style {
    /// The plain style: no colours, no attributes, no escape sequences.
    pub fn plain() -> (r: Style)
        ensures
            r == spec_plain_style(),
    {
        Style { fg: Color::Unset, bg: Color::Unset, bold: false, dim: false }
    }

    /// The same style with a foreground colour.
    pub fn with_fg(self, fg: Color) -> (r: Style)
        ensures
            r == (Style { fg, ..self }),
    {
        Style { fg, ..self }
    }

    /// The same style with a background colour.
    pub fn with_bg(self, bg: Color) -> (r: Style)
        ensures
            r == (Style { bg, ..self }),
    {
        Style { bg, ..self }
    }

    /// The same style with the bold attribute.
    pub fn bold(self) -> (r: Style)
        ensures
            r == (Style { bold: true, ..self }),
    {
        Style { bold: true, ..self }
    }

    /// The same style with the dim attribute.
    pub fn dim(self) -> (r: Style)
        ensures
            r == (Style { dim: true, ..self }),
    {
        Style { dim: true, ..self }
    }

    /// The escape sequence that enables this style.
    pub fn prefix(&self) -> (r: String)
        ensures
            r@ == style_prefix(*self),
    {
        if !(self.bold || self.dim || self.fg != Color::Unset || self.bg != Color::Unset) {
            return String::new();
        }
        let mut out: String = "\u{1b}[".to_owned();
        let mut first: bool = true;
        let ghost mut parts: Seq<Seq<char>> = Seq::empty();
        if self.bold {
            out.append("1");
            first = false;
            proof {
                lemma_join_codes_push(parts, "1"@);
                parts = parts.push("1"@);
            }
        }
        if self.dim {
            if !first {
                out.append(";");
            }
            out.append("2");
            first = false;
            proof {
                lemma_join_codes_push(parts, "2"@);
                parts = parts.push("2"@);
            }
        }
        if self.fg != Color::Unset {
            if !first {
                out.append(";");
            }
            out.append(fg_code_str(self.fg));
            first = false;
            proof {
                lemma_join_codes_push(parts, fg_code(self.fg));
                parts = parts.push(fg_code(self.fg));
            }
        }
        if self.bg != Color::Unset {
            if !first {
                out.append(";");
            }
            out.append(bg_code_str(self.bg));
            first = false;
            proof {
                lemma_join_codes_push(parts, bg_code(self.bg));
                parts = parts.push(bg_code(self.bg));
            }
        }
        proof {
            assert(parts =~= code_parts(*self));
        }
        out.append("m");
        out
    }

    /// The escape sequence that resets this style.
    pub fn suffix(&self) -> (r: String)
        ensures
            r@ == style_suffix(*self),
    {
        if self.bold || self.dim || self.fg != Color::Unset || self.bg != Color::Unset {
            "\u{1b}[0m".to_owned()
        } else {
            String::new()
        }
    }
}

fn fg_code_str(c: Color) -> (r: &'static str)
    ensures
        r@ == fg_code(c),
{
    match c {
        Color::Unset => {
            proof {
                reveal_strlit("");
                assert(""@ =~= Seq::<char>::empty());
            }
            ""
        },
        Color::Black => "30",
        Color::Red => "31",
        Color::Green => "32",
        Color::Yellow => "33",
        Color::Blue => "34",
        Color::Magenta => "35",
        Color::Cyan => "36",
        Color::White => "37",
        Color::BrightRed => "91",
    }
}

fn bg_code_str(c: Color) -> (r: &'static str)
    ensures
        r@ == bg_code(c),
{
    match c {
        Color::Unset => {
            proof {
                reveal_strlit("");
                assert(""@ =~= Seq::<char>::empty());
            }
            ""
        },
        Color::Black => "40",
        Color::Red => "41",
        Color::Green => "42",
        Color::Yellow => "43",
        Color::Blue => "44",
        Color::Magenta => "45",
        Color::Cyan => "46",
        Color::White => "47",
        Color::BrightRed => "101",
    }
}

/// The style used for the "Assertion failed" banner and the undercurl row.
pub fn error_style() -> (r: Style)
    ensures
        r == spec_error_style(),
{
    Style { fg: Color::BrightRed, bg: Color::Unset, bold: true, dim: false }
}

/// The style used for macro names and their parentheses.
pub fn macro_style() -> (r: Style)
    ensures
        r == spec_macro_style(),
{
    Style { fg: Color::Magenta, bg: Color::Unset, bold: false, dim: false }
}

/// The style used for comparison operators.
pub fn op_style() -> (r: Style)
    ensures
        r == spec_op_style(),
{
    Style { fg: Color::Blue, bg: Color::Unset, bold: true, dim: false }
}

/// The style used for the left operand of a comparison.
pub fn left_style() -> (r: Style)
    ensures
        r == spec_left_style(),
{
    Style { fg: Color::Cyan, bg: Color::Unset, bold: false, dim: false }
}

/// The style used for the right operand of a comparison.
pub fn right_style() -> (r: Style)
    ensures
        r == spec_right_style(),
{
    Style { fg: Color::Yellow, bg: Color::Unset, bold: false, dim: false }
}

/// The style used for notes and the source file name.
pub fn note_style() -> (r: Style)
    ensures
        r == spec_note_style(),
{
    Style { fg: Color::Unset, bg: Color::Unset, bold: true, dim: false }
}

/// The style used for de-emphasised text, such as predicates that did not fail.
pub fn dimmed_style() -> (r: Style)
    ensures
        r == spec_dimmed_style(),
{
    Style { fg: Color::Unset, bg: Color::Unset, bold: false, dim: true }
}

} // verus!
