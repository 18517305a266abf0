//! End-user configurable options and the compact/pretty format choice.
//!
//! The options are a pure function of the relevant environment values; the
//! embedding binary reads the environment once, hands the raw strings in, and
//! caches the result for the process lifetime.  The `ASSERT2` value is a
//! comma-separated, case-insensitive token list (`pretty`, `compact`,
//! `color`, `no-color`; unknown tokens are ignored); the colour default
//! consults `NO_COLOR`, `CLICOLOR` and `CLICOLOR_FORCE`, in that order, and
//! finally whether the diagnostic stream is a terminal.

use vstd::prelude::*;
use vstd::string::*;

use crate::charinfo::whitespace;

verus! {

/// How operands are expanded in a report.
#[derive(Clone, Copy, PartialEq, Eq, Structural, Debug)]
pub enum ExpansionFormat {
    /// Compact if every compact form is short and single-line, pretty
    /// otherwise.
    Auto,
    /// Always the multi-line, indented debug form.
    Pretty,
    /// Always the single-line debug form.
    Compact,
}

/// End-user configurable options.
#[derive(Clone, Copy, PartialEq, Eq, Structural, Debug)]
pub struct AssertOptions {
    /// The expansion format for operand values.
    pub expand: ExpansionFormat,
    /// If true, use colours in the output.
    pub color: bool,
}

/// A value formatted both ways: its single-line and its multi-line debug
/// form.  The caller formats; this crate only chooses and renders.
pub struct FormattedValue {
    pub compact: String,
    pub pretty: String,
}

impl DeepView for FormattedValue {
    type V = (Seq<char>, Seq<char>);

    open spec fn deep_view(&self) -> (Seq<char>, Seq<char>) {
        (self.compact@, self.pretty@)
    }
}

/// ASCII lower-casing of one character.
pub open spec fn ascii_lower(c: char) -> char {
    if 'A' <= c && c <= 'Z' {
        ((c as u8) + 32) as char
    } else {
        c
    }
}

/// ASCII lower-casing of a character sequence.
pub open spec fn lower_seq(s: Seq<char>) -> Seq<char> {
    s.map_values(|c: char| ascii_lower(c))
}

/// Whether an environment value counts as true: `1`, `true` or `yes`, in any
/// case.
pub open spec fn is_true_value(s: Seq<char>) -> bool {
    lower_seq(s) == "1"@ || lower_seq(s) == "true"@ || lower_seq(s) == "yes"@
}

/// Whether an environment value counts as false: `0`, `false` or `no`, in
/// any case.
pub open spec fn is_false_value(s: Seq<char>) -> bool {
    lower_seq(s) == "0"@ || lower_seq(s) == "false"@ || lower_seq(s) == "no"@
}

/// The colour default when the `ASSERT2` tokens say nothing: `NO_COLOR`
/// truthy disables, then `CLICOLOR` falsy disables, then `CLICOLOR_FORCE`
/// truthy enables, else colour follows the terminal.
pub open spec fn spec_default_color(
    no_color: Option<Seq<char>>,
    clicolor: Option<Seq<char>>,
    clicolor_force: Option<Seq<char>>,
    stderr_is_tty: bool,
) -> bool {
    if no_color is Some && is_true_value(no_color->0) {
        false
    } else if clicolor is Some && is_false_value(clicolor->0) {
        false
    } else if clicolor_force is Some && is_true_value(clicolor_force->0) {
        true
    } else {
        stderr_is_tty
    }
}

/// Leading whitespace removed.
pub open spec fn trim_start_spec(s: Seq<char>) -> Seq<char>
    decreases s.len(),
{
    if s.len() > 0 && whitespace(s.first()) {
        trim_start_spec(s.drop_first())
    } else {
        s
    }
}

/// Trailing whitespace removed.
pub open spec fn trim_end_spec(s: Seq<char>) -> Seq<char>
    decreases s.len(),
{
    if s.len() > 0 && whitespace(s.last()) {
        trim_end_spec(s.drop_last())
    } else {
        s
    }
}

/// Surrounding whitespace removed.
pub open spec fn trim_spec(s: Seq<char>) -> Seq<char> {
    trim_end_spec(trim_start_spec(s))
}

/// The first comma at or after index `i`, or the end of the text.
pub open spec fn comma_from(s: Seq<char>, i: nat) -> nat
    decreases s.len() - i when i <= s.len()
{
    if i >= s.len() {
        s.len()
    } else if s[i as int] == ',' {
        i
    } else {
        comma_from(s, i + 1)
    }
}

/// A comma position lies between `i` and the end of the text.
pub proof fn lemma_comma_range(s: Seq<char>, i: nat)
    requires
        i <= s.len(),
    ensures
        i <= comma_from(s, i) <= s.len(),
    decreases s.len() - i,
{
    if i < s.len() && s[i as int] != ',' {
        lemma_comma_range(s, i + 1);
    }
}

/// The comma-separated pieces of a value; splitting an empty value yields one
/// empty piece.
pub open spec fn split_commas(s: Seq<char>) -> Seq<Seq<char>>
    decreases s.len() via split_commas_decreases
{
    let e = comma_from(s, 0);
    if e < s.len() {
        seq![s.take(e as int)] + split_commas(s.skip(e as int + 1))
    } else {
        seq![s]
    }
}

#[via_fn]
proof fn split_commas_decreases(s: Seq<char>) {
    lemma_comma_range(s, 0);
}

/// One token applied to the options: `pretty`/`compact` set the expansion
/// format, `color`/`no-color` force the colour flag, anything else is
/// ignored.  Tokens are trimmed and case-insensitive.
pub open spec fn apply_token(o: AssertOptions, token: Seq<char>) -> AssertOptions {
    let t = lower_seq(trim_spec(token));
    if t == "pretty"@ {
        AssertOptions { expand: ExpansionFormat::Pretty, ..o }
    } else if t == "compact"@ {
        AssertOptions { expand: ExpansionFormat::Compact, ..o }
    } else if t == "color"@ {
        AssertOptions { color: true, ..o }
    } else if t == "no-color"@ {
        AssertOptions { color: false, ..o }
    } else {
        o
    }
}

/// All tokens applied in order.
pub open spec fn apply_tokens(o: AssertOptions, tokens: Seq<Seq<char>>) -> AssertOptions
    decreases tokens.len(),
{
    if tokens.len() == 0 {
        o
    } else {
        apply_tokens(apply_token(o, tokens.first()), tokens.drop_first())
    }
}

/// The options resulting from the given environment values.
pub open spec fn spec_options_from_env(
    assert2: Option<Seq<char>>,
    no_color: Option<Seq<char>>,
    clicolor: Option<Seq<char>>,
    clicolor_force: Option<Seq<char>>,
    stderr_is_tty: bool,
) -> AssertOptions {
    let base = AssertOptions {
        expand: ExpansionFormat::Auto,
        color: spec_default_color(no_color, clicolor, clicolor_force, stderr_is_tty),
    };
    match assert2 {
        None => base,
        Some(s) => apply_tokens(base, split_commas(s)),
    }
}

/// Whether every value is at most forty bytes long and single-line.
pub open spec fn spec_is_compact_good(vals: Seq<Seq<char>>) -> bool {
    forall|i: int|
        0 <= i < vals.len() ==> (#[trigger] crate::seqtools::byte_len(vals[i]) <= 40
            && !vals[i].contains('\n'))
}

/// The values chosen by [`ExpansionFormat::expand_all`]: the compact forms
/// when the format is `Compact`, or `Auto` and all compact forms are good;
/// the pretty forms otherwise.
pub open spec fn spec_expand_all(f: ExpansionFormat, vs: Seq<(Seq<char>, Seq<char>)>) -> Seq<
    Seq<char>,
> {
    if f != ExpansionFormat::Pretty && (f == ExpansionFormat::Compact || spec_is_compact_good(
        vs.map_values(|v: (Seq<char>, Seq<char>)| v.0),
    )) {
        vs.map_values(|v: (Seq<char>, Seq<char>)| v.0)
    } else {
        vs.map_values(|v: (Seq<char>, Seq<char>)| v.1)
    }
}

impl ExpansionFormat {
    /// Check if the format forces the pretty debug form.
    pub fn force_pretty(self) -> (r: bool)
        ensures
            r == (self == ExpansionFormat::Pretty),
    {
        self == ExpansionFormat::Pretty
    }

    /// Check if the format forces the compact debug form.
    pub fn force_compact(self) -> (r: bool)
        ensures
            r == (self == ExpansionFormat::Compact),
    {
        self == ExpansionFormat::Compact
    }

    /// Choose, for every value, the form this format asks for.
    pub fn expand_all(self, values: &Vec<FormattedValue>) -> (r: Vec<String>)
        ensures
            r.deep_view() == spec_expand_all(self, values.deep_view()),
    {
        if !self.force_pretty() {
            let compacts = compact_forms(values);
            if self.force_compact() || Self::is_compact_good(&compacts) {
                return compacts;
            }
        }
        pretty_forms(values)
    }

    /// Heuristically decide whether the compact forms are fit to show on one
    /// line: each at most forty characters and none with an embedded newline.
    pub fn is_compact_good(expanded: &Vec<String>) -> (r: bool)
        ensures
            r == spec_is_compact_good(expanded.deep_view()),
    {
        let n = expanded.len();
        let mut i: usize = 0;
        while i < n
            invariant
                i <= n,
                n == expanded.deep_view().len(),
                forall|j: int|
                    0 <= j < i ==> (#[trigger] crate::seqtools::byte_len(expanded.deep_view()[j])
                        <= 40 && !expanded.deep_view()[j].contains('\n')),
            decreases n - i,
        {
            let value = &expanded[i];
            proof {
                assert(expanded.deep_view()[i as int] == expanded@[i as int].deep_view());
            }
            let value_bytes = value.as_str().as_bytes().len();
            proof {
                broadcast use vstd::slice::axiom_spec_len;

                assert(value_bytes == crate::seqtools::byte_len(value@));
            }
            if value_bytes > 40 {
                proof {
                    assert(crate::seqtools::byte_len(expanded.deep_view()[i as int]) > 40);
                }
                return false;
            }
            if contains_newline(value.as_str()) {
                proof {
                    assert(expanded.deep_view()[i as int].contains('\n'));
                }
                return false;
            }
            i = i + 1;
        }
        true
    }
}

fn compact_forms(values: &Vec<FormattedValue>) -> (r: Vec<String>)
    ensures
        r.deep_view() == values.deep_view().map_values(|v: (Seq<char>, Seq<char>)| v.0),
{
    let mut r: Vec<String> = Vec::new();
    let n = values.len();
    let mut i: usize = 0;
    while i < n
        invariant
            i <= n,
            n == values.deep_view().len(),
            r@.len() == i,
            forall|k: int| 0 <= k < i ==> #[trigger] r@[k]@ == values.deep_view()[k].0,
        decreases n - i,
    {
        proof {
            assert(values.deep_view()[i as int] == values@[i as int].deep_view());
        }
        r.push(values[i].compact.clone());
        i = i + 1;
    }
    proof {
        assert forall|k: int| 0 <= k < n implies #[trigger] r.deep_view()[k]
            == values.deep_view().map_values(|v: (Seq<char>, Seq<char>)| v.0)[k] by {
            assert(r.deep_view()[k] == r@[k]@);
        }
        assert(r.deep_view() =~= values.deep_view().map_values(
            |v: (Seq<char>, Seq<char>)| v.0,
        ));
    }
    r
}

fn pretty_forms(values: &Vec<FormattedValue>) -> (r: Vec<String>)
    ensures
        r.deep_view() == values.deep_view().map_values(|v: (Seq<char>, Seq<char>)| v.1),
{
    let mut r: Vec<String> = Vec::new();
    let n = values.len();
    let mut i: usize = 0;
    while i < n
        invariant
            i <= n,
            n == values.deep_view().len(),
            r@.len() == i,
            forall|k: int| 0 <= k < i ==> #[trigger] r@[k]@ == values.deep_view()[k].1,
        decreases n - i,
    {
        proof {
            assert(values.deep_view()[i as int] == values@[i as int].deep_view());
        }
        r.push(values[i].pretty.clone());
        i = i + 1;
    }
    proof {
        assert forall|k: int| 0 <= k < n implies #[trigger] r.deep_view()[k]
            == values.deep_view().map_values(|v: (Seq<char>, Seq<char>)| v.1)[k] by {
            assert(r.deep_view()[k] == r@[k]@);
        }
        assert(r.deep_view() =~= values.deep_view().map_values(
            |v: (Seq<char>, Seq<char>)| v.1,
        ));
    }
    r
}

/// Whether `s` holds an embedded newline.
fn contains_newline(s: &str) -> (r: bool)
    ensures
        r == s@.contains('\n'),
{
    let n = s.unicode_len();
    let mut i: usize = 0;
    while i < n
        invariant
            i <= n,
            n == s@.len(),
            forall|j: int| 0 <= j < i ==> s@[j] != '\n',
        decreases n - i,
    {
        if s.get_char(i) == '\n' {
            proof {
                assert(s@.contains('\n'));
            }
            return true;
        }
        i = i + 1;
    }
    proof {
        assert(!s@.contains('\n')) by {
            if s@.contains('\n') {
                let j = choose|j: int| 0 <= j < s@.len() && s@[j] == '\n';
            }
        }
    }
    false
}

/// ASCII lower-casing of one character.
fn ascii_lower_char(c: char) -> (r: char)
    ensures
        r == ascii_lower(c),
{
    if 'A' <= c && c <= 'Z' {
        ((c as u8) + 32) as char
    } else {
        c
    }
}

/// Whether `s`, lower-cased, equals the (already lower-case) keyword.
fn lower_matches(s: &str, keyword: &str) -> (r: bool)
    ensures
        r == (lower_seq(s@) == keyword@),
{
    let n = s.unicode_len();
    let m = keyword.unicode_len();
    if n != m {
        proof {
            assert(lower_seq(s@).len() == s@.len());
        }
        return false;
    }
    let mut i: usize = 0;
    while i < n
        invariant
            i <= n,
            n == s@.len(),
            n == keyword@.len(),
            forall|j: int| 0 <= j < i ==> lower_seq(s@)[j] == keyword@[j],
        decreases n - i,
    {
        if ascii_lower_char(s.get_char(i)) != keyword.get_char(i) {
            proof {
                assert(lower_seq(s@)[i as int] != keyword@[i as int]);
            }
            return false;
        }
        i = i + 1;
    }
    proof {
        assert(lower_seq(s@) =~= keyword@);
    }
    true
}

fn opt_is_true(v: &Option<String>) -> (r: bool)
    ensures
        r == (v is Some && is_true_value(v->0@)),
{
    match v {
        None => false,
        Some(s) => lower_matches(s.as_str(), "1") || lower_matches(s.as_str(), "true")
            || lower_matches(s.as_str(), "yes"),
    }
}

fn opt_is_false(v: &Option<String>) -> (r: bool)
    ensures
        r == (v is Some && is_false_value(v->0@)),
{
    match v {
        None => false,
        Some(s) => lower_matches(s.as_str(), "0") || lower_matches(s.as_str(), "false")
            || lower_matches(s.as_str(), "no"),
    }
}

/// Surrounding whitespace removed.
fn trim_str(s: &str) -> (r: String)
    ensures
        r@ == trim_spec(s@),
{
    let n = s.unicode_len();
    let mut a: usize = 0;
    proof {
        assert(s@.skip(0) =~= s@);
    }
    while a < n && s.get_char(a).is_whitespace()
        invariant
            a <= n,
            n == s@.len(),
            trim_start_spec(s@.skip(a as int)) == trim_start_spec(s@),
        decreases n - a,
    {
        proof {
            assert(s@.skip(a as int).first() == s@[a as int]);
            assert(s@.skip(a as int).drop_first() =~= s@.skip(a as int + 1));
        }
        a = a + 1;
    }
    proof {
        if a == n {
            assert(s@.skip(a as int) =~= Seq::<char>::empty());
        }
        assert(trim_start_spec(s@) == s@.skip(a as int));
    }
    let mut b: usize = n;
    proof {
        assert(s@.skip(a as int).take((n - a) as int) =~= s@.skip(a as int));
    }
    while b > a && s.get_char(b - 1).is_whitespace()
        invariant
            a <= b <= n,
            n == s@.len(),
            trim_start_spec(s@) == s@.skip(a as int),
            trim_end_spec(s@.skip(a as int).take(b - a)) == trim_end_spec(s@.skip(a as int)),
        decreases b,
    {
        proof {
            let piece = s@.skip(a as int).take(b - a);
            assert(piece.last() == s@[b - 1]);
            assert(piece.drop_last() =~= s@.skip(a as int).take(b - 1 - a));
        }
        b = b - 1;
    }
    proof {
        let piece = s@.skip(a as int).take(b - a);
        if b > a {
            assert(piece.last() == s@[b - 1]);
        }
        assert(trim_end_spec(piece) == piece);
        assert(piece =~= s@.subrange(a as int, b as int));
    }
    s.substring_char(a, b).to_owned()
}

impl AssertOptions {
    /// The options resulting from the given environment values: `assert2` is
    /// the `ASSERT2` token list, the three colour variables and the terminal
    /// flag give the colour default.  The result is a pure function of these
    /// five values; the embedding binary computes it once per process and
    /// caches it.
    pub fn from_env_values(
        assert2: Option<String>,
        no_color: Option<String>,
        clicolor: Option<String>,
        clicolor_force: Option<String>,
        stderr_is_tty: bool,
    ) -> (r: AssertOptions)
        ensures
            r == spec_options_from_env(
                match assert2 {
                    Some(s) => Some(s@),
                    None => None,
                },
                match no_color {
                    Some(s) => Some(s@),
                    None => None,
                },
                match clicolor {
                    Some(s) => Some(s@),
                    None => None,
                },
                match clicolor_force {
                    Some(s) => Some(s@),
                    None => None,
                },
                stderr_is_tty,
            ),
    {
        let color = if opt_is_true(&no_color) {
            false
        } else if opt_is_false(&clicolor) {
            false
        } else if opt_is_true(&clicolor_force) {
            true
        } else {
            stderr_is_tty
        };
        let mut out = AssertOptions { expand: ExpansionFormat::Auto, color };
        match assert2 {
            None => out,
            Some(s) => {
                let tokens = split_commas_exec(s.as_str());
                let n = tokens.len();
                let ghost toks = tokens.deep_view();
                let ghost base = out;
                let mut i: usize = 0;
                proof {
                    assert(toks.skip(0) =~= toks);
                }
                while i < n
                    invariant
                        i <= n,
                        n == toks.len(),
                        toks == tokens.deep_view(),
                        apply_tokens(out, toks.skip(i as int)) == apply_tokens(base, toks),
                    decreases n - i,
                {
                    let ghost rest = toks.skip(i as int);
                    let ghost out0 = out;
                    proof {
                        assert(rest.first() == toks[i as int]);
                        assert(rest.drop_first() =~= toks.skip(i as int + 1));
                    }
                    let trimmed = trim_str(tokens[i].as_str());
                    if lower_matches(trimmed.as_str(), "pretty") {
                        out.expand = ExpansionFormat::Pretty;
                    } else if lower_matches(trimmed.as_str(), "compact") {
                        out.expand = ExpansionFormat::Compact;
                    } else if lower_matches(trimmed.as_str(), "color") {
                        out.color = true;
                    } else if lower_matches(trimmed.as_str(), "no-color") {
                        out.color = false;
                    }
                    proof {
                        assert(out == apply_token(out0, rest.first()));
                    }
                    i = i + 1;
                }
                proof {
                    assert(toks.skip(n as int) =~= Seq::<Seq<char>>::empty());
                }
                out
            },
        }
    }
}

/// Split a value at commas.
fn split_commas_exec(s: &str) -> (tokens: Vec<String>)
    ensures
        tokens.deep_view() == split_commas(s@),
{
    let chars = crate::seqtools::chars_of(s);
    let n = chars.len();
    let mut tokens: Vec<String> = Vec::new();
    let mut start: usize = 0;
    let mut finished = false;
    proof {
        assert(chars@.skip(0) =~= chars@);
        assert(tokens.deep_view() =~= Seq::<Seq<char>>::empty());
        assert(Seq::<Seq<char>>::empty() + split_commas(s@) =~= split_commas(s@));
    }
    while !finished
        invariant
            start <= n,
            n == chars@.len(),
            chars@ == s@,
            !finished ==> tokens.deep_view() + split_commas(chars@.skip(start as int))
                == split_commas(s@),
            finished ==> tokens.deep_view() == split_commas(s@),
        decreases n - start + (if finished {
            0int
        } else {
            1int
        }),
    {
        let ghost suffix = chars@.skip(start as int);
        let mut j: usize = start;
        while j < n && chars[j] != ','
            invariant
                start <= j <= n,
                n == chars@.len(),
                suffix == chars@.skip(start as int),
                comma_from(suffix, (j - start) as nat) == comma_from(suffix, 0),
            decreases n - j,
        {
            proof {
                assert(suffix[(j - start) as int] == chars@[j as int]);
            }
            j = j + 1;
        }
        proof {
            if j < n {
                assert(suffix[(j - start) as int] == chars@[j as int]);
            }
            assert(comma_from(suffix, (j - start) as nat) == (j - start) as nat);
        }
        let token = s.substring_char(start, j).to_owned();
        proof {
            assert(token@ =~= suffix.take((j - start) as int));
        }
        tokens.push(token);
        if j < n {
            proof {
                let e = (j - start) as int;
                assert(split_commas(suffix) == seq![suffix.take(e)] + split_commas(
                    suffix.skip(e + 1),
                ));
                assert(chars@.skip(j as int + 1) =~= suffix.skip(e + 1));
            }
            start = j + 1;
        } else {
            proof {
                let e = (j - start) as int;
                assert(split_commas(suffix) == seq![suffix]);
                assert(suffix.take(e) =~= suffix);
            }
            start = n;
            finished = true;
        }
    }
    tokens
}

} // verus!
