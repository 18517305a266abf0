//! The line- and word-level diff engines.
//!
//! The sequence diff itself comes from the `diff` crate through one trusted
//! wrapper; its result is named [`slice_diff`] and everything downstream is
//! verified against that name.  [`SingleLineDiff`] word-diffs two single
//! lines into a pair of [`Highlighter`]s; [`MultiLineDiff`] line-diffs two
//! text blobs and re-groups lone 1:1 replacements into [`LineDiff::Different`]
//! pairs, which render through the word diff.

use vstd::prelude::*;
use vstd::string::*;

use crate::highlight::HlModel;
use crate::highlight::Highlighter;
use crate::highlight::Run;
use crate::highlight::coverage;
use crate::highlight::hl_wf;
use crate::highlight::render_ops;
use crate::highlight::spec_push;
use crate::seqtools::concat_all;
use crate::styles::Color;
use crate::styles::Style;
use crate::words::split_words;
use crate::words::split_words_spec;
use crate::words::lemma_split_words_partition;
use crate::writer::SnipModel;
use crate::writer::WrappingWriter;
use crate::writer::WriterOp;
use crate::writer::apply_op;
use crate::writer::apply_ops;

verus! {

/// One fragment of a sequence diff: an element of the left input only, of the
/// right input only, or of both.
pub enum DiffItem {
    Left(String),
    Right(String),
    Both(String),
}

impl DeepView for DiffItem {
    type V = (char, Seq<char>);

    open spec fn deep_view(&self) -> (char, Seq<char>) {
        match self {
            DiffItem::Left(s) => ('L', s@),
            DiffItem::Right(s) => ('R', s@),
            DiffItem::Both(s) => ('B', s@),
        }
    }
}

/// What `diff::slice` returns for the given inputs, abstractly: a sequence of
/// tagged elements (`'L'`, `'R'`, `'B'`).
pub uninterp spec fn slice_diff(left: Seq<Seq<char>>, right: Seq<Seq<char>>) -> Seq<
    (char, Seq<char>),
>;

/// The elements a diff keeps from the left input: the payloads of its `'L'`
/// and `'B'` items, in order.
pub open spec fn keeps_left(d: Seq<(char, Seq<char>)>) -> Seq<Seq<char>>
    decreases d.len(),
{
    if d.len() == 0 {
        Seq::empty()
    } else {
        let rest = keeps_left(d.drop_first());
        if d.first().0 == 'L' || d.first().0 == 'B' {
            seq![d.first().1] + rest
        } else {
            rest
        }
    }
}

/// The elements a diff keeps from the right input: the payloads of its `'R'`
/// and `'B'` items, in order.
pub open spec fn keeps_right(d: Seq<(char, Seq<char>)>) -> Seq<Seq<char>>
    decreases d.len(),
{
    if d.len() == 0 {
        Seq::empty()
    } else {
        let rest = keeps_right(d.drop_first());
        if d.first().0 == 'R' || d.first().0 == 'B' {
            seq![d.first().1] + rest
        } else {
            rest
        }
    }
}

/// Every tag of the diff is one of `'L'`, `'R'`, `'B'`.
pub open spec fn valid_tags(d: Seq<(char, Seq<char>)>) -> bool {
    forall|i: int|
        0 <= i < d.len() ==> (#[trigger] d[i].0 == 'L' || d[i].0 == 'R' || d[i].0 == 'B')
}

/// The diff of a sequence against itself: everything kept from both sides.
pub open spec fn all_both(ss: Seq<Seq<char>>) -> Seq<(char, Seq<char>)> {
    ss.map_values(|s: Seq<char>| ('B', s))
}

/// Relies on diff::slice, an LCS-based sequence diff.  Its source shows
/// plainly that the `Left`/`Both` items are exactly the left input in order,
/// the `Right`/`Both` items exactly the right input in order, that a `Both`
/// item pairs equal elements (so one payload suffices), and that for equal
/// inputs its leading scan pairs every element as `Both`.  The result is a
/// function of the two inputs alone.
#[verifier::external_body]
fn diff_slices(left: &Vec<String>, right: &Vec<String>) -> (r: Vec<DiffItem>)
    ensures
        r.deep_view() == slice_diff(left.deep_view(), right.deep_view()),
        keeps_left(r.deep_view()) == left.deep_view(),
        keeps_right(r.deep_view()) == right.deep_view(),
        valid_tags(r.deep_view()),
        left.deep_view() == right.deep_view() ==> r.deep_view() == all_both(left.deep_view()),
{
    diff::slice(left.as_slice(), right.as_slice())
        .into_iter()
        .map(
            |item|
                match item {
                    diff::Result::Left(l) => DiffItem::Left(l.clone()),
                    diff::Result::Both(l, _r) => DiffItem::Both(l.clone()),
                    diff::Result::Right(r2) => DiffItem::Right(r2.clone()),
                },
        )
        .collect()
}

/// The runs a word diff pushes into the left-hand highlighter: `'L'` items
/// are highlighted, `'B'` items are not, `'R'` items belong to the other
/// side.
pub open spec fn left_runs_acc(d: Seq<(char, Seq<char>)>, runs: Seq<Run>) -> Seq<Run>
    decreases d.len(),
{
    if d.len() == 0 {
        runs
    } else {
        let x = d.first();
        let runs2 = if x.0 == 'L' {
            spec_push(runs, x.1.len(), true)
        } else if x.0 == 'B' {
            spec_push(runs, x.1.len(), false)
        } else {
            runs
        };
        left_runs_acc(d.drop_first(), runs2)
    }
}

/// The runs a word diff pushes into the right-hand highlighter.
pub open spec fn right_runs_acc(d: Seq<(char, Seq<char>)>, runs: Seq<Run>) -> Seq<Run>
    decreases d.len(),
{
    if d.len() == 0 {
        runs
    } else {
        let x = d.first();
        let runs2 = if x.0 == 'R' {
            spec_push(runs, x.1.len(), true)
        } else if x.0 == 'B' {
            spec_push(runs, x.1.len(), false)
        } else {
            runs
        };
        right_runs_acc(d.drop_first(), runs2)
    }
}

/// The highlighted byte count of the left side of a diff: the byte lengths
/// of the `'L'` payloads.
pub open spec fn left_high_bytes(d: Seq<(char, Seq<char>)>) -> nat
    decreases d.len(),
{
    if d.len() == 0 {
        0
    } else {
        (if d.first().0 == 'L' {
            crate::seqtools::byte_len(d.first().1)
        } else {
            0nat
        }) + left_high_bytes(d.drop_first())
    }
}

/// The highlighted byte count of the right side of a diff: the byte lengths
/// of the `'R'` payloads.
pub open spec fn right_high_bytes(d: Seq<(char, Seq<char>)>) -> nat
    decreases d.len(),
{
    if d.len() == 0 {
        0
    } else {
        (if d.first().0 == 'R' {
            crate::seqtools::byte_len(d.first().1)
        } else {
            0nat
        }) + right_high_bytes(d.drop_first())
    }
}

/// The highlighted bytes of either side never exceed the bytes that side
/// keeps.
pub proof fn lemma_high_bytes_bound(d: Seq<(char, Seq<char>)>)
    ensures
        left_high_bytes(d) <= crate::seqtools::byte_len(concat_all(keeps_left(d))),
        right_high_bytes(d) <= crate::seqtools::byte_len(concat_all(keeps_right(d))),
    decreases d.len(),
{
    if d.len() > 0 {
        lemma_high_bytes_bound(d.drop_first());
        if d.first().0 == 'L' || d.first().0 == 'B' {
            crate::seqtools::lemma_concat_all_cons(d.first().1, keeps_left(d.drop_first()));
            crate::seqtools::lemma_byte_len_concat(
                d.first().1,
                concat_all(keeps_left(d.drop_first())),
            );
        }
        if d.first().0 == 'R' || d.first().0 == 'B' {
            crate::seqtools::lemma_concat_all_cons(d.first().1, keeps_right(d.drop_first()));
            crate::seqtools::lemma_byte_len_concat(
                d.first().1,
                concat_all(keeps_right(d.drop_first())),
            );
        }
    }
}

/// The word diff of two lines, tagged by word.
pub open spec fn word_diff(left: Seq<char>, right: Seq<char>) -> Seq<(char, Seq<char>)> {
    slice_diff(split_words_spec(left), split_words_spec(right))
}

/// The left-hand highlighter a word diff of `left` against `right` produces.
pub open spec fn sld_left_model(left: Seq<char>, right: Seq<char>) -> HlModel {
    let runs = left_runs_acc(word_diff(left, right), Seq::empty());
    HlModel {
        runs,
        total: left_high_bytes(word_diff(left, right)),
        normal: (Style { fg: Color::Cyan, bg: Color::Unset, bold: false, dim: false }),
        highlight: (Style { fg: Color::Black, bg: Color::Cyan, bold: true, dim: false }),
    }
}

/// The right-hand highlighter a word diff of `left` against `right` produces.
pub open spec fn sld_right_model(left: Seq<char>, right: Seq<char>) -> HlModel {
    let runs = right_runs_acc(word_diff(left, right), Seq::empty());
    HlModel {
        runs,
        total: right_high_bytes(word_diff(left, right)),
        normal: (Style { fg: Color::Yellow, bg: Color::Unset, bold: false, dim: false }),
        highlight: (Style { fg: Color::Black, bg: Color::Yellow, bold: true, dim: false }),
    }
}

/// The abstract state of a [`SingleLineDiff`].
pub ghost struct SldModel {
    pub left: Seq<char>,
    pub right: Seq<char>,
    pub lh: HlModel,
    pub rh: HlModel,
}

/// The invariant of a word diff: both highlighters are well-formed, cover
/// exactly their line, and highlight no more bytes than their line holds.
pub open spec fn sld_wf(m: SldModel) -> bool {
    &&& hl_wf(m.lh)
    &&& hl_wf(m.rh)
    &&& coverage(m.lh.runs) == m.left.len()
    &&& coverage(m.rh.runs) == m.right.len()
    &&& m.lh.total <= crate::seqtools::byte_len(m.left)
    &&& m.rh.total <= crate::seqtools::byte_len(m.right)
}

/// A character/word based diff between two single-line inputs.
pub struct SingleLineDiff {
    left: String,
    right: String,
    left_highlights: Highlighter,
    right_highlights: Highlighter,
}

impl View for SingleLineDiff {
    type V = SldModel;

    closed spec fn view(&self) -> SldModel {
        SldModel {
            left: self.left@,
            right: self.right@,
            lh: self.left_highlights@,
            rh: self.right_highlights@,
        }
    }
}

impl SingleLineDiff {
    /// Word-diff `left` against `right`: split both into words, diff the word
    /// sequences, and push a highlighted run for each word kept by only one
    /// side and a non-highlighted run for each word kept by both.
    ///
    /// Diffing a line against itself (the self-diff law) highlights nothing:
    /// both highlighters end up with zero highlighted characters, a single
    /// all-covering non-highlighted run, and a rendering that is exactly the
    /// whole line written once in the normal style.
    pub fn new(left: &str, right: &str) -> (r: SingleLineDiff)
        ensures
            r@.left == left@,
            r@.right == right@,
            r@.lh == sld_left_model(left@, right@),
            r@.rh == sld_right_model(left@, right@),
            sld_wf(r@),
            left@ == right@ ==> r@.lh.total == 0 && r@.rh.total == 0,
            left@ == right@ ==> r@.lh.runs == self_diff_runs(left@) && r@.rh.runs
                == self_diff_runs(left@),
            left@ == right@ && left@.len() > 0 ==> render_ops(r@.lh, left@) == seq![
                WriterOp::Write(SnipModel { text: left@, style: r@.lh.normal, curl: None }),
            ],
    {
        let left_words = split_words(left);
        let right_words = split_words(right);
        let diffs = diff_slices(&left_words, &right_words);
        let ghost dv = diffs.deep_view();
        let mut lh = Highlighter::new(Color::Cyan);
        let mut rh = Highlighter::new(Color::Yellow);
        proof {
            lemma_split_words_partition(left@);
            lemma_split_words_partition(right@);
            assert(dv.skip(0) =~= dv);
            if left@ == right@ {
                assert(left_words.deep_view() == right_words.deep_view());
            }
        }
        let n = diffs.len();
        let left_len = left.unicode_len();
        let right_len = right.unicode_len();
        let left_bytes = left.as_bytes().len();
        let right_bytes = right.as_bytes().len();
        proof {
            broadcast use vstd::slice::axiom_spec_len;

            lemma_high_bytes_bound(dv);
            assert(left_bytes == crate::seqtools::byte_len(left@));
            assert(right_bytes == crate::seqtools::byte_len(right@));
        }
        let mut i: usize = 0;
        while i < n
            invariant
                i <= n,
                n == dv.len(),
                left_len == left@.len(),
                right_len == right@.len(),
                dv == diffs.deep_view(),
                valid_tags(dv),
                hl_wf(lh@),
                hl_wf(rh@),
                lh@.normal == sld_left_model(left@, right@).normal,
                lh@.highlight == sld_left_model(left@, right@).highlight,
                rh@.normal == sld_right_model(left@, right@).normal,
                rh@.highlight == sld_right_model(left@, right@).highlight,
                left_runs_acc(dv.skip(i as int), lh@.runs) == left_runs_acc(dv, Seq::empty()),
                right_runs_acc(dv.skip(i as int), rh@.runs) == right_runs_acc(dv, Seq::empty()),
                lh@.total + left_high_bytes(dv.skip(i as int)) == left_high_bytes(dv),
                rh@.total + right_high_bytes(dv.skip(i as int)) == right_high_bytes(dv),
                left_high_bytes(dv) <= left_bytes,
                right_high_bytes(dv) <= right_bytes,
                coverage(lh@.runs) + concat_all(keeps_left(dv.skip(i as int))).len() == left@.len(),
                coverage(rh@.runs) + concat_all(keeps_right(dv.skip(i as int))).len()
                    == right@.len(),
                left@ == right@ ==> dv == all_both(split_words_spec(left@)),
                left@ == right@ ==> lh@.total == 0 && rh@.total == 0 && lh@.runs
                    == partial_self_runs(coverage(lh@.runs)) && rh@.runs == partial_self_runs(
                    coverage(rh@.runs),
                ),
            decreases n - i,
        {
            let ghost rest = dv.skip(i as int);
            proof {
                assert(rest.first() == dv[i as int]);
                assert(rest.drop_first() =~= dv.skip(i as int + 1));
                if left@ == right@ {
                    lemma_split_words_partition(left@);
                    assert(dv[i as int] == ('B', split_words_spec(left@)[i as int]));
                    assert(dv[i as int].1.len() > 0);
                }
            }
            let ghost cov_l = coverage(lh@.runs);
            let ghost cov_r = coverage(rh@.runs);
            match &diffs[i] {
                DiffItem::Left(w) => {
                    let wl = w.unicode_len();
                    let wb = w.as_str().as_bytes().len();
                    proof {
                        broadcast use vstd::slice::axiom_spec_len;

                        assert(wb == crate::seqtools::byte_len(w@));
                        assert(keeps_left(rest) == seq![rest.first().1] + keeps_left(
                            rest.drop_first(),
                        ));
                        crate::seqtools::lemma_concat_all_cons(
                            rest.first().1,
                            keeps_left(rest.drop_first()),
                        );
                        assert(left_high_bytes(rest) == crate::seqtools::byte_len(rest.first().1)
                            + left_high_bytes(rest.drop_first()));
                    }
                    lh.push(wl, wb, true);
                },
                DiffItem::Right(w) => {
                    let wl = w.unicode_len();
                    let wb = w.as_str().as_bytes().len();
                    proof {
                        broadcast use vstd::slice::axiom_spec_len;

                        assert(wb == crate::seqtools::byte_len(w@));
                        assert(keeps_right(rest) == seq![rest.first().1] + keeps_right(
                            rest.drop_first(),
                        ));
                        crate::seqtools::lemma_concat_all_cons(
                            rest.first().1,
                            keeps_right(rest.drop_first()),
                        );
                        assert(right_high_bytes(rest) == crate::seqtools::byte_len(rest.first().1)
                            + right_high_bytes(rest.drop_first()));
                    }
                    rh.push(wl, wb, true);
                },
                DiffItem::Both(w) => {
                    let wl = w.unicode_len();
                    let wb = w.as_str().as_bytes().len();
                    proof {
                        broadcast use vstd::slice::axiom_spec_len;

                        assert(wb == crate::seqtools::byte_len(w@));
                        assert(keeps_left(rest) == seq![rest.first().1] + keeps_left(
                            rest.drop_first(),
                        ));
                        crate::seqtools::lemma_concat_all_cons(
                            rest.first().1,
                            keeps_left(rest.drop_first()),
                        );
                        assert(keeps_right(rest) == seq![rest.first().1] + keeps_right(
                            rest.drop_first(),
                        ));
                        crate::seqtools::lemma_concat_all_cons(
                            rest.first().1,
                            keeps_right(rest.drop_first()),
                        );
                    }
                    lh.push(wl, wb, false);
                    rh.push(wl, wb, false);
                    proof {
                        if left@ == right@ {
                            assert(lh@.runs =~= partial_self_runs(cov_l + wl as nat));
                            assert(rh@.runs =~= partial_self_runs(cov_r + wl as nat));
                        }
                    }
                },
            }
            i = i + 1;
        }
        proof {
            assert(dv.skip(n as int) =~= Seq::<(char, Seq<char>)>::empty());
            assert(concat_all(keeps_left(dv.skip(n as int))) =~= Seq::<char>::empty());
            assert(concat_all(keeps_right(dv.skip(n as int))) =~= Seq::<char>::empty());
        }
        let r = SingleLineDiff {
            left: left.to_owned(),
            right: right.to_owned(),
            left_highlights: lh,
            right_highlights: rh,
        };
        proof {
            if left@ == right@ && left@.len() > 0 {
                assert(left@.len() == coverage(r@.lh.runs));
                lemma_self_render(r@.lh, left@);
            }
        }
        r
    }

    /// Render the left line, highlighted, through the writer.  This does not
    /// flush the line.
    pub fn write_left(&self, w: &mut WrappingWriter)
        requires
            sld_wf(self@),
        ensures
            final(w)@ == apply_ops(old(w)@, render_ops(self@.lh, self@.left)),
    {
        self.left_highlights.write_highlighted(w, self.left.as_str());
    }

    /// Render the right line, highlighted, through the writer.  This does not
    /// flush the line.
    pub fn write_right(&self, w: &mut WrappingWriter)
        requires
            sld_wf(self@),
        ensures
            final(w)@ == apply_ops(old(w)@, render_ops(self@.rh, self@.right)),
    {
        self.right_highlights.write_highlighted(w, self.right.as_str());
    }

    /// The normal style of the left-hand highlighter.
    pub fn left_normal(&self) -> (r: Style)
        ensures
            r == self@.lh.normal,
    {
        self.left_highlights.normal_style()
    }

    /// The normal style of the right-hand highlighter.
    pub fn right_normal(&self) -> (r: Style)
        ensures
            r == self@.rh.normal,
    {
        self.right_highlights.normal_style()
    }
}

/// Law: the word-diff round trip — for any pair of input lines, each side's
/// highlighter covers its line exactly, so concatenating the rendered
/// pieces with their styling stripped reproduces that line.
pub proof fn lemma_word_diff_round_trip(m: SldModel)
    requires
        sld_wf(m),
    ensures
        concat_all(crate::highlight::write_texts(render_ops(m.lh, m.left))) == m.left,
        concat_all(crate::highlight::write_texts(render_ops(m.rh, m.right))) == m.right,
{
    crate::highlight::lemma_render_round_trip(m.lh, m.left);
    crate::highlight::lemma_render_round_trip(m.rh, m.right);
}

/// The run list a self-diff produces: one all-covering non-highlighted run.
pub open spec fn self_diff_runs(line: Seq<char>) -> Seq<Run> {
    partial_self_runs(line.len())
}

/// The run list of a self-diff after covering `cov` characters.
pub open spec fn partial_self_runs(cov: nat) -> Seq<Run> {
    if cov == 0 {
        Seq::empty()
    } else {
        seq![Run { highlighted: false, start: 0, end: cov as usize }]
    }
}

/// A highlighter with zero highlighted characters and one all-covering run
/// renders as the whole line, once, in the normal style.
proof fn lemma_self_render(m: HlModel, data: Seq<char>)
    requires
        m.total == 0,
        0 < data.len() <= usize::MAX,
        m.runs == self_diff_runs(data),
    ensures
        render_ops(m, data) == seq![
            WriterOp::Write(SnipModel { text: data, style: m.normal, curl: None }),
        ],
{
    assert(crate::highlight::spec_div_ceil(0, 2) == 0);
    let ops = render_ops(m, data);
    assert(ops.len() == 1);
    assert(data.subrange(0, data.len() as int) =~= data);
    assert(ops[0] == WriterOp::Write(SnipModel { text: data, style: m.normal, curl: None }));
    assert(ops =~= seq![WriterOp::Write(SnipModel { text: data, style: m.normal, curl: None })]);
}

/// The first newline at or after index `i`, or the end of the text.
pub open spec fn line_end_from(s: Seq<char>, i: nat) -> nat
    decreases s.len() - i when i <= s.len()
{
    if i >= s.len() {
        s.len()
    } else if s[i as int] == '\n' {
        i
    } else {
        line_end_from(s, i + 1)
    }
}

/// A line end lies between `i` and the end of the text.
pub proof fn lemma_line_end_range(s: Seq<char>, i: nat)
    requires
        i <= s.len(),
    ensures
        i <= line_end_from(s, i) <= s.len(),
    decreases s.len() - i,
{
    if i < s.len() && s[i as int] != '\n' {
        lemma_line_end_range(s, i + 1);
    }
}

/// A line with one trailing carriage return removed.
pub open spec fn strip_cr(x: Seq<char>) -> Seq<char> {
    if x.len() > 0 && x.last() == '\r' {
        x.drop_last()
    } else {
        x
    }
}

/// The lines of a text: split at `'\n'`, with no empty final line for a
/// trailing newline, and with one `'\r'` stripped from each line end.
pub open spec fn lines_of(s: Seq<char>) -> Seq<Seq<char>>
    decreases s.len() via lines_of_decreases
{
    if s.len() == 0 {
        Seq::empty()
    } else {
        let e = line_end_from(s, 0);
        seq![strip_cr(s.take(e as int))] + (if e < s.len() {
            lines_of(s.skip(e as int + 1))
        } else {
            Seq::<Seq<char>>::empty()
        })
    }
}

#[via_fn]
proof fn lines_of_decreases(s: Seq<char>) {
    if s.len() > 0 {
        lemma_line_end_range(s, 0);
    }
}

/// Split a text into its lines.
pub fn split_lines(text: &str) -> (lines: Vec<String>)
    ensures
        lines.deep_view() == lines_of(text@),
{
    let chars = crate::seqtools::chars_of(text);
    let n = chars.len();
    let mut lines: Vec<String> = Vec::new();
    let mut start: usize = 0;
    proof {
        assert(chars@.skip(0) =~= chars@);
        assert(lines.deep_view() =~= Seq::<Seq<char>>::empty());
        assert(Seq::<Seq<char>>::empty() + lines_of(text@) =~= lines_of(text@));
    }
    while start < n
        invariant
            start <= n,
            n == chars@.len(),
            chars@ == text@,
            lines.deep_view() + lines_of(chars@.skip(start as int)) == lines_of(text@),
        decreases n - start,
    {
        let ghost suffix = chars@.skip(start as int);
        let mut j: usize = start;
        while j < n && chars[j] != '\n'
            invariant
                start <= j <= n,
                n == chars@.len(),
                suffix == chars@.skip(start as int),
                start < n,
                line_end_from(suffix, (j - start) as nat) == line_end_from(suffix, 0),
            decreases n - j,
        {
            proof {
                assert(suffix[(j - start) as int] == chars@[j as int]);
            }
            j = j + 1;
        }
        proof {
            if j < n {
                assert(suffix[(j - start) as int] == chars@[j as int]);
            }
            assert(line_end_from(suffix, (j - start) as nat) == (j - start) as nat);
        }
        let mut end = j;
        if end > start && chars[end - 1] == '\r' {
            end = end - 1;
            proof {
                assert(suffix[(j - start) as int - 1] == chars@[j - 1]);
            }
        }
        let line = line_substring(text, start, end);
        proof {
            let e = (j - start) as int;
            if e > 0 {
                assert(suffix.take(e)[e - 1] == suffix[e - 1]);
            }
            assert(line@ =~= strip_cr(suffix.take(e)));
        }
        let ghost old_start = start as int;
        let ghost old_deep = lines.deep_view();
        lines.push(line);
        if j < n {
            start = j + 1;
        } else {
            start = n;
        }
        proof {
            let e = j - old_start;
            assert(lines.deep_view() =~= old_deep.push(strip_cr(suffix.take(e))));
            assert(lines_of(suffix) == seq![strip_cr(suffix.take(e))] + (if e < suffix.len() {
                lines_of(suffix.skip(e + 1))
            } else {
                Seq::<Seq<char>>::empty()
            }));
            if e < suffix.len() {
                assert(chars@.skip(start as int) =~= suffix.skip(e + 1));
            } else {
                assert(chars@.skip(start as int) =~= Seq::<char>::empty());
            }
            assert(old_deep.push(strip_cr(suffix.take(e))) + lines_of(chars@.skip(start as int))
                =~= old_deep + lines_of(suffix));
        }
    }
    proof {
        assert(chars@.skip(n as int) =~= Seq::<char>::empty());
        assert(lines.deep_view() + Seq::<Seq<char>>::empty() =~= lines.deep_view());
    }
    lines
}

/// A substring of `text` by character range.
fn line_substring(text: &str, from: usize, to: usize) -> (r: String)
    requires
        from <= to <= text@.len(),
    ensures
        r@ == text@.subrange(from as int, to as int),
{
    text.substring_char(from, to).to_owned()
}

/// One entry of a merged line diff.
#[derive(Debug)]
pub enum LineDiff {
    /// There is only a left line.
    LeftOnly(String),
    /// There is only a right line.
    RightOnly(String),
    /// There is a left and a right line, but they are different.
    Different(String, String),
    /// There is a left and a right line, and they are equal.
    Equal(String),
}

/// The abstract form of a [`LineDiff`] entry.
pub ghost enum LineDiffModel {
    LeftOnly(Seq<char>),
    RightOnly(Seq<char>),
    Different(Seq<char>, Seq<char>),
    Equal(Seq<char>),
}

impl DeepView for LineDiff {
    type V = LineDiffModel;

    open spec fn deep_view(&self) -> LineDiffModel {
        match self {
            LineDiff::LeftOnly(l) => LineDiffModel::LeftOnly(l@),
            LineDiff::RightOnly(r) => LineDiffModel::RightOnly(r@),
            LineDiff::Different(l, r) => LineDiffModel::Different(l@, r@),
            LineDiff::Equal(t) => LineDiffModel::Equal(t@),
        }
    }
}

/// One step of the merge rule of the line differ: a left line is pushed and
/// counted; a right line immediately after exactly one unmerged left line
/// merges with it into `Different`; a second right line after such a merge
/// un-merges it again (a 1:2 replacement gets no word diff); an equal line
/// resets the count.
pub open spec fn merge_step(out: Seq<LineDiffModel>, seen_left: nat, x: (char, Seq<char>)) -> (
    Seq<LineDiffModel>,
    nat,
) {
    if x.0 == 'L' {
        (out.push(LineDiffModel::LeftOnly(x.1)), seen_left + 1)
    } else if x.0 == 'R' {
        if out.len() > 0 && out.last() is LeftOnly && seen_left == 1 {
            (out.update(out.len() - 1, LineDiffModel::Different(out.last()->LeftOnly_0, x.1)), 0)
        } else if out.len() > 0 && out.last() is Different {
            (
                out.update(out.len() - 1, LineDiffModel::LeftOnly(out.last()->Different_0)).push(
                    LineDiffModel::RightOnly(out.last()->Different_1),
                ).push(LineDiffModel::RightOnly(x.1)),
                0,
            )
        } else {
            (out.push(LineDiffModel::RightOnly(x.1)), 0)
        }
    } else {
        (out.push(LineDiffModel::Equal(x.1)), 0)
    }
}

/// The merge rule folded over a raw diff.
pub open spec fn merge_rec(
    d: Seq<(char, Seq<char>)>,
    out: Seq<LineDiffModel>,
    seen_left: nat,
) -> Seq<LineDiffModel>
    decreases d.len(),
{
    if d.len() == 0 {
        out
    } else {
        let s2 = merge_step(out, seen_left, d.first());
        merge_rec(d.drop_first(), s2.0, s2.1)
    }
}

/// The merged line diff of a raw diff.
pub open spec fn merge_diffs(d: Seq<(char, Seq<char>)>) -> Seq<LineDiffModel> {
    merge_rec(d, Seq::empty(), 0)
}

fn as_left_only(ld: &LineDiff) -> (r: Option<String>)
    ensures
        match r {
            Some(s) => ld.deep_view() is LeftOnly && s@ == ld.deep_view()->LeftOnly_0,
            None => !(ld.deep_view() is LeftOnly),
        },
{
    match ld {
        LineDiff::LeftOnly(s) => Some(s.clone()),
        _ => None,
    }
}

fn as_different(ld: &LineDiff) -> (r: Option<(String, String)>)
    ensures
        match r {
            Some(p) => ld.deep_view() is Different && p.0@ == ld.deep_view()->Different_0 && p.1@
                == ld.deep_view()->Different_1,
            None => !(ld.deep_view() is Different),
        },
{
    match ld {
        LineDiff::Different(l, r2) => Some((l.clone(), r2.clone())),
        _ => None,
    }
}

impl LineDiff {
    /// Re-group a raw line diff by the merge rule: the only path that
    /// produces [`LineDiff::Different`] is a single left line immediately
    /// followed by a single right line.
    pub fn from_diff(diffs: &Vec<DiffItem>) -> (out: Vec<LineDiff>)
        ensures
            out.deep_view() == merge_diffs(diffs.deep_view()),
    {
        let ghost dv = diffs.deep_view();
        let mut out: Vec<LineDiff> = Vec::new();
        let mut seen_left: usize = 0;
        let n = diffs.len();
        let mut i: usize = 0;
        proof {
            assert(dv.skip(0) =~= dv);
            assert(out.deep_view() =~= Seq::<LineDiffModel>::empty());
        }
        while i < n
            invariant
                i <= n,
                n == dv.len(),
                dv == diffs.deep_view(),
                seen_left <= i,
                merge_rec(dv.skip(i as int), out.deep_view(), seen_left as nat) == merge_diffs(dv),
            decreases n - i,
        {
            let ghost rest = dv.skip(i as int);
            let ghost out0 = out.deep_view();
            let ghost seen0 = seen_left as nat;
            proof {
                assert(rest.first() == dv[i as int]);
                assert(rest.drop_first() =~= dv.skip(i as int + 1));
            }
            match &diffs[i] {
                DiffItem::Left(l) => {
                    out.push(LineDiff::LeftOnly(l.clone()));
                    seen_left = seen_left + 1;
                    proof {
                        assert(out.deep_view() =~= merge_step(out0, seen0, rest.first()).0);
                    }
                },
                DiffItem::Both(t) => {
                    out.push(LineDiff::Equal(t.clone()));
                    seen_left = 0;
                    proof {
                        assert(out.deep_view() =~= merge_step(out0, seen0, rest.first()).0);
                    }
                },
                DiffItem::Right(r2) => {
                    let k = out.len();
                    let mut done = false;
                    if k > 0 && seen_left == 1 {
                        match as_left_only(&out[k - 1]) {
                            Some(old_l) => {
                                out.set(k - 1, LineDiff::Different(old_l, r2.clone()));
                                done = true;
                            },
                            None => {},
                        }
                    }
                    if !done && k > 0 {
                        match as_different(&out[k - 1]) {
                            Some(pair) => {
                                let (old_l, old_r) = pair;
                                out.set(k - 1, LineDiff::LeftOnly(old_l));
                                out.push(LineDiff::RightOnly(old_r));
                                out.push(LineDiff::RightOnly(r2.clone()));
                                done = true;
                            },
                            None => {},
                        }
                    }
                    if !done {
                        out.push(LineDiff::RightOnly(r2.clone()));
                    }
                    seen_left = 0;
                    proof {
                        assert(out0.len() > 0 ==> out0.last() == out0[out0.len() - 1]);
                        assert(out.deep_view() =~= merge_step(out0, seen0, rest.first()).0);
                    }
                },
            }
            i = i + 1;
        }
        proof {
            assert(dv.skip(n as int) =~= Seq::<(char, Seq<char>)>::empty());
        }
        out
    }
}

/// The raw line diff of two texts: the sequence diff of their lines, plus one
/// extra entry when a trailing newline ends either text, so that texts that
/// differ only in a trailing newline still differ.
pub open spec fn lines_diff_of(l: Seq<char>, r: Seq<char>) -> Seq<(char, Seq<char>)> {
    let d = slice_diff(lines_of(l), lines_of(r));
    let le = l.len() > 0 && l.last() == '\n';
    let re = r.len() > 0 && r.last() == '\n';
    if le && re {
        d.push(('B', Seq::empty()))
    } else if le {
        d.push(('L', Seq::empty()))
    } else if re {
        d.push(('R', Seq::empty()))
    } else {
        d
    }
}

/// A line diff between two multi-line inputs.
pub struct MultiLineDiff {
    line_diffs: Vec<LineDiff>,
}

impl View for MultiLineDiff {
    type V = Seq<LineDiffModel>;

    closed spec fn view(&self) -> Seq<LineDiffModel> {
        self.line_diffs.deep_view()
    }
}

fn ends_with_newline(s: &str) -> (r: bool)
    ensures
        r == (s@.len() > 0 && s@.last() == '\n'),
{
    let n = s.unicode_len();
    if n == 0 {
        false
    } else {
        s.get_char(n - 1) == '\n'
    }
}

impl MultiLineDiff {
    /// Create a new diff between a left and right input: diff their lines and
    /// re-group the result by the merge rule.
    pub fn new(left: &str, right: &str) -> (r: MultiLineDiff)
        ensures
            r@ == merge_diffs(lines_diff_of(left@, right@)),
    {
        let left_lines = split_lines(left);
        let right_lines = split_lines(right);
        let mut d = diff_slices(&left_lines, &right_lines);
        let le = ends_with_newline(left);
        let re = ends_with_newline(right);
        if le && re {
            d.push(DiffItem::Both(String::new()));
        } else if le {
            d.push(DiffItem::Left(String::new()));
        } else if re {
            d.push(DiffItem::Right(String::new()));
        }
        proof {
            assert(d.deep_view() =~= lines_diff_of(left@, right@));
        }
        MultiLineDiff { line_diffs: LineDiff::from_diff(&d) }
    }

    /// The merged entries of this diff, in order.
    pub fn line_diffs(&self) -> (r: &Vec<LineDiff>)
        ensures
            r.deep_view() == self@,
    {
        &self.line_diffs
    }
}

/// The writer operations that render one merged entry (without the flush
/// that separates entries): left-only lines as `< line` in the left colour,
/// right-only lines as `> line` in the right colour, equal lines dimmed
/// behind a two-space margin, and changed pairs through the word diff on two
/// lines.
pub open spec fn line_diff_ops(ld: LineDiffModel) -> Seq<WriterOp> {
    match ld {
        LineDiffModel::LeftOnly(l) => seq![
            WriterOp::Write(
                SnipModel { text: "< "@ + l, style: crate::styles::spec_left_style(), curl: None },
            ),
        ],
        LineDiffModel::RightOnly(r) => seq![
            WriterOp::Write(
                SnipModel { text: "> "@ + r, style: crate::styles::spec_right_style(), curl: None },
            ),
        ],
        LineDiffModel::Equal(t) => seq![
            WriterOp::Write(
                SnipModel { text: "  "@, style: crate::styles::spec_plain_style(), curl: None },
            ),
            WriterOp::Write(
                SnipModel { text: t, style: crate::styles::spec_dimmed_style(), curl: None },
            ),
        ],
        LineDiffModel::Different(l, r) => seq![
            WriterOp::Write(
                SnipModel { text: "<"@, style: sld_left_model(l, r).normal, curl: None },
            ),
            WriterOp::Write(
                SnipModel { text: " "@, style: crate::styles::spec_plain_style(), curl: None },
            ),
        ] + render_ops(sld_left_model(l, r), l) + seq![
            WriterOp::Flush,
            WriterOp::Write(
                SnipModel { text: ">"@, style: sld_right_model(l, r).normal, curl: None },
            ),
            WriterOp::Write(
                SnipModel { text: " "@, style: crate::styles::spec_plain_style(), curl: None },
            ),
        ] + render_ops(sld_right_model(l, r), r),
    }
}

/// The writer operations that render a whole merged diff: the entries in
/// order, flushed between entries but not after the last one (the caller
/// flushes, so the output never ends in a doubled newline).
pub open spec fn interleaved_ops(lds: Seq<LineDiffModel>) -> Seq<WriterOp>
    decreases lds.len(),
{
    if lds.len() == 0 {
        Seq::empty()
    } else if lds.len() == 1 {
        line_diff_ops(lds.first())
    } else {
        line_diff_ops(lds.first()) + seq![WriterOp::Flush] + interleaved_ops(lds.drop_first())
    }
}

impl MultiLineDiff {
    /// Write the left and right input interleaved with each other,
    /// highlighting the differences between the two.
    pub fn write_interleaved(&self, w: &mut WrappingWriter)
        ensures
            final(w)@ == apply_ops(old(w)@, interleaved_ops(self@)),
    {
        let n = self.line_diffs.len();
        let mut i: usize = 0;
        proof {
            assert(self@.skip(0) =~= self@);
        }
        while i < n
            invariant
                i <= n,
                n == self@.len(),
                self@ == self.line_diffs.deep_view(),
                apply_ops(old(w)@, interleaved_ops(self@)) == apply_ops(
                    w@,
                    interleaved_ops(self@.skip(i as int)),
                ),
            decreases n - i,
        {
            let ghost rest = self@.skip(i as int);
            let ghost w0 = w@;
            let ghost entry = rest.first();
            proof {
                assert(rest.first() == self@[i as int]);
                assert(rest.drop_first() =~= self@.skip(i as int + 1));
            }
            match &self.line_diffs[i] {
                LineDiff::LeftOnly(l) => {
                    let mut t: String = "< ".to_owned();
                    t.append(l.as_str());
                    w.write_styled(t.as_str(), crate::styles::left_style());
                    proof {
                        lemma_apply_single(w0, line_diff_ops(entry).first());
                        assert(line_diff_ops(entry) =~= seq![line_diff_ops(entry).first()]);
                        assert(w@ == apply_ops(w0, line_diff_ops(entry)));
                    }
                },
                LineDiff::RightOnly(r2) => {
                    let mut t: String = "> ".to_owned();
                    t.append(r2.as_str());
                    w.write_styled(t.as_str(), crate::styles::right_style());
                    proof {
                        lemma_apply_single(w0, line_diff_ops(entry).first());
                        assert(line_diff_ops(entry) =~= seq![line_diff_ops(entry).first()]);
                        assert(w@ == apply_ops(w0, line_diff_ops(entry)));
                    }
                },
                LineDiff::Equal(t) => {
                    w.write("  ");
                    w.write_styled(t.as_str(), crate::styles::dimmed_style());
                    proof {
                        let ops = line_diff_ops(entry);
                        lemma_apply_pair(w0, ops[0], ops[1]);
                        assert(ops =~= seq![ops[0], ops[1]]);
                        assert(w@ == apply_ops(w0, ops));
                    }
                },
                LineDiff::Different(l, r2) => {
                    let dd = SingleLineDiff::new(l.as_str(), r2.as_str());
                    w.write_styled("<", dd.left_normal());
                    w.write(" ");
                    let ghost m2 = w@;
                    dd.write_left(w);
                    w.flush_line();
                    w.write_styled(">", dd.right_normal());
                    w.write(" ");
                    let ghost m6 = w@;
                    dd.write_right(w);
                    proof {
                        let a = seq![
                            WriterOp::Write(
                                SnipModel { text: "<"@, style: sld_left_model(l@, r2@).normal, curl: None },
                            ),
                            WriterOp::Write(
                                SnipModel {
                                    text: " "@,
                                    style: crate::styles::spec_plain_style(),
                                    curl: None,
                                },
                            ),
                        ];
                        let b = render_ops(sld_left_model(l@, r2@), l@);
                        let c = seq![
                            WriterOp::Flush,
                            WriterOp::Write(
                                SnipModel { text: ">"@, style: sld_right_model(l@, r2@).normal, curl: None },
                            ),
                            WriterOp::Write(
                                SnipModel {
                                    text: " "@,
                                    style: crate::styles::spec_plain_style(),
                                    curl: None,
                                },
                            ),
                        ];
                        let e = render_ops(sld_right_model(l@, r2@), r2@);
                        lemma_apply_pair(w0, a[0], a[1]);
                        assert(a =~= seq![a[0], a[1]]);
                        assert(m2 == apply_ops(w0, a));
                        crate::writer::lemma_apply_ops_concat(w0, a, b);
                        lemma_apply_triple(apply_ops(w0, a + b), c[0], c[1], c[2]);
                        assert(c =~= seq![c[0], c[1], c[2]]);
                        assert(m6 == apply_ops(apply_ops(w0, a + b), c));
                        crate::writer::lemma_apply_ops_concat(w0, a + b, c);
                        crate::writer::lemma_apply_ops_concat(w0, a + b + c, e);
                        assert(line_diff_ops(entry) == a + b + c + e);
                        assert(w@ == apply_ops(w0, line_diff_ops(entry)));
                    }
                },
            }
            if i + 1 < n {
                w.flush_line();
                proof {
                    let ops = line_diff_ops(entry);
                    crate::writer::lemma_apply_ops_push(w0, ops, WriterOp::Flush);
                    assert(ops.push(WriterOp::Flush) =~= ops + seq![WriterOp::Flush]);
                    crate::writer::lemma_apply_ops_concat(
                        w0,
                        ops + seq![WriterOp::Flush],
                        interleaved_ops(rest.drop_first()),
                    );
                    assert(interleaved_ops(rest) =~= ops + seq![WriterOp::Flush]
                        + interleaved_ops(rest.drop_first()));
                }
            } else {
                proof {
                    assert(rest.len() == 1);
                    assert(interleaved_ops(rest) == line_diff_ops(entry));
                    assert(self@.skip(i as int + 1) =~= Seq::<LineDiffModel>::empty());
                }
            }
            i = i + 1;
        }
        proof {
            assert(self@.skip(n as int) =~= Seq::<LineDiffModel>::empty());
        }
    }
}

/// Applying a single operation equals applying its one-element list.
pub proof fn lemma_apply_single(m: crate::writer::WriterModel, op: WriterOp)
    ensures
        apply_ops(m, seq![op]) == apply_op(m, op),
{
    assert(seq![op].drop_first() =~= Seq::<WriterOp>::empty());
    assert(apply_ops(apply_op(m, op), Seq::<WriterOp>::empty()) == apply_op(m, op));
}

/// Applying two operations equals applying their two-element list.
pub proof fn lemma_apply_pair(m: crate::writer::WriterModel, op1: WriterOp, op2: WriterOp)
    ensures
        apply_ops(m, seq![op1, op2]) == apply_op(apply_op(m, op1), op2),
{
    assert(seq![op1, op2].drop_first() =~= seq![op2]);
    lemma_apply_single(apply_op(m, op1), op2);
}

/// Applying three operations equals applying their three-element list.
pub proof fn lemma_apply_triple(
    m: crate::writer::WriterModel,
    op1: WriterOp,
    op2: WriterOp,
    op3: WriterOp,
)
    ensures
        apply_ops(m, seq![op1, op2, op3]) == apply_op(apply_op(apply_op(m, op1), op2), op3),
{
    assert(seq![op1, op2, op3].drop_first() =~= seq![op2, op3]);
    lemma_apply_pair(apply_op(m, op1), op2, op3);
}

} // verus!
