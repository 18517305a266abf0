//! Accumulation and rendering of highlighted ranges over one line.
//!
//! A [`Highlighter`] collects alternating highlighted/non-highlighted runs
//! over a string, as character ranges.  The runs always partition
//! `[0, covered)` with no gaps: a pushed run either extends the previous run
//! (same flag) or starts a new one (different flag).  Rendering writes each
//! run's slice of the data in the run's style — unless so much of the line is
//! highlighted that highlighting it piecewise would be noisier than writing
//! the whole line in the normal style; the exact cutover is decided by
//! [`div_ceil`].

use vstd::prelude::*;
use vstd::string::*;

use crate::seqtools::concat_all;
use crate::styles::Color;
use crate::styles::Style;
use crate::writer::SnipModel;
use crate::writer::WrappingWriter;
use crate::writer::WriterOp;
use crate::writer::Snippet;
use crate::writer::apply_op;
use crate::writer::apply_ops;
use crate::writer::lemma_apply_ops_push;

verus! {

/// `a / b` rounded towards positive infinity.
pub open spec fn spec_div_ceil(a: nat, b: nat) -> nat
    recommends
        b > 0,
{
    ((a + b - 1) as int / b as int) as nat
}

/// Divide, rounding up: the smallest `r` with `r * b >= a`.
pub fn div_ceil(a: usize, b: usize) -> (r: usize)
    requires
        b > 0,
    ensures
        r as nat == spec_div_ceil(a as nat, b as nat),
{
    let d = a / b;
    let r = a % b;
    proof {
        vstd::arithmetic::div_mod::lemma_fundamental_div_mod(a as int, b as int);
        if r > 0 {
            assert(d < usize::MAX) by (nonlinear_arith)
                requires
                    a <= usize::MAX,
                    b > 0,
                    d == a as int / b as int,
                    r == a as int % b as int,
                    r > 0,
            ;
            assert((a + b - 1) as int / b as int == d + 1) by (nonlinear_arith)
                requires
                    b > 0,
                    0 < r < b,
                    a == b * d + r,
                    d >= 0,
            ;
        } else {
            assert((a + b - 1) as int / b as int == d) by (nonlinear_arith)
                requires
                    b > 0,
                    r == 0,
                    a == b * d + r,
                    d >= 0,
            ;
        }
    }
    if r > 0 {
        d + 1
    } else {
        d
    }
}

/// One run of highlighting: the character range `[start, end)` and whether it
/// is rendered in the highlight style.
#[derive(Clone, Copy, PartialEq, Eq, Structural, Debug)]
pub struct Run {
    pub highlighted: bool,
    pub start: usize,
    pub end: usize,
}

/// The abstract state of a [`Highlighter`]: the runs (character ranges) and
/// the cumulative highlighted length in bytes, which the ratio heuristic
/// counts.
pub ghost struct HlModel {
    pub runs: Seq<Run>,
    pub total: nat,
    pub normal: Style,
    pub highlight: Style,
}

/// The number of characters covered by the runs.
pub open spec fn coverage(runs: Seq<Run>) -> nat {
    if runs.len() == 0 {
        0
    } else {
        runs.last().end as nat
    }
}

/// The structural invariant of a run list: runs are ordered, contiguous from
/// zero, alternate their flags, and stay within the covered range.
pub open spec fn wf_runs(runs: Seq<Run>) -> bool {
    &&& forall|i: int| 0 <= i < runs.len() ==> #[trigger] runs[i].start <= runs[i].end
    &&& forall|i: int| 0 <= i < runs.len() ==> #[trigger] runs[i].end as nat <= coverage(runs)
    &&& (runs.len() > 0 ==> runs[0].start == 0)
    &&& forall|i: int|
        0 < i < runs.len() ==> #[trigger] runs[i].start == runs[i - 1].end
    &&& forall|i: int|
        0 < i < runs.len() ==> #[trigger] runs[i].highlighted != runs[i - 1].highlighted
}

/// The invariant of a highlighter: well-formed runs.
pub open spec fn hl_wf(m: HlModel) -> bool {
    wf_runs(m.runs)
}

/// The run list after pushing a run of `len` characters: the previous run is
/// extended if its flag matches, otherwise a new run starts at the covered
/// end.
pub open spec fn spec_push(runs: Seq<Run>, len: nat, highlighted: bool) -> Seq<Run> {
    if runs.len() > 0 && runs.last().highlighted == highlighted {
        runs.update(
            runs.len() - 1,
            (Run { end: (runs.last().end + len) as usize, ..runs.last() }),
        )
    } else {
        runs.push(
            (Run {
                highlighted,
                start: coverage(runs) as usize,
                end: (coverage(runs) + len) as usize,
            }),
        )
    }
}

/// The texts of the runs: each run's slice of the data.
pub open spec fn runs_texts(runs: Seq<Run>, data: Seq<char>) -> Seq<Seq<char>> {
    runs.map_values(|r: Run| data.subrange(r.start as int, r.end as int))
}

/// The writer operations of rendering the runs piecewise.
pub open spec fn runs_ops(runs: Seq<Run>, data: Seq<char>, normal: Style, highlight: Style) -> Seq<
    WriterOp,
> {
    runs.map_values(
        |r: Run|
            WriterOp::Write(
                SnipModel {
                    text: data.subrange(r.start as int, r.end as int),
                    style: if r.highlighted {
                        highlight
                    } else {
                        normal
                    },
                    curl: None,
                },
            ),
    )
}

/// The writer operations of rendering the highlighter over `data`: the whole
/// line in the normal style if fewer bytes of it are unhighlighted than half
/// the highlighted byte count (rounded up), the runs piecewise otherwise.
pub open spec fn render_ops(m: HlModel, data: Seq<char>) -> Seq<WriterOp> {
    if crate::seqtools::byte_len(data) - m.total < spec_div_ceil(m.total, 2) {
        seq![WriterOp::Write(SnipModel { text: data, style: m.normal, curl: None })]
    } else {
        runs_ops(m.runs, data, m.normal, m.highlight)
    }
}

/// Law: the runs of a well-formed highlighter that covers its data partition
/// the data exactly — concatenating the run texts (the rendered pieces with
/// their styling stripped) reproduces the data, for any data and any runs
/// accumulated over it.
pub proof fn lemma_round_trip(m: HlModel, data: Seq<char>)
    requires
        hl_wf(m),
        coverage(m.runs) == data.len(),
    ensures
        concat_all(runs_texts(m.runs, data)) == data,
{
    lemma_concat_from(m.runs, data, 0);
    if m.runs.len() == 0 {
        assert(data =~= data.subrange(0, data.len() as int));
        assert(concat_all(runs_texts(m.runs, data)) =~= data);
    } else {
        assert(m.runs.skip(0) =~= m.runs);
        assert(data.subrange(0, data.len() as int) =~= data);
    }
}

/// The texts of the write operations in a rendering, in order: what remains
/// of the output once styling is stripped.
pub open spec fn write_texts(ops: Seq<WriterOp>) -> Seq<Seq<char>> {
    ops.map_values(
        |op: WriterOp|
            match op {
                WriterOp::Write(s) => s.text,
                _ => Seq::<char>::empty(),
            },
    )
}

/// Law: rendering a highlighter that covers its data reproduces the data —
/// the texts of the emitted snippets, concatenated, equal the data exactly,
/// whether the whole line is written in the normal style or the runs are
/// written piecewise.
pub proof fn lemma_render_round_trip(m: HlModel, data: Seq<char>)
    requires
        hl_wf(m),
        coverage(m.runs) == data.len(),
    ensures
        concat_all(write_texts(render_ops(m, data))) == data,
{
    if crate::seqtools::byte_len(data) - m.total < spec_div_ceil(m.total, 2) {
        let ops = render_ops(m, data);
        assert(write_texts(ops).first() == data);
        assert(write_texts(ops).drop_first() =~= Seq::<Seq<char>>::empty());
        assert(concat_all(write_texts(ops)) == data + concat_all(Seq::<Seq<char>>::empty()));
        assert(data + Seq::<char>::empty() =~= data);
    } else {
        lemma_round_trip(m, data);
        assert(write_texts(runs_ops(m.runs, data, m.normal, m.highlight)) =~= runs_texts(
            m.runs,
            data,
        ));
    }
}

/// Where the runs from index `i` on start, for the partition proof.
pub open spec fn start_from(runs: Seq<Run>, data: Seq<char>, i: int) -> int {
    if i == runs.len() {
        data.len() as int
    } else {
        runs[i].start as int
    }
}

proof fn lemma_concat_from(runs: Seq<Run>, data: Seq<char>, i: int)
    requires
        wf_runs(runs),
        coverage(runs) == data.len(),
        0 <= i <= runs.len(),
    ensures
        concat_all(runs_texts(runs.skip(i), data)) == data.subrange(
            start_from(runs, data, i),
            data.len() as int,
        ),
    decreases runs.len() - i,
{
    if i == runs.len() {
        assert(runs.skip(i) =~= Seq::<Run>::empty());
        assert(runs_texts(runs.skip(i), data) =~= Seq::<Seq<char>>::empty());
        assert(data.subrange(data.len() as int, data.len() as int) =~= Seq::<char>::empty());
    } else {
        lemma_concat_from(runs, data, i + 1);
        let rest = runs.skip(i);
        assert(rest.first() == runs[i]);
        assert(rest.drop_first() =~= runs.skip(i + 1));
        assert(runs_texts(rest, data).first() == data.subrange(
            runs[i].start as int,
            runs[i].end as int,
        ));
        assert(runs_texts(rest, data).drop_first() =~= runs_texts(runs.skip(i + 1), data));
        assert(runs[i].end as int == start_from(runs, data, i + 1)) by {
            if i + 1 < runs.len() {
                assert(runs[i + 1].start == runs[i].end);
            } else {
                assert(runs.last() == runs[i]);
            }
        }
        assert(runs[i].end as nat <= coverage(runs));
        assert(data.subrange(runs[i].start as int, runs[i].end as int) + data.subrange(
            runs[i].end as int,
            data.len() as int,
        ) =~= data.subrange(runs[i].start as int, data.len() as int));
    }
}

/// Incrementally builds alternating highlighted/non-highlighted runs over one
/// line, and renders the line through the writer using them.
pub struct Highlighter {
    ranges: Vec<Run>,
    total_highlighted: usize,
    normal: Style,
    highlight: Style,
}

impl View for Highlighter {
    type V = HlModel;

    closed spec fn view(&self) -> HlModel {
        HlModel {
            runs: self.ranges@,
            total: self.total_highlighted as nat,
            normal: self.normal,
            highlight: self.highlight,
        }
    }
}

impl Highlighter {
    /// A fresh highlighter: non-highlighted text is shown in `color`,
    /// highlighted text black on a `color` background, bold.
    pub fn new(color: Color) -> (r: Highlighter)
        ensures
            r@ == (HlModel {
                runs: Seq::<Run>::empty(),
                total: 0,
                normal: (Style { fg: color, bg: Color::Unset, bold: false, dim: false }),
                highlight: (Style { fg: Color::Black, bg: color, bold: true, dim: false }),
            }),
            hl_wf(r@),
    {
        let r = Highlighter {
            ranges: Vec::new(),
            total_highlighted: 0,
            normal: Style::plain().with_fg(color),
            highlight: Style::plain().with_fg(Color::Black).with_bg(color).bold(),
        };
        proof {
            assert(r@.runs =~= Seq::<Run>::empty());
        }
        r
    }

    /// The styles of this highlighter, as used when rendering.
    pub fn normal_style(&self) -> (r: Style)
        ensures
            r == self@.normal,
    {
        self.normal
    }

    /// Push a run of `len` characters (`bytes` bytes) to the end of the
    /// highlighter.
    pub fn push(&mut self, len: usize, bytes: usize, highlighted: bool)
        requires
            hl_wf(old(self)@),
            coverage(old(self)@.runs) + len <= usize::MAX,
            highlighted ==> old(self)@.total + bytes <= usize::MAX,
        ensures
            hl_wf(final(self)@),
            final(self)@.runs == spec_push(old(self)@.runs, len as nat, highlighted),
            final(self)@.normal == old(self)@.normal,
            final(self)@.highlight == old(self)@.highlight,
            coverage(final(self)@.runs) == coverage(old(self)@.runs) + len,
            final(self)@.total == old(self)@.total + (if highlighted {
                bytes as nat
            } else {
                0nat
            }),
    {
        if highlighted {
            self.total_highlighted = self.total_highlighted + bytes;
        }
        let n = self.ranges.len();
        if n > 0 {
            let last = self.ranges[n - 1];
            if last.highlighted == highlighted {
                let updated = Run { end: last.end + len, ..last };
                self.ranges.set(n - 1, updated);
                proof {
                    assert(self@.runs =~= spec_push(old(self)@.runs, len as nat, highlighted));
                    assert(self@.runs.drop_last() =~= old(self)@.runs.drop_last());
                    lemma_push_wf(old(self)@.runs, self@.runs, len as nat, highlighted);
                }
                return ;
            }
            let start = last.end;
            self.ranges.push(Run { highlighted, start, end: start + len });
            proof {
                assert(self@.runs =~= spec_push(old(self)@.runs, len as nat, highlighted));
                assert(self@.runs.drop_last() =~= old(self)@.runs);
                lemma_push_wf(old(self)@.runs, self@.runs, len as nat, highlighted);
            }
            return ;
        }
        self.ranges.push(Run { highlighted, start: 0, end: len });
        proof {
            assert(self@.runs =~= spec_push(old(self)@.runs, len as nat, highlighted));
            assert(self@.runs.drop_last() =~= old(self)@.runs);
            lemma_push_wf(old(self)@.runs, self@.runs, len as nat, highlighted);
        }
    }

    /// Render `data` through the writer using the accumulated runs: either
    /// the whole line in the normal style (dense-highlighting heuristic) or
    /// each run in its designated style.
    pub fn write_highlighted(&self, w: &mut WrappingWriter, data: &str)
        requires
            hl_wf(self@),
            coverage(self@.runs) == data@.len(),
            self@.total <= crate::seqtools::byte_len(data@),
        ensures
            final(w)@ == apply_ops(old(w)@, render_ops(self@, data@)),
    {
        let data_bytes = data.as_bytes();
        let data_len = data_bytes.len();
        proof {
            broadcast use vstd::slice::axiom_spec_len;

            assert(data_len == crate::seqtools::byte_len(data@));
        }
        let not_highlighted = data_len - self.total_highlighted;
        if not_highlighted < div_ceil(self.total_highlighted, 2) {
            let snippet = Snippet::new(data).style(self.normal);
            w.write_snippet(&snippet);
            proof {
                let ops = render_ops(self@, data@);
                assert(ops.drop_first() =~= Seq::<WriterOp>::empty());
                assert(apply_ops(apply_op(old(w)@, ops.first()), Seq::<WriterOp>::empty())
                    == apply_op(old(w)@, ops.first()));
            }
        } else {
            let ghost ops = runs_ops(self@.runs, data@, self@.normal, self@.highlight);
            let n = self.ranges.len();
            let mut i: usize = 0;
            proof {
                assert(ops.take(0) =~= Seq::<WriterOp>::empty());
            }
            while i < n
                invariant
                    i <= n,
                    n == self.ranges@.len(),
                    hl_wf(self@),
                    coverage(self@.runs) == data@.len(),
                    ops == runs_ops(self@.runs, data@, self@.normal, self@.highlight),
                    w@ == apply_ops(old(w)@, ops.take(i as int)),
                decreases n - i,
            {
                let run = self.ranges[i];
                let piece = data.substring_char(run.start, run.end);
                let style = if run.highlighted {
                    self.highlight
                } else {
                    self.normal
                };
                let snippet = Snippet::new(piece).style(style);
                w.write_snippet(&snippet);
                i = i + 1;
                proof {
                    assert(ops.take(i as int) =~= ops.take(i - 1).push(ops[i - 1]));
                    lemma_apply_ops_push(old(w)@, ops.take(i - 1), ops[i - 1]);
                }
            }
            proof {
                assert(ops.take(n as int) =~= ops);
            }
        }
    }
}

proof fn lemma_push_wf(runs: Seq<Run>, new_runs: Seq<Run>, len: nat, highlighted: bool)
    requires
        wf_runs(runs),
        coverage(runs) + len <= usize::MAX,
        new_runs == spec_push(runs, len, highlighted),
    ensures
        wf_runs(new_runs),
        coverage(new_runs) == coverage(runs) + len,
{
    if runs.len() > 0 && runs.last().highlighted == highlighted {
        assert(new_runs.drop_last() =~= runs.drop_last());
        assert(new_runs.last().end == runs.last().end + len);
        assert forall|i: int| 0 <= i < new_runs.len() implies #[trigger] new_runs[i].end as nat
            <= coverage(new_runs) by {
            if i < new_runs.len() - 1 {
                assert(new_runs[i] == runs[i]);
                assert(runs[i].end as nat <= coverage(runs));
            }
        }
    } else {
        assert(new_runs.drop_last() =~= runs);
        assert(new_runs.last().start as nat == coverage(runs));
        assert forall|i: int| 0 <= i < new_runs.len() implies #[trigger] new_runs[i].end as nat
            <= coverage(new_runs) by {
            if i < new_runs.len() - 1 {
                assert(new_runs[i] == runs[i]);
                assert(runs[i].end as nat <= coverage(runs));
            }
        }
        if runs.len() > 0 {
            assert(new_runs[new_runs.len() - 2] == runs[runs.len() - 1]);
        }
    }
}

} // verus!
