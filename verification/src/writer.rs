//! A width-aware styled-text writer.
//!
//! The writer owns an output buffer and accepts [`Snippet`]s: text with a
//! style and an optional undercurl marker.  Text is wrapped at a configured
//! width, measured in terminal cells ([`crate::charinfo::display_width`]),
//! indentation is re-emitted at the start of every physical line, and when a
//! line is flushed a row of `^` markers is written under all spans that were
//! marked for undercurling on that line.
//!
//! Every mutation of the writer is specified exactly by a functional model:
//! [`WriterModel`] is the writer's abstract state and the contracts of the
//! methods state which model transition they perform.  Saturating arithmetic
//! is used in all layout bookkeeping, so no span arithmetic can wrap around.

use vstd::prelude::*;
use vstd::string::*;

use crate::charinfo::display_width;
use crate::charinfo::char_display_width;
use crate::seqtools::append_carets;
use crate::seqtools::append_spaces;
use crate::seqtools::char_repeat;
use crate::seqtools::chars_of;
use crate::styles::Style;
use crate::styles::styled_text;

verus! {

/// Saturating addition on the model side, mirroring `usize::saturating_add`.
pub open spec fn sat_add(a: nat, b: nat) -> nat {
    if a + b > usize::MAX {
        usize::MAX as nat
    } else {
        a + b
    }
}

/// Saturating subtraction on the model side, mirroring `usize::saturating_sub`.
pub open spec fn sat_sub(a: nat, b: nat) -> nat {
    if a >= b {
        (a - b) as nat
    } else {
        0
    }
}

/// The abstract state of a [`Snippet`].
pub ghost struct SnipModel {
    pub text: Seq<char>,
    pub style: Style,
    pub curl: Option<Style>,
}

/// An undercurl span pending on the current line: the cell range to mark and
/// the style of the marker row.
pub ghost struct CurlModel {
    pub start: nat,
    pub end: nat,
    pub style: Style,
}

/// The abstract state of a [`WrappingWriter`].
pub ghost struct WriterModel {
    /// Everything written so far.
    pub buffer: Seq<char>,
    /// The wrap width in terminal cells.
    pub width: nat,
    /// Whether styles are rendered as escape sequences or dropped.
    pub styling: bool,
    /// The visual width of the current unflushed line.
    pub line_width: nat,
    /// Undercurl spans recorded for the current unflushed line.
    pub pending: Seq<CurlModel>,
    /// Whether the current line holds content that still must be flushed.
    pub need_flush: bool,
    /// Indentation emitted at the start of each new physical line.
    pub indent: nat,
}

/// One operation on the writer; renderer contracts are stated as the sequence
/// of operations they perform.
pub ghost enum WriterOp {
    Write(SnipModel),
    Flush,
    SetIndent(nat),
}

/// The marker row for the pending undercurl spans, assuming the previous span
/// ended at cell `pos`: for each span, the gap since the previous span as
/// spaces, then `^` markers in the span's style.
pub open spec fn curl_row_from(pending: Seq<CurlModel>, pos: nat, styling: bool) -> Seq<char>
    decreases pending.len(),
{
    if pending.len() == 0 {
        Seq::empty()
    } else {
        let c = pending.first();
        char_repeat(' ', sat_sub(c.start, pos)) + styled_text(
            c.style,
            char_repeat('^', sat_sub(c.end, c.start)),
            styling,
        ) + curl_row_from(pending.drop_first(), c.end, styling)
    }
}

/// The complete marker row for the pending undercurl spans of a line.
pub open spec fn curl_row(pending: Seq<CurlModel>, styling: bool) -> Seq<char> {
    curl_row_from(pending, 0, styling)
}

/// The model transition of flushing the current line: terminate it with a
/// newline, append the marker row (newline-terminated, if non-empty), and
/// reset the per-line bookkeeping.
pub open spec fn model_flush(m: WriterModel) -> WriterModel {
    let row = curl_row(m.pending, m.styling);
    WriterModel {
        buffer: m.buffer + seq!['\n'] + row + (if row.len() > 0 {
            seq!['\n']
        } else {
            Seq::<char>::empty()
        }),
        line_width: 0,
        pending: Seq::empty(),
        need_flush: false,
        ..m
    }
}

/// The model transition of writing one piece (a fragment of a snippet that
/// stays on one line) of visual width `pw`: indentation if the line has no
/// content yet, then the styled text; the span is recorded if an undercurl
/// style is given.  Empty pieces change nothing.
pub open spec fn model_piece(
    m: WriterModel,
    text: Seq<char>,
    pw: nat,
    style: Style,
    curl: Option<Style>,
) -> WriterModel {
    if text.len() == 0 {
        m
    } else {
        let ind: nat = if !m.need_flush {
            m.indent
        } else {
            0
        };
        let lw1 = sat_add(m.line_width, ind);
        WriterModel {
            buffer: m.buffer + char_repeat(' ', ind) + styled_text(style, text, m.styling),
            line_width: sat_add(lw1, pw),
            pending: m.pending + (match curl {
                Some(cs) => seq![CurlModel { start: lw1, end: sat_add(lw1, pw), style: cs }],
                None => Seq::<CurlModel>::empty(),
            }),
            need_flush: true,
            ..m
        }
    }
}

/// Scan `text` from index `i` with `acc` cells already accepted: the result is
/// the index where the piece must end (at an embedded newline or where the
/// next character would exceed the width) or `None` if all of `text` fits,
/// together with the accepted piece's visual width.
pub open spec fn scan_split(text: Seq<char>, line_width: nat, width: nat, i: nat, acc: nat) -> (
    Option<nat>,
    nat,
)
    decreases text.len() - i when i <= text.len()
{
    if i >= text.len() {
        (None, acc)
    } else {
        let c = text[i as int];
        if c == '\n' {
            (Some(i), acc)
        } else {
            let cw = display_width(c);
            if cw > sat_sub(sat_sub(width, line_width), acc) {
                (Some(i), acc)
            } else {
                scan_split(text, line_width, width, i + 1, acc + cw)
            }
        }
    }
}

/// The model transition of writing a whole snippet text: repeatedly find the
/// split point, emit the piece, and flush at newlines and wrap points.  A
/// character wider than the whole width is emitted on a line of its own
/// rather than looping.
pub open spec fn model_write_text(
    m: WriterModel,
    text: Seq<char>,
    style: Style,
    curl: Option<Style>,
) -> WriterModel
    decreases text.len(), m.line_width + (if m.need_flush {
        1int
    } else {
        0int
    }) via model_write_text_decreases
{
    if text.len() == 0 {
        m
    } else {
        let r = scan_split(text, m.line_width, m.width, 0, 0);
        match r.0 {
            None => model_piece(m, text, r.1, style, curl),
            Some(i) => {
                if text[i as int] == '\n' {
                    let m1 = model_flush(model_piece(m, text.take(i as int), r.1, style, curl));
                    model_write_text(m1, text.skip(i as int + 1), style, curl)
                } else if i > 0 {
                    let m1 = model_flush(model_piece(m, text.take(i as int), r.1, style, curl));
                    model_write_text(m1, text.skip(i as int), style, curl)
                } else if m.line_width == 0 && !m.need_flush {
                    let m1 = model_piece(
                        m,
                        text.take(1),
                        display_width(text[0]),
                        style,
                        curl,
                    );
                    model_write_text(m1, text.skip(1), style, curl)
                } else {
                    model_write_text(model_flush(m), text, style, curl)
                }
            },
        }
    }
}

/// A split index returned by [`scan_split`] always lies inside the text.
pub proof fn lemma_scan_split_range(
    text: Seq<char>,
    line_width: nat,
    width: nat,
    i: nat,
    acc: nat,
)
    requires
        i <= text.len(),
    ensures
        ({
            let r = scan_split(text, line_width, width, i, acc);
            match r.0 {
                Some(j) => i <= j < text.len(),
                None => true,
            }
        }),
    decreases text.len() - i,
{
    if i < text.len() {
        let c = text[i as int];
        if c != '\n' && !(display_width(c) > sat_sub(sat_sub(width, line_width), acc)) {
            lemma_scan_split_range(text, line_width, width, i + 1, acc + display_width(c));
        }
    }
}

#[via_fn]
proof fn model_write_text_decreases(
    m: WriterModel,
    text: Seq<char>,
    style: Style,
    curl: Option<Style>,
) {
    if text.len() > 0 {
        lemma_scan_split_range(text, m.line_width, m.width, 0, 0);
    }
}

/// Apply one writer operation to the model.
pub open spec fn apply_op(m: WriterModel, op: WriterOp) -> WriterModel {
    match op {
        WriterOp::Write(s) => model_write_text(m, s.text, s.style, s.curl),
        WriterOp::Flush => model_flush(m),
        WriterOp::SetIndent(n) => WriterModel { indent: n, ..m },
    }
}

/// Apply a sequence of writer operations to the model, in order.
pub open spec fn apply_ops(m: WriterModel, ops: Seq<WriterOp>) -> WriterModel
    decreases ops.len(),
{
    if ops.len() == 0 {
        m
    } else {
        apply_ops(apply_op(m, ops.first()), ops.drop_first())
    }
}

/// Appending one operation applies it after the others.
pub proof fn lemma_apply_ops_push(m: WriterModel, ops: Seq<WriterOp>, op: WriterOp)
    ensures
        apply_ops(m, ops.push(op)) == apply_op(apply_ops(m, ops), op),
    decreases ops.len(),
{
    if ops.len() == 0 {
        assert(ops.push(op).first() == op);
        assert(ops.push(op).drop_first() =~= Seq::<WriterOp>::empty());
        assert(apply_ops(apply_op(m, op), Seq::<WriterOp>::empty()) == apply_op(m, op));
        assert(apply_ops(m, ops) == m);
    } else {
        assert(ops.push(op).first() == ops.first());
        assert(ops.push(op).drop_first() =~= ops.drop_first().push(op));
        lemma_apply_ops_push(apply_op(m, ops.first()), ops.drop_first(), op);
    }
}

/// Operation sequences compose by concatenation.
pub proof fn lemma_apply_ops_concat(m: WriterModel, a: Seq<WriterOp>, b: Seq<WriterOp>)
    ensures
        apply_ops(m, a + b) == apply_ops(apply_ops(m, a), b),
    decreases a.len(),
{
    if a.len() == 0 {
        assert(a + b =~= b);
    } else {
        assert((a + b).first() == a.first());
        assert((a + b).drop_first() =~= a.drop_first() + b);
        lemma_apply_ops_concat(apply_op(m, a.first()), a.drop_first(), b);
    }
}

/// The initial model of a fresh writer.
pub open spec fn init_writer_model(width: nat, styling: bool) -> WriterModel {
    WriterModel {
        buffer: Seq::empty(),
        width,
        styling,
        line_width: 0,
        pending: Seq::empty(),
        need_flush: false,
        indent: 0,
    }
}

/// The buffer a writer in state `m` hands out when finished: unflushed
/// content is flushed exactly once.
pub open spec fn model_finish(m: WriterModel) -> Seq<char> {
    if m.need_flush {
        model_flush(m).buffer
    } else {
        m.buffer
    }
}

/// One unit of styled text handed to the writer: the text, its style, and an
/// optional undercurl style for a `^` marker row under it.
pub struct Snippet {
    content: String,
    style: Style,
    undercurl: Option<Style>,
}

impl View for Snippet {
    type V = SnipModel;

    closed spec fn view(&self) -> SnipModel {
        SnipModel { text: self.content@, style: self.style, curl: self.undercurl }
    }
}

impl Snippet {
    /// A plain snippet of the given text.
    pub fn new(content: &str) -> (r: Snippet)
        ensures
            r@ == (SnipModel {
                text: content@,
                style: crate::styles::spec_plain_style(),
                curl: None,
            }),
    {
        Snippet { content: content.to_owned(), style: Style::plain(), undercurl: None }
    }

    /// The same snippet with the given style.
    pub fn style(self, style: Style) -> (r: Snippet)
        ensures
            r@ == (SnipModel { style, ..self@ }),
    {
        Snippet { style, ..self }
    }

    /// The same snippet, marked for an undercurl row in the given style.
    pub fn undercurl(self, style: Style) -> (r: Snippet)
        ensures
            r@ == (SnipModel { curl: Some(style), ..self@ }),
    {
        Snippet { undercurl: Some(style), ..self }
    }

    /// The same snippet, marked for an undercurl row in the error style.
    pub fn undercurl_error(self) -> (r: Snippet)
        ensures
            r@ == (SnipModel { curl: Some(crate::styles::spec_error_style()), ..self@ }),
    {
        let style = crate::styles::error_style();
        Snippet { undercurl: Some(style), ..self }
    }
}

/// Writer that supports styling, wrapping and undercurl marker rows.
pub struct WrappingWriter {
    buffer: String,
    width: usize,
    styling_enabled: bool,
    current_line_width: usize,
    current_line_undercurl: Vec<(usize, usize, Style)>,
    need_flush: bool,
    indent: usize,
}

impl View for WrappingWriter {
    type V = WriterModel;

    closed spec fn view(&self) -> WriterModel {
        WriterModel {
            buffer: self.buffer@,
            width: self.width as nat,
            styling: self.styling_enabled,
            line_width: self.current_line_width as nat,
            pending: self.current_line_undercurl@.map_values(
                |t: (usize, usize, Style)|
                    CurlModel { start: t.0 as nat, end: t.1 as nat, style: t.2 },
            ),
            need_flush: self.need_flush,
            indent: self.indent as nat,
        }
    }
}

impl WrappingWriter {
    /// A fresh writer with an empty buffer.
    pub fn new(width: usize, styling_enabled: bool) -> (r: WrappingWriter)
        ensures
            r@ == init_writer_model(width as nat, styling_enabled),
    {
        let r = WrappingWriter {
            buffer: String::new(),
            width,
            styling_enabled,
            current_line_width: 0,
            current_line_undercurl: Vec::new(),
            need_flush: false,
            indent: 0,
        };
        proof {
            assert(r@.pending =~= Seq::<CurlModel>::empty());
        }
        r
    }

    /// Change the indentation applied at the start of subsequent physical
    /// lines.
    pub fn set_indent(&mut self, indent: usize)
        ensures
            final(self)@ == apply_op(old(self)@, WriterOp::SetIndent(indent as nat)),
    {
        self.indent = indent;
    }

    /// Write a plain snippet.
    pub fn write(&mut self, data: &str)
        ensures
            final(self)@ == apply_op(
                old(self)@,
                WriterOp::Write(
                    SnipModel { text: data@, style: crate::styles::spec_plain_style(), curl: None },
                ),
            ),
    {
        let snippet = Snippet::new(data);
        self.write_snippet(&snippet);
    }

    /// Write a styled snippet.
    pub fn write_styled(&mut self, data: &str, style: Style)
        ensures
            final(self)@ == apply_op(
                old(self)@,
                WriterOp::Write(SnipModel { text: data@, style, curl: None }),
            ),
    {
        let snippet = Snippet::new(data).style(style);
        self.write_snippet(&snippet);
    }

    /// Write one snippet, wrapping at the configured width and flushing at
    /// embedded newlines.
    pub fn write_snippet(&mut self, snippet: &Snippet)
        ensures
            final(self)@ == apply_op(old(self)@, WriterOp::Write(snippet@)),
    {
        let chars: Vec<char> = chars_of(snippet_content(snippet));
        let n = chars.len();
        let mut pos: usize = 0;
        proof {
            assert(chars@.skip(0) =~= chars@);
        }
        while pos < n
            invariant
                n == chars@.len(),
                pos <= n,
                chars@ == snippet@.text,
                self@.width == old(self)@.width,
                self@.styling == old(self)@.styling,
                model_write_text(old(self)@, snippet@.text, snippet@.style, snippet@.curl)
                    == model_write_text(
                    self@,
                    chars@.skip(pos as int),
                    snippet@.style,
                    snippet@.curl,
                ),
            decreases n - pos, self.current_line_width + (if self.need_flush {
                1int
            } else {
                0int
            }),
        {
            let ghost pre = self@;
            let ghost suffix = chars@.skip(pos as int);
            // Find where the current piece ends.
            let mut j: usize = pos;
            let mut cw: usize = 0;
            let mut found: bool = false;
            while j < n && !found
                invariant
                    pos <= j <= n,
                    n == chars@.len(),
                    suffix == chars@.skip(pos as int),
                    cw <= self.width,
                    !found ==> scan_split(
                        suffix,
                        self@.line_width,
                        self@.width,
                        (j - pos) as nat,
                        cw as nat,
                    ) == scan_split(suffix, self@.line_width, self@.width, 0, 0),
                    found ==> j < n && scan_split(suffix, self@.line_width, self@.width, 0, 0)
                        == (Some((j - pos) as nat), cw as nat),
                decreases n - j + (if found {
                    0int
                } else {
                    1int
                }),
            {
                let c = chars[j];
                proof {
                    assert(suffix[(j - pos) as int] == chars@[j as int]);
                }
                if c == '\n' {
                    found = true;
                } else {
                    let w1 = char_display_width(c);
                    let room = self.width.saturating_sub(self.current_line_width).saturating_sub(
                        cw,
                    );
                    if w1 > room {
                        found = true;
                    } else {
                        cw = cw + w1;
                        j = j + 1;
                    }
                }
            }
            proof {
                if !found {
                    assert(scan_split(suffix, self@.line_width, self@.width, (j - pos) as nat, cw as nat)
                        == (None::<nat>, cw as nat));
                }
            }
            if !found {
                // Everything that is left fits on the current line.
                let piece = substring_of(snippet, pos, n);
                proof {
                    assert(piece@ =~= suffix);
                }
                self.write_piece(piece, cw, snippet_style(snippet), snippet_curl(snippet));
                pos = n;
                proof {
                    assert(chars@.skip(pos as int) =~= Seq::<char>::empty());
                    assert(model_write_text(pre, suffix, snippet@.style, snippet@.curl) == self@);
                }
            } else {
                let c = chars[j];
                proof {
                    assert(suffix[(j - pos) as int] == chars@[j as int]);
                }
                if c == '\n' {
                    let piece = substring_of(snippet, pos, j);
                    proof {
                        assert(piece@ =~= suffix.take((j - pos) as int));
                    }
                    self.write_piece(piece, cw, snippet_style(snippet), snippet_curl(snippet));
                    self.flush_line();
                    proof {
                        assert(chars@.skip((j + 1) as int) =~= suffix.skip((j - pos + 1) as int));
                    }
                    pos = j + 1;
                } else if j > pos {
                    let piece = substring_of(snippet, pos, j);
                    proof {
                        assert(piece@ =~= suffix.take((j - pos) as int));
                    }
                    self.write_piece(piece, cw, snippet_style(snippet), snippet_curl(snippet));
                    self.flush_line();
                    proof {
                        assert(chars@.skip(j as int) =~= suffix.skip((j - pos) as int));
                    }
                    pos = j;
                } else if self.current_line_width == 0 && !self.need_flush {
                    // A single character wider than the whole width: emit it
                    // on a line of its own rather than looping.
                    let w1 = char_display_width(c);
                    let piece = substring_of(snippet, pos, pos + 1);
                    proof {
                        assert(piece@ =~= suffix.take(1));
                        assert(suffix[0] == chars@[pos as int]);
                    }
                    self.write_piece(piece, w1, snippet_style(snippet), snippet_curl(snippet));
                    proof {
                        assert(chars@.skip((pos + 1) as int) =~= suffix.skip(1));
                    }
                    pos = pos + 1;
                } else {
                    self.flush_line();
                }
            }
        }
        proof {
            assert(chars@.skip(pos as int) =~= Seq::<char>::empty());
        }
    }

    /// Write one piece that stays on the current physical line.
    #[verifier::rlimit(60)]
    fn write_piece(&mut self, piece: &str, pw: usize, style: Style, curl: Option<Style>)
        ensures
            final(self)@ == model_piece(old(self)@, piece@, pw as nat, style, curl),
    {
        if piece.is_empty() {
            return ;
        }
        let ghost m0 = self@;
        let ghost ind: nat = if !m0.need_flush {
            m0.indent
        } else {
            0
        };
        // Emit the indentation if this piece starts a fresh line.
        if !self.need_flush {
            append_spaces(&mut self.buffer, self.indent);
            self.current_line_width = self.current_line_width.saturating_add(self.indent);
        }
        let ghost b_ind = self.buffer@;
        proof {
            assert(char_repeat(' ', 0) =~= Seq::<char>::empty());
            assert(b_ind =~= m0.buffer + char_repeat(' ', ind));
        }
        if self.styling_enabled {
            let p = style.prefix();
            self.buffer.append(p.as_str());
        }
        self.buffer.append(piece);
        if self.styling_enabled {
            let sfx = style.suffix();
            self.buffer.append(sfx.as_str());
        }
        proof {
            assert(self.buffer@ =~= b_ind + styled_text(style, piece@, m0.styling));
        }
        match curl {
            Some(cs) => {
                let start = self.current_line_width;
                let end = start.saturating_add(pw);
                self.current_line_undercurl.push((start, end, cs));
                proof {
                    assert(self@.pending =~= m0.pending + seq![
                        CurlModel { start: start as nat, end: end as nat, style: cs },
                    ]);
                }
            },
            None => {
                proof {
                    assert(self@.pending =~= m0.pending);
                }
            },
        }
        self.need_flush = true;
        self.current_line_width = self.current_line_width.saturating_add(pw);
        proof {
            assert(self@.buffer =~= m0.buffer + char_repeat(' ', ind) + styled_text(
                style,
                piece@,
                m0.styling,
            ));
            assert(self@.pending =~= model_piece(m0, piece@, pw as nat, style, curl).pending);
        }
    }

    #[verifier::rlimit(60)]
    pub fn flush_line(&mut self)
        ensures
            final(self)@ == apply_op(old(self)@, WriterOp::Flush),
    {
        self.need_flush = false;
        self.buffer.append("\n");
        self.current_line_width = 0;
        let ghost b1 = self.buffer@;
        let ghost pend = self@.pending;
        let ghost sty = self@.styling;
        let ghost row = curl_row(pend, sty);
        proof {
            reveal_strlit("\n");
            assert(b1 =~= old(self)@.buffer + seq!['\n']);
            assert(pend =~= old(self)@.pending);
            assert(pend.skip(0) =~= pend);
        }
        let n = self.current_line_undercurl.len();
        let mut i: usize = 0;
        let mut pos: usize = 0;
        let mut wrote: bool = false;
        while i < n
            invariant
                i <= n,
                n == self.current_line_undercurl@.len(),
                pend == self@.pending,
                sty == self@.styling,
                row == curl_row(pend, sty),
                self@.width == old(self)@.width,
                self@.indent == old(self)@.indent,
                self@.need_flush == false,
                self@.line_width == 0,
                b1.len() <= self.buffer@.len(),
                self.buffer@ + curl_row_from(pend.skip(i as int), pos as nat, sty) == b1 + row,
                wrote == (self.buffer@.len() > b1.len()),
            decreases n - i,
        {
            let ghost i0 = i as int;
            let ghost pos0 = pos as nat;
            let ghost buffer0 = self.buffer@;
            let ghost rest = pend.skip(i0);
            let (s, e, st) = self.current_line_undercurl[i];
            let ghost c = pend[i0];
            proof {
                assert(c == (CurlModel { start: s as nat, end: e as nat, style: st }));
                assert(rest.first() == c);
                assert(rest.drop_first() =~= pend.skip(i0 + 1));
                crate::styles::lemma_style_marks_len(st);
            }
            let gap = s.saturating_sub(pos);
            let count = e.saturating_sub(s);
            append_spaces(&mut self.buffer, gap);
            if gap > 0 {
                wrote = true;
            }
            if self.styling_enabled {
                let p = st.prefix();
                self.buffer.append(p.as_str());
                if st.bold || st.dim || st.fg != crate::styles::Color::Unset || st.bg
                    != crate::styles::Color::Unset {
                    wrote = true;
                }
            }
            append_carets(&mut self.buffer, count);
            if count > 0 {
                wrote = true;
            }
            if self.styling_enabled {
                let sfx = st.suffix();
                self.buffer.append(sfx.as_str());
            }
            pos = e;
            i = i + 1;
            proof {
                let ghost piece = char_repeat(' ', gap as nat) + styled_text(
                    c.style,
                    char_repeat('^', count as nat),
                    sty,
                );
                assert(self.buffer@ =~= buffer0 + piece);
                assert(gap as nat == sat_sub(c.start, pos0));
                assert(count as nat == sat_sub(c.end, c.start));
                assert(curl_row_from(rest, pos0, sty) == piece + curl_row_from(
                    pend.skip(i0 + 1),
                    c.end,
                    sty,
                ));
                assert(self.buffer@ + curl_row_from(pend.skip(i as int), pos as nat, sty) =~= buffer0
                    + curl_row_from(rest, pos0, sty));
                assert(piece.len() > 0 <==> (gap > 0 || count > 0 || (sty && crate::styles::has_codes(
                    st,
                ))));
            }
        }
        proof {
            assert(pend.skip(n as int) =~= Seq::<CurlModel>::empty());
            assert(curl_row_from(pend.skip(n as int), pos as nat, sty) =~= Seq::<char>::empty());
            assert(self.buffer@ + Seq::<char>::empty() =~= self.buffer@);
            assert(self.buffer@ == b1 + row);
        }
        if wrote {
            self.buffer.append("\n");
        }
        self.current_line_undercurl = Vec::new();
        proof {
            reveal_strlit("\n");
            assert(self@.pending =~= Seq::<CurlModel>::empty());
            if row.len() > 0 {
                assert(self@.buffer =~= model_flush(old(self)@).buffer);
            } else {
                assert(self@.buffer =~= model_flush(old(self)@).buffer);
            }
        }
    }

    /// Finish writing: flush any unflushed content exactly once and hand the
    /// buffer out.
    pub fn finish(self) -> (r: String)
        ensures
            r@ == model_finish(self@),
    {
        let mut w = self;
        if w.need_flush {
            w.flush_line();
        }
        w.buffer
    }
}

/// The content of a snippet, exposed for the writer's own loop.
fn snippet_content(snippet: &Snippet) -> (r: &str)
    ensures
        r@ == snippet@.text,
{
    snippet.content.as_str()
}

/// A substring of a snippet's content by character range.
fn substring_of(snippet: &Snippet, from: usize, to: usize) -> (r: &str)
    requires
        from <= to <= snippet@.text.len(),
    ensures
        r@ == snippet@.text.subrange(from as int, to as int),
{
    snippet.content.as_str().substring_char(from, to)
}

/// The style of a snippet.
fn snippet_style(snippet: &Snippet) -> (r: Style)
    ensures
        r == snippet@.style,
{
    snippet.style
}

/// The undercurl marker of a snippet.
fn snippet_curl(snippet: &Snippet) -> (r: Option<Style>)
    ensures
        r == snippet@.curl,
{
    snippet.undercurl
}

} // verus!
