//! Rendering a failed check into a report.
//!
//! A [`FailedCheck`] describes one failed assertion: the textual predicates
//! as written in the source, the index of the one that failed, the
//! debug-formatted operand values, the source location, and any captured
//! macro fragments and custom message.  [`FailedCheck::render`] turns it into
//! the finished report text for a given terminal width and option set; the
//! embedding binary only queries the terminal and writes the result to the
//! diagnostic stream.
//!
//! Every renderer's contract states the exact sequence of writer operations
//! it performs, so the report text is pinned down completely.

use vstd::prelude::*;
use vstd::string::*;

use crate::diffing::MultiLineDiff;
use crate::diffing::SingleLineDiff;
use crate::diffing::interleaved_ops;
use crate::diffing::lemma_apply_single;
use crate::diffing::lines_diff_of;
use crate::diffing::merge_diffs;
use crate::diffing::sld_left_model;
use crate::diffing::sld_right_model;
use crate::highlight::render_ops;
use crate::options::AssertOptions;
use crate::options::ExpansionFormat;
use crate::options::FormattedValue;
use crate::options::spec_is_compact_good;
use crate::seqtools::str_eq;
use crate::styles::Style;
use crate::styles::spec_dimmed_style;
use crate::styles::spec_error_style;
use crate::styles::spec_left_style;
use crate::styles::spec_macro_style;
use crate::styles::spec_note_style;
use crate::styles::spec_op_style;
use crate::styles::spec_plain_style;
use crate::styles::spec_right_style;
use crate::textnum::dec_rep;
use crate::textnum::u32_string;
use crate::writer::SnipModel;
use crate::writer::Snippet;
use crate::writer::WrappingWriter;
use crate::writer::WriterOp;
use crate::writer::apply_op;
use crate::writer::apply_ops;
use crate::writer::init_writer_model;
use crate::writer::lemma_apply_ops_concat;
use crate::writer::lemma_apply_ops_push;
use crate::writer::model_finish;

verus! {

/// One atomic sub-check of a chained assertion, as written in the source.
pub enum Predicate {
    /// A comparison of two operands.
    Binary { left: String, operator: String, right: String },
    /// A pattern match.
    Let { pattern: String, expression: String },
    /// A plain boolean expression.
    Bool { expression: String },
}

/// The abstract form of a [`Predicate`].
pub ghost enum PredicateModel {
    Binary { left: Seq<char>, operator: Seq<char>, right: Seq<char> },
    Let { pattern: Seq<char>, expression: Seq<char> },
    Bool { expression: Seq<char> },
}

impl DeepView for Predicate {
    type V = PredicateModel;

    open spec fn deep_view(&self) -> PredicateModel {
        match self {
            Predicate::Binary { left, operator, right } => PredicateModel::Binary {
                left: left@,
                operator: operator@,
                right: right@,
            },
            Predicate::Let { pattern, expression } => PredicateModel::Let {
                pattern: pattern@,
                expression: expression@,
            },
            Predicate::Bool { expression } => PredicateModel::Bool { expression: expression@ },
        }
    }
}

/// The runtime-evaluated counterpart of the failed predicate, with all
/// operands already debug-formatted by the caller, in both forms.
pub enum Expansion {
    /// Both operands of a failed comparison.
    Binary { left: FormattedValue, operator: String, right: FormattedValue },
    /// The value that failed to match a pattern.
    Let { expression: FormattedValue },
    /// A failed boolean expression; it always renders as `false`.
    Bool,
}

/// The abstract form of an [`Expansion`]; formatted values are
/// (compact, pretty) pairs.
pub ghost enum ExpansionModel {
    Binary { left: (Seq<char>, Seq<char>), operator: Seq<char>, right: (Seq<char>, Seq<char>) },
    Let { expression: (Seq<char>, Seq<char>) },
    Bool,
}

impl DeepView for Expansion {
    type V = ExpansionModel;

    open spec fn deep_view(&self) -> ExpansionModel {
        match self {
            Expansion::Binary { left, operator, right } => ExpansionModel::Binary {
                left: left.deep_view(),
                operator: operator@,
                right: right.deep_view(),
            },
            Expansion::Let { expression } => ExpansionModel::Let {
                expression: expression.deep_view(),
            },
            Expansion::Bool => ExpansionModel::Bool,
        }
    }
}

/// One failed check, ready to render.
pub struct FailedCheck {
    /// The macro name shown in the header.
    pub macro_name: String,
    /// The source file of the check.
    pub file: String,
    /// The source line of the check.
    pub line: u32,
    /// The source column of the check.
    pub column: u32,
    /// A user-supplied message, if any.
    pub custom_msg: Option<String>,
    /// The chain of predicates, each with the separator text rendered before
    /// it (empty for the first).
    pub predicates: Vec<(String, Predicate)>,
    /// The index of the predicate that failed.
    pub failed: usize,
    /// The evaluated form of the failed predicate.
    pub expansion: Expansion,
    /// Readable forms of macro-expanded sub-expressions, as (name, source)
    /// pairs.
    pub fragments: Vec<(String, String)>,
}

/// The abstract form of a [`FailedCheck`].
pub ghost struct FcModel {
    pub macro_name: Seq<char>,
    pub file: Seq<char>,
    pub line: u32,
    pub column: u32,
    pub custom_msg: Option<Seq<char>>,
    pub predicates: Seq<(Seq<char>, PredicateModel)>,
    pub failed: int,
    pub expansion: ExpansionModel,
    pub fragments: Seq<(Seq<char>, Seq<char>)>,
}

impl View for FailedCheck {
    type V = FcModel;

    open spec fn view(&self) -> FcModel {
        FcModel {
            macro_name: self.macro_name@,
            file: self.file@,
            line: self.line,
            column: self.column,
            custom_msg: match self.custom_msg {
                Some(m) => Some(m@),
                None => None,
            },
            predicates: self.predicates.deep_view(),
            failed: self.failed as int,
            expansion: self.expansion.deep_view(),
            fragments: self.fragments.deep_view(),
        }
    }
}

/// The snippet one predicate part renders as: its own style with an optional
/// undercurl if the predicate failed, dimmed otherwise.
pub open spec fn pred_snip_op(text: Seq<char>, style: Style, failed: bool, undercurl: bool) -> WriterOp {
    if failed {
        WriterOp::Write(
            SnipModel {
                text,
                style,
                curl: if undercurl {
                    Some(spec_error_style())
                } else {
                    None
                },
            },
        )
    } else {
        WriterOp::Write(SnipModel { text, style: spec_dimmed_style(), curl: None })
    }
}

/// The writer operations that render one predicate.
pub open spec fn predicate_ops(p: PredicateModel, failed: bool, undercurl: bool) -> Seq<WriterOp> {
    match p {
        PredicateModel::Binary { left, operator, right } => seq![
            pred_snip_op(left, spec_left_style(), failed, undercurl),
            pred_snip_op(" "@, spec_plain_style(), failed, undercurl),
            pred_snip_op(operator, spec_op_style(), failed, undercurl),
            pred_snip_op(" "@, spec_plain_style(), failed, undercurl),
            pred_snip_op(right, spec_right_style(), failed, undercurl),
        ],
        PredicateModel::Let { pattern, expression } => seq![
            pred_snip_op("let "@, spec_op_style(), failed, undercurl),
            pred_snip_op(pattern, spec_left_style(), failed, undercurl),
            pred_snip_op(" = "@, spec_op_style(), failed, undercurl),
            pred_snip_op(expression, spec_right_style(), failed, undercurl),
        ],
        PredicateModel::Bool { expression } => seq![
            pred_snip_op(expression, spec_right_style(), failed, undercurl),
        ],
    }
}

impl Predicate {
    /// Render this predicate: with its full colours (and, in a chain, an
    /// undercurl marker) if it is the one that failed, dimmed otherwise.
    pub fn write(&self, w: &mut WrappingWriter, failed: bool, undercurl: bool)
        ensures
            final(w)@ == apply_ops(old(w)@, predicate_ops(self.deep_view(), failed, undercurl)),
    {
        let ghost w0 = w@;
        let ghost target = predicate_ops(self.deep_view(), failed, undercurl);
        match self {
            Predicate::Binary { left, operator, right } => {
                let mut s = make_snippet(left.as_str(), crate::styles::left_style(), failed, undercurl);
                w.write_snippet(&s);
                s = make_snippet(" ", Style::plain(), failed, undercurl);
                w.write_snippet(&s);
                s = make_snippet(operator.as_str(), crate::styles::op_style(), failed, undercurl);
                w.write_snippet(&s);
                s = make_snippet(" ", Style::plain(), failed, undercurl);
                w.write_snippet(&s);
                s = make_snippet(right.as_str(), crate::styles::right_style(), failed, undercurl);
                w.write_snippet(&s);
                proof {
                    lemma_apply_five(w0, target[0], target[1], target[2], target[3], target[4]);
                    assert(target =~= seq![target[0], target[1], target[2], target[3], target[4]]);
                }
            },
            Predicate::Let { pattern, expression } => {
                let mut s = make_snippet("let ", crate::styles::op_style(), failed, undercurl);
                w.write_snippet(&s);
                s = make_snippet(pattern.as_str(), crate::styles::left_style(), failed, undercurl);
                w.write_snippet(&s);
                s = make_snippet(" = ", crate::styles::op_style(), failed, undercurl);
                w.write_snippet(&s);
                s = make_snippet(expression.as_str(), crate::styles::right_style(), failed, undercurl);
                w.write_snippet(&s);
                proof {
                    lemma_apply_four(w0, target[0], target[1], target[2], target[3]);
                    assert(target =~= seq![target[0], target[1], target[2], target[3]]);
                }
            },
            Predicate::Bool { expression } => {
                let s = make_snippet(expression.as_str(), crate::styles::right_style(), failed, undercurl);
                w.write_snippet(&s);
                proof {
                    lemma_apply_single(w0, target[0]);
                    assert(target =~= seq![target[0]]);
                }
            },
        }
    }
}

/// Build the snippet of one predicate part.
fn make_snippet(data: &str, style: Style, failed: bool, undercurl: bool) -> (r: Snippet)
    ensures
        r@ == (match pred_snip_op(data@, style, failed, undercurl) {
            WriterOp::Write(s) => s,
            _ => r@,
        }),
        pred_snip_op(data@, style, failed, undercurl) is Write,
{
    let mut snippet = Snippet::new(data);
    if failed {
        snippet = snippet.style(style);
        if undercurl {
            snippet = snippet.undercurl_error();
        }
    } else {
        snippet = snippet.style(crate::styles::dimmed_style());
    }
    snippet
}

/// The note appended when both compact forms are textually identical even
/// though the check failed: for equality operators this hints at a broken
/// `Debug` or `PartialEq` implementation, for others at a coincidence.
pub open spec fn note_ops(left_compact: Seq<char>, right_compact: Seq<char>, operator: Seq<char>) -> Seq<WriterOp> {
    if left_compact == right_compact {
        seq![
            WriterOp::Flush,
            if operator == "=="@ {
                WriterOp::Write(
                    SnipModel {
                        text: "Note: Left and right compared as unequal, but the Debug output of left and right is identical!"@,
                        style: spec_error_style(),
                        curl: None,
                    },
                )
            } else {
                WriterOp::Write(
                    SnipModel {
                        text: "Note: Debug output of left and right is identical."@,
                        style: spec_note_style(),
                        curl: None,
                    },
                )
            },
        ]
    } else {
        Seq::empty()
    }
}

/// The writer operations that render a binary expansion: the compact word
/// diff with the operator centred between the sides when the format allows it
/// and both compact forms are good, the structural line diff of the pretty
/// forms otherwise.
pub open spec fn binary_ops(
    left: (Seq<char>, Seq<char>),
    operator: Seq<char>,
    right: (Seq<char>, Seq<char>),
    options: AssertOptions,
) -> Seq<WriterOp> {
    if options.expand != ExpansionFormat::Pretty && (options.expand == ExpansionFormat::Compact
        || spec_is_compact_good(seq![left.0, right.0])) {
        seq![
            WriterOp::Write(
                SnipModel { text: "with expansion:\n"@, style: spec_plain_style(), curl: None },
            ),
            WriterOp::Write(SnipModel { text: "  "@, style: spec_plain_style(), curl: None }),
        ] + render_ops(sld_left_model(left.0, right.0), left.0) + seq![
            WriterOp::Write(SnipModel { text: " "@, style: spec_plain_style(), curl: None }),
            WriterOp::Write(SnipModel { text: operator, style: spec_op_style(), curl: None }),
            WriterOp::Write(SnipModel { text: " "@, style: spec_plain_style(), curl: None }),
        ] + render_ops(sld_right_model(left.0, right.0), right.0) + note_ops(
            left.0,
            right.0,
            operator,
        )
    } else {
        seq![
            WriterOp::Write(
                SnipModel { text: "with diff:\n"@, style: spec_plain_style(), curl: None },
            ),
        ] + interleaved_ops(merge_diffs(lines_diff_of(left.1, right.1)))
    }
}

/// The writer operations that render the lines of a `let` expansion value,
/// indented, flushed between lines but not after the last one.
pub open spec fn let_lines_ops(lines: Seq<Seq<char>>) -> Seq<WriterOp>
    decreases lines.len(),
{
    if lines.len() == 0 {
        Seq::empty()
    } else if lines.len() == 1 {
        seq![
            WriterOp::Write(SnipModel { text: "  "@, style: spec_plain_style(), curl: None }),
            WriterOp::Write(SnipModel { text: lines.first(), style: spec_right_style(), curl: None }),
        ]
    } else {
        seq![
            WriterOp::Write(SnipModel { text: "  "@, style: spec_plain_style(), curl: None }),
            WriterOp::Write(SnipModel { text: lines.first(), style: spec_right_style(), curl: None }),
            WriterOp::Flush,
        ] + let_lines_ops(lines.drop_first())
    }
}

/// The writer operations that render a `let` expansion: the unmatched value
/// in the form the options choose, indented under a heading.
pub open spec fn let_ops(expression: (Seq<char>, Seq<char>), options: AssertOptions) -> Seq<
    WriterOp,
> {
    let chosen = if options.expand != ExpansionFormat::Pretty && (options.expand
        == ExpansionFormat::Compact || spec_is_compact_good(seq![expression.0])) {
        expression.0
    } else {
        expression.1
    };
    seq![
        WriterOp::Write(
            SnipModel { text: "with expansion:\n"@, style: spec_plain_style(), curl: None },
        ),
    ] + let_lines_ops(crate::diffing::lines_of(chosen))
}

/// The writer operations that render a boolean expansion: the literal
/// `false`.
pub open spec fn bool_ops() -> Seq<WriterOp> {
    seq![
        WriterOp::Write(
            SnipModel { text: "with expansion:\n"@, style: spec_plain_style(), curl: None },
        ),
        WriterOp::Write(SnipModel { text: "  "@, style: spec_plain_style(), curl: None }),
        WriterOp::Write(SnipModel { text: "false"@, style: spec_right_style(), curl: None }),
    ]
}

/// The writer operations that render an expansion.
pub open spec fn expansion_ops(e: ExpansionModel, options: AssertOptions) -> Seq<WriterOp> {
    match e {
        ExpansionModel::Binary { left, operator, right } => binary_ops(
            left,
            operator,
            right,
            options,
        ),
        ExpansionModel::Let { expression } => let_ops(expression, options),
        ExpansionModel::Bool => bool_ops(),
    }
}

impl Expansion {
    /// Render this expansion under the failed check.
    pub fn write(&self, w: &mut WrappingWriter, options: AssertOptions)
        ensures
            final(w)@ == apply_ops(old(w)@, expansion_ops(self.deep_view(), options)),
    {
        match self {
            Expansion::Binary { left, operator, right } => {
                Self::write_binary(w, left, operator.as_str(), right, options);
            },
            Expansion::Let { expression } => {
                Self::write_let(w, expression, options);
            },
            Expansion::Bool => {
                Self::write_bool(w);
            },
        }
    }

    /// Render a binary expansion.
    pub fn write_binary(
        w: &mut WrappingWriter,
        left: &FormattedValue,
        operator: &str,
        right: &FormattedValue,
        options: AssertOptions,
    )
        ensures
            final(w)@ == apply_ops(
                old(w)@,
                binary_ops(left.deep_view(), operator@, right.deep_view(), options),
            ),
    {
        let ghost w0 = w@;
        if !options.expand.force_pretty() {
            let compacts = vec![left.compact.clone(), right.compact.clone()];
            proof {
                assert(compacts.deep_view() =~= seq![left.compact@, right.compact@]);
            }
            if options.expand.force_compact() || ExpansionFormat::is_compact_good(&compacts) {
                let ghost a = seq![
                    WriterOp::Write(
                        SnipModel {
                            text: "with expansion:\n"@,
                            style: spec_plain_style(),
                            curl: None,
                        },
                    ),
                    WriterOp::Write(
                        SnipModel { text: "  "@, style: spec_plain_style(), curl: None },
                    ),
                ];
                let ghost b = render_ops(sld_left_model(left.compact@, right.compact@), left.compact@);
                let ghost c = seq![
                    WriterOp::Write(SnipModel { text: " "@, style: spec_plain_style(), curl: None }),
                    WriterOp::Write(SnipModel { text: operator@, style: spec_op_style(), curl: None }),
                    WriterOp::Write(SnipModel { text: " "@, style: spec_plain_style(), curl: None }),
                ];
                let ghost d = render_ops(
                    sld_right_model(left.compact@, right.compact@),
                    right.compact@,
                );
                let ghost e = note_ops(left.compact@, right.compact@, operator@);
                w.write("with expansion:\n");
                let diff = SingleLineDiff::new(left.compact.as_str(), right.compact.as_str());
                w.write("  ");
                proof {
                    lemma_apply_pair_ops(w0, a[0], a[1]);
                    assert(a =~= seq![a[0], a[1]]);
                    assert(w@ == apply_ops(w0, a));
                }
                diff.write_left(w);
                proof {
                    lemma_apply_ops_concat(w0, a, b);
                }
                w.write(" ");
                w.write_styled(operator, crate::styles::op_style());
                w.write(" ");
                proof {
                    lemma_apply_triple_ops(apply_ops(w0, a + b), c[0], c[1], c[2]);
                    assert(c =~= seq![c[0], c[1], c[2]]);
                    lemma_apply_ops_concat(w0, a + b, c);
                }
                diff.write_right(w);
                proof {
                    lemma_apply_ops_concat(w0, a + b + c, d);
                }
                if left.compact == right.compact {
                    w.flush_line();
                    if str_eq(operator, "==") {
                        w.write_styled(
                            "Note: Left and right compared as unequal, but the Debug output of left and right is identical!",
                            crate::styles::error_style(),
                        );
                    } else {
                        w.write_styled(
                            "Note: Debug output of left and right is identical.",
                            crate::styles::note_style(),
                        );
                    }
                    proof {
                        lemma_apply_pair_ops(apply_ops(w0, a + b + c + d), e[0], e[1]);
                        assert(e =~= seq![e[0], e[1]]);
                        lemma_apply_ops_concat(w0, a + b + c + d, e);
                        assert(binary_ops(left.deep_view(), operator@, right.deep_view(), options)
                            == a + b + c + d + e);
                    }
                } else {
                    proof {
                        assert(e =~= Seq::<WriterOp>::empty());
                        assert(a + b + c + d + e =~= a + b + c + d);
                        assert(binary_ops(left.deep_view(), operator@, right.deep_view(), options)
                            == a + b + c + d + e);
                    }
                }
                return ;
            }
        }
        // Compact expansion was disabled or not compact enough, so use the
        // structural diff of the pretty forms.
        let ghost a = seq![
            WriterOp::Write(
                SnipModel { text: "with diff:\n"@, style: spec_plain_style(), curl: None },
            ),
        ];
        let ghost b = interleaved_ops(merge_diffs(lines_diff_of(left.pretty@, right.pretty@)));
        w.write("with diff:\n");
        proof {
            lemma_apply_single(w0, a[0]);
            assert(a =~= seq![a[0]]);
        }
        let diff = MultiLineDiff::new(left.pretty.as_str(), right.pretty.as_str());
        diff.write_interleaved(w);
        proof {
            lemma_apply_ops_concat(w0, a, b);
            assert(binary_ops(left.deep_view(), operator@, right.deep_view(), options) == a + b);
        }
    }

    /// Render a boolean expansion.
    pub fn write_bool(w: &mut WrappingWriter)
        ensures
            final(w)@ == apply_ops(old(w)@, bool_ops()),
    {
        let ghost w0 = w@;
        w.write("with expansion:\n");
        w.write("  ");
        w.write_styled("false", crate::styles::right_style());
        proof {
            lemma_apply_triple_ops(w0, bool_ops()[0], bool_ops()[1], bool_ops()[2]);
            assert(bool_ops() =~= seq![bool_ops()[0], bool_ops()[1], bool_ops()[2]]);
        }
    }

    /// Render a `let` expansion.
    pub fn write_let(w: &mut WrappingWriter, expression: &FormattedValue, options: AssertOptions)
        ensures
            final(w)@ == apply_ops(old(w)@, let_ops(expression.deep_view(), options)),
    {
        let ghost w0 = w@;
        let values = vec![
            FormattedValue { compact: expression.compact.clone(), pretty: expression.pretty.clone() },
        ];
        proof {
            assert(values.deep_view() =~= seq![expression.deep_view()]);
            assert(values.deep_view().map_values(|v: (Seq<char>, Seq<char>)| v.0)
                =~= seq![expression.compact@]);
            assert(values.deep_view().map_values(|v: (Seq<char>, Seq<char>)| v.1)
                =~= seq![expression.pretty@]);
        }
        let expanded = options.expand.expand_all(&values);
        let value = &expanded[0];
        let ghost chosen = value@;
        proof {
            assert(expanded.deep_view()[0] == expanded@[0]@);
        }
        w.write("with expansion:\n");
        let ghost head = seq![
            WriterOp::Write(
                SnipModel { text: "with expansion:\n"@, style: spec_plain_style(), curl: None },
            ),
        ];
        proof {
            lemma_apply_single(w0, head[0]);
            assert(head =~= seq![head[0]]);
        }
        let lines = crate::diffing::split_lines(value.as_str());
        let ghost lv = lines.deep_view();
        let n = lines.len();
        let mut i: usize = 0;
        proof {
            assert(lv.skip(0) =~= lv);
        }
        while i < n
            invariant
                i <= n,
                n == lv.len(),
                lv == lines.deep_view(),
                apply_ops(apply_ops(w0, head), let_lines_ops(lv)) == apply_ops(
                    w@,
                    let_lines_ops(lv.skip(i as int)),
                ),
            decreases n - i,
        {
            let ghost rest = lv.skip(i as int);
            let ghost wl = w@;
            proof {
                assert(rest.first() == lv[i as int]);
                assert(rest.drop_first() =~= lv.skip(i as int + 1));
                assert(lines.deep_view()[i as int] == lines@[i as int]@);
            }
            w.write("  ");
            w.write_styled(lines[i].as_str(), crate::styles::right_style());
            if i + 1 < n {
                w.flush_line();
                proof {
                    lemma_apply_triple_ops(wl, rest_ops(rest)[0], rest_ops(rest)[1], rest_ops(rest)[2]);
                    assert(rest_ops(rest) =~= seq![
                        rest_ops(rest)[0],
                        rest_ops(rest)[1],
                        rest_ops(rest)[2],
                    ]);
                    lemma_apply_ops_concat(wl, rest_ops(rest), let_lines_ops(rest.drop_first()));
                    assert(let_lines_ops(rest) =~= rest_ops(rest) + let_lines_ops(
                        rest.drop_first(),
                    ));
                }
            } else {
                proof {
                    assert(rest.len() == 1);
                    let ops = let_lines_ops(rest);
                    lemma_apply_pair_ops(wl, ops[0], ops[1]);
                    assert(ops =~= seq![ops[0], ops[1]]);
                    assert(lv.skip(i as int + 1) =~= Seq::<Seq<char>>::empty());
                }
            }
            i = i + 1;
        }
        proof {
            assert(lv.skip(n as int) =~= Seq::<Seq<char>>::empty());
            assert(let_ops(expression.deep_view(), options) == head + let_lines_ops(lv));
            lemma_apply_ops_concat(w0, head, let_lines_ops(lv));
        }
    }
}

/// The first three operations of a multi-line `let` rendering step.
pub open spec fn rest_ops(rest: Seq<Seq<char>>) -> Seq<WriterOp>
    recommends
        rest.len() > 1,
{
    seq![
        WriterOp::Write(SnipModel { text: "  "@, style: spec_plain_style(), curl: None }),
        WriterOp::Write(SnipModel { text: rest.first(), style: spec_right_style(), curl: None }),
        WriterOp::Flush,
    ]
}

/// Applying four operations equals applying their four-element list.
pub proof fn lemma_apply_four(
    m: crate::writer::WriterModel,
    op1: WriterOp,
    op2: WriterOp,
    op3: WriterOp,
    op4: WriterOp,
)
    ensures
        apply_ops(m, seq![op1, op2, op3, op4]) == apply_op(
            apply_op(apply_op(apply_op(m, op1), op2), op3),
            op4,
        ),
{
    assert(seq![op1, op2, op3, op4].drop_first() =~= seq![op2, op3, op4]);
    crate::diffing::lemma_apply_triple(apply_op(m, op1), op2, op3, op4);
}

/// Applying five operations equals applying their five-element list.
pub proof fn lemma_apply_five(
    m: crate::writer::WriterModel,
    op1: WriterOp,
    op2: WriterOp,
    op3: WriterOp,
    op4: WriterOp,
    op5: WriterOp,
)
    ensures
        apply_ops(m, seq![op1, op2, op3, op4, op5]) == apply_op(
            apply_op(apply_op(apply_op(apply_op(m, op1), op2), op3), op4),
            op5,
        ),
{
    assert(seq![op1, op2, op3, op4, op5].drop_first() =~= seq![op2, op3, op4, op5]);
    lemma_apply_four(apply_op(m, op1), op2, op3, op4, op5);
}

/// Applying two operations equals applying their two-element list.
pub proof fn lemma_apply_pair_ops(m: crate::writer::WriterModel, op1: WriterOp, op2: WriterOp)
    ensures
        apply_ops(m, seq![op1, op2]) == apply_op(apply_op(m, op1), op2),
{
    crate::diffing::lemma_apply_pair(m, op1, op2);
}

/// Applying three operations equals applying their three-element list.
pub proof fn lemma_apply_triple_ops(
    m: crate::writer::WriterModel,
    op1: WriterOp,
    op2: WriterOp,
    op3: WriterOp,
)
    ensures
        apply_ops(m, seq![op1, op2, op3]) == apply_op(
            apply_op(apply_op(m, op1), op2),
            op3,
        ),
{
    crate::diffing::lemma_apply_triple(m, op1, op2, op3);
}

/// The writer operations of the predicate chain from predicate `i` up to and
/// including the failed one: the separator text (dimmed) before every
/// predicate but the first, then the predicate, dimmed unless it failed.
pub open spec fn chain_ops_from(
    preds: Seq<(Seq<char>, PredicateModel)>,
    failed: int,
    many: bool,
    i: int,
) -> Seq<WriterOp>
    decreases failed + 1 - i,
{
    if i > failed || i < 0 {
        Seq::empty()
    } else {
        (if i > 0 {
            seq![
                WriterOp::Write(
                    SnipModel { text: preds[i].0, style: spec_dimmed_style(), curl: None },
                ),
            ]
        } else {
            Seq::<WriterOp>::empty()
        }) + predicate_ops(preds[i].1, i == failed, many) + chain_ops_from(
            preds,
            failed,
            many,
            i + 1,
        )
    }
}

/// The writer operations of the report header: the banner, the source
/// location, and the reconstructed macro invocation with the predicate chain
/// up to the failed predicate, followed by the next separator and an ellipsis
/// when short-circuiting left predicates unevaluated.
pub open spec fn assertion_ops(m: FcModel) -> Seq<WriterOp> {
    seq![
        WriterOp::Write(
            SnipModel { text: "Assertion failed"@, style: spec_error_style(), curl: None },
        ),
        WriterOp::Write(SnipModel { text: " at "@, style: spec_plain_style(), curl: None }),
        WriterOp::Write(SnipModel { text: m.file, style: spec_note_style(), curl: None }),
        WriterOp::Write(
            SnipModel {
                text: ":"@ + dec_rep(m.line as nat) + ":"@ + dec_rep(m.column as nat),
                style: spec_plain_style(),
                curl: None,
            },
        ),
        WriterOp::Flush,
        WriterOp::Write(SnipModel { text: "  "@, style: spec_plain_style(), curl: None }),
        WriterOp::Write(SnipModel { text: m.macro_name, style: spec_macro_style(), curl: None }),
        WriterOp::Write(SnipModel { text: "!( "@, style: spec_macro_style(), curl: None }),
    ] + chain_ops_from(m.predicates, m.failed, m.predicates.len() > 1, 0) + (if m.failed + 1
        < m.predicates.len() {
        seq![
            WriterOp::Write(
                SnipModel {
                    text: m.predicates[m.failed + 1].0 + "..."@,
                    style: spec_dimmed_style(),
                    curl: None,
                },
            ),
        ]
    } else {
        Seq::<WriterOp>::empty()
    }) + seq![
        WriterOp::Write(SnipModel { text: " )"@, style: spec_macro_style(), curl: None }),
        WriterOp::Flush,
    ]
}

/// The writer operations of one captured fragment line.
pub open spec fn fragment_ops(f: (Seq<char>, Seq<char>)) -> Seq<WriterOp> {
    seq![
        WriterOp::Write(SnipModel { text: "  "@, style: spec_plain_style(), curl: None }),
        WriterOp::Write(SnipModel { text: f.0, style: spec_macro_style(), curl: None }),
        WriterOp::Write(SnipModel { text: " "@, style: spec_plain_style(), curl: None }),
        WriterOp::Write(SnipModel { text: "="@, style: spec_op_style(), curl: None }),
        WriterOp::Write(SnipModel { text: " "@, style: spec_plain_style(), curl: None }),
        WriterOp::Write(SnipModel { text: f.1, style: spec_macro_style(), curl: None }),
        WriterOp::Flush,
    ]
}

/// The writer operations of the fragment lines from index `i` on.
pub open spec fn fragments_ops_from(fs: Seq<(Seq<char>, Seq<char>)>, i: int) -> Seq<WriterOp>
    decreases fs.len() - i,
{
    if i < 0 || i >= fs.len() {
        Seq::empty()
    } else {
        fragment_ops(fs[i]) + fragments_ops_from(fs, i + 1)
    }
}

/// The writer operations of the fragment block, if there are any fragments.
pub open spec fn fragments_block_ops(fs: Seq<(Seq<char>, Seq<char>)>) -> Seq<WriterOp> {
    if fs.len() == 0 {
        Seq::empty()
    } else {
        seq![
            WriterOp::Write(SnipModel { text: "with:
"@, style: spec_plain_style(), curl: None }),
        ] + fragments_ops_from(fs, 0)
    }
}

/// The writer operations of the custom message block, if a message was given.
pub open spec fn message_ops(msg: Option<Seq<char>>) -> Seq<WriterOp> {
    match msg {
        None => Seq::empty(),
        Some(t) => seq![
            WriterOp::Write(
                SnipModel { text: "with message:\n  "@, style: spec_plain_style(), curl: None },
            ),
            WriterOp::Write(SnipModel { text: t, style: spec_note_style(), curl: None }),
            WriterOp::Flush,
        ],
    }
}

/// All writer operations of a full report.
pub open spec fn report_ops(m: FcModel, options: AssertOptions) -> Seq<WriterOp> {
    assertion_ops(m) + fragments_block_ops(m.fragments) + expansion_ops(m.expansion, options)
        + seq![WriterOp::Flush] + message_ops(m.custom_msg) + seq![WriterOp::Flush]
}

/// The finished report text for a terminal width and option set.
pub open spec fn rendered_report(m: FcModel, options: AssertOptions, width: nat) -> Seq<char> {
    model_finish(apply_ops(init_writer_model(width, options.color), report_ops(m, options)))
}

impl FailedCheck {
    /// Render the header: the banner, the source location, and the
    /// reconstructed macro invocation with the failed predicate emphasised.
    pub fn print_assertion(&self, w: &mut WrappingWriter)
        requires
            0 <= self@.failed < self@.predicates.len(),
        ensures
            final(w)@ == apply_ops(old(w)@, assertion_ops(self@)),
    {
        let ghost w0 = w@;
        let ghost m = self@;
        w.write_styled("Assertion failed", crate::styles::error_style());
        w.write(" at ");
        w.write_styled(self.file.as_str(), crate::styles::note_style());
        let mut loc: String = ":".to_owned();
        let line_str = u32_string(self.line);
        loc.append(line_str.as_str());
        loc.append(":");
        let col_str = u32_string(self.column);
        loc.append(col_str.as_str());
        w.write(loc.as_str());
        w.flush_line();
        w.write("  ");
        w.write_styled(self.macro_name.as_str(), crate::styles::macro_style());
        w.write_styled("!( ", crate::styles::macro_style());
        let ghost head = assertion_ops(m).take(8);
        proof {
            assert(assertion_ops(m).take(8)[0] == assertion_ops(m)[0]);
            lemma_apply_eight(
                w0,
                head[0],
                head[1],
                head[2],
                head[3],
                head[4],
                head[5],
                head[6],
                head[7],
            );
            assert(head =~= seq![
                head[0],
                head[1],
                head[2],
                head[3],
                head[4],
                head[5],
                head[6],
                head[7],
            ]);
            assert(w@ == apply_ops(w0, head));
        }
        let ghost wh = w@;
        // Render all predicates up to and including the failed one.
        let many = self.predicates.len() > 1;
        let total = self.predicates.len();
        let n = self.failed;
        let mut i: usize = 0;
        proof {
            assert(m.predicates == self.predicates.deep_view());
            assert(m.predicates.len() == self.predicates@.len());
        }
        while i <= n
            invariant
                i <= n + 1,
                n < total,
                total == m.predicates.len(),
                n == m.failed,
                0 <= m.failed < m.predicates.len(),
                m == self@,
                many == (m.predicates.len() > 1),
                apply_ops(wh, chain_ops_from(m.predicates, m.failed, many, 0)) == apply_ops(
                    w@,
                    chain_ops_from(m.predicates, m.failed, many, i as int),
                ),
            decreases n + 1 - i,
        {
            let ghost wi = w@;
            proof {
                assert(m.predicates[i as int] == self.predicates@[i as int].deep_view());
            }
            if i > 0 {
                let glue = &self.predicates[i].0;
                w.write_styled(glue.as_str(), crate::styles::dimmed_style());
            }
            let ghost wg = w@;
            let pred = &self.predicates[i].1;
            pred.write(w, i == n, many);
            proof {
                let gops: Seq<WriterOp> = if i > 0 {
                    seq![
                        WriterOp::Write(
                            SnipModel {
                                text: m.predicates[i as int].0,
                                style: spec_dimmed_style(),
                                curl: None,
                            },
                        ),
                    ]
                } else {
                    Seq::<WriterOp>::empty()
                };
                let pops = predicate_ops(m.predicates[i as int].1, i as int == m.failed, many);
                if i > 0 {
                    lemma_apply_single(wi, gops[0]);
                    assert(gops =~= seq![gops[0]]);
                } else {
                    assert(gops =~= Seq::<WriterOp>::empty());
                    assert(apply_ops(wi, gops) == wi);
                }
                assert(wg == apply_ops(wi, gops));
                lemma_apply_ops_concat(wi, gops, pops);
                assert(w@ == apply_ops(wi, gops + pops));
                lemma_apply_ops_concat(wi, gops + pops, chain_ops_from(m.predicates, m.failed, many, i as int + 1));
                assert(chain_ops_from(m.predicates, m.failed, many, i as int) == gops + pops
                    + chain_ops_from(m.predicates, m.failed, many, i as int + 1));
            }
            i = i + 1;
        }
        proof {
            assert(chain_ops_from(m.predicates, m.failed, many, n as int + 1)
                =~= Seq::<WriterOp>::empty());
        }
        let ghost wc = w@;
        // Indicate short-circuited, unevaluated predicates.
        let more = self.failed + 1 < self.predicates.len();
        if more {
            let mut t: String = self.predicates[self.failed + 1].0.clone();
            t.append("...");
            w.write_styled(t.as_str(), crate::styles::dimmed_style());
            proof {
                assert(m.predicates[m.failed + 1] == self.predicates@[m.failed + 1].deep_view());
            }
        }
        let ghost eops: Seq<WriterOp> = if m.failed + 1 < m.predicates.len() {
            seq![
                WriterOp::Write(
                    SnipModel {
                        text: m.predicates[m.failed + 1].0 + "..."@,
                        style: spec_dimmed_style(),
                        curl: None,
                    },
                ),
            ]
        } else {
            Seq::<WriterOp>::empty()
        };
        proof {
            if m.failed + 1 < m.predicates.len() {
                lemma_apply_single(wc, eops[0]);
                assert(eops =~= seq![eops[0]]);
            } else {
                assert(apply_ops(wc, eops) == wc);
            }
        }
        let ghost we = w@;
        w.write_styled(" )", crate::styles::macro_style());
        w.flush_line();
        proof {
            let tail = seq![
                WriterOp::Write(SnipModel { text: " )"@, style: spec_macro_style(), curl: None }),
                WriterOp::Flush,
            ];
            lemma_apply_pair_ops(we, tail[0], tail[1]);
            assert(tail =~= seq![tail[0], tail[1]]);
            let chain = chain_ops_from(m.predicates, m.failed, many, 0);
            lemma_apply_ops_concat(w0, head, chain);
            lemma_apply_ops_concat(w0, head + chain, eops);
            lemma_apply_ops_concat(w0, head + chain + eops, tail);
            assert(assertion_ops(m) == head + chain + eops + tail) by {
                assert(head == assertion_ops(m).take(8));
                assert(assertion_ops(m) =~= head + chain + eops + tail);
            }
        }
    }

    /// Render the whole report: header, captured fragments, the expansion of
    /// the failed predicate, and the custom message, followed by a blank
    /// line.  The result is the exact report text for this width and option
    /// set.
    pub fn render(&self, width: usize, options: AssertOptions) -> (r: String)
        requires
            0 <= self@.failed < self@.predicates.len(),
        ensures
            r@ == rendered_report(self@, options, width as nat),
    {
        let ghost m = self@;
        let mut w = WrappingWriter::new(width, options.color);
        let ghost w0 = w@;
        self.print_assertion(&mut w);
        let ghost wa = w@;
        // Captured macro fragments.
        let ghost fblock = fragments_block_ops(m.fragments);
        if self.fragments.len() > 0 {
            w.write("with:\n");
            let ghost whd = w@;
            let ghost fhead = seq![
                WriterOp::Write(
                    SnipModel { text: "with:\n"@, style: spec_plain_style(), curl: None },
                ),
            ];
            proof {
                lemma_apply_single(wa, fhead[0]);
                assert(fhead =~= seq![fhead[0]]);
            }
            let nf = self.fragments.len();
            let mut i: usize = 0;
            while i < nf
                invariant
                    i <= nf,
                    nf == m.fragments.len(),
                    m == self@,
                    apply_ops(whd, fragments_ops_from(m.fragments, 0)) == apply_ops(
                        w@,
                        fragments_ops_from(m.fragments, i as int),
                    ),
                decreases nf - i,
            {
                let ghost wi = w@;
                proof {
                    assert(m.fragments[i as int] == self.fragments@[i as int].deep_view());
                }
                w.write("  ");
                let name = &self.fragments[i].0;
                w.write_styled(name.as_str(), crate::styles::macro_style());
                w.write(" ");
                w.write_styled("=", crate::styles::op_style());
                w.write(" ");
                let expansion_text = &self.fragments[i].1;
                w.write_styled(expansion_text.as_str(), crate::styles::macro_style());
                w.flush_line();
                proof {
                    let fo = fragment_ops(m.fragments[i as int]);
                    lemma_apply_seven(wi, fo[0], fo[1], fo[2], fo[3], fo[4], fo[5], fo[6]);
                    assert(fo =~= seq![fo[0], fo[1], fo[2], fo[3], fo[4], fo[5], fo[6]]);
                    assert(w@ == apply_ops(wi, fo));
                    lemma_apply_ops_concat(wi, fo, fragments_ops_from(m.fragments, i as int + 1));
                    assert(fragments_ops_from(m.fragments, i as int) == fo + fragments_ops_from(
                        m.fragments,
                        i as int + 1,
                    ));
                }
                i = i + 1;
            }
            proof {
                assert(fragments_ops_from(m.fragments, nf as int) =~= Seq::<WriterOp>::empty());
                lemma_apply_ops_concat(wa, fhead, fragments_ops_from(m.fragments, 0));
                assert(fblock == fhead + fragments_ops_from(m.fragments, 0));
            }
        } else {
            proof {
                assert(fblock =~= Seq::<WriterOp>::empty());
                assert(apply_ops(wa, fblock) == wa);
            }
        }
        let ghost wf = w@;
        // The expansion of the failed predicate.
        self.expansion.write(&mut w, options);
        w.flush_line();
        let ghost wx = w@;
        proof {
            let eops = expansion_ops(m.expansion, options);
            lemma_apply_ops_push(wf, eops, WriterOp::Flush);
            assert(eops.push(WriterOp::Flush) =~= eops + seq![WriterOp::Flush]);
            assert(wx == apply_ops(wf, eops + seq![WriterOp::Flush]));
        }
        // The custom message, if any.
        match &self.custom_msg {
            Some(msg) => {
                w.write("with message:\n  ");
                w.write_styled(msg.as_str(), crate::styles::note_style());
                w.flush_line();
                proof {
                    let mo = message_ops(m.custom_msg);
                    lemma_apply_triple_ops(wx, mo[0], mo[1], mo[2]);
                    assert(mo =~= seq![mo[0], mo[1], mo[2]]);
                    assert(w@ == apply_ops(wx, mo));
                }
            },
            None => {
                proof {
                    assert(message_ops(m.custom_msg) =~= Seq::<WriterOp>::empty());
                    assert(apply_ops(wx, message_ops(m.custom_msg)) == wx);
                }
            },
        }
        w.flush_line();
        proof {
            let a = assertion_ops(m);
            let b = fblock;
            let c = expansion_ops(m.expansion, options) + seq![WriterOp::Flush];
            let d = message_ops(m.custom_msg);
            let e = seq![WriterOp::Flush];
            lemma_apply_single(apply_ops(w0, a + b + c + d), e[0]);
            assert(e =~= seq![e[0]]);
            lemma_apply_ops_concat(w0, a, b);
            lemma_apply_ops_concat(w0, a + b, c);
            lemma_apply_ops_concat(w0, a + b + c, d);
            lemma_apply_ops_concat(w0, a + b + c + d, e);
            assert(report_ops(m, options) =~= a + b + c + d + e);
            assert(w@ == apply_ops(w0, report_ops(m, options)));
        }
        w.finish()
    }
}

/// Applying seven operations equals applying their seven-element list.
pub proof fn lemma_apply_seven(
    m: crate::writer::WriterModel,
    op1: WriterOp,
    op2: WriterOp,
    op3: WriterOp,
    op4: WriterOp,
    op5: WriterOp,
    op6: WriterOp,
    op7: WriterOp,
)
    ensures
        apply_ops(m, seq![op1, op2, op3, op4, op5, op6, op7]) == apply_op(
            apply_op(
                apply_op(apply_op(apply_op(apply_op(apply_op(m, op1), op2), op3), op4), op5),
                op6,
            ),
            op7,
        ),
{
    assert(seq![op1, op2, op3, op4, op5, op6, op7].drop_first() =~= seq![
        op2,
        op3,
        op4,
        op5,
        op6,
        op7,
    ]);
    lemma_apply_six(apply_op(m, op1), op2, op3, op4, op5, op6, op7);
}

/// Applying six operations equals applying their six-element list.
pub proof fn lemma_apply_six(
    m: crate::writer::WriterModel,
    op1: WriterOp,
    op2: WriterOp,
    op3: WriterOp,
    op4: WriterOp,
    op5: WriterOp,
    op6: WriterOp,
)
    ensures
        apply_ops(m, seq![op1, op2, op3, op4, op5, op6]) == apply_op(
            apply_op(apply_op(apply_op(apply_op(apply_op(m, op1), op2), op3), op4), op5),
            op6,
        ),
{
    assert(seq![op1, op2, op3, op4, op5, op6].drop_first() =~= seq![op2, op3, op4, op5, op6]);
    lemma_apply_five(apply_op(m, op1), op2, op3, op4, op5, op6);
}

/// Applying eight operations equals applying their eight-element list.
pub proof fn lemma_apply_eight(
    m: crate::writer::WriterModel,
    op1: WriterOp,
    op2: WriterOp,
    op3: WriterOp,
    op4: WriterOp,
    op5: WriterOp,
    op6: WriterOp,
    op7: WriterOp,
    op8: WriterOp,
)
    ensures
        apply_ops(m, seq![op1, op2, op3, op4, op5, op6, op7, op8]) == apply_op(
            apply_op(
                apply_op(
                    apply_op(apply_op(apply_op(apply_op(apply_op(m, op1), op2), op3), op4), op5),
                    op6,
                ),
                op7,
            ),
            op8,
        ),
{
    assert(seq![op1, op2, op3, op4, op5, op6, op7, op8].drop_first() =~= seq![
        op2,
        op3,
        op4,
        op5,
        op6,
        op7,
        op8,
    ]);
    lemma_apply_seven(apply_op(m, op1), op2, op3, op4, op5, op6, op7, op8);
}

/// The plain-text rendering interface of the older report format: an
/// expression writes its source form and its evaluated form into a string
/// buffer, without styling or wrapping.
pub trait CheckExpression {
    /// The source form this expression appends.
    spec fn expression_view(&self) -> Seq<char>;

    /// The evaluated form this expression appends.
    spec fn expansion_view(&self) -> Seq<char>;

    /// Append the source form of the expression.
    fn write_expression(&self, buffer: &mut String)
        ensures
            final(buffer)@ == old(buffer)@ + self.expression_view(),
    ;

    /// Append the evaluated form of the expression.
    fn write_expansion(&self, buffer: &mut String)
        ensures
            final(buffer)@ == old(buffer)@ + self.expansion_view(),
    ;
}

/// A failed comparison in the plain-text interface, with both operands
/// already debug-formatted.
pub struct BinaryOp {
    pub left: String,
    pub right: String,
    pub operator: String,
    pub left_expr: String,
    pub right_expr: String,
}

/// A failed boolean expression in the plain-text interface.
pub struct BooleanExpr {
    pub expression: String,
}

/// A failed pattern match in the plain-text interface, with the value
/// already debug-formatted.
pub struct MatchExpr {
    pub print_let: bool,
    pub value: String,
    pub pattern: String,
    pub expression: String,
}

impl CheckExpression for BinaryOp {
    open spec fn expression_view(&self) -> Seq<char> {
        self.left_expr@ + " "@ + self.operator@ + " "@ + self.right_expr@
    }

    open spec fn expansion_view(&self) -> Seq<char> {
        self.left@ + " "@ + self.operator@ + " "@ + self.right@
    }

    fn write_expression(&self, buffer: &mut String) {
        buffer.append(self.left_expr.as_str());
        buffer.append(" ");
        buffer.append(self.operator.as_str());
        buffer.append(" ");
        buffer.append(self.right_expr.as_str());
    }

    fn write_expansion(&self, buffer: &mut String) {
        buffer.append(self.left.as_str());
        buffer.append(" ");
        buffer.append(self.operator.as_str());
        buffer.append(" ");
        buffer.append(self.right.as_str());
    }
}

impl CheckExpression for BooleanExpr {
    open spec fn expression_view(&self) -> Seq<char> {
        self.expression@
    }

    open spec fn expansion_view(&self) -> Seq<char> {
        "false"@
    }

    fn write_expression(&self, buffer: &mut String) {
        buffer.append(self.expression.as_str());
    }

    fn write_expansion(&self, buffer: &mut String) {
        buffer.append("false");
    }
}

impl CheckExpression for MatchExpr {
    open spec fn expression_view(&self) -> Seq<char> {
        (if self.print_let {
            "let "@
        } else {
            Seq::<char>::empty()
        }) + self.pattern@ + " = "@ + self.expression@
    }

    open spec fn expansion_view(&self) -> Seq<char> {
        self.value@
    }

    fn write_expression(&self, buffer: &mut String) {
        if self.print_let {
            buffer.append("let ");
        }
        buffer.append(self.pattern.as_str());
        buffer.append(" = ");
        buffer.append(self.expression.as_str());
    }

    fn write_expansion(&self, buffer: &mut String) {
        buffer.append(self.value.as_str());
    }
}

} // verus!
