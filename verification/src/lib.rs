//! Rich, terminal-width-aware failure reports for test assertions.
//!
//! Given a structured description of a failed check (the textual predicates,
//! the debug-formatted operands and the source location), this library renders
//! a human-readable report that highlights exactly what differs between the
//! two sides of a comparison.  It contains:
//!
//! * a line/word diff engine with highlight-selection heuristics,
//! * a width-aware styled-text writer that wraps output and aligns `^` marker
//!   rows under the spans it was asked to emphasise,
//! * the renderers that drive both from a [`report::FailedCheck`] value, and
//! * the option parsing for the `ASSERT2` style environment configuration.
//!
//! Reading the process environment, querying the terminal and writing to the
//! diagnostic stream are left to the embedding binary; everything in this
//! crate is pure computation on plain values.

use vstd::prelude::*;

pub mod charinfo;
pub mod check_scope;
pub mod diffing;
pub mod highlight;
pub mod info;
pub mod maybe_debug;
pub mod options;
pub mod report;
pub mod seqtools;
pub mod styles;
pub mod textnum;
pub mod words;
pub mod writer;

verus! {

} // verus!
