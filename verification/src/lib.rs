//! Rewrites rustc-style test sources, whose `//~` comments describe expected
//! compiler diagnostics, into the DejaGnu directive syntax: each annotation is
//! resolved to the source line it talks about, optionally enriched with an
//! error code recovered from a compiler transcript, and re-emitted as a
//! `// { dg-... }` directive, one output line per input line.

use vstd::prelude::*;

pub mod errors;
pub mod header;
pub mod text;
pub mod transform;

verus! {

/// A condition that makes a whole conversion impossible: once one of these is
/// hit, no output is produced for the file, since the meaning of every later
/// line would be in doubt.  Each variant carries the 1-based number of the
/// offending source line.
#[derive(Clone, Copy, Debug, PartialEq, Eq, Structural)]
pub enum ConvertError {
    /// A `//~|` annotation appeared before any non-chained annotation, so
    /// there is no line for it to inherit.
    ChainWithoutAnchor { line: usize },
    /// A `//@[` revision prefix on a header line has no closing `]`.
    UnclosedRevisionBracket { line: usize },
    /// An annotation sigil with nothing after it: an annotation must carry at
    /// least one token of keyword or message.
    EmptyAnnotation { line: usize },
    /// A `//~^...` annotation with more carets than its own 1-based line
    /// number, so no line can stand for the target.  A caret count equal to
    /// the line number is still allowed: it resolves to line 0.
    CaretsPastFileStart { line: usize },
}

} // verus!
