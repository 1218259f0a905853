//! Plain values exchanged between the library and the adapters that perform
//! the outside work (file system, network, git, terminal).
use vstd::prelude::*;

verus! {

/// A transaction file read from a store: its path and raw contents.
///
/// Stores deliberately return raw text — all parsing/projection stays in the
/// library so it can be verified.
#[derive(Debug)]
pub struct StoredDoc {
    pub path: String,
    pub content: String,
}

/// Semantic styles for interactive terminal output.
#[derive(Clone, Copy, Debug, PartialEq, Eq, Structural)]
pub enum Style {
    /// Section header / banner.
    Header,
    /// A field name.
    Field,
    /// Secondary / hint text.
    Hint,
    /// The input caret.
    Prompt,
    /// Confirmation of accepted input.
    Success,
    /// A validation error.
    Error,
}

/// The resolved state of a row in the live progress list and the report.
#[derive(Clone, Copy, Debug, PartialEq, Eq, Structural)]
pub enum RowState {
    Pass,
    Warn,
    Fail,
    Skip,
}

/// One line of user-facing output: `Out` is the primary output (stdout),
/// `Status` is progress and warnings (stderr).
#[derive(Debug)]
pub enum Line {
    Out(String),
    Status(String),
}

impl Line {
    pub open spec fn text(self) -> Seq<char> {
        match self {
            Line::Out(s) => s@,
            Line::Status(s) => s@,
        }
    }

    pub open spec fn is_out(self) -> bool {
        self is Out
    }
}

/// Each line as (is it primary output, its text).
pub open spec fn line_views(say: Seq<Line>) -> Seq<(bool, Seq<char>)> {
    say.map_values(|l: Line| (l.is_out(), l.text()))
}

} // verus!
