//! The parts of a parsed unified diff that patching reads.

use vstd::prelude::*;

verus! {

/// One line of a hunk, with its text.
#[derive(Clone, Debug, PartialEq, Eq)]
pub enum Line {
    /// A line that both files hold.
    Context(String),
    /// A line that only the new file holds.
    Add(String),
    /// A line that only the old file holds.
    Remove(String),
}

/// A line of a hunk, as a sequence of characters.
pub enum LineView {
    Context(Seq<char>),
    Add(Seq<char>),
    Remove(Seq<char>),
}

impl View for Line {
    type V = LineView;

    open spec fn view(&self) -> LineView {
        match self {
            Line::Context(text) => LineView::Context(text@),
            Line::Add(text) => LineView::Add(text@),
            Line::Remove(text) => LineView::Remove(text@),
        }
    }
}

/// The lines as sequences of characters.
pub open spec fn line_views(lines: Seq<Line>) -> Seq<LineView> {
    lines.map_values(|line: Line| line@)
}

/// One block of changes: the line of the old file at which it starts,
/// counted from one, and its lines in order.
#[derive(Clone, Debug, PartialEq, Eq)]
pub struct Hunk {
    pub old_start: u64,
    pub lines: Vec<Line>,
}

/// A hunk over sequences of characters.
pub struct HunkView {
    pub old_start: int,
    pub lines: Seq<LineView>,
}

impl View for Hunk {
    type V = HunkView;

    open spec fn view(&self) -> HunkView {
        HunkView { old_start: self.old_start as int, lines: line_views(self.lines@) }
    }
}

/// The hunks over sequences of characters.
pub open spec fn hunk_views(hunks: Seq<Hunk>) -> Seq<HunkView> {
    hunks.map_values(|hunk: Hunk| hunk@)
}

/// The changes to one file: the path of the old file as the diff gives it,
/// and the hunks in order.
#[derive(Clone, Debug, PartialEq, Eq)]
pub struct FileDiff {
    pub path: String,
    pub hunks: Vec<Hunk>,
}

/// The changes to one file over sequences of characters.
pub struct FileDiffView {
    pub path: Seq<char>,
    pub hunks: Seq<HunkView>,
}

impl View for FileDiff {
    type V = FileDiffView;

    open spec fn view(&self) -> FileDiffView {
        FileDiffView { path: self.path@, hunks: hunk_views(self.hunks@) }
    }
}

/// The diffs over sequences of characters.
pub open spec fn diff_views(diffs: Seq<FileDiff>) -> Seq<FileDiffView> {
    diffs.map_values(|diff: FileDiff| diff@)
}

} // verus!
