//! Events into the session and the effects it asks for.

use vstd::prelude::*;

verus! {

/// A key press, already decoded from the terminal.
#[derive(Clone, Copy, Debug, PartialEq, Eq, Structural)]
pub enum Key {
    Char { c: char, ctrl: bool },
    Enter { ctrl: bool },
    Esc,
    Tab,
    Backspace,
    Delete,
    Up,
    Down,
    Left,
    Right,
    PageUp,
    PageDown,
}

/// A left click, already resolved to the widget under the pointer.
#[derive(Clone, Copy, Debug, PartialEq, Eq, Structural)]
pub enum MouseHit {
    Files { index: usize },
    Search { col: u16 },
    Summary { col: u16 },
    Description { col: u16, row: u16 },
}

/// What a child process (or a cache hit standing in for one) reported.
#[derive(Clone, Debug, PartialEq, Eq)]
pub struct ChildResult {
    pub id: u64,
    pub exit: i32,
    pub stdout: Vec<u8>,
    pub stderr: Vec<u8>,
}

#[derive(Clone, Debug, PartialEq, Eq)]
pub enum Event {
    Key(Key),
    Mouse(MouseHit),
    Tick,
    Resize { cols: u16, rows: u16 },
    Child(ChildResult),
}

/// Work the session asks its host to do.
#[derive(Clone, Debug, PartialEq, Eq)]
pub enum EffectKind {
    Quit,
    GitPorcelain,
    GitLsFiles,
    GitDiff { path: String, cached: bool, width: u16 },
    Difft { path: String, width: u16 },
    GitAdd { path: String },
    GitReset { path: String },
    GitRmCached { path: String },
    GitAddAll,
    GitCommit { summary: String, description: String },
}

#[derive(Clone, Debug, PartialEq, Eq)]
pub struct Effect {
    pub id: u64,
    pub kind: EffectKind,
}

#[derive(Clone, Copy, Debug, PartialEq, Eq, Structural)]
pub enum Focus {
    Files,
    Diff,
}

#[derive(Clone, Copy, Debug, PartialEq, Eq, Structural)]
pub enum FilesMode {
    ChangedFlat,
    ChangedTree,
    AllTree,
}

#[derive(Clone, Copy, Debug, PartialEq, Eq, Structural)]
pub enum RowKind {
    File,
    Directory,
}

#[derive(Clone, Copy, Debug, PartialEq, Eq, Structural)]
pub enum RowColor {
    Default,
    Staged,
    Both,
}

/// One row of the files panel.
#[derive(Clone, Debug, PartialEq, Eq)]
pub struct FilesRow {
    pub path: String,
    pub display: String,
    pub xy: String,
    pub kind: RowKind,
    pub color: RowColor,
    pub depth: usize,
    pub expanded: Option<bool>,
}

#[derive(Clone, Copy, Debug, PartialEq, Eq, Structural)]
pub enum CommitField {
    Summary,
    Description,
}

#[derive(Clone, Debug, PartialEq, Eq)]
pub struct CommitDraft {
    pub summary: String,
    pub description: String,
}

impl CommitDraft {
    pub fn empty() -> (d: CommitDraft)
        ensures
            d.summary@.len() == 0,
            d.description@.len() == 0,
    {
        CommitDraft { summary: String::new(), description: String::new() }
    }
}

impl Default for CommitDraft {
    fn default() -> (d: CommitDraft)
        ensures
            d.summary@.len() == 0,
            d.description@.len() == 0,
    {
        CommitDraft::empty()
    }
}

/// The one-row strips that sit under the panes.
#[derive(Clone, Debug, PartialEq, Eq)]
pub enum Strip {
    NothingStagedConfirm,
    NoFilesCommitError,
    EmptySummaryRefusal,
    GitWriteError { text: String },
}

#[derive(Clone, Copy, Debug, PartialEq, Eq, Structural)]
pub enum StartupError {
    GitMissing,
    DifftMissing,
    NotAWorkTree,
}

} // verus!
