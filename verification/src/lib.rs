//! DiffForge session: keys, mouse, ticks and child results in; git and
//! `difft` effects out.

pub mod caret;
pub mod dump;
pub mod event;
pub mod files;
pub mod jobs;
pub mod laws;
pub mod model;
pub mod screen;
pub mod session;
pub mod startup;
pub mod text;

pub use event::{
    ChildResult, CommitDraft, CommitField, Effect, EffectKind, Event, FilesMode, FilesRow, Focus,
    Key, MouseHit, RowColor, RowKind, StartupError, Strip,
};
pub use session::{apply, Session};
pub use startup::startup_message;
