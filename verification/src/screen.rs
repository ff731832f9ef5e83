//! What the screen decides without drawing: which widget a click lands
//! on, where the search field and the caret sit, and the words the frame
//! shows around the panes.

use crate::event::{FilesMode, MouseHit, Strip};
use crate::model::error_rows;
use crate::session::write_error_rows;
use crate::text::{push_char, push_str};
use vstd::prelude::*;

verus! {

/// A rectangle of terminal cells.
#[derive(Clone, Copy, Debug, PartialEq, Eq, Structural)]
pub struct Area {
    pub x: u16,
    pub y: u16,
    pub width: u16,
    pub height: u16,
}

/// The first column right of the area; it stops at the last column.
pub open spec fn right(a: Area) -> int {
    if a.x + a.width <= u16::MAX {
        a.x + a.width
    } else {
        u16::MAX as int
    }
}

/// The first row below the area; it stops at the last row.
pub open spec fn bottom(a: Area) -> int {
    if a.y + a.height <= u16::MAX {
        a.y + a.height
    } else {
        u16::MAX as int
    }
}

pub open spec fn inside(a: Area, col: u16, row: u16) -> bool {
    a.x <= col < right(a) && a.y <= row < bottom(a)
}

impl Area {
    pub fn contains(&self, col: u16, row: u16) -> (b: bool)
        ensures
            b == inside(*self, col, row),
    {
        col >= self.x && col < self.x.saturating_add(self.width) && row >= self.y && row
            < self.y.saturating_add(self.height)
    }
}

/// Where the last frame drew the widgets a click can land on.
#[derive(Clone, Copy, Debug, PartialEq, Eq, Structural)]
pub struct Hits {
    pub files_inner: Option<Area>,
    pub search: Option<Area>,
    pub summary: Option<Area>,
    pub description: Option<Area>,
}

impl Hits {
    pub fn empty() -> (h: Hits)
        ensures
            h.files_inner is None && h.search is None && h.summary is None
                && h.description is None,
    {
        Hits { files_inner: None, search: None, summary: None, description: None }
    }
}

pub open spec fn hit_in(a: Option<Area>, col: u16, row: u16) -> bool {
    a is Some && inside(a.unwrap(), col, row)
}

/// The widget under a left click: the commit summary, then the
/// description, then the search field, then a row of the files panel that
/// holds a file; anywhere else is no hit.
pub open spec fn click_spec(h: Hits, col: u16, row: u16, rows: nat) -> Option<MouseHit> {
    if hit_in(h.summary, col, row) {
        Some(MouseHit::Summary { col: (col - h.summary.unwrap().x) as u16 })
    } else if hit_in(h.description, col, row) {
        let a = h.description.unwrap();
        Some(MouseHit::Description { col: (col - a.x) as u16, row: (row - a.y) as u16 })
    } else if hit_in(h.search, col, row) {
        Some(MouseHit::Search { col: (col - h.search.unwrap().x) as u16 })
    } else if hit_in(h.files_inner, col, row) && row - h.files_inner.unwrap().y < rows {
        Some(MouseHit::Files { index: (row - h.files_inner.unwrap().y) as usize })
    } else {
        None
    }
}

/// Resolves a left click at a cell, with `rows` rows in the files panel.
pub fn map_click(hits: &Hits, col: u16, row: u16, rows: usize) -> (r: Option<MouseHit>)
    ensures
        r == click_spec(*hits, col, row, rows as nat),
{
    if let Some(a) = hits.summary {
        if a.contains(col, row) {
            return Some(MouseHit::Summary { col: col - a.x });
        }
    }
    if let Some(a) = hits.description {
        if a.contains(col, row) {
            return Some(MouseHit::Description { col: col - a.x, row: row - a.y });
        }
    }
    if let Some(a) = hits.search {
        if a.contains(col, row) {
            return Some(MouseHit::Search { col: col - a.x });
        }
    }
    if let Some(a) = hits.files_inner {
        if a.contains(col, row) {
            let index = (row - a.y) as usize;
            if index < rows {
                return Some(MouseHit::Files { index });
            }
        }
    }
    None
}

/// Columns the footer search field reserves for its ` /` prefix.
pub const SEARCH_PREFIX: u16 = 2;

/// The query's cells in the footer: right of the prefix.
pub open spec fn search_field_spec(footer: Area) -> Area {
    Area {
        x: if footer.x + SEARCH_PREFIX <= u16::MAX {
            (footer.x + SEARCH_PREFIX) as u16
        } else {
            u16::MAX
        },
        y: footer.y,
        width: if footer.width >= SEARCH_PREFIX {
            (footer.width - SEARCH_PREFIX) as u16
        } else {
            0
        },
        height: footer.height,
    }
}

pub fn search_field(footer: Area) -> (a: Area)
    ensures
        a == search_field_spec(footer),
{
    Area {
        x: footer.x.saturating_add(SEARCH_PREFIX),
        y: footer.y,
        width: footer.width.saturating_sub(SEARCH_PREFIX),
        height: footer.height,
    }
}

/// The column the terminal cursor takes for a caret in a one-row field:
/// the caret's column, kept inside the field.
pub open spec fn cursor_col_spec(field: Area, caret: usize) -> int {
    let c = caret as u16;
    let last: u16 = if field.width >= 1 {
        (field.width - 1) as u16
    } else {
        0
    };
    field.x + if c <= last {
        c
    } else {
        last
    }
}

pub fn cursor_col(field: Area, caret: usize) -> (x: u16)
    requires
        field.x + field.width <= u16::MAX,
    ensures
        x == cursor_col_spec(field, caret),
{
    let c = caret as u16;
    let last = field.width.saturating_sub(1);
    field.x + if c <= last {
        c
    } else {
        last
    }
}

/// The title of the files panel, by its mode.
pub fn mode_title(mode: FilesMode) -> (t: &'static str)
    ensures
        t@ == match mode {
            FilesMode::ChangedFlat => " changed "@,
            FilesMode::ChangedTree => " changed · tree "@,
            FilesMode::AllTree => " all files "@,
        },
{
    match mode {
        FilesMode::ChangedFlat => " changed ",
        FilesMode::ChangedTree => " changed · tree ",
        FilesMode::AllTree => " all files ",
    }
}

/// The frames of the loading spinner, one every 80 ms.
pub open spec fn spinner_frames() -> Seq<char> {
    seq!['⠋', '⠙', '⠹', '⠸', '⠼', '⠴', '⠦', '⠧', '⠇', '⠏']
}

pub fn spinner_char(ticks: usize) -> (c: char)
    ensures
        c == spinner_frames()[(ticks % 10) as int],
{
    let frames: [char; 10] = ['⠋', '⠙', '⠹', '⠸', '⠼', '⠴', '⠦', '⠧', '⠇', '⠏'];
    let c = frames[ticks % 10];
    assert(frames@ =~= spinner_frames());
    c
}

/// What the diff pane shows while dumps are on their way.
pub open spec fn loading_spec(spinner: char, hint: Seq<char>) -> Seq<char> {
    seq![' ', spinner, ' ', ' '] + "loading "@ + hint + "…\n  difft is working"@
}

pub fn loading_text(spinner: char, hint: &str) -> (s: String)
    ensures
        s@ == loading_spec(spinner, hint@),
{
    let mut s = String::new();
    push_char(&mut s, ' ');
    push_char(&mut s, spinner);
    push_char(&mut s, ' ');
    push_char(&mut s, ' ');
    push_str(&mut s, "loading ");
    push_str(&mut s, hint);
    push_str(&mut s, "…\n  difft is working");
    assert(s@ =~= loading_spec(spinner, hint@));
    s
}

/// Rows of the commit form's error line: a write error's lines, one row
/// for the empty-summary refusal, none otherwise.
pub open spec fn form_error_rows_spec(strip: Option<Strip>) -> u16 {
    match strip {
        Some(Strip::GitWriteError { text }) => error_rows(text@),
        Some(Strip::EmptySummaryRefusal) => 1,
        _ => 0,
    }
}

pub fn form_error_rows(strip: Option<&Strip>) -> (h: u16)
    ensures
        h == form_error_rows_spec(match strip {
            Some(s) => Some(*s),
            None => None,
        }),
{
    match strip {
        Some(Strip::GitWriteError { text }) => write_error_rows(text.as_str()),
        Some(Strip::EmptySummaryRefusal) => 1,
        _ => 0,
    }
}

/// A commit field's text, or its name while it is empty.
pub fn field_or_name(text: &str, name: &str) -> (s: String)
    ensures
        s@ == if text@.len() == 0 {
            name@
        } else {
            text@
        },
{
    let mut s = String::new();
    if text.unicode_len() == 0 {
        push_str(&mut s, name);
    } else {
        push_str(&mut s, text);
    }
    assert(s@ =~= if text@.len() == 0 {
        name@
    } else {
        text@
    });
    s
}

} // verus!
