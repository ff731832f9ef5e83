//! The session as a mathematical value, and the views of the values that
//! flow in and out of it.

use crate::caret::{
    caret_after_vertical, clamp, click_scan, count_char, field_cols, insert_at, min_int, remove_at,
    strip_height_spec,
};
use crate::dump::FailKind;
use crate::event::{
    ChildResult, CommitField, Effect, EffectKind, Event, FilesMode, Focus, Key, MouseHit, RowKind,
    Strip,
};
use crate::text::decimal;
use crate::dump::{
    body_string, dump_lines, dump_styles, failure_spec, raw_lines, raw_styles, stacked, PaneStyle,
};
use crate::files::{
    folder_stack_spec, ls_paths, panel_rows, porcelain_entries, staged_spec, unstaged_spec,
    untracked_spec, in_head_spec, whitespace, xy_in, EntryView, RowView,
};
use vstd::prelude::*;

verus! {

pub enum KindView {
    Quit,
    GitPorcelain,
    GitLsFiles,
    GitDiff { path: Seq<char>, cached: bool, width: u16 },
    Difft { path: Seq<char>, width: u16 },
    GitAdd { path: Seq<char> },
    GitReset { path: Seq<char> },
    GitRmCached { path: Seq<char> },
    GitAddAll,
    GitCommit { summary: Seq<char>, description: Seq<char> },
}

impl View for EffectKind {
    type V = KindView;

    open spec fn view(&self) -> KindView {
        match self {
            EffectKind::Quit => KindView::Quit,
            EffectKind::GitPorcelain => KindView::GitPorcelain,
            EffectKind::GitLsFiles => KindView::GitLsFiles,
            EffectKind::GitDiff { path, cached, width } => KindView::GitDiff {
                path: path@,
                cached: *cached,
                width: *width,
            },
            EffectKind::Difft { path, width } => KindView::Difft { path: path@, width: *width },
            EffectKind::GitAdd { path } => KindView::GitAdd { path: path@ },
            EffectKind::GitReset { path } => KindView::GitReset { path: path@ },
            EffectKind::GitRmCached { path } => KindView::GitRmCached { path: path@ },
            EffectKind::GitAddAll => KindView::GitAddAll,
            EffectKind::GitCommit { summary, description } => KindView::GitCommit {
                summary: summary@,
                description: description@,
            },
        }
    }
}

pub struct EffectView {
    pub id: u64,
    pub kind: KindView,
}

impl View for Effect {
    type V = EffectView;

    open spec fn view(&self) -> EffectView {
        EffectView { id: self.id, kind: self.kind@ }
    }
}

pub open spec fn effects_view(v: Seq<Effect>) -> Seq<EffectView> {
    v.map_values(|e: Effect| e@)
}

pub enum StripView {
    NothingStagedConfirm,
    NoFilesCommitError,
    EmptySummaryRefusal,
    GitWriteError { text: Seq<char> },
}

impl View for Strip {
    type V = StripView;

    open spec fn view(&self) -> StripView {
        match self {
            Strip::NothingStagedConfirm => StripView::NothingStagedConfirm,
            Strip::NoFilesCommitError => StripView::NoFilesCommitError,
            Strip::EmptySummaryRefusal => StripView::EmptySummaryRefusal,
            Strip::GitWriteError { text } => StripView::GitWriteError { text: text@ },
        }
    }
}

pub open spec fn strip_opt_view(s: Option<Strip>) -> Option<StripView> {
    match s {
        Some(s) => Some(s@),
        None => None,
    }
}

/// The write the session waits on.
#[derive(Clone, Copy, PartialEq, Eq, Structural)]
pub enum WriteKind {
    Space,
    AddAll,
    Commit,
}

/// A slot of the dump stack: waiting on a child, or its lines.
pub enum PartView {
    Waiting { id: u64, fail: FailKind },
    Ready { lines: Seq<Seq<Seq<char>>>, styles: Seq<Seq<PaneStyle>> },
}

/// What the session is, as values.
#[verifier::ext_equal]
pub struct SessionModel {
    pub cols: u16,
    pub term_rows: u16,
    pub focus: Focus,
    pub all_files: bool,
    pub tree: bool,
    pub porcelain: Seq<EntryView>,
    pub ls_files: Seq<Seq<char>>,
    pub collapsed: Seq<Seq<char>>,
    pub rows: Seq<RowView>,
    pub selected: Option<int>,
    pub scroll: u16,
    pub dump_scroll_path: Option<Seq<char>>,
    pub pane: Seq<Seq<Seq<char>>>,
    /// The looks of the pane's runs, line by line.
    pub pane_styles: Seq<Seq<PaneStyle>>,
    pub pane_body: Seq<char>,
    pub pane_lines: u16,
    pub next_id: u64,
    /// The refresh in flight: the two ids and what has come back.
    pub list: Option<(u64, u64, Option<Seq<u8>>, Option<Seq<u8>>)>,
    pub dumps: Option<Seq<PartView>>,
    pub strip: Option<StripView>,
    pub overlay: bool,
    pub search_open: bool,
    pub query: Seq<char>,
    pub query_caret: int,
    pub summary: Seq<char>,
    pub description: Seq<char>,
    pub field: CommitField,
    pub summary_caret: int,
    pub description_caret: int,
    pub writing: Option<WriteKind>,
    pub write_id: Option<u64>,
    pub overlay_after_refresh: bool,
}

/// Columns of the files panel.
pub const FILES_PANEL_COLS: u16 = 28;

/// Fields stay below this many characters, so a caret can always move past
/// a newly typed one.
pub open spec fn field_bound() -> int {
    usize::MAX - 2
}

pub open spec fn mode_of(m: SessionModel) -> FilesMode {
    if m.all_files {
        FilesMode::AllTree
    } else if m.tree {
        FilesMode::ChangedTree
    } else {
        FilesMode::ChangedFlat
    }
}

/// The rows the panel shows for the model's listing, mode, folds and query.
pub open spec fn rows_for(m: SessionModel) -> Seq<RowView> {
    panel_rows(m.porcelain, m.ls_files, mode_of(m), m.collapsed, m.query, FILES_PANEL_COLS as int)
}

/// What every session keeps true.
pub open spec fn model_wf(m: SessionModel) -> bool {
    &&& m.rows == rows_for(m)
    &&& (m.selected matches Some(i) ==> 0 <= i < m.rows.len())
    &&& (m.rows.len() == 0 <==> m.selected is None)
    &&& fields_ok(m)
}

/// Carets within their fields, and fields within bounds.
pub open spec fn fields_ok(m: SessionModel) -> bool {
    &&& 0 <= m.query_caret <= m.query.len()
    &&& 0 <= m.summary_caret <= m.summary.len()
    &&& 0 <= m.description_caret <= m.description.len()
    &&& m.query.len() < field_bound()
    &&& m.summary.len() < field_bound()
    &&& m.description.len() < field_bound()
}

pub open spec fn bump(id: u64) -> u64 {
    if id < u64::MAX {
        (id + 1) as u64
    } else {
        0
    }
}

pub open spec fn pane_width_spec(cols: u16) -> u16 {
    if cols > FILES_PANEL_COLS + 1 {
        (cols - FILES_PANEL_COLS) as u16
    } else {
        1
    }
}

pub open spec fn sat_sub(a: u16, b: u16) -> u16 {
    if a >= b {
        (a - b) as u16
    } else {
        0
    }
}

pub open spec fn max1(a: u16) -> u16 {
    if a >= 1 {
        a
    } else {
        1
    }
}

/// Rows a write error strip takes: its lines, one to eight.
pub open spec fn error_rows(text: Seq<char>) -> u16 {
    let lines = count_char(text, '\n') + 1;
    let wrapped: usize = if lines <= usize::MAX {
        lines as usize
    } else {
        0
    };
    let n = wrapped as u16;
    let m = if n <= 8 {
        n
    } else {
        8
    };
    max1(m)
}

/// Rows under the panes: the commit form (when open) and its strip.
pub open spec fn overlay_height_spec(m: SessionModel) -> u16 {
    let form = if m.overlay {
        strip_height_spec((count_char(m.description, '\n') + 1) as usize)
    } else {
        0
    };
    let extra: u16 = match m.strip {
        Some(StripView::GitWriteError { text }) => error_rows(text),
        Some(StripView::EmptySummaryRefusal) => if m.overlay {
            1
        } else {
            3
        },
        Some(_) => if !m.overlay {
            3
        } else {
            0
        },
        None => 0,
    };
    if m.overlay {
        if form as int + extra as int <= u16::MAX {
            (form + extra) as u16
        } else {
            u16::MAX
        }
    } else {
        extra
    }
}

/// The refresh is paused while anything is open or in flight.
pub open spec fn paused(m: SessionModel) -> bool {
    m.writing is Some || m.list is Some || m.dumps is Some || m.overlay || m.search_open
        || m.strip is Some
}


// ------------------------------------------------------------ transitions

pub open spec fn clamp_scroll(m: SessionModel) -> SessionModel {
    let visible = max1(sat_sub(sat_sub(m.term_rows, 1), overlay_height_spec(m)));
    let max = sat_sub(m.pane_lines, visible);
    SessionModel {
        scroll: if m.scroll > max {
            max
        } else {
            m.scroll
        },
        ..m
    }
}

/// The pane shows `t`; the scroll is kept within it.
pub open spec fn set_pane(m: SessionModel, t: Seq<Seq<Seq<char>>>, st: Seq<Seq<PaneStyle>>) -> SessionModel {
    clamp_scroll(
        SessionModel {
            pane: t,
            pane_styles: st,
            pane_body: body_string(t),
            pane_lines: t.len() as u16,
            ..m
        },
    )
}

/// A refresh: porcelain and ls-files are asked for, with two fresh ids.
pub open spec fn refresh(m: SessionModel) -> (SessionModel, Seq<EffectView>) {
    let a = m.next_id;
    let b = bump(a);
    (
        SessionModel { next_id: bump(b), list: Some((a, b, None, None)), ..m },
        seq![
            EffectView { id: a, kind: KindView::GitPorcelain },
            EffectView { id: b, kind: KindView::GitLsFiles },
        ],
    )
}

/// First index of `rows[k..]` whose path is `path`, or -1.
pub open spec fn path_index(rows: Seq<RowView>, path: Seq<char>, k: int) -> int
    decreases rows.len() - k,
{
    if k < 0 || k >= rows.len() {
        -1
    } else if rows[k].path == path {
        k
    } else {
        path_index(rows, path, k + 1)
    }
}

/// The first of `old[j..]` still present in `new`, as its index in `new`.
pub open spec fn forward_match(old: Seq<RowView>, new: Seq<RowView>, j: int) -> Option<int>
    decreases old.len() - j,
{
    if j < 0 || j >= old.len() {
        None
    } else if path_index(new, old[j].path, 0) >= 0 {
        Some(path_index(new, old[j].path, 0))
    } else {
        forward_match(old, new, j + 1)
    }
}

/// The last of `old[..j]` still present in `new`, as its index in `new`.
pub open spec fn backward_match(old: Seq<RowView>, new: Seq<RowView>, j: int) -> Option<int>
    decreases j,
{
    if j <= 0 || j > old.len() {
        None
    } else if path_index(new, old[j - 1].path, 0) >= 0 {
        Some(path_index(new, old[j - 1].path, 0))
    } else {
        backward_match(old, new, j - 1)
    }
}

/// The selection after the rows change: the same path if it is still
/// there, else the next old row that is, else the previous one, else the
/// top; nothing when there are no rows.
pub open spec fn walk_sel(old: Seq<RowView>, sel: Option<int>, new: Seq<RowView>) -> Option<int> {
    if new.len() == 0 {
        None
    } else {
        match sel {
            None => Some(0),
            Some(i) => {
                let own = if 0 <= i < old.len() {
                    path_index(new, old[i].path, 0)
                } else {
                    -1
                };
                if own >= 0 {
                    Some(own)
                } else {
                    match forward_match(old, new, i + 1) {
                        Some(p) => Some(p),
                        None => match backward_match(
                            old,
                            new,
                            if i < old.len() {
                                i
                            } else {
                                old.len() as int
                            },
                        ) {
                            Some(p) => Some(p),
                            None => Some(0),
                        },
                    }
                }
            },
        }
    }
}

/// Rows rebuilt for the current listing and view; the selection walks.
#[verifier::opaque]
pub open spec fn rebuild_keep(m: SessionModel) -> SessionModel {
    let rows = rows_for(m);
    let m1 = SessionModel { rows: rows, selected: walk_sel(m.rows, m.selected, rows), ..m };
    if rows.len() == 0 {
        set_pane(SessionModel { selected: None, ..m1 }, Seq::empty(), Seq::empty())
    } else {
        m1
    }
}

pub open spec fn selected_row(m: SessionModel) -> Option<RowView> {
    match m.selected {
        Some(i) => if 0 <= i < m.rows.len() {
            Some(m.rows[i])
        } else {
            None
        },
        None => None,
    }
}

pub open spec fn selected_path_spec(m: SessionModel) -> Option<Seq<char>> {
    match selected_row(m) {
        Some(r) => Some(r.path),
        None => None,
    }
}


// ----------------------------------------------------------------- dumps

/// One dump the pane asks for.
pub enum ReqView {
    Git { path: Seq<char>, cached: bool },
    Difft { path: Seq<char> },
    Literal { text: Seq<char> },
}

pub open spec fn no_changes(path: Seq<char>) -> Seq<char> {
    path + " --- no changes"@
}

/// The dumps of one file: an untracked file against nothing; otherwise the
/// work tree against the index and then the index against HEAD, each when
/// it differs; a clean or unknown path says so.
pub open spec fn file_plan_spec(path: Seq<char>, xy: Option<(char, char)>) -> Seq<ReqView> {
    match xy {
        None => seq![ReqView::Literal { text: no_changes(path) }],
        Some(xy) => if untracked_spec(xy) {
            seq![ReqView::Difft { path }]
        } else {
            let plan = (if unstaged_spec(xy) {
                seq![ReqView::Git { path, cached: false }]
            } else {
                Seq::empty()
            }) + (if staged_spec(xy) {
                seq![ReqView::Git { path, cached: true }]
            } else {
                Seq::empty()
            });
            if plan.len() == 0 {
                seq![ReqView::Literal { text: no_changes(path) }]
            } else {
                plan
            }
        },
    }
}

pub open spec fn plans_of(files: Seq<(Seq<char>, Option<(char, char)>)>) -> Seq<ReqView>
    decreases files.len(),
{
    if files.len() == 0 {
        Seq::empty()
    } else {
        plans_of(files.drop_last()) + file_plan_spec(files.last().0, files.last().1)
    }
}

/// The dumps the selection asks for: a file's own, or every file a folder
/// stacks (or a note that there is none).
pub open spec fn current_plan(m: SessionModel) -> Seq<ReqView> {
    match selected_row(m) {
        None => Seq::empty(),
        Some(row) => if row.kind == RowKind::Directory {
            let files = folder_stack_spec(m.porcelain, m.ls_files, mode_of(m), row.path, m.query);
            if files.len() == 0 {
                seq![ReqView::Literal { text: "no changes"@ }]
            } else {
                plans_of(files)
            }
        } else {
            file_plan_spec(row.path, xy_in(m.porcelain, row.path))
        },
    }
}

/// Slots and effects for a plan: a literal is ready at once; every other
/// request waits on a child with the next id.
pub open spec fn plan_parts(plan: Seq<ReqView>, id: u64, width: u16) -> (
    Seq<PartView>,
    Seq<EffectView>,
    u64,
)
    decreases plan.len(),
{
    if plan.len() == 0 {
        (Seq::empty(), Seq::empty(), id)
    } else {
        let prev = plan_parts(plan.drop_last(), id, width);
        let n = prev.2;
        match plan.last() {
            ReqView::Literal { text } => (
                prev.0.push(PartView::Ready { lines: raw_lines(text), styles: raw_styles(text) }),
                prev.1,
                n,
            ),
            ReqView::Git { path, cached } => (
                prev.0.push(PartView::Waiting { id: n, fail: FailKind::Git }),
                prev.1.push(
                    EffectView { id: n, kind: KindView::GitDiff { path, cached, width } },
                ),
                bump(n),
            ),
            ReqView::Difft { path } => (
                prev.0.push(PartView::Waiting { id: n, fail: FailKind::Difft }),
                prev.1.push(EffectView { id: n, kind: KindView::Difft { path, width } }),
                bump(n),
            ),
        }
    }
}

pub open spec fn any_waiting(parts: Seq<PartView>) -> bool {
    exists|k: int| 0 <= k < parts.len() && parts[k] is Waiting
}

pub open spec fn part_lines(p: PartView) -> Seq<Seq<Seq<char>>> {
    match p {
        PartView::Ready { lines, .. } => lines,
        PartView::Waiting { .. } => Seq::empty(),
    }
}

pub open spec fn part_styles(p: PartView) -> Seq<Seq<PaneStyle>> {
    match p {
        PartView::Ready { styles, .. } => styles,
        PartView::Waiting { .. } => Seq::empty(),
    }
}

/// Once no slot waits, the stack goes to the pane.
pub open spec fn try_finish(m: SessionModel) -> SessionModel {
    match m.dumps {
        None => m,
        Some(parts) => if any_waiting(parts) {
            m
        } else {
            SessionModel {
                dumps: None,
                ..set_pane(
                    m,
                    stacked(parts.map_values(|p: PartView| part_lines(p))),
                    stacked(parts.map_values(|p: PartView| part_styles(p))),
                )
            }
        },
    }
}

/// Dumps for the selection: the scroll resets when the path changes; no
/// plan empties the pane; otherwise the slots wait (the pane keeps the last
/// dump meanwhile).
#[verifier::opaque]
pub open spec fn request_dumps(m: SessionModel) -> (SessionModel, Seq<EffectView>) {
    let path = selected_path_spec(m);
    let m1 = if path != m.dump_scroll_path {
        SessionModel { scroll: 0, dump_scroll_path: path, ..m }
    } else {
        m
    };
    let plan = current_plan(m1);
    if plan.len() == 0 {
        (SessionModel { dumps: None, ..set_pane(m1, Seq::empty(), Seq::empty()) }, Seq::empty())
    } else {
        let parts = plan_parts(plan, m1.next_id, pane_width_spec(m1.cols));
        (try_finish(SessionModel { dumps: Some(parts.0), next_id: parts.2, ..m1 }), parts.1)
    }
}

/// Index of the first slot waiting on `id` at or after `k`, or -1.
pub open spec fn waiting_index(parts: Seq<PartView>, id: u64, k: int) -> int
    decreases parts.len() - k,
{
    if k < 0 || k >= parts.len() {
        -1
    } else if parts[k] matches PartView::Waiting { id: w, .. } && w == id {
        k
    } else {
        waiting_index(parts, id, k + 1)
    }
}

pub struct ChildView {
    pub id: u64,
    pub exit: i32,
    pub stdout: Seq<u8>,
    pub stderr: Seq<u8>,
}

/// The lines a child gives its slot: its dump, or its failure.
pub open spec fn child_lines(c: ChildView, fail: FailKind, width: u16) -> Seq<Seq<Seq<char>>> {
    if c.exit == 0 {
        dump_lines(c.stdout, width)
    } else {
        raw_lines(failure_spec(c.stderr, c.stdout, c.exit, fail))
    }
}

/// The looks a child gives its slot.
pub open spec fn child_styles(c: ChildView, fail: FailKind, width: u16) -> Seq<Seq<PaneStyle>> {
    if c.exit == 0 {
        dump_styles(c.stdout, width)
    } else {
        raw_styles(failure_spec(c.stderr, c.stdout, c.exit, fail))
    }
}

pub open spec fn fill_slot(parts: Seq<PartView>, c: ChildView, width: u16) -> Seq<PartView> {
    let k = waiting_index(parts, c.id, 0);
    if k < 0 {
        parts
    } else {
        match parts[k] {
            PartView::Waiting { fail, .. } => parts.update(
                k,
                PartView::Ready {
                    lines: child_lines(c, fail, width),
                    styles: child_styles(c, fail, width),
                },
            ),
            _ => parts,
        }
    }
}

/// A refresh has both answers: the listing is replaced, the rows rebuilt
/// and the selection walked, a no-files strip goes once there are files,
/// the dumps are asked for, and a pending commit overlay opens.
pub open spec fn finish_list(m: SessionModel) -> (SessionModel, Seq<EffectView>) {
    let l = m.list.unwrap();
    let por = porcelain_entries(
        match l.2 {
            Some(b) => b,
            None => Seq::empty(),
        },
    );
    let ls = ls_paths(
        match l.3 {
            Some(b) => b,
            None => Seq::empty(),
        },
    );
    let m1 = SessionModel { list: None, porcelain: por, ls_files: ls, ..m };
    let rows = rows_for(m1);
    let m2 = SessionModel { rows: rows, selected: walk_sel(m.rows, m.selected, rows), ..m1 };
    let m3 = if m2.strip == Some(StripView::NoFilesCommitError) && por.len() > 0 {
        SessionModel { strip: None, ..m2 }
    } else {
        m2
    };
    let r = request_dumps(m3);
    let m4 = r.0;
    if m4.overlay_after_refresh {
        (
            SessionModel {
                overlay_after_refresh: false,
                overlay: true,
                field: CommitField::Summary,
                strip: None,
                ..m4
            },
            r.1,
        )
    } else {
        r
    }
}

pub open spec fn write_error(m: SessionModel, c: ChildView) -> (SessionModel, Seq<EffectView>) {
    (
        SessionModel {
            strip: Some(
                StripView::GitWriteError {
                    text: failure_spec(c.stderr, c.stdout, c.exit, FailKind::Git),
                },
            ),
            ..m
        },
        Seq::empty(),
    )
}

/// A write came back: success refreshes (after add-all the overlay opens
/// once the refresh lands; after a commit the draft is cleared), failure
/// shows the child in a write error strip.
pub open spec fn write_result(m: SessionModel, c: ChildView) -> (SessionModel, Seq<EffectView>) {
    let m1 = SessionModel { writing: None, write_id: None, ..m };
    let ok = c.exit == 0;
    match m.writing {
        Some(WriteKind::Space) => if ok {
            refresh(m1)
        } else {
            write_error(m1, c)
        },
        Some(WriteKind::AddAll) => if ok {
            refresh(SessionModel { overlay_after_refresh: true, ..m1 })
        } else {
            write_error(m1, c)
        },
        Some(WriteKind::Commit) => if ok {
            refresh(
                SessionModel {
                    overlay: false,
                    strip: None,
                    summary: Seq::empty(),
                    description: Seq::empty(),
                    summary_caret: 0,
                    description_caret: 0,
                    field: CommitField::Summary,
                    ..m1
                },
            )
        } else {
            write_error(m1, c)
        },
        None => (m1, Seq::empty()),
    }
}

/// A child result: the awaited write, a refresh answer, or a dump.
pub open spec fn child_step(m: SessionModel, c: ChildView) -> (SessionModel, Seq<EffectView>) {
    if m.write_id == Some(c.id) {
        write_result(m, c)
    } else if m.list is Some {
        let l = m.list.unwrap();
        let l2 = if c.id == l.0 {
            (l.0, l.1, Some(c.stdout), l.3)
        } else if c.id == l.1 {
            (l.0, l.1, l.2, Some(c.stdout))
        } else {
            l
        };
        let m1 = SessionModel { list: Some(l2), ..m };
        if l2.2 is Some && l2.3 is Some {
            finish_list(m1)
        } else {
            (m1, Seq::empty())
        }
    } else {
        let m1 = match m.dumps {
            Some(parts) => SessionModel {
                dumps: Some(fill_slot(parts, c, pane_width_spec(m.cols))),
                ..m
            },
            None => m,
        };
        (try_finish(m1), Seq::empty())
    }
}


// ------------------------------------------------------------ key presses

pub open spec fn quit(m: SessionModel) -> (SessionModel, Seq<EffectView>) {
    (
        SessionModel { next_id: bump(m.next_id), ..m },
        seq![EffectView { id: m.next_id, kind: KindView::Quit }],
    )
}

/// A write starts: one effect with a fresh id, and the session waits on it.
pub open spec fn begin_write(m: SessionModel, w: WriteKind, kind: KindView) -> (
    SessionModel,
    Seq<EffectView>,
) {
    (
        SessionModel {
            next_id: bump(m.next_id),
            writing: Some(w),
            write_id: Some(m.next_id),
            ..m
        },
        seq![EffectView { id: m.next_id, kind }],
    )
}

pub open spec fn page(m: SessionModel) -> u16 {
    max1(sat_sub(sat_sub(m.term_rows, 2), overlay_height_spec(m)))
}

pub open spec fn field_width_spec(m: SessionModel) -> u16 {
    max1(sat_sub(m.cols, 2))
}

/// The dump scrolls by `delta` rows, within the pane.
pub open spec fn scroll_diff(m: SessionModel, delta: int) -> SessionModel {
    let next = clamp(m.scroll + delta, 0, i32::MAX as int);
    clamp_scroll(SessionModel { scroll: next as u16, ..m })
}

pub open spec fn select(m: SessionModel, i: Option<int>) -> (SessionModel, Seq<EffectView>) {
    request_dumps(SessionModel { selected: i, ..m })
}

/// `j`/`k`: the dump scrolls when it has focus; otherwise the selection
/// moves within the rows (and the first move selects the top row).
pub open spec fn move_or_scroll(m: SessionModel, delta: int) -> (SessionModel, Seq<EffectView>) {
    if m.focus == Focus::Diff {
        (scroll_diff(m, delta), Seq::empty())
    } else {
        match m.selected {
            None => if m.rows.len() > 0 {
                select(m, Some(0))
            } else {
                (m, Seq::empty())
            },
            Some(idx) => {
                let n = m.rows.len() as int;
                if n == 0 {
                    (m, Seq::empty())
                } else {
                    let next = clamp(idx + delta, 0, n - 1);
                    if next == idx {
                        (m, Seq::empty())
                    } else {
                        select(m, Some(next))
                    }
                }
            },
        }
    }
}

/// `s` without any copy of `p`.
pub open spec fn without(s: Seq<Seq<char>>, p: Seq<char>) -> Seq<Seq<char>>
    decreases s.len(),
{
    if s.len() == 0 {
        s
    } else if s.last() == p {
        without(s.drop_last(), p)
    } else {
        without(s.drop_last(), p).push(s.last())
    }
}

/// A folded folder unfolds; an unfolded one folds.
pub open spec fn toggled(set: Seq<Seq<char>>, p: Seq<char>) -> Seq<Seq<char>> {
    if set.contains(p) {
        without(set, p)
    } else {
        set.push(p)
    }
}

/// Folds or unfolds the selected folder; anything else is left alone.
pub open spec fn toggle_fold(m: SessionModel) -> (SessionModel, Seq<EffectView>) {
    match selected_row(m) {
        Some(row) => if row.kind == RowKind::Directory {
            (
                rebuild_keep(SessionModel { collapsed: toggled(m.collapsed, row.path), ..m }),
                Seq::empty(),
            )
        } else {
            (m, Seq::empty())
        },
        None => (m, Seq::empty()),
    }
}

pub open spec fn toggle_scope(m: SessionModel) -> (SessionModel, Seq<EffectView>) {
    request_dumps(rebuild_keep(SessionModel { all_files: !m.all_files, ..m }))
}

pub open spec fn toggle_shape(m: SessionModel) -> (SessionModel, Seq<EffectView>) {
    if m.all_files {
        (m, Seq::empty())
    } else {
        request_dumps(rebuild_keep(SessionModel { tree: !m.tree, ..m }))
    }
}

/// The git write that toggles a file's index entry: add when the work tree
/// differs; otherwise reset a path HEAD has, or drop a newly added one.
pub open spec fn stage_kind(xy: (char, char), path: Seq<char>) -> KindView {
    if unstaged_spec(xy) {
        KindView::GitAdd { path }
    } else if in_head_spec(xy) {
        KindView::GitReset { path }
    } else {
        KindView::GitRmCached { path }
    }
}

pub open spec fn stage_selected(m: SessionModel) -> (SessionModel, Seq<EffectView>) {
    match selected_row(m) {
        Some(row) => if row.kind == RowKind::File {
            match xy_in(m.porcelain, row.path) {
                Some(xy) => begin_write(m, WriteKind::Space, stage_kind(xy, row.path)),
                None => (m, Seq::empty()),
            }
        } else {
            (m, Seq::empty())
        },
        None => (m, Seq::empty()),
    }
}

pub open spec fn anything_staged(por: Seq<EntryView>) -> bool {
    exists|k: int| 0 <= k < por.len() && staged_spec(#[trigger] por[k].0)
}

/// `c`: no files is an error strip, nothing staged asks first, otherwise
/// the commit overlay opens on the summary.
pub open spec fn open_commit(m: SessionModel) -> SessionModel {
    if m.porcelain.len() == 0 {
        SessionModel { strip: Some(StripView::NoFilesCommitError), ..m }
    } else if !anything_staged(m.porcelain) {
        SessionModel { strip: Some(StripView::NothingStagedConfirm), ..m }
    } else {
        SessionModel { overlay: true, field: CommitField::Summary, ..m }
    }
}

pub open spec fn blank(s: Seq<char>) -> bool {
    forall|k: int| 0 <= k < s.len() ==> whitespace(#[trigger] s[k])
}

/// A blank summary is refused and never reaches git.
pub open spec fn try_commit(m: SessionModel) -> (SessionModel, Seq<EffectView>) {
    if blank(m.summary) {
        (SessionModel { strip: Some(StripView::EmptySummaryRefusal), ..m }, Seq::empty())
    } else {
        begin_write(
            SessionModel { strip: None, ..m },
            WriteKind::Commit,
            KindView::GitCommit { summary: m.summary, description: m.description },
        )
    }
}

pub open spec fn is_char(k: Key, c: char) -> bool {
    k == Key::Char { c, ctrl: false }
}

/// The strip under the panes takes the keys (the overlay's are its own).
pub open spec fn strip_takes(m: SessionModel) -> bool {
    match m.strip {
        Some(StripView::NothingStagedConfirm) => true,
        Some(StripView::NoFilesCommitError) => true,
        Some(StripView::GitWriteError { .. }) => !m.overlay,
        _ => false,
    }
}

/// A strip that makes the screen ignore clicks and most keys.
pub open spec fn inert(m: SessionModel) -> bool {
    match m.strip {
        Some(StripView::EmptySummaryRefusal) => false,
        Some(_) => true,
        None => false,
    }
}

pub open spec fn strip_key(m: SessionModel, k: Key) -> (SessionModel, Seq<EffectView>) {
    match m.strip {
        Some(StripView::NothingStagedConfirm) => if is_char(k, 'y') || k == (Key::Enter {
            ctrl: false,
        }) {
            begin_write(m, WriteKind::AddAll, KindView::GitAddAll)
        } else if is_char(k, 'n') || k == Key::Esc {
            (SessionModel { strip: None, ..m }, Seq::empty())
        } else if is_char(k, 'r') {
            refresh(m)
        } else {
            (m, Seq::empty())
        },
        _ => if k == Key::Esc || k == (Key::Enter { ctrl: false }) {
            (SessionModel { strip: None, ..m }, Seq::empty())
        } else if is_char(k, 'r') {
            refresh(m)
        } else {
            (m, Seq::empty())
        },
    }
}

/// Keys when nothing is open.
pub open spec fn rest_key(m: SessionModel, k: Key) -> (SessionModel, Seq<EffectView>) {
    if is_char(k, 'q') {
        quit(m)
    } else if is_char(k, 'j') || k == Key::Down {
        move_or_scroll(m, 1)
    } else if is_char(k, 'k') || k == Key::Up {
        move_or_scroll(m, -1)
    } else if k == Key::Left || is_char(k, 'h') || k == Key::Right || is_char(k, 'l') || k == (
    Key::Enter { ctrl: false }) {
        toggle_fold(m)
    } else if k == Key::Tab {
        (
            SessionModel {
                focus: if m.focus == Focus::Files {
                    Focus::Diff
                } else {
                    Focus::Files
                },
                ..m
            },
            Seq::empty(),
        )
    } else if is_char(k, 'f') {
        toggle_scope(m)
    } else if is_char(k, '`') || is_char(k, 't') {
        toggle_shape(m)
    } else if is_char(k, '/') {
        (
            SessionModel { search_open: true, query_caret: m.query.len() as int, ..m },
            Seq::empty(),
        )
    } else if is_char(k, ' ') {
        stage_selected(m)
    } else if is_char(k, 'c') {
        (open_commit(m), Seq::empty())
    } else if is_char(k, 'r') {
        refresh(m)
    } else {
        (m, Seq::empty())
    }
}

/// A typed character goes in while the field has room.
pub open spec fn typed(s: Seq<char>, caret: int, c: char) -> (Seq<char>, int) {
    if s.len() + 1 < field_bound() {
        (insert_at(s, caret, c), caret + 1)
    } else {
        (s, caret)
    }
}

pub open spec fn backspaced(s: Seq<char>, caret: int) -> (Seq<char>, int) {
    if caret == 0 {
        (s, 0)
    } else {
        (remove_at(s, caret - 1), caret - 1)
    }
}

/// Keys while the search prompt is open; the rows follow the query live.
pub open spec fn search_key(m: SessionModel, k: Key) -> (SessionModel, Seq<EffectView>) {
    match k {
        Key::Enter { ctrl: false } => (SessionModel { search_open: false, ..m }, Seq::empty()),
        Key::Esc => request_dumps(
            rebuild_keep(
                SessionModel { search_open: false, query: Seq::empty(), query_caret: 0, ..m },
            ),
        ),
        Key::Backspace => {
            let e = backspaced(m.query, m.query_caret);
            request_dumps(rebuild_keep(SessionModel { query: e.0, query_caret: e.1, ..m }))
        },
        Key::Delete => request_dumps(
            rebuild_keep(SessionModel { query: remove_at(m.query, m.query_caret), ..m }),
        ),
        Key::Left => (
            SessionModel { query_caret: clamp(m.query_caret - 1, 0, m.query.len() as int), ..m },
            Seq::empty(),
        ),
        Key::Right => (
            SessionModel { query_caret: clamp(m.query_caret + 1, 0, m.query.len() as int), ..m },
            Seq::empty(),
        ),
        Key::Char { c, ctrl: false } => {
            let e = typed(m.query, m.query_caret, c);
            request_dumps(rebuild_keep(SessionModel { query: e.0, query_caret: e.1, ..m }))
        },
        _ => (m, Seq::empty()),
    }
}

/// The focused field of the overlay gets `c` typed.
pub open spec fn type_in_field(m: SessionModel, c: char) -> SessionModel {
    match m.field {
        CommitField::Summary => {
            let e = typed(m.summary, m.summary_caret, c);
            SessionModel { summary: e.0, summary_caret: e.1, ..m }
        },
        CommitField::Description => {
            let e = typed(m.description, m.description_caret, c);
            SessionModel { description: e.0, description_caret: e.1, ..m }
        },
    }
}

/// Keys while the commit overlay is open.
pub open spec fn overlay_key(m: SessionModel, k: Key) -> (SessionModel, Seq<EffectView>) {
    match k {
        Key::Esc => (SessionModel { overlay: false, strip: None, ..m }, Seq::empty()),
        Key::Tab => (
            SessionModel {
                field: if m.field == CommitField::Summary {
                    CommitField::Description
                } else {
                    CommitField::Summary
                },
                ..m
            },
            Seq::empty(),
        ),
        Key::Enter { ctrl: true } => try_commit(m),
        Key::Char { c, ctrl: true } => if c == 's' || c == 'S' {
            try_commit(m)
        } else {
            (m, Seq::empty())
        },
        Key::Enter { ctrl: false } => if m.field == CommitField::Summary {
            try_commit(m)
        } else {
            (type_in_field(m, '\n'), Seq::empty())
        },
        Key::Backspace => (
            match m.field {
                CommitField::Summary => {
                    let e = backspaced(m.summary, m.summary_caret);
                    SessionModel { summary: e.0, summary_caret: e.1, ..m }
                },
                CommitField::Description => {
                    let e = backspaced(m.description, m.description_caret);
                    SessionModel { description: e.0, description_caret: e.1, ..m }
                },
            },
            Seq::empty(),
        ),
        Key::Delete => (
            match m.field {
                CommitField::Summary => SessionModel {
                    summary: remove_at(m.summary, m.summary_caret),
                    ..m
                },
                CommitField::Description => SessionModel {
                    description: remove_at(m.description, m.description_caret),
                    ..m
                },
            },
            Seq::empty(),
        ),
        Key::Left => (nudge(m, -1), Seq::empty()),
        Key::Right => (nudge(m, 1), Seq::empty()),
        Key::Up => (vertical(m, -1), Seq::empty()),
        Key::Down => (vertical(m, 1), Seq::empty()),
        Key::Char { c, ctrl: false } => (type_in_field(m, c), Seq::empty()),
        _ => (m, Seq::empty()),
    }
}

pub open spec fn nudge(m: SessionModel, delta: int) -> SessionModel {
    match m.field {
        CommitField::Summary => SessionModel {
            summary_caret: clamp(m.summary_caret + delta, 0, m.summary.len() as int),
            ..m
        },
        CommitField::Description => SessionModel {
            description_caret: clamp(m.description_caret + delta, 0, m.description.len() as int),
            ..m
        },
    }
}

pub open spec fn vertical(m: SessionModel, dy: int) -> SessionModel {
    if m.field == CommitField::Description {
        SessionModel {
            description_caret: caret_after_vertical(
                m.description,
                m.description_caret,
                field_width_spec(m),
                dy,
            ),
            ..m
        }
    } else {
        m
    }
}

/// A key press. Ctrl-C quits from anywhere; page keys always scroll the
/// dump; then the overlay, the search prompt, a strip, or the panels take it.
pub open spec fn key_step(m: SessionModel, k: Key) -> (SessionModel, Seq<EffectView>) {
    if k == (Key::Char { c: 'c', ctrl: true }) {
        quit(m)
    } else if k == Key::PageDown {
        (scroll_diff(m, page(m) as int), Seq::empty())
    } else if k == Key::PageUp {
        (scroll_diff(m, -(page(m) as int)), Seq::empty())
    } else if m.overlay {
        overlay_key(m, k)
    } else if m.search_open {
        search_key(m, k)
    } else if strip_takes(m) {
        strip_key(m, k)
    } else if inert(m) {
        if is_char(k, 'r') {
            refresh(m)
        } else {
            (m, Seq::empty())
        }
    } else {
        rest_key(m, k)
    }
}

/// A click: inert under a strip; a files row selects; a field click places
/// its caret.
pub open spec fn mouse_step(m: SessionModel, hit: MouseHit) -> (SessionModel, Seq<EffectView>) {
    if inert(m) {
        (m, Seq::empty())
    } else {
        match hit {
            MouseHit::Files { index } => if m.search_open {
                (m, Seq::empty())
            } else if index < m.rows.len() {
                select(m, Some(index as int))
            } else {
                (m, Seq::empty())
            },
            MouseHit::Search { col } => if m.search_open {
                (
                    SessionModel { query_caret: min_int(col as int, m.query.len() as int), ..m },
                    Seq::empty(),
                )
            } else {
                (m, Seq::empty())
            },
            MouseHit::Summary { col } => if m.overlay {
                (
                    SessionModel {
                        field: CommitField::Summary,
                        summary_caret: min_int(col as int, m.summary.len() as int),
                        ..m
                    },
                    Seq::empty(),
                )
            } else {
                (m, Seq::empty())
            },
            MouseHit::Description { col, row } => if m.overlay {
                (
                    SessionModel {
                        field: CommitField::Description,
                        description_caret: click_scan(
                            m.description,
                            0,
                            0,
                            0,
                            col as int,
                            row as int,
                            field_cols(field_width_spec(m)),
                        ),
                        ..m
                    },
                    Seq::empty(),
                )
            } else {
                (m, Seq::empty())
            },
        }
    }
}

pub open spec fn child_view(c: ChildResult) -> ChildView {
    ChildView { id: c.id, exit: c.exit, stdout: c.stdout@, stderr: c.stderr@ }
}

/// One event in, the next session and its effects out.
pub open spec fn step(m: SessionModel, e: Event) -> (SessionModel, Seq<EffectView>) {
    match e {
        Event::Key(k) => key_step(m, k),
        Event::Mouse(hit) => mouse_step(m, hit),
        Event::Tick => if paused(m) {
            (m, Seq::empty())
        } else {
            refresh(m)
        },
        Event::Resize { cols, rows } => {
            let m1 = SessionModel { cols, term_rows: rows, ..m };
            if pane_width_spec(cols) != pane_width_spec(m.cols) {
                request_dumps(m1)
            } else {
                (m1, Seq::empty())
            }
        },
        Event::Child(c) => child_step(m, child_view(c)),
    }
}


/// Asking for dumps touches only the pane, its scroll, the slots and the
/// id counter.
pub proof fn lemma_request_dumps_frame(m: SessionModel)
    ensures
        ({
            let r = request_dumps(m).0;
            r == SessionModel {
                scroll: r.scroll,
                dump_scroll_path: r.dump_scroll_path,
                pane: r.pane,
                pane_styles: r.pane_styles,
                pane_body: r.pane_body,
                pane_lines: r.pane_lines,
                dumps: r.dumps,
                next_id: r.next_id,
                ..m
            }
        }),
{
    reveal(request_dumps);
}


/// A new session, before its first refresh: changed files, flat, the files
/// panel focused, nothing listed, selected or open.
pub open spec fn initial_model(cols: u16, rows: u16) -> SessionModel {
    SessionModel {
        cols,
        term_rows: rows,
        focus: Focus::Files,
        all_files: false,
        tree: false,
        porcelain: Seq::empty(),
        ls_files: Seq::empty(),
        collapsed: Seq::empty(),
        rows: Seq::empty(),
        selected: None,
        scroll: 0,
        dump_scroll_path: None,
        pane: Seq::empty(),
        pane_styles: Seq::empty(),
        pane_body: Seq::empty(),
        pane_lines: 0,
        next_id: 1,
        list: None,
        dumps: None,
        strip: None,
        overlay: false,
        search_open: false,
        query: Seq::empty(),
        query_caret: 0,
        summary: Seq::empty(),
        description: Seq::empty(),
        field: CommitField::Summary,
        summary_caret: 0,
        description_caret: 0,
        writing: None,
        write_id: None,
        overlay_after_refresh: false,
    }
}

/// The words of each strip.
pub open spec fn strip_text_spec(s: Option<StripView>) -> Option<Seq<char>> {
    match s {
        Some(StripView::NothingStagedConfirm) => Some(
            "Nothing staged. Stage all changes and commit?"@,
        ),
        Some(StripView::NoFilesCommitError) => Some("No files to commit."@),
        Some(StripView::EmptySummaryRefusal) => Some("Commit summary is required."@),
        Some(StripView::GitWriteError { text }) => Some(text),
        None => None,
    }
}

pub open spec fn footer_keys(m: SessionModel) -> Seq<char> {
    (if m.focus == Focus::Files {
        "j/k move"@
    } else {
        "j/k scroll"@
    })
        + "  h/l fold  f all/changed  ` tree/flat  / search  tab focus  space stage  c commit  r refresh  q quit"@
}

/// The footer: the open prompt, or the query, the row count and the keys.
pub open spec fn footer_spec(m: SessionModel) -> Seq<char> {
    if m.search_open {
        " /"@ + m.query + "_  enter keep  esc clear "@
    } else if m.query.len() > 0 {
        " /"@ + m.query + "  "@ + decimal(m.rows.len()) + " rows  "@ + footer_keys(m) + " "@
    } else {
        " "@ + decimal(m.rows.len()) + " rows  "@ + footer_keys(m) + " "@
    }
}

pub open spec fn caret_spec(m: SessionModel) -> int {
    if m.search_open {
        m.query_caret
    } else if m.overlay {
        match m.field {
            CommitField::Summary => m.summary_caret,
            CommitField::Description => m.description_caret,
        }
    } else {
        0
    }
}

} // verus!
