//! The session: the whole state of the screen, and `apply`, which takes one
//! event to the next session and the effects it asks its host for.

use crate::caret::{
    caret_in_wrapped, caret_on_line, char_len, count_char, delete_after, delete_before,
    description_line_count, insert_char, move_caret, move_caret_vert, strip_height,
};
use crate::dump::{
    body_string, bytes_to_text, failure_text, pane_string, stack_texts, text_from_string,
    texts_styles, texts_view, FailKind, PaneText,
};
use crate::event::{
    ChildResult, CommitDraft, CommitField, Effect, EffectKind, Event, FilesMode, FilesRow, Focus,
    Key, MouseHit, RowKind, Strip,
};
use crate::files::{
    contains_string, entries_view, folder_stack, has_staged, has_unstaged, is_in_head,
    is_untracked, is_whitespace, parse_ls_files, parse_porcelain, paths_view, rows_view,
    strings_view, visible_rows, xy_of, PorcelainEntry, RowView,
};
use crate::model::{
    backward_match, bump, clamp_scroll, effects_view, error_rows, fields_ok, forward_match, max1, mode_of,
    model_wf, overlay_height_spec, path_index, rebuild_keep, refresh, rows_for, sat_sub, set_pane,
    strip_opt_view, walk_sel, PartView, SessionModel, WriteKind, FILES_PANEL_COLS, ReqView,
    no_changes, file_plan_spec, plans_of, current_plan, selected_path_spec, pane_width_spec,
    try_finish, any_waiting, part_lines, part_styles, request_dumps, plan_parts, EffectView, finish_list,
    write_error, write_result, child_view, fill_slot, waiting_index, child_step,
    lemma_request_dumps_frame, without, blank, page, field_width_spec, scroll_diff, quit,
    begin_write, select, move_or_scroll, toggle_fold, toggle_scope, toggle_shape, stage_selected,
    open_commit, try_commit, strip_takes, strip_key, rest_key, search_key, type_in_field,
    overlay_key, nudge, vertical, key_step, inert, mouse_step, step, paused, backspaced, typed,
    initial_model, strip_text_spec, footer_spec, caret_spec,
};
use crate::caret::remove_at;
use crate::files::{staged_spec, whitespace};
use crate::files::{ls_paths, porcelain_entries};
use crate::text::{chars_of, push_char, push_decimal, push_str};
use vstd::prelude::*;

verus! {

/// The refresh in flight.
struct PendingList {
    porcelain_id: u64,
    ls_id: u64,
    porcelain: Option<Vec<u8>>,
    ls: Option<Vec<u8>>,
}

/// A slot of the dump stack.
enum DumpPart {
    Waiting { id: u64, fail: FailKind },
    Ready { text: PaneText },
}

spec fn bytes_opt(b: Option<Vec<u8>>) -> Option<Seq<u8>> {
    match b {
        Some(v) => Some(v@),
        None => None,
    }
}

spec fn list_view(l: Option<PendingList>) -> Option<(u64, u64, Option<Seq<u8>>, Option<Seq<u8>>)> {
    match l {
        Some(l) => Some((l.porcelain_id, l.ls_id, bytes_opt(l.porcelain), bytes_opt(l.ls))),
        None => None,
    }
}

spec fn part_view(p: DumpPart) -> PartView {
    match p {
        DumpPart::Waiting { id, fail } => PartView::Waiting { id, fail },
        DumpPart::Ready { text } => PartView::Ready { lines: text@, styles: text.styles() },
    }
}

spec fn parts_view(v: Seq<DumpPart>) -> Seq<PartView> {
    v.map_values(|p: DumpPart| part_view(p))
}

spec fn dumps_view(d: Option<Vec<DumpPart>>) -> Option<Seq<PartView>> {
    match d {
        Some(v) => Some(parts_view(v@)),
        None => None,
    }
}

pub open spec fn index_opt(i: Option<usize>) -> Option<int> {
    match i {
        Some(i) => Some(i as int),
        None => None,
    }
}

pub open spec fn string_opt(s: Option<String>) -> Option<Seq<char>> {
    match s {
        Some(s) => Some(s@),
        None => None,
    }
}

/// The whole state of the screen.
pub struct Session {
    cols: u16,
    term_rows: u16,
    focus: Focus,
    all_files: bool,
    tree: bool,
    porcelain: Vec<PorcelainEntry>,
    ls_files: Vec<String>,
    collapsed: Vec<String>,
    rows: Vec<FilesRow>,
    selected: Option<usize>,
    scroll: u16,
    dump_scroll_path: Option<String>,
    pane_body: String,
    pane_text: PaneText,
    pane_lines: u16,
    next_id: u64,
    pending_list: Option<PendingList>,
    pending_dumps: Option<Vec<DumpPart>>,
    strip: Option<Strip>,
    overlay: bool,
    search_open: bool,
    query: String,
    query_caret: usize,
    draft: CommitDraft,
    field: CommitField,
    summary_caret: usize,
    description_caret: usize,
    writing: Option<WriteKind>,
    write_id: Option<u64>,
    open_overlay_after_refresh: bool,
}

impl View for Session {
    type V = SessionModel;

    closed spec fn view(&self) -> SessionModel {
        SessionModel {
            cols: self.cols,
            term_rows: self.term_rows,
            focus: self.focus,
            all_files: self.all_files,
            tree: self.tree,
            porcelain: entries_view(self.porcelain@),
            ls_files: strings_view(self.ls_files@),
            collapsed: strings_view(self.collapsed@),
            rows: rows_view(self.rows@),
            selected: index_opt(self.selected),
            scroll: self.scroll,
            dump_scroll_path: string_opt(self.dump_scroll_path),
            pane: self.pane_text@,
            pane_styles: self.pane_text.styles(),
            pane_body: self.pane_body@,
            pane_lines: self.pane_lines,
            next_id: self.next_id,
            list: list_view(self.pending_list),
            dumps: dumps_view(self.pending_dumps),
            strip: strip_opt_view(self.strip),
            overlay: self.overlay,
            search_open: self.search_open,
            query: self.query@,
            query_caret: self.query_caret as int,
            summary: self.draft.summary@,
            description: self.draft.description@,
            field: self.field,
            summary_caret: self.summary_caret as int,
            description_caret: self.description_caret as int,
            writing: self.writing,
            write_id: self.write_id,
            overlay_after_refresh: self.open_overlay_after_refresh,
        }
    }
}

fn copy_rows(v: &Vec<FilesRow>) -> (r: Vec<FilesRow>)
    ensures
        rows_view(r@) == rows_view(v@),
{
    let mut out: Vec<FilesRow> = Vec::new();
    let mut i: usize = 0;
    while i < v.len()
        invariant
            i <= v.len(),
            rows_view(out@) == rows_view(v@.take(i as int)),
        decreases v.len() - i,
    {
        let r = v[i].duplicate();
        let ghost before = rows_view(out@);
        out.push(r);
        assert(rows_view(out@) =~= before.push(r@));
        assert(rows_view(v@.take(i + 1)) =~= rows_view(v@.take(i as int)).push(v@[i as int]@));
        i = i + 1;
    }
    assert(v@.take(v.len() as int) == v@);
    out
}

/// How many newlines `s` holds.
fn newline_count(s: &str) -> (n: usize)
    ensures
        n == count_char(s@, '\n'),
{
    let chars = chars_of(s);
    let mut n: usize = 0;
    let mut i: usize = 0;
    while i < chars.len()
        invariant
            i <= chars.len(),
            chars@ == s@,
            n == count_char(chars@.take(i as int), '\n'),
            n <= i,
        decreases chars.len() - i,
    {
        assert(chars@.take(i + 1).drop_last() == chars@.take(i as int));
        if chars[i] == '\n' {
            n = n + 1;
        }
        i = i + 1;
    }
    assert(chars@.take(chars.len() as int) == chars@);
    n
}

fn sat_sub16(a: u16, b: u16) -> (r: u16)
    ensures
        r == sat_sub(a, b),
{
    if a >= b {
        a - b
    } else {
        0
    }
}

fn max1_16(a: u16) -> (r: u16)
    ensures
        r == max1(a),
{
    if a >= 1 {
        a
    } else {
        1
    }
}

/// Rows a write error takes: its lines, at least one and at most eight.
pub fn write_error_rows(text: &str) -> (h: u16)
    ensures
        h == error_rows(text@),
{
    let k = newline_count(text);
    let lines: usize = if k < usize::MAX {
        k + 1
    } else {
        0
    };
    let n = lines as u16;
    let m = if n <= 8 {
        n
    } else {
        8
    };
    max1_16(m)
}

impl Session {
    /// Every session keeps its invariant.
    pub open spec fn wf(&self) -> bool {
        model_wf(self@)
    }

    fn fresh_id(&mut self) -> (id: u64)
        ensures
            id == old(self)@.next_id,
            final(self)@ == (SessionModel { next_id: bump(old(self)@.next_id), ..old(self)@ }),
    {
        let id = self.next_id;
        self.next_id = if self.next_id < u64::MAX {
            self.next_id + 1
        } else {
            0
        };
        id
    }

    /// Rows under the panes: the commit form and its strip.
    pub fn overlay_height(&self) -> (h: u16)
        requires
            fields_ok(self@),
        ensures
            h == overlay_height_spec(self@),
    {
        let form = if self.overlay {
            strip_height(description_line_count(self.draft.description.as_str()))
        } else {
            0
        };
        let extra: u16 = match &self.strip {
            Some(Strip::GitWriteError { text }) => write_error_rows(text.as_str()),
            Some(Strip::EmptySummaryRefusal) => if self.overlay {
                1
            } else {
                3
            },
            Some(_) => if !self.overlay {
                3
            } else {
                0
            },
            None => 0,
        };
        if self.overlay {
            if form <= u16::MAX - extra {
                form + extra
            } else {
                u16::MAX
            }
        } else {
            extra
        }
    }

    fn clamp_scroll(&mut self)
        requires
            fields_ok(old(self)@),
        ensures
            final(self)@ == clamp_scroll(old(self)@),
    {
        let visible = max1_16(sat_sub16(sat_sub16(self.term_rows, 1), self.overlay_height()));
        let max = sat_sub16(self.pane_lines, visible);
        if self.scroll > max {
            self.scroll = max;
        }
    }

    fn set_pane(&mut self, text: PaneText)
        requires
            fields_ok(old(self)@),
        ensures
            final(self)@ == set_pane(old(self)@, text@, text.styles()),
    {
        self.pane_body = pane_string(&text);
        #[verifier::truncate]
        let lines = text.lines.len() as u16;
        self.pane_lines = lines;
        self.pane_text = text;
        self.clamp_scroll();
    }

    fn start_refresh(&mut self) -> (e: Vec<Effect>)
        ensures
            (final(self)@, effects_view(e@)) == refresh(old(self)@),
    {
        let porcelain_id = self.fresh_id();
        let ls_id = self.fresh_id();
        self.pending_list = Some(PendingList { porcelain_id, ls_id, porcelain: None, ls: None });
        let mut e: Vec<Effect> = Vec::new();
        e.push(Effect { id: porcelain_id, kind: EffectKind::GitPorcelain });
        e.push(Effect { id: ls_id, kind: EffectKind::GitLsFiles });
        assert(effects_view(e@) =~= refresh(old(self)@).1);
        e
    }

    fn files_mode_exec(&self) -> (m: FilesMode)
        ensures
            m == mode_of(self@),
    {
        if self.all_files {
            FilesMode::AllTree
        } else if self.tree {
            FilesMode::ChangedTree
        } else {
            FilesMode::ChangedFlat
        }
    }

    fn rebuilt_rows(&self) -> (rows: Vec<FilesRow>)
        ensures
            rows_view(rows@) == rows_for(self@),
    {
        visible_rows(
            &self.porcelain,
            &self.ls_files,
            self.files_mode_exec(),
            &self.collapsed,
            self.query.as_str(),
            FILES_PANEL_COLS as usize,
        )
    }

    fn rebuild_keep(&mut self)
        requires
            fields_ok(old(self)@),
        ensures
            final(self)@ == rebuild_keep(old(self)@),
            final(self).wf(),
    {
        reveal(rebuild_keep);
        let old_rows = copy_rows(&self.rows);
        let old_sel = self.selected;
        self.rows = self.rebuilt_rows();
        self.selected = walk_selection(&old_rows, old_sel, &self.rows);
        proof {
            lemma_walk_sel(rows_view(old_rows@), index_opt(old_sel), rows_view(self.rows@));
        }
        if self.rows.len() == 0 {
            self.selected = None;
            self.set_pane(PaneText::empty());
        }
    }
}

fn path_index_exec(rows: &Vec<FilesRow>, path: &String) -> (r: Option<usize>)
    ensures
        match r {
            Some(k) => k as int == path_index(rows_view(rows@), path@, 0) && k < rows.len(),
            None => path_index(rows_view(rows@), path@, 0) == -1,
        },
{
    let ghost rv = rows_view(rows@);
    let mut k: usize = 0;
    while k < rows.len()
        invariant
            k <= rows.len(),
            rv == rows_view(rows@),
            path_index(rv, path@, k as int) == path_index(rv, path@, 0),
        decreases rows.len() - k,
    {
        if rows[k].path == *path {
            return Some(k);
        }
        k = k + 1;
    }
    None
}

proof fn lemma_path_index(rows: Seq<RowView>, path: Seq<char>, k: int)
    requires
        0 <= k <= rows.len(),
    ensures
        path_index(rows, path, k) == -1 || (k <= path_index(rows, path, k) < rows.len()),
    decreases rows.len() - k,
{
    if k < rows.len() && rows[k].path != path {
        lemma_path_index(rows, path, k + 1);
    }
}

proof fn lemma_forward(old: Seq<RowView>, new: Seq<RowView>, j: int)
    requires
        0 <= j,
    ensures
        forward_match(old, new, j) matches Some(p) ==> 0 <= p < new.len(),
    decreases old.len() - j,
{
    if j < old.len() {
        lemma_path_index(new, old[j].path, 0);
        lemma_forward(old, new, j + 1);
    }
}

proof fn lemma_backward(old: Seq<RowView>, new: Seq<RowView>, j: int)
    ensures
        backward_match(old, new, j) matches Some(p) ==> 0 <= p < new.len(),
    decreases j,
{
    if 0 < j <= old.len() {
        lemma_path_index(new, old[j - 1].path, 0);
        lemma_backward(old, new, j - 1);
    }
}

/// The walked selection is a row of the new list, and there is one exactly
/// when the list is not empty.
pub proof fn lemma_walk_sel(old: Seq<RowView>, sel: Option<int>, new: Seq<RowView>)
    ensures
        walk_sel(old, sel, new) matches Some(i) ==> 0 <= i < new.len(),
        new.len() == 0 <==> walk_sel(old, sel, new) is None,
{
    if let Some(i) = sel {
        if 0 <= i < old.len() {
            lemma_path_index(new, old[i].path, 0);
        }
        if i + 1 >= 0 {
            lemma_forward(old, new, i + 1);
        }
        lemma_backward(old, new, if i < old.len() { i } else { old.len() as int });
    }
}

fn walk_selection(old_rows: &Vec<FilesRow>, old_selected: Option<usize>, new_rows: &Vec<FilesRow>) -> (r: Option<usize>)
    ensures
        index_opt(r) == walk_sel(rows_view(old_rows@), index_opt(old_selected), rows_view(new_rows@)),
{
    let ghost ov = rows_view(old_rows@);
    let ghost nv = rows_view(new_rows@);
    if new_rows.len() == 0 {
        return None;
    }
    let old_idx = match old_selected {
        None => {
            return Some(0);
        },
        Some(i) => i,
    };
    if old_idx < old_rows.len() {
        if let Some(i) = path_index_exec(new_rows, &old_rows[old_idx].path) {
            return Some(i);
        }
    }
    let ghost own_missing = old_idx < old_rows.len() ==> path_index(nv, ov[old_idx as int].path, 0) < 0;
    assert(own_missing);
    if old_idx < usize::MAX {
        let mut j = old_idx + 1;
        while j < old_rows.len()
            invariant
                ov == rows_view(old_rows@),
                nv == rows_view(new_rows@),
                old_idx + 1 <= j,
                forward_match(ov, nv, j as int) == forward_match(ov, nv, old_idx + 1),
                own_missing,
                old_idx < old_rows.len() ==> path_index(nv, ov[old_idx as int].path, 0) < 0,
                new_rows.len() > 0,
                old_selected == Some(old_idx),
            decreases old_rows.len() - j,
        {
            if let Some(i) = path_index_exec(new_rows, &old_rows[j].path) {
                return Some(i);
            }
            j = j + 1;
        }
    }
    assert(forward_match(ov, nv, old_idx + 1) is None);
    let mut j: usize = if old_idx < old_rows.len() {
        old_idx
    } else {
        old_rows.len()
    };
    while j > 0
        invariant
            ov == rows_view(old_rows@),
            nv == rows_view(new_rows@),
            j <= old_rows.len(),
            backward_match(ov, nv, j as int) == backward_match(
                ov,
                nv,
                if old_idx < old_rows.len() {
                    old_idx as int
                } else {
                    old_rows.len() as int
                },
            ),
            old_idx < old_rows.len() ==> path_index(nv, ov[old_idx as int].path, 0) < 0,
            forward_match(ov, nv, old_idx + 1) is None,
            new_rows.len() > 0,
            old_selected == Some(old_idx),
        decreases j,
    {
        if let Some(i) = path_index_exec(new_rows, &old_rows[j - 1].path) {
            return Some(i);
        }
        j = j - 1;
    }
    Some(0)
}


/// One dump the pane asks for.
enum DumpReq {
    Git { path: String, cached: bool },
    Difft { path: String },
    Literal { text: String },
}

spec fn req_view(r: DumpReq) -> ReqView {
    match r {
        DumpReq::Git { path, cached } => ReqView::Git { path: path@, cached },
        DumpReq::Difft { path } => ReqView::Difft { path: path@ },
        DumpReq::Literal { text } => ReqView::Literal { text: text@ },
    }
}

spec fn reqs_view(v: Seq<DumpReq>) -> Seq<ReqView> {
    v.map_values(|r: DumpReq| req_view(r))
}

fn no_changes_text(path: &String) -> (s: String)
    ensures
        s@ == no_changes(path@),
{
    let mut s = path.clone();
    push_str(&mut s, " --- no changes");
    s
}

fn file_plan(path: &String, xy: Option<(char, char)>) -> (v: Vec<DumpReq>)
    ensures
        reqs_view(v@) == file_plan_spec(path@, xy),
{
    let mut plan: Vec<DumpReq> = Vec::new();
    match xy {
        None => {
            plan.push(DumpReq::Literal { text: no_changes_text(path) });
            assert(reqs_view(plan@) =~= file_plan_spec(path@, xy));
            plan
        },
        Some(xy) => {
            if is_untracked(xy) {
                plan.push(DumpReq::Difft { path: path.clone() });
                assert(reqs_view(plan@) =~= file_plan_spec(path@, Some(xy)));
                return plan;
            }
            if has_unstaged(xy) {
                plan.push(DumpReq::Git { path: path.clone(), cached: false });
            }
            if has_staged(xy) {
                plan.push(DumpReq::Git { path: path.clone(), cached: true });
            }
            if plan.len() == 0 {
                plan.push(DumpReq::Literal { text: no_changes_text(path) });
            }
            assert(reqs_view(plan@) =~= file_plan_spec(path@, Some(xy)));
            plan
        },
    }
}

fn plans_for(files: &Vec<(String, Option<(char, char)>)>) -> (v: Vec<DumpReq>)
    ensures
        reqs_view(v@) == plans_of(paths_view(files@)),
{
    let ghost fv = paths_view(files@);
    let mut plan: Vec<DumpReq> = Vec::new();
    let mut i: usize = 0;
    assert(fv.take(0) =~= Seq::<(Seq<char>, Option<(char, char)>)>::empty());
    assert(reqs_view(plan@) =~= Seq::<ReqView>::empty());
    while i < files.len()
        invariant
            i <= files.len(),
            fv == paths_view(files@),
            reqs_view(plan@) == plans_of(fv.take(i as int)),
        decreases files.len() - i,
    {
        let more = file_plan(&files[i].0, files[i].1);
        let ghost before = reqs_view(plan@);
        let mut k: usize = 0;
        while k < more.len()
            invariant
                k <= more.len(),
                reqs_view(plan@) == before + reqs_view(more@).take(k as int),
            decreases more.len() - k,
        {
            let r = match &more[k] {
                DumpReq::Git { path, cached } => DumpReq::Git { path: path.clone(), cached: *cached },
                DumpReq::Difft { path } => DumpReq::Difft { path: path.clone() },
                DumpReq::Literal { text } => DumpReq::Literal { text: text.clone() },
            };
            let ghost b2 = reqs_view(plan@);
            plan.push(r);
            assert(reqs_view(plan@) =~= b2.push(req_view(r)));
            assert(reqs_view(more@).take(k + 1) =~= reqs_view(more@).take(k as int).push(
                req_view(more@[k as int]),
            ));
            k = k + 1;
        }
        assert(reqs_view(more@).take(more.len() as int) == reqs_view(more@));
        assert(fv.take(i + 1).drop_last() == fv.take(i as int));
        assert(fv.take(i + 1).last() == (files@[i as int].0@, files@[i as int].1));
        i = i + 1;
    }
    assert(fv.take(files.len() as int) == fv);
    plan
}

impl Session {
    fn current_plan(&self) -> (v: Vec<DumpReq>)
        ensures
            reqs_view(v@) == current_plan(self@),
    {
        let i = match self.selected {
            None => {
                let v: Vec<DumpReq> = Vec::new();
                assert(reqs_view(v@) =~= Seq::<ReqView>::empty());
                return v;
            },
            Some(i) => i,
        };
        if i >= self.rows.len() {
            let v: Vec<DumpReq> = Vec::new();
            assert(reqs_view(v@) =~= Seq::<ReqView>::empty());
            return v;
        }
        let row = &self.rows[i];
        match row.kind {
            RowKind::Directory => {
                let files = folder_stack(
                    &self.porcelain,
                    &self.ls_files,
                    self.files_mode_exec(),
                    row.path.as_str(),
                    self.query.as_str(),
                );
                if files.len() == 0 {
                    let mut v: Vec<DumpReq> = Vec::new();
                    v.push(DumpReq::Literal { text: String::from_str("no changes") });
                    assert(reqs_view(v@) =~= seq![ReqView::Literal { text: "no changes"@ }]);
                    return v;
                }
                plans_for(&files)
            },
            RowKind::File => {
                let xy = xy_of(&self.porcelain, &row.path);
                file_plan(&row.path, xy)
            },
        }
    }

    fn selected_path_owned(&self) -> (p: Option<String>)
        ensures
            string_opt(p) == selected_path_spec(self@),
    {
        match self.selected {
            Some(i) => if i < self.rows.len() {
                Some(self.rows[i].path.clone())
            } else {
                None
            },
            None => None,
        }
    }

    /// Width of the diff pane: what the files panel leaves, at least one.
    pub fn pane_width(&self) -> (w: u16)
        ensures
            w == pane_width_spec(self@.cols),
    {
        if self.cols > FILES_PANEL_COLS + 1 {
            self.cols - FILES_PANEL_COLS
        } else {
            1
        }
    }

    fn try_finish_dumps(&mut self)
        requires
            fields_ok(old(self)@),
        ensures
            final(self)@ == try_finish(old(self)@),
    {
        let ghost m = self@;
        let parts = match self.pending_dumps.take() {
            None => {
                return;
            },
            Some(parts) => parts,
        };
        let ghost pv = parts_view(parts@);
        assert(m.dumps == Some(pv));
        let mut k: usize = 0;
        while k < parts.len()
            invariant
                k <= parts.len(),
                pv == parts_view(parts@),
                m.dumps == Some(pv),
                m == old(self)@,
                self@ == (SessionModel { dumps: None, ..m }),
                fields_ok(m),
                forall|j: int| 0 <= j < k ==> !(pv[j] is Waiting),
            decreases parts.len() - k,
        {
            assert(pv[k as int] == part_view(parts@[k as int]));
            match &parts[k] {
                DumpPart::Waiting { .. } => {
                    assert(pv[k as int] is Waiting);
                    assert(any_waiting(pv));
                    self.pending_dumps = Some(parts);
                    assert(self@ == m);
                    return;
                },
                DumpPart::Ready { .. } => {},
            }
            k = k + 1;
        }
        assert(!any_waiting(pv));
        let mut texts: Vec<PaneText> = Vec::new();
        let mut j: usize = 0;
        while j < parts.len()
            invariant
                j <= parts.len(),
                pv == parts_view(parts@),
                m.dumps == Some(pv),
                self@ == (SessionModel { dumps: None, ..m }),
                fields_ok(m),
                texts_view(texts@) == pv.take(j as int).map_values(|p: PartView| part_lines(p)),
                texts_styles(texts@) == pv.take(j as int).map_values(|p: PartView| part_styles(p)),
            decreases parts.len() - j,
        {
            assert(pv[j as int] == part_view(parts@[j as int]));
            let t = match &parts[j] {
                DumpPart::Ready { text } => text.duplicate(),
                DumpPart::Waiting { .. } => PaneText::empty(),
            };
            let ghost before = texts_view(texts@);
            let ghost sbefore = texts_styles(texts@);
            texts.push(t);
            assert(texts_view(texts@) =~= before.push(t@));
            assert(texts_styles(texts@) =~= sbefore.push(t.styles()));
            assert(pv.take(j + 1).map_values(|p: PartView| part_styles(p)) =~= pv.take(
                j as int,
            ).map_values(|p: PartView| part_styles(p)).push(part_styles(pv[j as int])));
            assert(pv.take(j + 1).map_values(|p: PartView| part_lines(p)) =~= pv.take(
                j as int,
            ).map_values(|p: PartView| part_lines(p)).push(part_lines(pv[j as int])));
            j = j + 1;
        }
        assert(pv.take(parts.len() as int) == pv);
        let stacked = stack_texts(texts);
        self.set_pane(stacked);
    }

    fn request_dumps(&mut self) -> (e: Vec<Effect>)
        requires
            fields_ok(old(self)@),
        ensures
            (final(self)@, effects_view(e@)) == request_dumps(old(self)@),
    {
        reveal(request_dumps);
        let ghost m = self@;
        let path = self.selected_path_owned();
        let same = match (&path, &self.dump_scroll_path) {
            (Some(a), Some(b)) => *a == *b,
            (None, None) => true,
            _ => false,
        };
        if !same {
            self.scroll = 0;
            self.dump_scroll_path = path;
        }
        let ghost m1 = self@;
        assert(m1 == if selected_path_spec(m) != m.dump_scroll_path {
            SessionModel { scroll: 0, dump_scroll_path: selected_path_spec(m), ..m }
        } else {
            m
        });
        let width = self.pane_width();
        let plan = self.current_plan();
        let mut effects: Vec<Effect> = Vec::new();
        if plan.len() == 0 {
            self.set_pane(PaneText::empty());
            self.pending_dumps = None;
            assert(effects_view(effects@) =~= Seq::<EffectView>::empty());
            return effects;
        }
        let ghost pl = reqs_view(plan@);
        let ghost start = self.next_id;
        let mut parts: Vec<DumpPart> = Vec::new();
        let mut i: usize = 0;
        assert(pl.take(0) =~= Seq::<ReqView>::empty());
        assert(parts_view(parts@) =~= Seq::<PartView>::empty());
        assert(effects_view(effects@) =~= Seq::<EffectView>::empty());
        while i < plan.len()
            invariant
                i <= plan.len(),
                pl == reqs_view(plan@),
                width == pane_width_spec(m1.cols),
                self@ == (SessionModel { next_id: self@.next_id, ..m1 }),
                (parts_view(parts@), effects_view(effects@), self@.next_id) == plan_parts(
                    pl.take(i as int),
                    start,
                    width,
                ),
            decreases plan.len() - i,
        {
            assert(pl.take(i + 1).drop_last() == pl.take(i as int));
            assert(pl.take(i + 1).last() == req_view(plan@[i as int]));
            let ghost bp = parts_view(parts@);
            let ghost be = effects_view(effects@);
            match &plan[i] {
                DumpReq::Literal { text } => {
                    let t = text_from_string(text.clone());
                    parts.push(DumpPart::Ready { text: t });
                    assert(parts_view(parts@) =~= bp.push(PartView::Ready { lines: t@, styles: t.styles() }));
                },
                DumpReq::Git { path, cached } => {
                    let id = self.fresh_id();
                    parts.push(DumpPart::Waiting { id, fail: FailKind::Git });
                    let eff = Effect {
                        id,
                        kind: EffectKind::GitDiff { path: path.clone(), cached: *cached, width },
                    };
                    effects.push(eff);
                    assert(parts_view(parts@) =~= bp.push(PartView::Waiting { id, fail: FailKind::Git }));
                    assert(effects_view(effects@) =~= be.push(eff@));
                },
                DumpReq::Difft { path } => {
                    let id = self.fresh_id();
                    parts.push(DumpPart::Waiting { id, fail: FailKind::Difft });
                    let eff = Effect { id, kind: EffectKind::Difft { path: path.clone(), width } };
                    effects.push(eff);
                    assert(parts_view(parts@) =~= bp.push(PartView::Waiting { id, fail: FailKind::Difft }));
                    assert(effects_view(effects@) =~= be.push(eff@));
                },
            }
            i = i + 1;
        }
        assert(pl.take(plan.len() as int) == pl);
        self.pending_dumps = Some(parts);
        self.try_finish_dumps();
        effects
    }
}


pub(crate) fn copy_bytes(b: &Vec<u8>) -> (r: Vec<u8>)
    ensures
        r@ == b@,
{
    let mut out: Vec<u8> = Vec::new();
    let mut i: usize = 0;
    while i < b.len()
        invariant
            i <= b.len(),
            out@ == b@.take(i as int),
        decreases b.len() - i,
    {
        out.push(b[i]);
        assert(b@.take(i + 1) == b@.take(i as int).push(b@[i as int]));
        i = i + 1;
    }
    assert(b@.take(b.len() as int) == b@);
    out
}

impl Session {
    #[verifier::rlimit(80)]
    #[verifier::spinoff_prover]
    fn finish_list(&mut self) -> (e: Vec<Effect>)
        requires
            fields_ok(old(self)@),
            old(self)@.list is Some,
        ensures
            (final(self)@, effects_view(e@)) == finish_list(old(self)@),
            final(self).wf(),
    {
        let ghost m = self@;
        let ghost l = m.list.unwrap();
        let list = self.pending_list.take().unwrap();
        let empty: Vec<u8> = Vec::new();
        let porcelain_bytes = match &list.porcelain {
            Some(b) => copy_bytes(b),
            None => copy_bytes(&empty),
        };
        let ls_bytes = match &list.ls {
            Some(b) => copy_bytes(b),
            None => copy_bytes(&empty),
        };
        assert(porcelain_bytes@ == match l.2 {
            Some(b) => b,
            None => Seq::<u8>::empty(),
        });
        assert(ls_bytes@ == match l.3 {
            Some(b) => b,
            None => Seq::<u8>::empty(),
        });
        self.porcelain = parse_porcelain(porcelain_bytes.as_slice());
        self.ls_files = parse_ls_files(ls_bytes.as_slice());
        let ghost m1 = self@;
        assert(m1 == (SessionModel {
            list: None,
            porcelain: porcelain_entries(porcelain_bytes@),
            ls_files: ls_paths(ls_bytes@),
            ..m
        }));
        let old_rows = copy_rows(&self.rows);
        let old_selected = self.selected;
        self.rows = self.rebuilt_rows();
        self.selected = walk_selection(&old_rows, old_selected, &self.rows);
        proof {
            lemma_walk_sel(rows_view(old_rows@), index_opt(old_selected), rows_view(self.rows@));
        }
        let ghost m2 = self@;
        assert(m2 == (SessionModel {
            rows: rows_for(m1),
            selected: walk_sel(m.rows, m.selected, rows_for(m1)),
            ..m1
        }));
        let no_files = match &self.strip {
            Some(Strip::NoFilesCommitError) => true,
            _ => false,
        };
        if no_files && self.porcelain.len() > 0 {
            self.strip = None;
        }
        let ghost m3 = self@;
        assert(model_wf(m3));
        proof {
            lemma_request_dumps_frame(m3);
        }
        let effects = self.request_dumps();
        if self.open_overlay_after_refresh {
            self.open_overlay_after_refresh = false;
            self.overlay = true;
            self.field = CommitField::Summary;
            self.strip = None;
        }
        effects
    }

    fn write_failed(&mut self, child: &ChildResult)
        ensures
            final(self)@ == write_error(old(self)@, child_view(*child)).0,
    {
        let text = failure_text(child.stderr.as_slice(), child.stdout.as_slice(), child.exit, FailKind::Git);
        self.strip = Some(Strip::GitWriteError { text });
    }

    fn handle_write_result(&mut self, child: ChildResult) -> (e: Vec<Effect>)
        requires
            old(self).wf(),
        ensures
            (final(self)@, effects_view(e@)) == write_result(old(self)@, child_view(child)),
            final(self).wf(),
    {
        let kind = self.writing;
        self.writing = None;
        self.write_id = None;
        let ok = child.exit == 0;
        let none: Vec<Effect> = Vec::new();
        assert(effects_view(none@) =~= Seq::<EffectView>::empty());
        match kind {
            Some(WriteKind::Space) => {
                if ok {
                    self.start_refresh()
                } else {
                    self.write_failed(&child);
                    none
                }
            },
            Some(WriteKind::AddAll) => {
                if ok {
                    self.open_overlay_after_refresh = true;
                    self.start_refresh()
                } else {
                    self.write_failed(&child);
                    none
                }
            },
            Some(WriteKind::Commit) => {
                if ok {
                    self.overlay = false;
                    self.strip = None;
                    self.draft = CommitDraft::empty();
                    self.summary_caret = 0;
                    self.description_caret = 0;
                    self.field = CommitField::Summary;
                    self.start_refresh()
                } else {
                    self.write_failed(&child);
                    none
                }
            },
            None => none,
        }
    }

    fn fill_slot_exec(&mut self, child: &ChildResult)
        requires
            fields_ok(old(self)@),
        ensures
            final(self)@ == (match old(self)@.dumps {
                Some(parts) => SessionModel {
                    dumps: Some(fill_slot(parts, child_view(*child), pane_width_spec(old(self)@.cols))),
                    ..old(self)@
                },
                None => old(self)@,
            }),
    {
        let ghost m = self@;
        let width = self.pane_width();
        let mut parts = match self.pending_dumps.take() {
            None => {
                return;
            },
            Some(parts) => parts,
        };
        let ghost pv = parts_view(parts@);
        assert(m.dumps == Some(pv));
        let mut k: usize = 0;
        while k < parts.len()
            invariant
                k <= parts.len(),
                pv == parts_view(parts@),
                m == old(self)@,
                m.dumps == Some(pv),
                self@ == (SessionModel { dumps: None, ..m }),
                width == pane_width_spec(m.cols),
                waiting_index(pv, child.id, k as int) == waiting_index(pv, child.id, 0),
            decreases parts.len() - k,
        {
            assert(pv[k as int] == part_view(parts@[k as int]));
            let hit = match &parts[k] {
                DumpPart::Waiting { id, fail } => if *id == child.id {
                    Some(*fail)
                } else {
                    None
                },
                DumpPart::Ready { .. } => None,
            };
            if let Some(fail) = hit {
                let text = if child.exit == 0 {
                    bytes_to_text(&child.stdout, width)
                } else {
                    text_from_string(
                        failure_text(child.stderr.as_slice(), child.stdout.as_slice(), child.exit, fail),
                    )
                };
                let ghost t = text@;
                let ghost ts = text.styles();
                let ghost before = parts@;
                parts.set(k, DumpPart::Ready { text });
                proof {
                    assert(parts_view(parts@) =~= pv.update(
                        k as int,
                        PartView::Ready { lines: t, styles: ts },
                    ));
                }
                self.pending_dumps = Some(parts);
                return;
            }
            k = k + 1;
        }
        self.pending_dumps = Some(parts);
    }

    fn handle_child(&mut self, child: ChildResult) -> (e: Vec<Effect>)
        requires
            old(self).wf(),
        ensures
            (final(self)@, effects_view(e@)) == child_step(old(self)@, child_view(child)),
            final(self).wf(),
    {
        let ghost m = self@;
        let none: Vec<Effect> = Vec::new();
        assert(effects_view(none@) =~= Seq::<EffectView>::empty());
        let is_write = match self.write_id {
            Some(w) => w == child.id,
            None => false,
        };
        if is_write {
            return self.handle_write_result(child);
        }
        if self.pending_list.is_some() {
            let mut list = self.pending_list.take().unwrap();
            if child.id == list.porcelain_id {
                list.porcelain = Some(child.stdout);
            } else if child.id == list.ls_id {
                list.ls = Some(child.stdout);
            }
            let done = list.porcelain.is_some() && list.ls.is_some();
            self.pending_list = Some(list);
            if done {
                return self.finish_list();
            }
            return none;
        }
        self.fill_slot_exec(&child);
        self.try_finish_dumps();
        none
    }
}


fn without_string(v: &Vec<String>, p: &String) -> (r: Vec<String>)
    ensures
        strings_view(r@) == without(strings_view(v@), p@),
{
    let ghost sv = strings_view(v@);
    let mut out: Vec<String> = Vec::new();
    let mut i: usize = 0;
    assert(sv.take(0) =~= Seq::<Seq<char>>::empty());
    assert(strings_view(out@) =~= Seq::<Seq<char>>::empty());
    while i < v.len()
        invariant
            i <= v.len(),
            sv == strings_view(v@),
            strings_view(out@) == without(sv.take(i as int), p@),
        decreases v.len() - i,
    {
        assert(sv.take(i + 1).drop_last() == sv.take(i as int));
        assert(sv.take(i + 1).last() == v@[i as int]@);
        if v[i] != *p {
            let ghost before = strings_view(out@);
            out.push(v[i].clone());
            assert(strings_view(out@) =~= before.push(v@[i as int]@));
        }
        i = i + 1;
    }
    assert(sv.take(v.len() as int) == sv);
    out
}

fn is_blank(s: &String) -> (b: bool)
    ensures
        b == blank(s@),
{
    let v = chars_of(s.as_str());
    let mut i: usize = 0;
    while i < v.len()
        invariant
            i <= v.len(),
            v@ == s@,
            forall|k: int| 0 <= k < i ==> whitespace(#[trigger] v@[k]),
        decreases v.len() - i,
    {
        if !is_whitespace(v[i]) {
            return false;
        }
        i = i + 1;
    }
    true
}

impl Session {
    fn page(&self) -> (p: u16)
        requires
            fields_ok(self@),
        ensures
            p == page(self@),
    {
        max1_16(sat_sub16(sat_sub16(self.term_rows, 2), self.overlay_height()))
    }

    fn field_width(&self) -> (w: u16)
        ensures
            w == field_width_spec(self@),
    {
        max1_16(sat_sub16(self.cols, 2))
    }

    fn scroll_diff(&mut self, delta: isize)
        requires
            fields_ok(old(self)@),
            -70000 <= delta <= 70000,
        ensures
            final(self)@ == scroll_diff(old(self)@, delta as int),
    {
        let next: isize = self.scroll as isize + delta;
        let c: isize = if next < 0 {
            0
        } else if next > 2147483647 {
            2147483647
        } else {
            next
        };
        #[verifier::truncate]
        let s = c as u16;
        self.scroll = s;
        self.clamp_scroll();
    }

    fn quit(&mut self) -> (e: Vec<Effect>)
        ensures
            (final(self)@, effects_view(e@)) == quit(old(self)@),
    {
        let id = self.fresh_id();
        let mut e: Vec<Effect> = Vec::new();
        e.push(Effect { id, kind: EffectKind::Quit });
        assert(effects_view(e@) =~= quit(old(self)@).1);
        e
    }

    fn begin_write(&mut self, w: WriteKind, kind: EffectKind) -> (e: Vec<Effect>)
        ensures
            (final(self)@, effects_view(e@)) == begin_write(old(self)@, w, kind@),
    {
        let id = self.fresh_id();
        self.writing = Some(w);
        self.write_id = Some(id);
        let mut e: Vec<Effect> = Vec::new();
        e.push(Effect { id, kind });
        assert(effects_view(e@) =~= begin_write(old(self)@, w, kind@).1);
        e
    }

    fn select(&mut self, index: Option<usize>) -> (e: Vec<Effect>)
        requires
            old(self).wf(),
            index matches Some(i) ==> i < old(self)@.rows.len(),
            index is Some,
        ensures
            (final(self)@, effects_view(e@)) == select(old(self)@, index_opt(index)),
            final(self).wf(),
    {
        self.selected = index;
        proof {
            lemma_request_dumps_frame(self@);
        }
        self.request_dumps()
    }

    fn move_or_scroll(&mut self, delta: isize) -> (e: Vec<Effect>)
        requires
            old(self).wf(),
            delta == 1 || delta == -1,
        ensures
            (final(self)@, effects_view(e@)) == move_or_scroll(old(self)@, delta as int),
            final(self).wf(),
    {
        let none: Vec<Effect> = Vec::new();
        assert(effects_view(none@) =~= Seq::<EffectView>::empty());
        if self.focus == Focus::Diff {
            self.scroll_diff(delta);
            return none;
        }
        let idx = match self.selected {
            None => {
                if self.rows.len() > 0 {
                    return self.select(Some(0));
                }
                return none;
            },
            Some(i) => i,
        };
        let n = self.rows.len();
        if n == 0 {
            return none;
        }
        let next = if delta < 0 {
            if idx == 0 {
                0
            } else if idx - 1 > n - 1 {
                n - 1
            } else {
                idx - 1
            }
        } else {
            if idx >= n - 1 {
                n - 1
            } else {
                idx + 1
            }
        };
        if next == idx {
            none
        } else {
            self.select(Some(next))
        }
    }

    fn toggle_fold(&mut self) -> (e: Vec<Effect>)
        requires
            old(self).wf(),
        ensures
            (final(self)@, effects_view(e@)) == toggle_fold(old(self)@),
            final(self).wf(),
    {
        let none: Vec<Effect> = Vec::new();
        assert(effects_view(none@) =~= Seq::<EffectView>::empty());
        let i = match self.selected {
            Some(i) => i,
            None => {
                return none;
            },
        };
        if i >= self.rows.len() {
            return none;
        }
        let is_dir = match self.rows[i].kind {
            RowKind::Directory => true,
            RowKind::File => false,
        };
        if !is_dir {
            return none;
        }
        let path = self.rows[i].path.clone();
        if contains_string(&self.collapsed, &path) {
            self.collapsed = without_string(&self.collapsed, &path);
        } else {
            self.collapsed.push(path);
            assert(strings_view(self.collapsed@) =~= strings_view(old(self).collapsed@).push(path@));
        }
        self.rebuild_keep();
        none
    }

    fn toggle_scope(&mut self) -> (e: Vec<Effect>)
        requires
            old(self).wf(),
        ensures
            (final(self)@, effects_view(e@)) == toggle_scope(old(self)@),
            final(self).wf(),
    {
        self.all_files = !self.all_files;
        self.rebuild_keep();
        proof {
            lemma_request_dumps_frame(self@);
        }
        self.request_dumps()
    }

    fn toggle_shape(&mut self) -> (e: Vec<Effect>)
        requires
            old(self).wf(),
        ensures
            (final(self)@, effects_view(e@)) == toggle_shape(old(self)@),
            final(self).wf(),
    {
        if self.all_files {
            let none: Vec<Effect> = Vec::new();
            assert(effects_view(none@) =~= Seq::<EffectView>::empty());
            return none;
        }
        self.tree = !self.tree;
        self.rebuild_keep();
        proof {
            lemma_request_dumps_frame(self@);
        }
        self.request_dumps()
    }

    fn stage_selected(&mut self) -> (e: Vec<Effect>)
        requires
            old(self).wf(),
        ensures
            (final(self)@, effects_view(e@)) == stage_selected(old(self)@),
            final(self).wf(),
    {
        let none: Vec<Effect> = Vec::new();
        assert(effects_view(none@) =~= Seq::<EffectView>::empty());
        let i = match self.selected {
            Some(i) => i,
            None => {
                return none;
            },
        };
        if i >= self.rows.len() {
            return none;
        }
        let is_file = match self.rows[i].kind {
            RowKind::File => true,
            RowKind::Directory => false,
        };
        if !is_file {
            return none;
        }
        let path = self.rows[i].path.clone();
        let xy = match xy_of(&self.porcelain, &path) {
            Some(xy) => xy,
            None => {
                return none;
            },
        };
        let kind = if has_unstaged(xy) {
            EffectKind::GitAdd { path }
        } else if is_in_head(xy) {
            EffectKind::GitReset { path }
        } else {
            EffectKind::GitRmCached { path }
        };
        self.begin_write(WriteKind::Space, kind)
    }

    fn open_commit(&mut self)
        requires
            old(self).wf(),
        ensures
            final(self)@ == open_commit(old(self)@),
            final(self).wf(),
    {
        if self.porcelain.len() == 0 {
            self.strip = Some(Strip::NoFilesCommitError);
            return;
        }
        let ghost pv = entries_view(self.porcelain@);
        let mut staged = false;
        let mut k: usize = 0;
        while k < self.porcelain.len()
            invariant
                k <= self.porcelain.len(),
                pv == entries_view(self.porcelain@),
                staged == exists|j: int| 0 <= j < k && staged_spec(#[trigger] pv[j].0),
            decreases self.porcelain.len() - k,
        {
            if has_staged(self.porcelain[k].xy) {
                assert(staged_spec(pv[k as int].0));
                staged = true;
            }
            k = k + 1;
        }
        if !staged {
            self.strip = Some(Strip::NothingStagedConfirm);
            return;
        }
        self.overlay = true;
        self.field = CommitField::Summary;
    }

    fn try_commit(&mut self) -> (e: Vec<Effect>)
        requires
            old(self).wf(),
        ensures
            (final(self)@, effects_view(e@)) == try_commit(old(self)@),
            final(self).wf(),
    {
        if is_blank(&self.draft.summary) {
            self.strip = Some(Strip::EmptySummaryRefusal);
            let none: Vec<Effect> = Vec::new();
            assert(effects_view(none@) =~= Seq::<EffectView>::empty());
            return none;
        }
        self.strip = None;
        let summary = self.draft.summary.clone();
        let description = self.draft.description.clone();
        self.begin_write(WriteKind::Commit, EffectKind::GitCommit { summary, description })
    }
}


impl Session {
    fn strip_key(&mut self, key: Key) -> (e: Vec<Effect>)
        requires
            old(self).wf(),
            strip_takes(old(self)@),
        ensures
            (final(self)@, effects_view(e@)) == strip_key(old(self)@, key),
            final(self).wf(),
    {
        let none: Vec<Effect> = Vec::new();
        assert(effects_view(none@) =~= Seq::<EffectView>::empty());
        let confirm = match &self.strip {
            Some(Strip::NothingStagedConfirm) => true,
            _ => false,
        };
        if confirm {
            if key == (Key::Char { c: 'y', ctrl: false }) || key == (Key::Enter { ctrl: false }) {
                return self.begin_write(WriteKind::AddAll, EffectKind::GitAddAll);
            } else if key == (Key::Char { c: 'n', ctrl: false }) || key == Key::Esc {
                self.strip = None;
                return none;
            } else if key == (Key::Char { c: 'r', ctrl: false }) {
                return self.start_refresh();
            } else {
                return none;
            }
        }
        if key == Key::Esc || key == (Key::Enter { ctrl: false }) {
            self.strip = None;
            none
        } else if key == (Key::Char { c: 'r', ctrl: false }) {
            self.start_refresh()
        } else {
            none
        }
    }

    fn rest_key(&mut self, key: Key) -> (e: Vec<Effect>)
        requires
            old(self).wf(),
        ensures
            (final(self)@, effects_view(e@)) == rest_key(old(self)@, key),
            final(self).wf(),
    {
        let none: Vec<Effect> = Vec::new();
        assert(effects_view(none@) =~= Seq::<EffectView>::empty());
        if key == (Key::Char { c: 'q', ctrl: false }) {
            self.quit()
        } else if key == (Key::Char { c: 'j', ctrl: false }) || key == Key::Down {
            self.move_or_scroll(1)
        } else if key == (Key::Char { c: 'k', ctrl: false }) || key == Key::Up {
            self.move_or_scroll(-1)
        } else if key == Key::Left || key == (Key::Char { c: 'h', ctrl: false }) || key
            == Key::Right || key == (Key::Char { c: 'l', ctrl: false }) || key == (Key::Enter {
            ctrl: false,
        }) {
            self.toggle_fold()
        } else if key == Key::Tab {
            self.focus = match self.focus {
                Focus::Files => Focus::Diff,
                Focus::Diff => Focus::Files,
            };
            none
        } else if key == (Key::Char { c: 'f', ctrl: false }) {
            self.toggle_scope()
        } else if key == (Key::Char { c: '`', ctrl: false }) || key == (Key::Char {
            c: 't',
            ctrl: false,
        }) {
            self.toggle_shape()
        } else if key == (Key::Char { c: '/', ctrl: false }) {
            self.search_open = true;
            self.query_caret = char_len(self.query.as_str());
            none
        } else if key == (Key::Char { c: ' ', ctrl: false }) {
            self.stage_selected()
        } else if key == (Key::Char { c: 'c', ctrl: false }) {
            self.open_commit();
            none
        } else if key == (Key::Char { c: 'r', ctrl: false }) {
            self.start_refresh()
        } else {
            none
        }
    }

    fn requery(&mut self) -> (e: Vec<Effect>)
        requires
            fields_ok(old(self)@),
        ensures
            (final(self)@, effects_view(e@)) == request_dumps(rebuild_keep(old(self)@)),
            final(self).wf(),
    {
        self.rebuild_keep();
        proof {
            lemma_request_dumps_frame(self@);
        }
        self.request_dumps()
    }

    fn search_clear(&mut self) -> (e: Vec<Effect>)
        requires
            old(self).wf(),
        ensures
            (final(self)@, effects_view(e@)) == request_dumps(
                rebuild_keep(
                    SessionModel {
                        search_open: false,
                        query: Seq::empty(),
                        query_caret: 0,
                        ..old(self)@
                    },
                ),
            ),
            final(self).wf(),
    {
        self.search_open = false;
        self.query = String::new();
        self.query_caret = 0;
        self.requery()
    }

    fn search_backspace(&mut self) -> (e: Vec<Effect>)
        requires
            old(self).wf(),
        ensures
            (final(self)@, effects_view(e@)) == request_dumps(
                rebuild_keep(
                    SessionModel {
                        query: backspaced(old(self)@.query, old(self)@.query_caret).0,
                        query_caret: backspaced(old(self)@.query, old(self)@.query_caret).1,
                        ..old(self)@
                    },
                ),
            ),
            final(self).wf(),
    {
        delete_before(&mut self.query, &mut self.query_caret);
        self.requery()
    }

    fn search_delete(&mut self) -> (e: Vec<Effect>)
        requires
            old(self).wf(),
        ensures
            (final(self)@, effects_view(e@)) == request_dumps(
                rebuild_keep(
                    SessionModel {
                        query: remove_at(old(self)@.query, old(self)@.query_caret),
                        ..old(self)@
                    },
                ),
            ),
            final(self).wf(),
    {
        delete_after(&mut self.query, self.query_caret);
        self.requery()
    }

    fn search_type(&mut self, c: char) -> (e: Vec<Effect>)
        requires
            old(self).wf(),
        ensures
            (final(self)@, effects_view(e@)) == request_dumps(
                rebuild_keep(
                    SessionModel {
                        query: typed(old(self)@.query, old(self)@.query_caret, c).0,
                        query_caret: typed(old(self)@.query, old(self)@.query_caret, c).1,
                        ..old(self)@
                    },
                ),
            ),
            final(self).wf(),
    {
        if char_len(self.query.as_str()) < usize::MAX - 3 {
            insert_char(&mut self.query, &mut self.query_caret, c);
        }
        self.requery()
    }

    fn search_key(&mut self, key: Key) -> (e: Vec<Effect>)
        requires
            old(self).wf(),
        ensures
            (final(self)@, effects_view(e@)) == search_key(old(self)@, key),
            final(self).wf(),
    {
        let none: Vec<Effect> = Vec::new();
        assert(effects_view(none@) =~= Seq::<EffectView>::empty());
        match key {
            Key::Enter { ctrl: false } => {
                self.search_open = false;
                none
            },
            Key::Esc => self.search_clear(),
            Key::Backspace => self.search_backspace(),
            Key::Delete => self.search_delete(),
            Key::Left => {
                let n = char_len(self.query.as_str());
                move_caret(&mut self.query_caret, n, -1);
                none
            },
            Key::Right => {
                let n = char_len(self.query.as_str());
                move_caret(&mut self.query_caret, n, 1);
                none
            },
            Key::Char { c, ctrl: false } => self.search_type(c),
            _ => none,
        }
    }

    fn type_in_field(&mut self, c: char)
        requires
            old(self).wf(),
        ensures
            final(self)@ == type_in_field(old(self)@, c),
            final(self).wf(),
    {
        match self.field {
            CommitField::Summary => {
                if char_len(self.draft.summary.as_str()) < usize::MAX - 3 {
                    insert_char(&mut self.draft.summary, &mut self.summary_caret, c);
                }
            },
            CommitField::Description => {
                if char_len(self.draft.description.as_str()) < usize::MAX - 3 {
                    insert_char(&mut self.draft.description, &mut self.description_caret, c);
                }
            },
        }
    }

    fn overlay_key(&mut self, key: Key) -> (e: Vec<Effect>)
        requires
            old(self).wf(),
        ensures
            (final(self)@, effects_view(e@)) == overlay_key(old(self)@, key),
            final(self).wf(),
    {
        let none: Vec<Effect> = Vec::new();
        assert(effects_view(none@) =~= Seq::<EffectView>::empty());
        match key {
            Key::Esc => {
                self.overlay = false;
                self.strip = None;
                none
            },
            Key::Tab => {
                self.field = match self.field {
                    CommitField::Summary => CommitField::Description,
                    CommitField::Description => CommitField::Summary,
                };
                none
            },
            Key::Enter { ctrl: true } => self.try_commit(),
            Key::Char { c, ctrl: true } => {
                if c == 's' || c == 'S' {
                    self.try_commit()
                } else {
                    none
                }
            },
            Key::Enter { ctrl: false } => {
                match self.field {
                    CommitField::Summary => self.try_commit(),
                    CommitField::Description => {
                        self.type_in_field('\n');
                        none
                    },
                }
            },
            Key::Backspace => {
                match self.field {
                    CommitField::Summary => delete_before(
                        &mut self.draft.summary,
                        &mut self.summary_caret,
                    ),
                    CommitField::Description => delete_before(
                        &mut self.draft.description,
                        &mut self.description_caret,
                    ),
                }
                none
            },
            Key::Delete => {
                match self.field {
                    CommitField::Summary => delete_after(&mut self.draft.summary, self.summary_caret),
                    CommitField::Description => delete_after(
                        &mut self.draft.description,
                        self.description_caret,
                    ),
                }
                none
            },
            Key::Left => {
                self.nudge(-1);
                none
            },
            Key::Right => {
                self.nudge(1);
                none
            },
            Key::Up => {
                self.vertical(-1);
                none
            },
            Key::Down => {
                self.vertical(1);
                none
            },
            Key::Char { c, ctrl: false } => {
                self.type_in_field(c);
                none
            },
            _ => none,
        }
    }

    fn nudge(&mut self, delta: isize)
        requires
            old(self).wf(),
        ensures
            final(self)@ == nudge(old(self)@, delta as int),
            final(self).wf(),
    {
        match self.field {
            CommitField::Summary => {
                let n = char_len(self.draft.summary.as_str());
                move_caret(&mut self.summary_caret, n, delta);
            },
            CommitField::Description => {
                let n = char_len(self.draft.description.as_str());
                move_caret(&mut self.description_caret, n, delta);
            },
        }
    }

    fn vertical(&mut self, dy: isize)
        requires
            old(self).wf(),
        ensures
            final(self)@ == vertical(old(self)@, dy as int),
            final(self).wf(),
    {
        if self.field == CommitField::Description {
            let w = self.field_width();
            self.description_caret = move_caret_vert(
                self.draft.description.as_str(),
                self.description_caret,
                w,
                dy,
            );
        }
    }

    fn handle_key(&mut self, key: Key) -> (e: Vec<Effect>)
        requires
            old(self).wf(),
        ensures
            (final(self)@, effects_view(e@)) == key_step(old(self)@, key),
            final(self).wf(),
    {
        if key == (Key::Char { c: 'c', ctrl: true }) {
            return self.quit();
        }
        let none: Vec<Effect> = Vec::new();
        assert(effects_view(none@) =~= Seq::<EffectView>::empty());
        if key == Key::PageDown {
            let p = self.page();
            self.scroll_diff(p as isize);
            return none;
        }
        if key == Key::PageUp {
            let p = self.page();
            self.scroll_diff(-(p as isize));
            return none;
        }
        if self.overlay {
            return self.overlay_key(key);
        }
        if self.search_open {
            return self.search_key(key);
        }
        let takes = match &self.strip {
            Some(Strip::NothingStagedConfirm) => true,
            Some(Strip::NoFilesCommitError) => true,
            Some(Strip::GitWriteError { .. }) => !self.overlay,
            _ => false,
        };
        if takes {
            return self.strip_key(key);
        }
        if self.screen_inert() {
            if key == (Key::Char { c: 'r', ctrl: false }) {
                return self.start_refresh();
            }
            return none;
        }
        self.rest_key(key)
    }

    fn screen_inert(&self) -> (b: bool)
        ensures
            b == inert(self@),
    {
        match &self.strip {
            Some(Strip::EmptySummaryRefusal) => false,
            Some(_) => true,
            None => false,
        }
    }

    fn handle_mouse(&mut self, hit: MouseHit) -> (e: Vec<Effect>)
        requires
            old(self).wf(),
        ensures
            (final(self)@, effects_view(e@)) == mouse_step(old(self)@, hit),
            final(self).wf(),
    {
        let none: Vec<Effect> = Vec::new();
        assert(effects_view(none@) =~= Seq::<EffectView>::empty());
        if self.screen_inert() {
            return none;
        }
        match hit {
            MouseHit::Files { index } => {
                if self.search_open {
                    return none;
                }
                if index < self.rows.len() {
                    self.select(Some(index))
                } else {
                    none
                }
            },
            MouseHit::Search { col } => {
                if self.search_open {
                    self.query_caret = caret_on_line(self.query.as_str(), col);
                }
                none
            },
            MouseHit::Summary { col } => {
                if self.overlay {
                    self.field = CommitField::Summary;
                    self.summary_caret = caret_on_line(self.draft.summary.as_str(), col);
                }
                none
            },
            MouseHit::Description { col, row } => {
                if self.overlay {
                    self.field = CommitField::Description;
                    let w = self.field_width();
                    self.description_caret = caret_in_wrapped(
                        self.draft.description.as_str(),
                        col,
                        row,
                        w,
                    );
                }
                none
            },
        }
    }

    fn handle(&mut self, event: Event) -> (e: Vec<Effect>)
        requires
            old(self).wf(),
        ensures
            (final(self)@, effects_view(e@)) == step(old(self)@, event),
            final(self).wf(),
    {
        match event {
            Event::Key(key) => self.handle_key(key),
            Event::Mouse(hit) => self.handle_mouse(hit),
            Event::Tick => {
                if self.poll_paused() {
                    let none: Vec<Effect> = Vec::new();
                    assert(effects_view(none@) =~= Seq::<EffectView>::empty());
                    none
                } else {
                    self.start_refresh()
                }
            },
            Event::Resize { cols, rows } => {
                let old_width = self.pane_width();
                self.cols = cols;
                self.term_rows = rows;
                if self.pane_width() != old_width {
                    proof {
                        lemma_request_dumps_frame(self@);
                    }
                    self.request_dumps()
                } else {
                    let none: Vec<Effect> = Vec::new();
                    assert(effects_view(none@) =~= Seq::<EffectView>::empty());
                    none
                }
            },
            Event::Child(child) => self.handle_child(child),
        }
    }

    /// Whether the periodic refresh waits: a write, a refresh or dumps in
    /// flight, or the overlay, the search prompt or a strip open.
    pub fn poll_paused(&self) -> (b: bool)
        ensures
            b == paused(self@),
    {
        self.writing.is_some() || self.pending_list.is_some() || self.pending_dumps.is_some()
            || self.overlay || self.search_open || self.strip.is_some()
    }
}

/// One event in: the next session and the effects it asks for.
pub fn apply(session: Session, event: Event) -> (r: (Session, Vec<Effect>))
    requires
        session.wf(),
    ensures
        (r.0@, effects_view(r.1@)) == step(session@, event),
        r.0.wf(),
{
    let mut session = session;
    let effects = session.handle(event);
    (session, effects)
}


impl Session {
    /// A new session and the refresh it starts with.
    pub fn boot(cols: u16, rows: u16) -> (r: (Session, Vec<Effect>))
        ensures
            r.0.wf(),
            (r.0@, effects_view(r.1@)) == refresh(initial_model(cols, rows)),
    {
        let mut session = Session {
            cols,
            term_rows: rows,
            focus: Focus::Files,
            all_files: false,
            tree: false,
            porcelain: Vec::new(),
            ls_files: Vec::new(),
            collapsed: Vec::new(),
            rows: Vec::new(),
            selected: None,
            scroll: 0,
            dump_scroll_path: None,
            pane_body: String::new(),
            pane_text: PaneText::empty(),
            pane_lines: 0,
            next_id: 1,
            pending_list: None,
            pending_dumps: None,
            strip: None,
            overlay: false,
            search_open: false,
            query: String::new(),
            query_caret: 0,
            draft: CommitDraft::empty(),
            field: CommitField::Summary,
            summary_caret: 0,
            description_caret: 0,
            writing: None,
            write_id: None,
            open_overlay_after_refresh: false,
        };
        proof {
            assert(entries_view(session.porcelain@) =~= Seq::<crate::files::EntryView>::empty());
            assert(strings_view(session.ls_files@) =~= Seq::<Seq<char>>::empty());
            assert(strings_view(session.collapsed@) =~= Seq::<Seq<char>>::empty());
            assert(rows_view(session.rows@) =~= Seq::<RowView>::empty());
            assert(session@ =~= initial_model(cols, rows));
            assert(crate::files::flat_rows(Seq::empty(), Seq::empty(), FILES_PANEL_COLS as int)
                =~= Seq::<RowView>::empty());
        }
        let effects = session.start_refresh();
        (session, effects)
    }

    pub fn files_rows(&self) -> (r: &[FilesRow])
        ensures
            rows_view(r@) == self@.rows,
    {
        self.rows.as_slice()
    }

    pub fn selected_index(&self) -> (r: Option<usize>)
        ensures
            index_opt(r) == self@.selected,
    {
        self.selected
    }

    pub fn selected_path(&self) -> (r: Option<&str>)
        ensures
            match r {
                Some(p) => selected_path_spec(self@) == Some(p@),
                None => selected_path_spec(self@) is None,
            },
    {
        match self.selected {
            Some(i) => if i < self.rows.len() {
                Some(self.rows[i].path.as_str())
            } else {
                None
            },
            None => None,
        }
    }

    pub fn focus(&self) -> (f: Focus)
        ensures
            f == self@.focus,
    {
        self.focus
    }

    pub fn files_mode(&self) -> (m: FilesMode)
        ensures
            m == mode_of(self@),
    {
        self.files_mode_exec()
    }

    pub fn diff_scroll(&self) -> (s: u16)
        ensures
            s == self@.scroll,
    {
        self.scroll
    }

    pub fn pane_body(&self) -> (s: &str)
        ensures
            s@ == self@.pane_body,
    {
        self.pane_body.as_str()
    }

    pub fn pane_text(&self) -> (t: &PaneText)
        ensures
            t@ == self@.pane,
    {
        &self.pane_text
    }

    pub fn dumps_pending(&self) -> (b: bool)
        ensures
            b == self@.dumps is Some,
    {
        self.pending_dumps.is_some()
    }

    pub fn strip(&self) -> (s: Option<&Strip>)
        ensures
            match s {
                Some(s) => self@.strip == Some(s@),
                None => self@.strip is None,
            },
    {
        match &self.strip {
            Some(s) => Some(s),
            None => None,
        }
    }

    pub fn search_query(&self) -> (q: &str)
        ensures
            q@ == self@.query,
    {
        self.query.as_str()
    }

    pub fn search_open(&self) -> (b: bool)
        ensures
            b == self@.search_open,
    {
        self.search_open
    }

    pub fn overlay_open(&self) -> (b: bool)
        ensures
            b == self@.overlay,
    {
        self.overlay
    }

    pub fn draft(&self) -> (d: &CommitDraft)
        ensures
            d.summary@ == self@.summary,
            d.description@ == self@.description,
    {
        &self.draft
    }

    pub fn commit_field(&self) -> (f: Option<CommitField>)
        ensures
            f == (if self@.overlay {
                Some(self@.field)
            } else {
                None
            }),
    {
        if self.overlay {
            Some(self.field)
        } else {
            None
        }
    }

    /// The caret of the open field: the search prompt, else the focused
    /// commit field, else zero.
    pub fn caret(&self) -> (c: usize)
        ensures
            c == caret_spec(self@),
    {
        if self.search_open {
            return self.query_caret;
        }
        if self.overlay {
            return match self.field {
                CommitField::Summary => self.summary_caret,
                CommitField::Description => self.description_caret,
            };
        }
        0
    }

    /// Columns of the files panel: 28, or what the terminal has short of one.
    pub fn files_panel_cols(&self) -> (c: u16)
        ensures
            c == (if FILES_PANEL_COLS <= max1(sat_sub(self@.cols, 1)) {
                FILES_PANEL_COLS
            } else {
                max1(sat_sub(self@.cols, 1))
            }),
    {
        let room = max1_16(sat_sub16(self.cols, 1));
        if FILES_PANEL_COLS <= room {
            FILES_PANEL_COLS
        } else {
            room
        }
    }

    pub fn strip_text(&self) -> (t: Option<String>)
        ensures
            string_opt(t) == strip_text_spec(self@.strip),
    {
        match &self.strip {
            Some(Strip::NothingStagedConfirm) => Some(
                String::from_str("Nothing staged. Stage all changes and commit?"),
            ),
            Some(Strip::NoFilesCommitError) => Some(String::from_str("No files to commit.")),
            Some(Strip::EmptySummaryRefusal) => Some(String::from_str("Commit summary is required.")),
            Some(Strip::GitWriteError { text }) => Some(text.clone()),
            None => None,
        }
    }

    pub fn footer_text(&self) -> (t: String)
        ensures
            t@ == footer_spec(self@),
    {
        let mut s = String::new();
        if self.search_open {
            push_str(&mut s, " /");
            push_str(&mut s, self.query.as_str());
            push_str(&mut s, "_  enter keep  esc clear ");
            return s;
        }
        let mut keys = String::new();
        match self.focus {
            Focus::Files => push_str(&mut keys, "j/k move"),
            Focus::Diff => push_str(&mut keys, "j/k scroll"),
        }
        push_str(
            &mut keys,
            "  h/l fold  f all/changed  ` tree/flat  / search  tab focus  space stage  c commit  r refresh  q quit",
        );
        let n = self.rows.len() as u64;
        if self.query.unicode_len() > 0 {
            push_str(&mut s, " /");
            push_str(&mut s, self.query.as_str());
            push_str(&mut s, "  ");
        } else {
            push_str(&mut s, " ");
        }
        push_decimal(&mut s, n);
        push_str(&mut s, " rows  ");
        push_str(&mut s, keys.as_str());
        push_str(&mut s, " ");
        s
    }
}

} // verus!
