//! What holds of the session across steps, for every state that it can
//! be in.

use crate::caret::{insert_at, remove_at};
use crate::dump::{failure_spec, no_style, FailKind, PaneStyle};
use crate::event::{ChildResult, CommitField, Event, Key, MouseHit};
use crate::files::{
    all_paths, dedup, entry_paths, filter_matches, flat_row, flat_rows, xy_in, EntryView,
    staged_spec as staged, untracked_spec as untracked,
};
use crate::text::{contains_seq, lower_seq, occurs_at};
use crate::files::{
    insert_sorted, node_before, seq_less, slot_from, sort_each, sort_siblings, sorted_tree, NodeView,
    RowView,
};
use crate::model::{
    blank, bump, field_bound, fields_ok, inert, lemma_request_dumps_frame, mode_of, model_wf,
    path_index, paused, plan_parts, rebuild_keep, refresh, request_dumps, rows_for, step,
    strip_takes, walk_sel, EffectView, KindView, ReqView, SessionModel, StripView, WriteKind,
};
use vstd::prelude::*;

verus! {

/// Only a resize changes the terminal's columns; so the pane width (what
/// the 28-column files panel leaves, at least one) follows the last resize.
pub proof fn law_cols_follow_resize(m: SessionModel, e: Event)
    ensures
        e matches Event::Resize { cols, .. } ==> step(m, e).0.cols == cols,
        !(e is Resize) ==> step(m, e).0.cols == m.cols,
        crate::model::pane_width_spec(step(m, e).0.cols) == match e {
            Event::Resize { cols, .. } => crate::model::pane_width_spec(cols),
            _ => crate::model::pane_width_spec(m.cols),
        },
{
    match e {
        Event::Key(k) => {
            lemma_key_ids(m, k);
        },
        Event::Mouse(hit) => {
            match hit {
                MouseHit::Files { index } => {
                    lemma_dump_ids(SessionModel { selected: Some(index as int), ..m });
                },
                _ => {},
            }
        },
        Event::Child(c) => {
            lemma_child_ids(m, crate::model::child_view(c));
        },
        Event::Resize { cols, rows } => {
            lemma_dump_ids(SessionModel { cols, term_rows: rows, ..m });
        },
        Event::Tick => {},
    }
}

proof fn lemma_plan_waiting(plan: Seq<ReqView>, id: u64, width: u16)
    ensures
        plan_parts(plan, id, width).1.len() > 0 <==> crate::model::any_waiting(
            plan_parts(plan, id, width).0,
        ),
        plan_parts(plan, id, width).0.len() == plan.len(),
    decreases plan.len(),
{
    if plan.len() > 0 {
        lemma_plan_waiting(plan.drop_last(), id, width);
        let prev = plan_parts(plan.drop_last(), id, width);
        let r = plan_parts(plan, id, width);
        assert(r.0.drop_last() == prev.0);
        if crate::model::any_waiting(prev.0) {
            let k = choose|k: int| 0 <= k < prev.0.len() && prev.0[k] is Waiting;
            assert(r.0[k] == prev.0[k]);
        }
        if crate::model::any_waiting(r.0) {
            let k = choose|k: int| 0 <= k < r.0.len() && r.0[k] is Waiting;
            if k < prev.0.len() {
                assert(r.0[k] == prev.0[k]);
            }
        }
        match plan.last() {
            ReqView::Literal { .. } => {},
            _ => {
                assert(r.0[r.0.len() - 1] is Waiting);
            },
        }
    }
}

/// Asking for the selection's dumps: every effect is a dump at the pane
/// width, with the next ids in turn; the slots wait exactly when something
/// was asked for; with no row selected nothing is asked and the pane is
/// empty.
pub proof fn law_request_dumps(m: SessionModel)
    ensures
        ids_in_turn(request_dumps(m).1, m.next_id, request_dumps(m).0.next_id),
        dumps_at(request_dumps(m).1, crate::model::pane_width_spec(m.cols)),
        forall|i: int|
            0 <= i < request_dumps(m).1.len() ==> #[trigger] dump_width(
                request_dumps(m).1[i].kind,
            ) is Some,
        request_dumps(m).0.dumps is Some <==> request_dumps(m).1.len() > 0,
        crate::model::selected_row(m) is None ==> request_dumps(m).1.len() == 0
            && request_dumps(m).0.pane.len() == 0 && request_dumps(m).0.pane_body.len() == 0,
{
    lemma_dump_ids(m);
    reveal(request_dumps);
    let path = crate::model::selected_path_spec(m);
    let m1 = if path != m.dump_scroll_path {
        SessionModel { scroll: 0, dump_scroll_path: path, ..m }
    } else {
        m
    };
    let plan = crate::model::current_plan(m1);
    let w = crate::model::pane_width_spec(m1.cols);
    lemma_plan_waiting(plan, m1.next_id, w);
    lemma_plan_kinds(plan, m1.next_id, w);
}

proof fn lemma_plan_kinds(plan: Seq<ReqView>, id: u64, width: u16)
    ensures
        forall|i: int|
            0 <= i < plan_parts(plan, id, width).1.len() ==> #[trigger] dump_width(
                plan_parts(plan, id, width).1[i].kind,
            ) is Some,
    decreases plan.len(),
{
    if plan.len() > 0 {
        lemma_plan_kinds(plan.drop_last(), id, width);
        let prev = plan_parts(plan.drop_last(), id, width);
        let r = plan_parts(plan, id, width);
        assert forall|i: int| 0 <= i < r.1.len() implies #[trigger] dump_width(r.1[i].kind) is Some by {
            if i < prev.1.len() {
                assert(r.1[i] == prev.1[i]);
            }
        }
    }
}

/// The selection after the rows change, in full: none exactly when there
/// are no rows, else a row index; the top row when nothing was selected;
/// the same path when it is still listed; else the first later old row
/// still listed; else the nearest earlier one; else the top row.
pub proof fn law_selection_walk(old: Seq<RowView>, sel: Option<int>, new: Seq<RowView>)
    ensures
        walk_sel(old, sel, new) is None <==> new.len() == 0,
        walk_sel(old, sel, new) matches Some(i) ==> 0 <= i < new.len(),
        sel is None && new.len() > 0 ==> walk_sel(old, sel, new) == Some(0int),
        (sel matches Some(k) && 0 <= k < old.len() && new.len() > 0 && path_index(new, old[k].path, 0)
            >= 0) ==> walk_sel(old, sel, new) == Some(path_index(new, old[sel.unwrap()].path, 0)),
        (sel matches Some(k) && new.len() > 0 && !(0 <= k < old.len() && path_index(
            new,
            old[k].path,
            0,
        ) >= 0)) ==> walk_sel(old, sel, new) == match crate::model::forward_match(
            old,
            new,
            sel.unwrap() + 1,
        ) {
            Some(p) => Some(p),
            None => match crate::model::backward_match(
                old,
                new,
                if sel.unwrap() < old.len() {
                    sel.unwrap()
                } else {
                    old.len() as int
                },
            ) {
                Some(p) => Some(p),
                None => Some(0int),
            },
        },
{
    crate::session::lemma_walk_sel(old, sel, new);
}

/// The dumps of one file: a path with no status says it has no changes; an
/// untracked file is `difft` against nothing; otherwise work tree against
/// index when the work tree differs, then index against HEAD when the index
/// differs, or no changes when neither does.
pub proof fn law_file_plan(path: Seq<char>, xy: (char, char))
    ensures
        crate::model::file_plan_spec(path, None) == seq![
            ReqView::Literal { text: path + " --- no changes"@ },
        ],
        untracked(xy) ==> crate::model::file_plan_spec(path, Some(xy)) == seq![
            ReqView::Difft { path },
        ],
        !untracked(xy) && xy.1 != ' ' && staged(xy) ==> crate::model::file_plan_spec(
            path,
            Some(xy),
        ) == seq![ReqView::Git { path, cached: false }, ReqView::Git { path, cached: true }],
        !untracked(xy) && xy.1 != ' ' && !staged(xy) ==> crate::model::file_plan_spec(
            path,
            Some(xy),
        ) == seq![ReqView::Git { path, cached: false }],
        !untracked(xy) && xy.1 == ' ' && staged(xy) ==> crate::model::file_plan_spec(
            path,
            Some(xy),
        ) == seq![ReqView::Git { path, cached: true }],
        !untracked(xy) && xy.1 == ' ' && !staged(xy) ==> crate::model::file_plan_spec(
            path,
            Some(xy),
        ) == seq![ReqView::Literal { text: path + " --- no changes"@ }],
{
    let f = seq![ReqView::Git { path, cached: false }];
    let t = seq![ReqView::Git { path, cached: true }];
    assert(f + t =~= seq![ReqView::Git { path, cached: false }, ReqView::Git { path, cached: true }]);
    assert(f + Seq::<ReqView>::empty() =~= f);
    assert(Seq::<ReqView>::empty() + t =~= t);
    assert(Seq::<ReqView>::empty() + Seq::<ReqView>::empty() =~= Seq::<ReqView>::empty());
}

/// A write that fails leaves everything but the strip as it was, opens a
/// write error with what the child said (or which program failed), and
/// asks for nothing.
pub proof fn law_failed_write(m: SessionModel, c: ChildResult)
    requires
        m.write_id == Some(c.id),
        m.writing is Some,
        c.exit != 0,
    ensures
        step(m, Event::Child(c)) == (
            SessionModel {
                writing: None,
                write_id: None,
                strip: Some(
                    StripView::GitWriteError {
                        text: failure_spec(c.stderr@, c.stdout@, c.exit, FailKind::Git),
                    },
                ),
                ..m
            },
            Seq::<EffectView>::empty(),
        ),
{
}

/// A stage or commit that succeeds refreshes at once (porcelain, then
/// ls-files, with the next ids); a commit also closes the overlay, clears
/// its strip and the draft, and puts the caret back at the summary's start.
pub proof fn law_successful_write(m: SessionModel, c: ChildResult)
    requires
        m.write_id == Some(c.id),
        m.writing == Some(WriteKind::Space) || m.writing == Some(WriteKind::Commit),
        c.exit == 0,
    ensures
        step(m, Event::Child(c)).1 == seq![
            EffectView { id: m.next_id, kind: KindView::GitPorcelain },
            EffectView { id: bump(m.next_id), kind: KindView::GitLsFiles },
        ],
        m.writing == Some(WriteKind::Commit) ==> {
            let r = step(m, Event::Child(c)).0;
            &&& !r.overlay
            &&& r.strip is None
            &&& r.summary.len() == 0
            &&& r.description.len() == 0
            &&& r.summary_caret == 0
            &&& r.field == CommitField::Summary
        },
{
}

/// In the commit overlay, Enter on the summary, Ctrl-Enter, or Ctrl-S
/// commits: a blank summary is refused (the overlay, the draft and the
/// effects stay empty, the strip says so); otherwise the strip goes and one
/// commit of the draft is asked for, with the next id.
pub proof fn law_commit_keys(m: SessionModel, k: Key)
    requires
        m.overlay,
        (k == Key::Enter { ctrl: false } && m.field == CommitField::Summary) || k == (Key::Enter {
            ctrl: true,
        }) || k == (Key::Char { c: 's', ctrl: true }) || k == (Key::Char { c: 'S', ctrl: true }),
    ensures
        blank(m.summary) ==> step(m, Event::Key(k)) == (
            SessionModel { strip: Some(StripView::EmptySummaryRefusal), ..m },
            Seq::<EffectView>::empty(),
        ),
        blank(m.summary) ==> crate::model::strip_text_spec(step(m, Event::Key(k)).0.strip) == Some(
            "Commit summary is required."@,
        ),
        !blank(m.summary) ==> step(m, Event::Key(k)).1 == seq![
            EffectView {
                id: m.next_id,
                kind: KindView::GitCommit { summary: m.summary, description: m.description },
            },
        ] && step(m, Event::Key(k)).0.strip is None,
{
}

/// In the commit overlay a typed character (Ctrl up) goes into the focused
/// field at the caret, the caret moves past it, nothing else changes and
/// nothing is asked for; `q` types, it does not quit.
pub proof fn law_typing_in_the_overlay(m: SessionModel, c: char)
    requires
        m.overlay,
        m.field == CommitField::Summary ==> m.summary.len() + 1 < field_bound(),
        m.field == CommitField::Description ==> m.description.len() + 1 < field_bound(),
    ensures
        step(m, Event::Key(Key::Char { c, ctrl: false })).1.len() == 0,
        m.field == CommitField::Summary ==> step(m, Event::Key(Key::Char { c, ctrl: false })).0
            == (SessionModel {
            summary: insert_at(m.summary, m.summary_caret, c),
            summary_caret: m.summary_caret + 1,
            ..m
        }),
        m.field == CommitField::Description ==> step(m, Event::Key(Key::Char { c, ctrl: false })).0
            == (SessionModel {
            description: insert_at(m.description, m.description_caret, c),
            description_caret: m.description_caret + 1,
            ..m
        }),
{
}

/// When a refresh's second answer lands, a no-files strip goes once there
/// are files; any other strip stays; the overlay stays as it was unless an
/// add-all waited on this refresh to open it.
pub proof fn law_refresh_lands(m: SessionModel)
    requires
        m.list is Some,
    ensures
        ({
            let l = m.list.unwrap();
            let por = crate::files::porcelain_entries(
                match l.2 {
                    Some(b) => b,
                    None => Seq::empty(),
                },
            );
            let r = crate::model::finish_list(m).0;
            &&& !m.overlay_after_refresh ==> r.strip == if m.strip == Some(
                StripView::NoFilesCommitError,
            ) && por.len() > 0 {
                None
            } else {
                m.strip
            }
            &&& !m.overlay_after_refresh ==> r.overlay == m.overlay
            &&& m.overlay_after_refresh ==> r.overlay && r.strip is None
            &&& r.list is None
        }),
{
    let l = m.list.unwrap();
    let por = crate::files::porcelain_entries(
        match l.2 {
            Some(b) => b,
            None => Seq::empty(),
        },
    );
    let ls = crate::files::ls_paths(
        match l.3 {
            Some(b) => b,
            None => Seq::empty(),
        },
    );
    let m1 = SessionModel { list: None, porcelain: por, ls_files: ls, ..m };
    let rows = rows_for(m1);
    let m2 = SessionModel { rows: rows, selected: walk_sel(m.rows, m.selected, rows), ..m1 };
    let m3 = if m2.strip == Some(StripView::NoFilesCommitError) && por.len() > 0 {
        SessionModel { strip: None, ..m2 }
    } else {
        m2
    };
    lemma_request_dumps_frame(m3);
}

proof fn lemma_dedup(s: Seq<Seq<char>>)
    ensures
        forall|x: Seq<char>| #[trigger] dedup(s).contains(x) <==> s.contains(x),
        forall|i: int, j: int| 0 <= i < j < dedup(s).len() ==> #[trigger] dedup(s)[i] != #[trigger] dedup(s)[j],
    decreases s.len(),
{
    if s.len() > 0 {
        let t = s.drop_last();
        lemma_dedup(t);
        let d = dedup(t);
        assert forall|x: Seq<char>| #[trigger] dedup(s).contains(x) <==> s.contains(x) by {
            let r = dedup(s);
            if d.contains(x) {
                let j = choose|j: int| 0 <= j < d.len() && d[j] == x;
                assert(r[j] == x);
                assert(r.contains(x));
            }
            if s.contains(x) {
                let k = choose|k: int| 0 <= k < s.len() && s[k] == x;
                if k < s.len() - 1 {
                    assert(t[k] == x);
                    assert(t.contains(x));
                    assert(d.contains(x));
                } else if !d.contains(s.last()) {
                    assert(r[d.len() as int] == s.last());
                    assert(r.contains(x));
                }
            }
            if r.contains(x) {
                let j = choose|j: int| 0 <= j < r.len() && r[j] == x;
                if j < d.len() {
                    assert(r[j] == d[j]);
                    assert(d.contains(x));
                    assert(t.contains(x));
                    let k = choose|k: int| 0 <= k < t.len() && t[k] == x;
                    assert(s[k] == x);
                } else {
                    assert(x == s.last());
                    assert(s[s.len() - 1] == x);
                }
            }
        }
        if !d.contains(s.last()) {
            assert forall|i: int, j: int| 0 <= i < j < dedup(s).len() implies #[trigger] dedup(s)[i]
                != #[trigger] dedup(s)[j] by {
                if j == d.len() {
                    assert(dedup(s)[i] == d[i]);
                } else {
                    assert(dedup(s)[i] == d[i] && dedup(s)[j] == d[j]);
                }
            }
        }
    }
}

/// The all-files tree is built from the paths of `ls-files` and of the
/// porcelain records, each once, each with its porcelain letters (the first
/// record's) when it has any.
pub proof fn law_all_files_inputs(ls: Seq<Seq<char>>, por: Seq<EntryView>)
    ensures
        forall|p: Seq<char>|
            (exists|i: int| 0 <= i < all_paths(ls, por).len() && #[trigger] all_paths(ls, por)[i].0 == p)
                <==> (ls.contains(p) || entry_paths(por).contains(p)),
        forall|i: int, j: int|
            0 <= i < j < all_paths(ls, por).len() ==> #[trigger] all_paths(ls, por)[i].0
                != #[trigger] all_paths(ls, por)[j].0,
        forall|i: int|
            0 <= i < all_paths(ls, por).len() ==> #[trigger] all_paths(ls, por)[i].1 == xy_in(
                por,
                all_paths(ls, por)[i].0,
            ),
{
    let s = ls + entry_paths(por);
    lemma_dedup(s);
    let d = dedup(s);
    let a = all_paths(ls, por);
    assert forall|p: Seq<char>|
        (exists|i: int| 0 <= i < a.len() && #[trigger] a[i].0 == p) <==> (ls.contains(p)
            || entry_paths(por).contains(p)) by {
        if exists|i: int| 0 <= i < a.len() && #[trigger] a[i].0 == p {
            let i = choose|i: int| 0 <= i < a.len() && #[trigger] a[i].0 == p;
            assert(d[i] == p);
            assert(d.contains(p));
            let k = choose|k: int| 0 <= k < s.len() && s[k] == p;
            if k < ls.len() {
                assert(ls[k] == p);
            } else {
                assert(entry_paths(por)[k - ls.len()] == p);
            }
        }
        if ls.contains(p) {
            let k = choose|k: int| 0 <= k < ls.len() && ls[k] == p;
            assert(s[k] == p);
        }
        if entry_paths(por).contains(p) {
            let k = choose|k: int| 0 <= k < entry_paths(por).len() && entry_paths(por)[k] == p;
            assert(s[k + ls.len()] == p);
        }
        if ls.contains(p) || entry_paths(por).contains(p) {
            assert(s.contains(p));
            assert(d.contains(p));
            let i = choose|i: int| 0 <= i < d.len() && d[i] == p;
            assert(a[i].0 == p);
        }
    }
    assert forall|i: int, j: int| 0 <= i < j < a.len() implies #[trigger] a[i].0 != #[trigger] a[j].0 by {
        assert(a[i].0 == d[i] && a[j].0 == d[j]);
    }
}

/// Every row is a file whose path passes the filter.
pub open spec fn files_passing(rows: Seq<RowView>, query: Seq<char>) -> bool {
    forall|i: int|
        0 <= i < rows.len() ==> filter_matches(#[trigger] rows[i].path, query) && rows[i].kind
            == crate::event::RowKind::File
}

/// In the flat list every row is a file whose path passes the filter; with
/// no filter every porcelain record has its row, in porcelain order.
pub proof fn law_flat_rows_filtered(por: Seq<EntryView>, query: Seq<char>, width: int)
    ensures
        files_passing(flat_rows(por, query, width), query),
        query.len() == 0 ==> flat_rows(por, query, width) == por.map_values(
            |e: EntryView| flat_row(e, width),
        ),
    decreases por.len(),
{
    if por.len() > 0 {
        law_flat_rows_filtered(por.drop_last(), query, width);
        let prev = flat_rows(por.drop_last(), query, width);
        let r = flat_rows(por, query, width);
        assert forall|i: int| 0 <= i < r.len() implies filter_matches(#[trigger] r[i].path, query)
            && r[i].kind == crate::event::RowKind::File by {
            if i < prev.len() {
                assert(r[i] == prev[i]);
                assert(filter_matches(prev[i].path, query));
            } else {
                assert(filter_matches(por.last().1, query));
                assert(r == prev.push(flat_row(por.last(), width)));
                assert(r[i] == flat_row(por.last(), width));
            }
        }
        assert(files_passing(r, query));
        if query.len() == 0 {
            assert(por.map_values(|e: EntryView| flat_row(e, width)) =~= por.drop_last().map_values(
                |e: EntryView| flat_row(e, width),
            ).push(flat_row(por.last(), width)));
        }
    } else {
        assert(por.map_values(|e: EntryView| flat_row(e, width)) =~= Seq::<RowView>::empty());
    }
}

/// In the tree, a folder that is folded shows as its own row only, marked
/// folded; an unfolded one shows its row, marked open, then its children's
/// rows one level deeper; a node that neither matches the filter nor has a
/// matching descendant shows nothing; a file shows as one row at its depth.
pub proof fn law_tree_row_shape(
    n: NodeView,
    depth: int,
    collapsed: Seq<Seq<char>>,
    query: Seq<char>,
    width: int,
)
    ensures
        !crate::files::node_visible(n, query) ==> crate::files::walk_rows(
            n,
            depth,
            collapsed,
            query,
            width,
        ).len() == 0,
        crate::files::node_visible(n, query) && n.dir && collapsed.contains(n.path)
            ==> crate::files::walk_rows(n, depth, collapsed, query, width) == seq![
            crate::files::dir_row(n, depth, false, width),
        ],
        crate::files::node_visible(n, query) && n.dir && !collapsed.contains(n.path)
            ==> crate::files::walk_rows(n, depth, collapsed, query, width) == seq![
            crate::files::dir_row(n, depth, true, width),
        ] + crate::files::walk_all(
            n.children,
            crate::files::next_depth(depth),
            collapsed,
            query,
            width,
        ),
        crate::files::node_visible(n, query) && !n.dir ==> crate::files::walk_rows(
            n,
            depth,
            collapsed,
            query,
            width,
        ) == seq![crate::files::file_row(n, depth, width)],
{
    let e = Seq::<RowView>::empty();
    assert(seq![crate::files::dir_row(n, depth, false, width)] + e =~= seq![
        crate::files::dir_row(n, depth, false, width),
    ]);
}

/// How far the dump can scroll: its last line at the bottom of the pane.
pub open spec fn max_scroll(m: SessionModel) -> u16 {
    crate::model::sat_sub(
        m.pane_lines,
        crate::model::max1(
            crate::model::sat_sub(
                crate::model::sat_sub(m.term_rows, 1),
                crate::model::overlay_height_spec(m),
            ),
        ),
    )
}

/// Scrolling the dump by `delta` changes only the scroll; it lands where
/// asked when that is within the dump, and never past its end.
pub proof fn law_scroll_within_the_dump(m: SessionModel, delta: int)
    ensures
        crate::model::scroll_diff(m, delta) == (SessionModel {
            scroll: crate::model::scroll_diff(m, delta).scroll,
            ..m
        }),
        crate::model::scroll_diff(m, delta).scroll <= max_scroll(m),
        0 <= m.scroll + delta <= max_scroll(m) ==> crate::model::scroll_diff(m, delta).scroll
            == m.scroll + delta,
        m.scroll + delta < 0 ==> crate::model::scroll_diff(m, delta).scroll == 0,
{
}

/// Page Down and Page Up scroll the dump by a page (the pane's rows less
/// the footer and the overlay, at least one), whatever is open.
pub proof fn law_page_keys(m: SessionModel)
    ensures
        step(m, Event::Key(Key::PageDown)) == (
            crate::model::scroll_diff(m, crate::model::page(m) as int),
            Seq::<EffectView>::empty(),
        ),
        step(m, Event::Key(Key::PageUp)) == (
            crate::model::scroll_diff(m, -(crate::model::page(m) as int)),
            Seq::<EffectView>::empty(),
        ),
{
}

/// With nothing open, `j` (or Down) and `k` (or Up) scroll the dump by a
/// line when it has the focus; in the files panel they move the selection
/// one row within the rows (the first press selects the top row), and ask
/// for the new row's dumps.
pub proof fn law_j_and_k(m: SessionModel)
    requires
        !m.overlay,
        !m.search_open,
        !strip_takes(m),
        !inert(m),
    ensures
        step(m, Event::Key(Key::Char { c: 'j', ctrl: false })) == step(m, Event::Key(Key::Down)),
        step(m, Event::Key(Key::Char { c: 'k', ctrl: false })) == step(m, Event::Key(Key::Up)),
        m.focus == crate::event::Focus::Diff ==> step(
            m,
            Event::Key(Key::Char { c: 'j', ctrl: false }),
        ) == (crate::model::scroll_diff(m, 1), Seq::<EffectView>::empty()),
        m.focus == crate::event::Focus::Diff ==> step(
            m,
            Event::Key(Key::Char { c: 'k', ctrl: false }),
        ) == (crate::model::scroll_diff(m, -1), Seq::<EffectView>::empty()),
        m.focus == crate::event::Focus::Files && m.rows.len() > 0 ==> step(
            m,
            Event::Key(Key::Char { c: 'j', ctrl: false }),
        ).0.selected == Some(
            match m.selected {
                None => 0,
                Some(i) => crate::caret::clamp(i + 1, 0, m.rows.len() - 1),
            },
        ),
        m.focus == crate::event::Focus::Files && m.rows.len() > 0 ==> step(
            m,
            Event::Key(Key::Char { c: 'k', ctrl: false }),
        ).0.selected == Some(
            match m.selected {
                None => 0,
                Some(i) => crate::caret::clamp(i - 1, 0, m.rows.len() - 1),
            },
        ),
        m.focus == crate::event::Focus::Files && m.rows.len() == 0 ==> step(
            m,
            Event::Key(Key::Char { c: 'j', ctrl: false }),
        ) == (m, Seq::<EffectView>::empty()),
{
    let n = m.rows.len() as int;
    lemma_request_dumps_frame(SessionModel { selected: Some(0), ..m });
    match m.selected {
        Some(i) => {
            lemma_request_dumps_frame(
                SessionModel { selected: Some(crate::caret::clamp(i + 1, 0, n - 1)), ..m },
            );
            lemma_request_dumps_frame(
                SessionModel { selected: Some(crate::caret::clamp(i - 1, 0, n - 1)), ..m },
            );
        },
        None => {},
    }
}

/// With nothing open, `c` opens the commit overlay on the summary when
/// something is staged; with no changed files it shows the no-files
/// error, and with nothing staged it asks whether to stage everything.
pub proof fn law_c_opens_the_commit(m: SessionModel)
    requires
        !m.overlay,
        !m.search_open,
        !strip_takes(m),
        !inert(m),
    ensures
        step(m, Event::Key(Key::Char { c: 'c', ctrl: false })) == (
            crate::model::open_commit(m),
            Seq::<EffectView>::empty(),
        ),
        m.porcelain.len() == 0 ==> crate::model::open_commit(m) == (SessionModel {
            strip: Some(StripView::NoFilesCommitError),
            ..m
        }),
        m.porcelain.len() > 0 && !(exists|k: int|
            0 <= k < m.porcelain.len() && staged(#[trigger] m.porcelain[k].0))
            ==> crate::model::open_commit(m) == (SessionModel {
            strip: Some(StripView::NothingStagedConfirm),
            ..m
        }),
        (exists|k: int| 0 <= k < m.porcelain.len() && staged(#[trigger] m.porcelain[k].0))
            ==> crate::model::open_commit(m) == (SessionModel {
            overlay: true,
            field: CommitField::Summary,
            ..m
        }),
{
}

/// With nothing open, Space on a changed file asks for one git write,
/// chosen by its two status letters: `git add` when the work tree differs
/// (or the file is untracked), else `git reset` when HEAD has the file,
/// else `git rm --cached`; on a folder, a clean path, or with nothing
/// selected it changes nothing.
pub proof fn law_space_stages(m: SessionModel)
    requires
        !m.overlay,
        !m.search_open,
        !strip_takes(m),
        !inert(m),
    ensures
        crate::model::selected_row(m) is None ==> step(
            m,
            Event::Key(Key::Char { c: ' ', ctrl: false }),
        ) == (m, Seq::<EffectView>::empty()),
        crate::model::selected_row(m) matches Some(row) && (row.kind == crate::event::RowKind::Directory
            || xy_in(m.porcelain, row.path) is None) ==> step(
            m,
            Event::Key(Key::Char { c: ' ', ctrl: false }),
        ) == (m, Seq::<EffectView>::empty()),
        match crate::model::selected_row(m) {
            Some(row) => (row.kind == crate::event::RowKind::File && xy_in(m.porcelain, row.path) is Some)
                ==> {
                let xy = xy_in(m.porcelain, row.path).unwrap();
                let r = step(m, Event::Key(Key::Char { c: ' ', ctrl: false }));
                &&& r.1 == seq![
                    EffectView {
                        id: m.next_id,
                        kind: if crate::files::unstaged_spec(xy) {
                            KindView::GitAdd { path: row.path }
                        } else if crate::files::in_head_spec(xy) {
                            KindView::GitReset { path: row.path }
                        } else {
                            KindView::GitRmCached { path: row.path }
                        },
                    },
                ]
                &&& r.0.writing == Some(WriteKind::Space)
                &&& r.0.write_id == Some(m.next_id)
            },
            None => true,
        },
{
}

/// `q` asks to quit exactly when the overlay, the search prompt and any
/// confirm or error strip are all closed; otherwise it types or does
/// nothing.
pub proof fn law_q_quits_only_at_rest(m: SessionModel)
    ensures
        (exists|i: int|
            0 <= i < step(m, Event::Key(Key::Char { c: 'q', ctrl: false })).1.len()
                && (#[trigger] step(m, Event::Key(Key::Char { c: 'q', ctrl: false })).1[i]).kind is Quit)
            <==> (!m.overlay && !m.search_open && !strip_takes(m) && !inert(m)),
{
    let q = Event::Key(Key::Char { c: 'q', ctrl: false });
    let r = step(m, q);
    if !m.overlay && !m.search_open && !strip_takes(m) && !inert(m) {
        assert(r.1[0].kind is Quit);
    } else if !m.overlay && m.search_open {
        let t = crate::model::typed(m.query, m.query_caret, 'q');
        let a = SessionModel { query: t.0, query_caret: t.1, ..m };
        law_request_dumps(rebuild_keep(a));
        assert forall|i: int| 0 <= i < r.1.len() implies !((#[trigger] r.1[i]).kind is Quit) by {
            assert(dump_width(r.1[i].kind) is Some);
        }
    }
}

proof fn lemma_find_number_first(s: Seq<Seq<char>>, i: int)
    requires
        0 <= i <= s.len(),
    ensures
        crate::dump::find_number(s, i) == -1 || (i <= crate::dump::find_number(s, i) < s.len()
            && crate::dump::is_line_number(s[crate::dump::find_number(s, i)])),
        forall|k: int|
            i <= k < (if crate::dump::find_number(s, i) < 0 {
                s.len() as int
            } else {
                crate::dump::find_number(s, i)
            }) ==> !crate::dump::is_line_number(#[trigger] s[k]),
    decreases s.len() - i,
{
    if i < s.len() && !crate::dump::is_line_number(s[i]) {
        lemma_find_number_first(s, i + 1);
    }
}

/// The side-by-side gap, case by case. With `i1` and `i2` the first two
/// line-number runs and `T` the middle column of the pane: a line with
/// fewer than two, with nothing between them, or whose left part already
/// reaches `T` stays as it is, looks included; otherwise a run of
/// `T - width(s[..i2])` spaces, unstyled, goes in just before `i2`, and
/// every other run keeps its text and look.
pub proof fn law_widen_cases(s: Seq<Seq<char>>, st: Seq<PaneStyle>, pane: u16)
    ensures
        ({
            let i1 = crate::dump::find_number(s, 0);
            let i2 = crate::dump::find_number(s, i1 + 1);
            let t = crate::dump::rhs_column(pane);
            &&& i1 >= 0 ==> 0 <= i1 < s.len() && crate::dump::is_line_number(s[i1]) && forall|k: int|
                0 <= k < i1 ==> !crate::dump::is_line_number(#[trigger] s[k])
            &&& i1 >= 0 && i2 >= 0 ==> i1 < i2 < s.len() && crate::dump::is_line_number(s[i2])
                && forall|k: int| i1 < k < i2 ==> !crate::dump::is_line_number(#[trigger] s[k])
            &&& (i1 < 0 || i2 < 0 || crate::dump::widths(s.subrange(i1 + 1, i2)) == 0
                || crate::dump::widths(s.take(i2)) >= t) ==> crate::dump::widen_spec(s, pane) == s
                && crate::dump::widen_styles(s, st, pane) == st
            &&& !(i1 < 0 || i2 < 0 || crate::dump::widths(s.subrange(i1 + 1, i2)) == 0
                || crate::dump::widths(s.take(i2)) >= t) ==> crate::dump::widen_spec(s, pane)
                == s.take(i2).push(crate::dump::spaces(t - crate::dump::widths(s.take(i2))))
                + s.skip(i2) && crate::dump::widen_styles(s, st, pane) == st.take(i2).push(
                no_style(),
            ) + st.skip(i2)
        }),
{
    lemma_find_number_first(s, 0);
    let i1 = crate::dump::find_number(s, 0);
    if i1 >= 0 {
        lemma_find_number_first(s, i1 + 1);
    }
}

/// A porcelain record as bytes: the two status letters, the path, and the
/// source path that a rename or copy carries.
pub type RecordBytes = (u8, u8, Seq<u8>, Seq<u8>);

/// A rename (`R`) or copy (`C`) record.
pub open spec fn is_move(x: u8) -> bool {
    x == 82 || x == 67
}

/// How `git status --porcelain -z` writes a record: the letters, a space,
/// the path and a NUL, then for a rename or copy the source and a NUL.
pub open spec fn record_bytes(r: RecordBytes) -> Seq<u8> {
    seq![r.0, r.1, 32u8] + r.2 + seq![0u8] + if is_move(r.0) {
        r.3 + seq![0u8]
    } else {
        Seq::empty()
    }
}

pub open spec fn records_bytes(rs: Seq<RecordBytes>) -> Seq<u8>
    decreases rs.len(),
{
    if rs.len() == 0 {
        Seq::empty()
    } else {
        record_bytes(rs[0]) + records_bytes(rs.drop_first())
    }
}

/// A record the parser can read back: the path holds no NUL and decodes to
/// something; a rename's or copy's source holds no NUL and does not itself
/// begin like a record (two bytes and a space).
pub open spec fn record_readable(r: RecordBytes) -> bool {
    &&& !r.2.contains(0u8)
    &&& crate::text::utf8_lossy(r.2).len() > 0
    &&& is_move(r.0) ==> !r.3.contains(0u8) && r.3.len() >= 2 && (r.3.len() == 2 || r.3[2] != 32u8)
}

/// What the parser gives for a record: its letters and its decoded path.
pub open spec fn record_entry(r: RecordBytes) -> EntryView {
    ((r.0 as char, r.1 as char), crate::text::utf8_lossy(r.2))
}

proof fn lemma_nul_at(b: Seq<u8>, i: int, e: int)
    requires
        0 <= i <= e < b.len(),
        b[e] == 0,
        forall|k: int| i <= k < e ==> b[k] != 0,
    ensures
        crate::files::nul_from(b, i) == e,
    decreases e - i,
{
    if i < e {
        lemma_nul_at(b, i + 1, e);
    }
}

proof fn lemma_records_read_back(pre: Seq<u8>, rs: Seq<RecordBytes>)
    requires
        forall|i: int| 0 <= i < rs.len() ==> record_readable(#[trigger] rs[i]),
    ensures
        crate::files::porcelain_from(pre + records_bytes(rs), pre.len() as int) == rs.map_values(
            |r: RecordBytes| record_entry(r),
        ),
    decreases rs.len(),
{
    let b = pre + records_bytes(rs);
    let p = pre.len() as int;
    if rs.len() == 0 {
        assert(b =~= pre);
        assert(rs.map_values(|r: RecordBytes| record_entry(r)) =~= Seq::<EntryView>::empty());
    } else {
        let r = rs[0];
        assert(record_readable(r));
        let rb = record_bytes(r);
        let rest = rs.drop_first();
        assert forall|i: int| 0 <= i < rest.len() implies record_readable(#[trigger] rest[i]) by {
            assert(rest[i] == rs[i + 1]);
        }
        lemma_records_read_back(pre + rb, rest);
        assert(b =~= (pre + rb) + records_bytes(rest));
        let q = p + 3;
        let e = q + r.2.len();
        assert(b[p] == r.0 && b[p + 1] == r.1 && b[p + 2] == 32u8);
        assert(b[e] == 0);
        assert forall|k: int| q <= k < e implies b[k] != 0 by {
            assert(b[k] == r.2[k - q]);
            if b[k] == 0 {
                assert(r.2.contains(0u8));
            }
        }
        lemma_nul_at(b, q, e);
        assert(b.subrange(q, e) =~= r.2);
        let next = e + 1;
        if is_move(r.0) {
            let f = next + r.3.len();
            assert(b[f] == 0);
            assert forall|k: int| next <= k < f implies b[k] != 0 by {
                assert(b[k] == r.3[k - next]);
                if b[k] == 0 {
                    assert(r.3.contains(0u8));
                }
            }
            lemma_nul_at(b, next, f);
            assert(b[next + 2] == if r.3.len() == 2 { 0u8 } else { r.3[2] });
            assert(!crate::files::looks_like_entry_at(b, next));
            assert((r.0 as char) == 'R' || (r.0 as char) == 'C');
            assert(f + 1 == p + rb.len());
        } else {
            assert((r.0 as char) != 'R' && (r.0 as char) != 'C');
            assert(next == p + rb.len());
        }
        assert(rs.map_values(|r: RecordBytes| record_entry(r)) =~= seq![record_entry(r)]
            + rest.map_values(|r: RecordBytes| record_entry(r)));
    }
}

/// Reading back what git writes: records encoded as `git status
/// --porcelain -z` writes them parse to their letters and decoded paths,
/// in order, rename and copy sources skipped.
pub proof fn law_porcelain_reads_back(rs: Seq<RecordBytes>)
    requires
        forall|i: int| 0 <= i < rs.len() ==> record_readable(#[trigger] rs[i]),
    ensures
        crate::files::porcelain_entries(records_bytes(rs)) == rs.map_values(
            |r: RecordBytes| record_entry(r),
        ),
{
    lemma_records_read_back(Seq::empty(), rs);
    assert(Seq::<u8>::empty() + records_bytes(rs) =~= records_bytes(rs));
}

/// Names are ordered as character sequences (by code point): a proper
/// prefix comes first; otherwise the first character where they differ
/// decides, whatever their lengths; equal names are not before each other.
pub proof fn law_names_in_code_point_order(a: Seq<char>, b: Seq<char>)
    ensures
        a.len() < b.len() && b.take(a.len() as int) == a ==> seq_less(a, b),
        forall|k: int|
            0 <= k < a.len() && k < b.len() && a.take(k) == b.take(k) && #[trigger] a[k] != #[trigger] b[k]
                ==> (seq_less(a, b) <==> (a[k] as u32) < (b[k] as u32)),
        !seq_less(a, a),
    decreases a.len(),
{
    lemma_seq_less_irreflexive(a);
    if a.len() > 0 && b.len() > 0 {
        law_names_in_code_point_order(a.drop_first(), b.drop_first());
        if a.len() < b.len() && b.take(a.len() as int) == a {
            assert(b[0] == a[0]);
            assert(b.drop_first().take(a.len() - 1) =~= a.drop_first());
        }
        assert forall|k: int|
            0 <= k < a.len() && k < b.len() && a.take(k) == b.take(k) && #[trigger] a[k] != #[trigger] b[k]
                implies (seq_less(a, b) <==> (a[k] as u32) < (b[k] as u32)) by {
            if k > 0 {
                assert(a[0] == a.take(k)[0] && b[0] == b.take(k)[0]);
                assert(a.drop_first().take(k - 1) =~= b.drop_first().take(k - 1)) by {
                    assert forall|j: int| 0 <= j < k - 1 implies #[trigger] a.drop_first().take(k - 1)[j]
                        == b.drop_first().take(k - 1)[j] by {
                        assert(a.take(k)[j + 1] == b.take(k)[j + 1]);
                    }
                }
                assert(a.drop_first()[k - 1] == a[k] && b.drop_first()[k - 1] == b[k]);
            }
        }
    }
}

/// Siblings of the same kind in the tree come in name order: where two
/// names first differ, the earlier one's character is not the larger, and
/// a later name is never a proper prefix of an earlier one.
pub proof fn law_sibling_names_a_to_z(s: Seq<NodeView>, i: int, j: int, k: int)
    requires
        0 <= i < j < sort_siblings(s).len(),
        sort_siblings(s)[i].dir == sort_siblings(s)[j].dir,
    ensures
        ({
            let a = sort_siblings(s)[i].name;
            let b = sort_siblings(s)[j].name;
            &&& (0 <= k < a.len() && k < b.len() && a.take(k) == b.take(k) && a[k] != b[k]) ==> (
            a[k] as u32) <= (b[k] as u32)
            &&& (b.len() < a.len() ==> a.take(b.len() as int) != b)
        }),
{
    law_siblings_in_order(s);
    let a = sort_siblings(s)[i].name;
    let b = sort_siblings(s)[j].name;
    assert(!node_before(sort_siblings(s)[j], sort_siblings(s)[i]));
    assert(!seq_less(b, a));
    law_names_in_code_point_order(b, a);
    if 0 <= k < a.len() && k < b.len() && a.take(k) == b.take(k) && a[k] != b[k] {
        assert(b.take(k) == a.take(k));
        assert(b[k] != a[k]);
    }
    if 0 <= k < a.len() && k < b.len() && a.take(k) == b.take(k) && a[k] != b[k] {
        assert(!((b[k] as u32) < (a[k] as u32)));
    }
}

/// The filter keeps a path exactly when the query, in ASCII lower case,
/// occurs somewhere in the whole path (folders included), in lower case;
/// an empty query keeps every path.
pub proof fn law_filter_is_a_path_substring(path: Seq<char>, query: Seq<char>)
    ensures
        filter_matches(path, query) <==> (query.len() == 0 || exists|at: int|
            0 <= at && at + query.len() <= path.len() && #[trigger] lower_seq(path).subrange(
                at,
                at + query.len(),
            ) == lower_seq(query)),
{
    assert(lower_seq(path).len() == path.len());
    assert(lower_seq(query).len() == query.len());
    if filter_matches(path, query) && query.len() > 0 {
        let at = choose|at: int| occurs_at(lower_seq(path), lower_seq(query), at);
        assert(lower_seq(path).subrange(at, at + query.len()) == lower_seq(query));
    }
    if query.len() > 0 && exists|at: int|
        0 <= at && at + query.len() <= path.len() && #[trigger] lower_seq(path).subrange(
            at,
            at + query.len(),
        ) == lower_seq(query) {
        let at = choose|at: int|
            0 <= at && at + query.len() <= path.len() && #[trigger] lower_seq(path).subrange(
                at,
                at + query.len(),
            ) == lower_seq(query);
        assert(occurs_at(lower_seq(path), lower_seq(query), at));
    }
}

/// The filter's case folding is ASCII: `A` to `Z` become `a` to `z`, and
/// every other character is kept; so a query matches a path whatever the
/// case of their ASCII letters.
pub proof fn law_filter_folds_ascii_case(c: char)
    ensures
        'A' <= c <= 'Z' ==> crate::text::lower(c) as u32 == c as u32 + 32,
        !('A' <= c <= 'Z') ==> crate::text::lower(c) == c,
        'a' <= crate::text::lower(c) <= 'z' <==> ('a' <= c <= 'z' || 'A' <= c <= 'Z'),
{
}

/// A commit runs `git commit -m <summary>`, and when the description is
/// not empty also `-m <description>`, so it always reaches git.
pub proof fn law_commit_command(summary: Seq<char>, description: Seq<char>)
    ensures
        description.len() > 0 ==> crate::jobs::command_for(
            KindView::GitCommit { summary, description },
        ) == Some(("git"@, seq!["commit"@, "-m"@, summary, "-m"@, description], None::<u16>)),
        description.len() == 0 ==> crate::jobs::command_for(
            KindView::GitCommit { summary, description },
        ) == Some(("git"@, seq!["commit"@, "-m"@, summary], None::<u16>)),
{
    assert(seq!["commit"@, "-m"@, summary] + seq!["-m"@, description] =~= seq![
        "commit"@,
        "-m"@,
        summary,
        "-m"@,
        description,
    ]);
    assert(seq!["commit"@, "-m"@, summary] + Seq::<Seq<char>>::empty() =~= seq![
        "commit"@,
        "-m"@,
        summary,
    ]);
}

/// Space chooses its write by the two status letters: an untracked file or
/// one whose work tree differs is added; otherwise a file only added to
/// the index (`A`) is dropped from it; any other staged change (modified,
/// deleted, renamed, copied, type changed...) is reset to HEAD.
pub proof fn law_stage_choice(xy: (char, char), path: Seq<char>)
    ensures
        (xy.0 == '?' && xy.1 == '?') || xy.1 != ' ' ==> crate::model::stage_kind(xy, path)
            == (KindView::GitAdd { path }),
        xy.1 == ' ' && xy.0 == 'A' ==> crate::model::stage_kind(xy, path) == (
        KindView::GitRmCached { path }),
        xy.1 == ' ' && xy.0 != 'A' && xy.0 != '?' ==> crate::model::stage_kind(xy, path) == (
        KindView::GitReset { path }),
{
}

/// A path is under a folder only when it is the folder or continues it
/// with `/`; so a sibling folder that shares the name's start is not
/// under it.
pub proof fn law_under_a_folder(path: Seq<char>, folder: Seq<char>)
    ensures
        crate::files::under(path, folder) <==> (path == folder || (path.len() > folder.len()
            && path.take(folder.len() as int) == folder && path[folder.len() as int] == '/')),
{
}

/// A focused folder stacks only files that are under it: each is a file
/// row of the panel whose path is the folder or continues it with `/`.
pub proof fn law_folder_stack_holds_its_files(rows: Seq<RowView>, folder: Seq<char>, i: int)
    requires
        0 <= i < crate::files::stack_of(rows, folder).len(),
    ensures
        ({
            let p = crate::files::stack_of(rows, folder)[i].0;
            &&& p == folder || (p.len() > folder.len() && p.take(folder.len() as int) == folder
                && p[folder.len() as int] == '/')
            &&& exists|j: int|
                0 <= j < rows.len() && rows[j].kind == crate::event::RowKind::File && (#[trigger] rows[j]).path == p
        }),
    decreases rows.len(),
{
    let st = crate::files::stack_of(rows, folder);
    let prev = crate::files::stack_of(rows.drop_last(), folder);
    if i < prev.len() {
        assert(st[i] == prev[i]);
        law_folder_stack_holds_its_files(rows.drop_last(), folder, i);
        let p = prev[i].0;
        let j = choose|j: int|
            0 <= j < rows.drop_last().len() && rows.drop_last()[j].kind == crate::event::RowKind::File
                && (#[trigger] rows.drop_last()[j]).path == p;
        assert(rows[j] == rows.drop_last()[j]);
    } else {
        let r = rows.last();
        assert(r.kind == crate::event::RowKind::File && crate::files::under(r.path, folder));
        assert(st[i].0 == r.path);
        assert(rows[rows.len() - 1] == r);
    }
}

/// Outside the search prompt the footer holds the key hints.
pub proof fn law_footer_hints(m: SessionModel)
    requires
        !m.search_open,
    ensures
        contains_seq(crate::model::footer_spec(m), crate::model::footer_keys(m)),
{
    let f = crate::model::footer_spec(m);
    let keys = crate::model::footer_keys(m);
    let head = if m.query.len() > 0 {
        " /"@ + m.query + "  "@ + crate::text::decimal(m.rows.len()) + " rows  "@
    } else {
        " "@ + crate::text::decimal(m.rows.len()) + " rows  "@
    };
    let tail = " "@;
    assert(f == head + keys + tail);
    let at = head.len() as int;
    assert((head + keys + tail).subrange(at, at + keys.len()) =~= keys);
    assert(occurs_at(f, keys, at));
}

/// Ctrl-C quits from any state: one quit effect with a fresh id, and
/// nothing else changes.
pub proof fn law_ctrl_c_quits(m: SessionModel)
    ensures
        step(m, Event::Key(Key::Char { c: 'c', ctrl: true })) == (
            SessionModel { next_id: bump(m.next_id), ..m },
            seq![EffectView { id: m.next_id, kind: KindView::Quit }],
        ),
{
}

/// A poll while a refresh, a dump, a write, a prompt or a strip is open
/// does nothing; otherwise it refreshes.
pub proof fn law_tick(m: SessionModel)
    ensures
        paused(m) ==> step(m, Event::Tick) == (m, Seq::<EffectView>::empty()),
        !paused(m) ==> step(m, Event::Tick) == refresh(m),
{
}

/// Under a confirm or error strip, clicks do nothing.
pub proof fn law_inert_ignores_clicks(m: SessionModel, hit: MouseHit)
    requires
        inert(m),
    ensures
        step(m, Event::Mouse(hit)) == (m, Seq::<EffectView>::empty()),
{
}

/// With nothing open, Tab swaps the focus, and a second Tab swaps it back.
pub proof fn law_tab_twice(m: SessionModel)
    requires
        !m.overlay,
        !m.search_open,
        !strip_takes(m),
        !inert(m),
    ensures
        step(m, Event::Key(Key::Tab)).1.len() == 0,
        step(m, Event::Key(Key::Tab)).0.focus != m.focus,
        step(step(m, Event::Key(Key::Tab)).0, Event::Key(Key::Tab)) == (
            m,
            Seq::<EffectView>::empty(),
        ),
{
    let m1 = step(m, Event::Key(Key::Tab)).0;
    assert(step(m1, Event::Key(Key::Tab)).0 =~= m);
}

/// With nothing open, `f` switches between all files and changed files,
/// and a second `f` gives back the mode and the rows the panel had.
pub proof fn law_scope_twice(m: SessionModel)
    requires
        model_wf(m),
        !m.overlay,
        !m.search_open,
        !strip_takes(m),
        !inert(m),
    ensures
        step(m, Event::Key(Key::Char { c: 'f', ctrl: false })).0.all_files == !m.all_files,
        ({
            let m2 = step(
                step(m, Event::Key(Key::Char { c: 'f', ctrl: false })).0,
                Event::Key(Key::Char { c: 'f', ctrl: false }),
            ).0;
            mode_of(m2) == mode_of(m) && m2.rows == m.rows
        }),
{
    let f = Event::Key(Key::Char { c: 'f', ctrl: false });
    let a = SessionModel { all_files: !m.all_files, ..m };
    reveal(rebuild_keep);
    lemma_request_dumps_frame(rebuild_keep(a));
    let m1 = step(m, f).0;
    assert(m1.all_files == !m.all_files);
    let b = SessionModel { all_files: !m1.all_files, ..m1 };
    lemma_request_dumps_frame(rebuild_keep(b));
    let m2 = step(m1, f).0;
    assert(m2.rows == rows_for(b));
    assert(rows_for(b) == rows_for(m));
}

/// While the commit overlay is open with a blank summary, no key sends a
/// commit to git.
pub proof fn law_blank_summary_never_commits(m: SessionModel, k: Key, i: int)
    requires
        m.overlay,
        blank(m.summary),
        0 <= i < step(m, Event::Key(k)).1.len(),
    ensures
        !(step(m, Event::Key(k)).1[i].kind is GitCommit),
{
}

/// A commit always carries the summary and description as typed.
pub proof fn law_commit_carries_the_draft(m: SessionModel, k: Key, i: int)
    requires
        m.overlay,
        0 <= i < step(m, Event::Key(k)).1.len(),
        step(m, Event::Key(k)).1[i].kind is GitCommit,
    ensures
        !blank(m.summary),
        step(m, Event::Key(k)).1[i].kind == (KindView::GitCommit {
            summary: m.summary,
            description: m.description,
        }),
        step(m, Event::Key(k)).0.strip is None,
{
}

/// With nothing open and no filter, `/`, a typed character, and Esc give
/// back the rows the panel had, with the prompt closed and the query empty.
pub proof fn law_search_escape_restores_rows(m: SessionModel, c: char)
    requires
        model_wf(m),
        m.query.len() == 0,
        !m.overlay,
        !m.search_open,
        !strip_takes(m),
        !inert(m),
    ensures
        ({
            let m1 = step(m, Event::Key(Key::Char { c: '/', ctrl: false })).0;
            let m2 = step(m1, Event::Key(Key::Char { c, ctrl: false })).0;
            let m3 = step(m2, Event::Key(Key::Esc)).0;
            m3.rows == m.rows && !m3.search_open && m3.query.len() == 0
        }),
{
    reveal(rebuild_keep);
    let m1 = step(m, Event::Key(Key::Char { c: '/', ctrl: false })).0;
    assert(m1.search_open && m1.query == m.query);
    let t = crate::model::typed(m1.query, m1.query_caret, c);
    let a = SessionModel { query: t.0, query_caret: t.1, ..m1 };
    lemma_request_dumps_frame(rebuild_keep(a));
    let m2 = step(m1, Event::Key(Key::Char { c, ctrl: false })).0;
    assert(m2.search_open && !m2.overlay);
    let b = SessionModel { search_open: false, query: Seq::empty(), query_caret: 0, ..m2 };
    lemma_request_dumps_frame(rebuild_keep(b));
    let m3 = step(m2, Event::Key(Key::Esc)).0;
    assert(m3.rows == rows_for(b));
    assert(m.query =~= Seq::<char>::empty());
    assert(b.porcelain == m.porcelain && b.ls_files == m.ls_files && b.collapsed == m.collapsed);
    assert(mode_of(b) == mode_of(m));
    assert(rows_for(b) == rows_for(m));
}

/// In the commit overlay, a typed character and a Backspace give back the
/// field and the caret as they were.
pub proof fn law_type_then_backspace(m: SessionModel, c: char)
    requires
        m.overlay,
        fields_ok(m),
        m.field == CommitField::Summary ==> m.summary.len() + 1 < field_bound(),
        m.field == CommitField::Description ==> m.description.len() + 1 < field_bound(),
    ensures
        step(
            step(m, Event::Key(Key::Char { c, ctrl: false })).0,
            Event::Key(Key::Backspace),
        ) == (m, Seq::<EffectView>::empty()),
{
    let m1 = step(m, Event::Key(Key::Char { c, ctrl: false })).0;
    if m.field == CommitField::Summary {
        let s = m.summary;
        let p = m.summary_caret;
        assert(remove_at(insert_at(s, p, c), p) =~= s);
    } else {
        let s = m.description;
        let p = m.description_caret;
        assert(remove_at(insert_at(s, p, c), p) =~= s);
    }
    assert(step(m1, Event::Key(Key::Backspace)).0 =~= m);
}

/// When the rows change, a selected path that is still listed stays
/// selected.
pub proof fn law_selection_follows_the_path(old: Seq<RowView>, i: int, new: Seq<RowView>)
    requires
        0 <= i < old.len(),
        path_index(new, old[i].path, 0) >= 0,
    ensures
        walk_sel(old, Some(i), new) == Some(path_index(new, old[i].path, 0)),
        new[path_index(new, old[i].path, 0)].path == old[i].path,
{
    lemma_path_index_hit(new, old[i].path, 0);
}

proof fn lemma_path_index_hit(rows: Seq<RowView>, path: Seq<char>, k: int)
    requires
        path_index(rows, path, k) >= 0,
    ensures
        k <= path_index(rows, path, k) < rows.len(),
        rows[path_index(rows, path, k)].path == path,
    decreases rows.len() - k,
{
    if k >= 0 && k < rows.len() && rows[k].path != path {
        lemma_path_index_hit(rows, path, k + 1);
    }
}

/// A click on a listed row selects it (outside a strip and the prompt).
pub proof fn law_click_selects(m: SessionModel, index: usize)
    requires
        !inert(m),
        !m.search_open,
        index < m.rows.len(),
    ensures
        step(m, Event::Mouse(MouseHit::Files { index })).0.selected == Some(index as int),
        step(m, Event::Mouse(MouseHit::Files { index })).0.rows == m.rows,
{
    lemma_request_dumps_frame(SessionModel { selected: Some(index as int), ..m });
}

proof fn lemma_seq_less_transitive(a: Seq<char>, b: Seq<char>, c: Seq<char>)
    requires
        seq_less(a, b),
        seq_less(b, c),
    ensures
        seq_less(a, c),
    decreases a.len(),
{
    if a.len() > 0 && b.len() > 0 && c.len() > 0 && a[0] == b[0] && b[0] == c[0] {
        lemma_seq_less_transitive(a.drop_first(), b.drop_first(), c.drop_first());
    }
}

proof fn lemma_seq_less_irreflexive(a: Seq<char>)
    ensures
        !seq_less(a, a),
    decreases a.len(),
{
    if a.len() > 0 {
        lemma_seq_less_irreflexive(a.drop_first());
    }
}

proof fn lemma_node_before_transitive(a: NodeView, b: NodeView, c: NodeView)
    requires
        node_before(a, b),
        node_before(b, c),
    ensures
        node_before(a, c),
{
    if a.dir == b.dir && b.dir == c.dir {
        lemma_seq_less_transitive(a.name, b.name, c.name);
    }
}

/// Siblings in order: no later one goes before an earlier one.
pub open spec fn in_sibling_order(s: Seq<NodeView>) -> bool {
    forall|i: int, j: int| 0 <= i < j < s.len() ==> !node_before(#[trigger] s[j], #[trigger] s[i])
}

proof fn lemma_slot(s: Seq<NodeView>, n: NodeView, i: int)
    requires
        0 <= i <= s.len(),
    ensures
        i <= slot_from(s, n, i) <= s.len(),
        forall|k: int| i <= k < slot_from(s, n, i) ==> !node_before(n, #[trigger] s[k]),
        slot_from(s, n, i) < s.len() ==> node_before(n, s[slot_from(s, n, i)]),
    decreases s.len() - i,
{
    if i < s.len() && !node_before(n, s[i]) {
        lemma_slot(s, n, i + 1);
    }
}

proof fn lemma_insert_in_order(s: Seq<NodeView>, n: NodeView)
    requires
        in_sibling_order(s),
    ensures
        in_sibling_order(insert_sorted(s, n)),
        insert_sorted(s, n).len() == s.len() + 1,
{
    let j = slot_from(s, n, 0);
    lemma_slot(s, n, 0);
    let r = insert_sorted(s, n);
    assert(r.len() == s.len() + 1);
    assert forall|a: int, b: int| 0 <= a < b < r.len() implies !node_before(
        #[trigger] r[b],
        #[trigger] r[a],
    ) by {
        if a < j && b < j {
            assert(r[a] == s[a] && r[b] == s[b]);
        } else if a < j && b == j {
            assert(r[a] == s[a] && r[b] == n);
        } else if a < j {
            assert(r[a] == s[a] && r[b] == s[b - 1]);
        } else if a == j {
            assert(r[a] == n && r[b] == s[b - 1]);
            if node_before(s[b - 1], n) {
                lemma_node_before_transitive(s[b - 1], n, s[j]);
                lemma_seq_less_irreflexive(s[j].name);
                if b - 1 > j {
                    assert(!node_before(s[b - 1], s[j]));
                }
            }
        } else {
            assert(r[a] == s[a - 1] && r[b] == s[b - 1]);
        }
    }
}

/// Siblings in the tree come folders first, then names A to Z (by code
/// point); equal ones keep their order.
pub proof fn law_siblings_in_order(s: Seq<NodeView>)
    ensures
        in_sibling_order(sort_siblings(s)),
        sort_siblings(s).len() == s.len(),
    decreases s.len(),
{
    if s.len() > 0 {
        law_siblings_in_order(s.drop_last());
        lemma_insert_in_order(sort_siblings(s.drop_last()), s.last());
    }
}

/// Every node of the tree has its children in sibling order.
pub open spec fn tree_in_order(n: NodeView) -> bool
    decreases n,
{
    in_sibling_order(n.children) && all_in_order(n.children)
}

pub open spec fn all_in_order(s: Seq<NodeView>) -> bool
    decreases s,
{
    if s.len() == 0 {
        true
    } else {
        all_in_order(s.drop_last()) && tree_in_order(s.last())
    }
}

/// A sorted tree is in sibling order at every level.
pub proof fn law_tree_in_order(n: NodeView)
    ensures
        tree_in_order(sorted_tree(n)),
    decreases n,
{
    lemma_each_in_order(n.children);
    lemma_sorting_keeps_all(sort_each(n.children));
    law_siblings_in_order(sort_each(n.children));
}

proof fn lemma_each_in_order(s: Seq<NodeView>)
    ensures
        all_in_order(sort_each(s)),
    decreases s,
{
    if s.len() > 0 {
        lemma_each_in_order(s.drop_last());
        law_tree_in_order(s.last());
        assert(sort_each(s).drop_last() == sort_each(s.drop_last()));
    }
}

/// `all_in_order` holds of each element; sorting moves elements around.
proof fn lemma_all_in_order_at(s: Seq<NodeView>, k: int)
    requires
        all_in_order(s),
        0 <= k < s.len(),
    ensures
        tree_in_order(s[k]),
    decreases s.len(),
{
    if k < s.len() - 1 {
        lemma_all_in_order_at(s.drop_last(), k);
        assert(s.drop_last()[k] == s[k]);
    }
}

proof fn lemma_all_in_order_from(s: Seq<NodeView>)
    requires
        forall|k: int| 0 <= k < s.len() ==> tree_in_order(#[trigger] s[k]),
    ensures
        all_in_order(s),
    decreases s.len(),
{
    if s.len() > 0 {
        assert forall|k: int| 0 <= k < s.drop_last().len() implies tree_in_order(
            #[trigger] s.drop_last()[k],
        ) by {
            assert(s.drop_last()[k] == s[k]);
        }
        lemma_all_in_order_from(s.drop_last());
        assert(tree_in_order(s[s.len() - 1]));
    }
}

proof fn lemma_sorting_keeps_all(s: Seq<NodeView>)
    requires
        all_in_order(s),
    ensures
        all_in_order(sort_siblings(s)),
    decreases s.len(),
{
    if s.len() > 0 {
        lemma_sorting_keeps_all_elems(s);
        lemma_all_in_order_from(sort_siblings(s));
    }
}

proof fn lemma_sorting_keeps_all_elems(s: Seq<NodeView>)
    requires
        all_in_order(s),
    ensures
        forall|k: int| 0 <= k < sort_siblings(s).len() ==> tree_in_order(#[trigger] sort_siblings(s)[k]),
        sort_siblings(s).len() == s.len(),
    decreases s.len(),
{
    if s.len() > 0 {
        let t = s.drop_last();
        assert(all_in_order(t));
        lemma_sorting_keeps_all_elems(t);
        lemma_all_in_order_at(s, s.len() - 1);
        let st = sort_siblings(t);
        let n = s.last();
        let j = slot_from(st, n, 0);
        lemma_slot(st, n, 0);
        let r = insert_sorted(st, n);
        assert forall|k: int| 0 <= k < r.len() implies tree_in_order(#[trigger] r[k]) by {
            if k < j {
                assert(r[k] == st[k]);
            } else if k == j {
                assert(r[k] == n);
            } else {
                assert(r[k] == st[k - 1]);
            }
        }
    }
}

/// While the dumps for a new selection are on their way, the pane keeps
/// showing the last dump.
pub proof fn law_pane_kept_while_waiting(m: SessionModel)
    ensures
        request_dumps(m).0.dumps is Some ==> request_dumps(m).0.pane == m.pane
            && request_dumps(m).0.pane_body == m.pane_body,
{
    reveal(request_dumps);
}

/// The id `n` steps after `id`.
pub open spec fn bumped(id: u64, n: nat) -> u64
    decreases n,
{
    if n == 0 {
        id
    } else {
        bump(bumped(id, (n - 1) as nat))
    }
}

/// Effects carry the ids `next`, `next + 1`, ... in order, and the counter
/// ends past the last one.
pub open spec fn ids_in_turn(effects: Seq<EffectView>, next: u64, after: u64) -> bool {
    &&& forall|i: int| 0 <= i < effects.len() ==> #[trigger] effects[i].id == bumped(next, i as nat)
    &&& after == bumped(next, effects.len())
}

/// The pane width a dump effect hands to `difft`; other effects have none.
pub open spec fn dump_width(k: KindView) -> Option<u16> {
    match k {
        KindView::GitDiff { width, .. } => Some(width),
        KindView::Difft { width, .. } => Some(width),
        _ => None,
    }
}

/// Every dump among the effects is drawn at width `w`.
pub open spec fn dumps_at(effects: Seq<EffectView>, w: u16) -> bool {
    forall|i: int| 0 <= i < effects.len() ==> (#[trigger] dump_width(effects[i].kind) matches Some(x)
        ==> x == w)
}

proof fn lemma_plan_ids(plan: Seq<ReqView>, id: u64, width: u16)
    ensures
        ids_in_turn(plan_parts(plan, id, width).1, id, plan_parts(plan, id, width).2),
        dumps_at(plan_parts(plan, id, width).1, width),
    decreases plan.len(),
{
    if plan.len() > 0 {
        lemma_plan_ids(plan.drop_last(), id, width);
        let prev = plan_parts(plan.drop_last(), id, width);
        let r = plan_parts(plan, id, width);
        assert forall|i: int| 0 <= i < r.1.len() implies #[trigger] r.1[i].id == bumped(
            id,
            i as nat,
        ) by {
            if i < prev.1.len() {
                assert(r.1[i] == prev.1[i]);
            }
        }
        assert forall|i: int| 0 <= i < r.1.len() implies (#[trigger] dump_width(r.1[i].kind) matches Some(
            x,
        ) ==> x == width) by {
            if i < prev.1.len() {
                assert(r.1[i] == prev.1[i]);
            }
        }
    }
}

proof fn lemma_dump_ids(m: SessionModel)
    ensures
        ids_in_turn(request_dumps(m).1, m.next_id, request_dumps(m).0.next_id),
        dumps_at(request_dumps(m).1, crate::model::pane_width_spec(m.cols)),
        request_dumps(m).0.cols == m.cols,
{
    reveal(request_dumps);
    let path = crate::model::selected_path_spec(m);
    let m1 = if path != m.dump_scroll_path {
        SessionModel { scroll: 0, dump_scroll_path: path, ..m }
    } else {
        m
    };
    let plan = crate::model::current_plan(m1);
    lemma_plan_ids(plan, m1.next_id, crate::model::pane_width_spec(m1.cols));
}

proof fn lemma_rebuild_keeps_counter(m: SessionModel)
    ensures
        rebuild_keep(m).next_id == m.next_id,
        rebuild_keep(m).cols == m.cols,
{
    reveal(rebuild_keep);
}

/// Every step hands out fresh ids: its effects carry the session's next
/// ids in turn, and the counter moves past them. (Results find their way
/// back by these ids.)
pub proof fn law_effect_ids_in_turn(m: SessionModel, e: Event)
    ensures
        ids_in_turn(step(m, e).1, m.next_id, step(m, e).0.next_id),
{
    lemma_step_effects(m, e);
}

/// Every dump a step asks for is drawn at the width the terminal leaves
/// right of the files panel.
pub proof fn law_dumps_at_pane_width(m: SessionModel, e: Event)
    ensures
        dumps_at(step(m, e).1, crate::model::pane_width_spec(step(m, e).0.cols)),
{
    lemma_step_effects(m, e);
}

proof fn lemma_step_effects(m: SessionModel, e: Event)
    ensures
        ids_in_turn(step(m, e).1, m.next_id, step(m, e).0.next_id),
        dumps_at(step(m, e).1, crate::model::pane_width_spec(step(m, e).0.cols)),
{
    let q = Seq::<EffectView>::empty();
    assert(bumped(m.next_id, 0) == m.next_id);
    assert(bumped(m.next_id, 1) == bump(m.next_id));
    assert(bumped(m.next_id, 2) == bump(bump(m.next_id)));
    lemma_dump_ids(m);
    match e {
        Event::Key(k) => {
            lemma_rebuild_keeps_counter(m);
            lemma_key_ids(m, k);
        },
        Event::Mouse(hit) => {
            match hit {
                MouseHit::Files { index } => {
                    lemma_dump_ids(SessionModel { selected: Some(index as int), ..m });
                },
                _ => {},
            }
        },
        Event::Tick => {},
        Event::Resize { cols, rows } => {
            lemma_dump_ids(SessionModel { cols, term_rows: rows, ..m });
        },
        Event::Child(c) => {
            lemma_child_ids(m, crate::model::child_view(c));
        },
    }
}

#[verifier::spinoff_prover]
#[verifier::rlimit(40)]
proof fn lemma_key_ids(m: SessionModel, k: Key)
    ensures
        ids_in_turn(crate::model::key_step(m, k).1, m.next_id, crate::model::key_step(m, k).0.next_id),
        dumps_at(crate::model::key_step(m, k).1, crate::model::pane_width_spec(m.cols)),
        crate::model::key_step(m, k).0.cols == m.cols,
{
    assert(bumped(m.next_id, 0) == m.next_id);
    assert(bumped(m.next_id, 1) == bump(m.next_id));
    assert(bumped(m.next_id, 2) == bump(bump(m.next_id)));
    if m.overlay || m.search_open || strip_takes(m) || inert(m) {
        if m.search_open && !m.overlay {
            let e = crate::model::backspaced(m.query, m.query_caret);
            let m_esc = SessionModel { search_open: false, query: Seq::empty(), query_caret: 0, ..m };
            let m_bs = SessionModel { query: e.0, query_caret: e.1, ..m };
            let m_del = SessionModel { query: crate::caret::remove_at(m.query, m.query_caret), ..m };
            lemma_rebuild_keeps_counter(m_esc);
            lemma_dump_ids(rebuild_keep(m_esc));
            lemma_rebuild_keeps_counter(m_bs);
            lemma_dump_ids(rebuild_keep(m_bs));
            lemma_rebuild_keeps_counter(m_del);
            lemma_dump_ids(rebuild_keep(m_del));
            match k {
                Key::Char { c, ctrl: false } => {
                    let t = crate::model::typed(m.query, m.query_caret, c);
                    let m_ty = SessionModel { query: t.0, query_caret: t.1, ..m };
                    lemma_rebuild_keeps_counter(m_ty);
                    lemma_dump_ids(rebuild_keep(m_ty));
                },
                _ => {},
            }
        }
    } else {
        let fold = crate::model::selected_row(m);
        match fold {
            Some(row) => {
                lemma_rebuild_keeps_counter(
                    SessionModel { collapsed: crate::model::toggled(m.collapsed, row.path), ..m },
                );
            },
            None => {},
        }
        let sa = SessionModel { all_files: !m.all_files, ..m };
        lemma_rebuild_keeps_counter(sa);
        lemma_dump_ids(rebuild_keep(sa));
        let st = SessionModel { tree: !m.tree, ..m };
        lemma_rebuild_keeps_counter(st);
        lemma_dump_ids(rebuild_keep(st));
        lemma_dump_ids(SessionModel { selected: Some(0), ..m });
        match m.selected {
            Some(idx) => {
                let n = m.rows.len() as int;
                lemma_dump_ids(SessionModel { selected: Some(crate::caret::clamp(idx + 1, 0, n - 1)), ..m });
                lemma_dump_ids(SessionModel { selected: Some(crate::caret::clamp(idx - 1, 0, n - 1)), ..m });
            },
            None => {},
        }
    }
}

proof fn lemma_child_ids(m: SessionModel, c: crate::model::ChildView)
    ensures
        ids_in_turn(crate::model::child_step(m, c).1, m.next_id, crate::model::child_step(m, c).0.next_id),
        dumps_at(crate::model::child_step(m, c).1, crate::model::pane_width_spec(m.cols)),
        crate::model::child_step(m, c).0.cols == m.cols,
{
    assert(bumped(m.next_id, 0) == m.next_id);
    assert(bumped(m.next_id, 1) == bump(m.next_id));
    assert(bumped(m.next_id, 2) == bump(bump(m.next_id)));
    if m.write_id != Some(c.id) && m.list is Some {
        let l = m.list.unwrap();
        let l2 = if c.id == l.0 {
            (l.0, l.1, Some(c.stdout), l.3)
        } else if c.id == l.1 {
            (l.0, l.1, l.2, Some(c.stdout))
        } else {
            l
        };
        let m1 = SessionModel { list: Some(l2), ..m };
        if l2.2 is Some && l2.3 is Some {
            lemma_finish_ids(m1);
        }
    }
}

proof fn lemma_finish_ids(m: SessionModel)
    requires
        m.list is Some,
    ensures
        ids_in_turn(
            crate::model::finish_list(m).1,
            m.next_id,
            crate::model::finish_list(m).0.next_id,
        ),
        dumps_at(crate::model::finish_list(m).1, crate::model::pane_width_spec(m.cols)),
        crate::model::finish_list(m).0.cols == m.cols,
{
    let l = m.list.unwrap();
    let por = crate::files::porcelain_entries(
        match l.2 {
            Some(b) => b,
            None => Seq::empty(),
        },
    );
    let ls = crate::files::ls_paths(
        match l.3 {
            Some(b) => b,
            None => Seq::empty(),
        },
    );
    let m1 = SessionModel { list: None, porcelain: por, ls_files: ls, ..m };
    let rows = rows_for(m1);
    let m2 = SessionModel { rows: rows, selected: walk_sel(m.rows, m.selected, rows), ..m1 };
    let m3 = if m2.strip == Some(StripView::NoFilesCommitError) && por.len() > 0 {
        SessionModel { strip: None, ..m2 }
    } else {
        m2
    };
    lemma_dump_ids(m3);
}

} // verus!
