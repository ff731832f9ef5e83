//! Committing from the overlay.

#![allow(dead_code)]

use difforge::{ChildResult, Effect, EffectKind, Event, Key, MouseHit, Session, Strip, apply};


pub const COLS: u16 = 80;
pub const ROWS: u16 = 24;

pub fn porcelain_z(entries: &[(&str, &str)]) -> Vec<u8> {
    let mut out = Vec::new();
    for (xy, path) in entries {
        assert_eq!(xy.chars().count(), 2, "porcelain XY must be two characters");
        out.extend_from_slice(xy.as_bytes());
        out.push(b' ');
        out.extend_from_slice(path.as_bytes());
        out.push(0);
    }
    out
}

pub fn ls_files_z(paths: &[&str]) -> Vec<u8> {
    let mut out = Vec::new();
    for path in paths {
        out.extend_from_slice(path.as_bytes());
        out.push(0);
    }
    out
}

pub fn ok_child(id: u64, stdout: impl Into<Vec<u8>>) -> ChildResult {
    ChildResult {
        id,
        exit: 0,
        stdout: stdout.into(),
        stderr: Vec::new(),
    }
}

pub fn fail_child(id: u64, exit: i32, stderr: impl Into<Vec<u8>>, stdout: impl Into<Vec<u8>>) -> ChildResult {
    ChildResult {
        id,
        exit,
        stdout: stdout.into(),
        stderr: stderr.into(),
    }
}

pub fn take(effects: &[Effect], kind_matches: impl Fn(&EffectKind) -> bool) -> &Effect {
    effects
        .iter()
        .find(|e| kind_matches(&e.kind))
        .expect("missing effect")
}

pub fn feed(session: Session, child: ChildResult) -> (Session, Vec<Effect>) {
    apply(session, Event::Child(child))
}

pub fn key(session: Session, key: Key) -> (Session, Vec<Effect>) {
    apply(session, Event::Key(key))
}

pub fn ch(c: char) -> Key {
    Key::Char { c, ctrl: false }
}

pub fn ctrl(c: char) -> Key {
    Key::Char { c, ctrl: true }
}

/// Boot, fulfill porcelain + ls-files, then fulfill every dump the Session asked for.
pub fn session_with(
    porcelain: &[(&str, &str)],
    ls_files: &[&str],
    dump: impl Fn(&EffectKind) -> Vec<u8>,
) -> Session {
    let (session, effects) = Session::boot(COLS, ROWS);
    let (session, effects) = finish_refresh(session, effects, porcelain, ls_files, dump);
    session
}

pub fn tall_dump() -> Vec<u8> {
    (0..40).map(|i| format!("line {i}\n")).collect::<String>().into_bytes()
}

pub fn session_changed(porcelain: &[(&str, &str)]) -> Session {
    session_with(porcelain, &[], |_| tall_dump())
}

pub fn finish_refresh(
    mut session: Session,
    mut effects: Vec<Effect>,
    porcelain: &[(&str, &str)],
    ls_files: &[&str],
    dump: impl Fn(&EffectKind) -> Vec<u8>,
) -> (Session, Vec<Effect>) {
    let status = take(&effects, |k| matches!(k, EffectKind::GitPorcelain)).id;
    let ls = take(&effects, |k| matches!(k, EffectKind::GitLsFiles)).id;
    let (next, more) = feed(session, ok_child(status, porcelain_z(porcelain)));
    session = next;
    effects = more;
    let (next, more) = feed(session, ok_child(ls, ls_files_z(ls_files)));
    session = next;
    effects.extend(more);

    let dumps: Vec<Effect> = effects
        .iter()
        .filter(|e| {
            matches!(
                e.kind,
                EffectKind::GitDiff { .. } | EffectKind::Difft { .. }
            )
        })
        .cloned()
        .collect();
    let requested = dumps.clone();
    for effect in dumps {
        let body = dump(&effect.kind);
        let (next, more) = feed(session, ok_child(effect.id, body));
        session = next;
        effects = more;
    }
    effects.extend(requested);
    (session, effects)
}

pub fn pane_width() -> u16 {
    COLS.saturating_sub(28)
}

pub fn finish_dumps(
    mut session: Session,
    mut effects: Vec<Effect>,
    dump: impl Fn(&EffectKind) -> Vec<u8>,
) -> (Session, Vec<Effect>) {
    let dumps: Vec<Effect> = effects
        .iter()
        .filter(|e| {
            matches!(
                e.kind,
                EffectKind::GitDiff { .. } | EffectKind::Difft { .. }
            )
        })
        .cloned()
        .collect();
    let requested = dumps.clone();
    for effect in dumps {
        let body = dump(&effect.kind);
        let (next, more) = feed(session, ok_child(effect.id, body));
        session = next;
        effects = more;
    }
    effects.extend(requested);
    (session, effects)
}

pub fn select_path(
    session: Session,
    path: &str,
    dump: impl Fn(&EffectKind) -> Vec<u8>,
) -> Session {
    let index = session
        .files_rows()
        .iter()
        .position(|r| r.path == path)
        .unwrap_or_else(|| panic!("no row {path}"));
    let (session, effects) = apply(session, Event::Mouse(MouseHit::Files { index }));
    finish_dumps(session, effects, dump).0
}

pub fn type_chars(mut session: Session, text: &str) -> Session {
    for c in text.chars() {
        let (next, _) = key(session, ch(c));
        session = next;
    }
    session
}

#[test]
fn c_with_a_non_empty_index_opens_the_overlay() {
    let session = session_changed(&[("M ", "a.rs")]);
    let (session, _) = key(session, ch('c'));
    assert!(session.overlay_open());
    assert!(session.strip().is_none());
}

#[test]
fn enter_on_a_non_blank_summary_runs_git_commit() {
    let session = session_changed(&[("M ", "a.rs")]);
    let (session, _) = key(session, ch('c'));
    let session = type_chars(session, "fix parse");
    let (_, effects) = key(session, Key::Enter { ctrl: false });
    match &take(&effects, |k| matches!(k, EffectKind::GitCommit { .. })).kind {
        EffectKind::GitCommit {
            summary,
            description,
        } => {
            assert_eq!(summary, "fix parse");
            assert_eq!(description, "");
        }
        other => panic!("{other:?}"),
    }
}

#[test]
fn description_is_a_second_minus_m_and_enter_inserts_a_newline() {
    let session = session_changed(&[("M ", "a.rs")]);
    let (session, _) = key(session, ch('c'));
    let session = type_chars(session, "fix parse");
    let (session, _) = key(session, Key::Tab);
    let session = type_chars(session, "line one");
    let (session, _) = key(session, Key::Enter { ctrl: false });
    let session = type_chars(session, "line two");
    let (_, effects) = key(session, Key::Char { c: 's', ctrl: true });
    match &take(&effects, |k| matches!(k, EffectKind::GitCommit { .. })).kind {
        EffectKind::GitCommit {
            summary,
            description,
        } => {
            assert_eq!(summary, "fix parse");
            assert_eq!(description, "line one\nline two");
        }
        other => panic!("{other:?}"),
    }
}

#[test]
fn empty_summary_is_refused_and_never_reaches_git() {
    let session = session_changed(&[("M ", "a.rs")]);
    let (session, _) = key(session, ch('c'));
    let (session, effects) = key(session, Key::Enter { ctrl: false });
    assert!(effects.is_empty());
    assert_eq!(session.strip(), Some(&Strip::EmptySummaryRefusal));
    assert_eq!(
        session.strip_text().as_deref(),
        Some("Commit summary is required.")
    );
    assert!(session.overlay_open());
    let (session, effects) = key(session, Key::Enter { ctrl: false });
    assert!(effects.is_empty());
    assert_eq!(session.strip(), Some(&Strip::EmptySummaryRefusal));

    let session = type_chars(session, "   ");
    let (session, effects) = key(session, Key::Enter { ctrl: false });
    assert!(effects.is_empty());
    assert_eq!(session.strip(), Some(&Strip::EmptySummaryRefusal));
}

#[test]
fn a_real_summary_after_a_refusal_commits() {
    let session = session_changed(&[("M ", "a.rs")]);
    let (session, _) = key(session, ch('c'));
    let (session, _) = key(session, Key::Enter { ctrl: false });
    let session = type_chars(session, "done");
    let (_, effects) = key(session, Key::Enter { ctrl: false });
    match &take(&effects, |k| matches!(k, EffectKind::GitCommit { .. })).kind {
        EffectKind::GitCommit { summary, .. } => assert_eq!(summary, "done"),
        other => panic!("{other:?}"),
    }
}

#[test]
fn esc_keeps_the_draft_and_kills_the_refusal() {
    let session = session_changed(&[("M ", "a.rs")]);
    let (session, _) = key(session, ch('c'));
    let session = type_chars(session, "wip");
    let (session, _) = key(session, Key::Enter { ctrl: false });
    // wait, that would commit. type then refuse with empty... type wip then we have summary.
    let (session, _) = key(session, Key::Esc);
    assert!(!session.overlay_open());
    assert_eq!(session.draft().summary, "wip");
    assert!(session.strip().is_none());
}

#[test]
fn successful_commit_clears_the_draft_and_refreshes() {
    let session = session_changed(&[("M ", "a.rs")]);
    let (session, _) = key(session, ch('c'));
    let session = type_chars(session, "ok");
    let (session, effects) = key(session, Key::Enter { ctrl: false });
    let commit = take(&effects, |k| matches!(k, EffectKind::GitCommit { .. }));
    let (session, effects) = feed(session, ok_child(commit.id, b""));
    assert!(!session.overlay_open());
    assert_eq!(session.draft().summary, "");
    assert!(effects.iter().any(|e| matches!(e.kind, EffectKind::GitPorcelain)));
}

#[test]
fn failed_commit_keeps_the_overlay_and_shows_the_child() {
    let session = session_changed(&[("M ", "a.rs")]);
    let (session, _) = key(session, ch('c'));
    let session = type_chars(session, "ok");
    let (session, effects) = key(session, Key::Enter { ctrl: false });
    let commit = take(&effects, |k| matches!(k, EffectKind::GitCommit { .. }));
    let (session, _) = feed(session, fail_child(commit.id, 1, b"hook failed\n", b""));
    assert!(session.overlay_open());
    match session.strip() {
        Some(Strip::GitWriteError { text }) => assert!(text.contains("hook failed")),
        other => panic!("{other:?}"),
    }
    assert_eq!(session.draft().summary, "ok");
    let (session, _) = key(session, ch('!'));
    assert_eq!(session.draft().summary, "ok!");
}

#[test]
fn retry_after_failed_commit_replaces_the_error() {
    let session = session_changed(&[("M ", "a.rs")]);
    let (session, _) = key(session, ch('c'));
    let session = type_chars(session, "ok");
    let (session, effects) = key(session, Key::Enter { ctrl: false });
    let commit = take(&effects, |k| matches!(k, EffectKind::GitCommit { .. }));
    let (session, _) = feed(session, fail_child(commit.id, 1, b"first\n", b""));
    let (session, effects) = key(session, Key::Enter { ctrl: false });
    let commit = take(&effects, |k| matches!(k, EffectKind::GitCommit { .. }));
    let (session, _) = feed(session, fail_child(commit.id, 1, b"second\n", b""));
    match session.strip() {
        Some(Strip::GitWriteError { text }) => {
            assert!(text.contains("second"));
            assert!(!text.contains("first"));
        }
        other => panic!("{other:?}"),
    }
}

#[test]
fn esc_after_failed_commit_closes_and_keeps_the_draft() {
    let session = session_changed(&[("M ", "a.rs")]);
    let (session, _) = key(session, ch('c'));
    let session = type_chars(session, "ok");
    let (session, effects) = key(session, Key::Enter { ctrl: false });
    let commit = take(&effects, |k| matches!(k, EffectKind::GitCommit { .. }));
    let (session, _) = feed(session, fail_child(commit.id, 1, b"nope", b""));
    let (session, _) = key(session, Key::Esc);
    assert!(!session.overlay_open());
    assert!(session.strip().is_none());
    assert_eq!(session.draft().summary, "ok");
}

#[test]
fn q_types_in_the_overlay_and_ctrl_c_quits() {
    let session = session_changed(&[("M ", "a.rs")]);
    let (session, _) = key(session, ch('c'));
    let (session, effects) = key(session, ch('q'));
    assert!(!effects.iter().any(|e| matches!(e.kind, EffectKind::Quit)));
    assert_eq!(session.draft().summary, "q");
    let (_, effects) = key(session, ctrl('c'));
    assert!(effects.iter().any(|e| matches!(e.kind, EffectKind::Quit)));
}

#[test]
fn left_and_right_move_the_caret() {
    let session = session_changed(&[("M ", "a.rs")]);
    let (session, _) = key(session, ch('c'));
    let session = type_chars(session, "ab");
    assert_eq!(session.caret(), 2);
    let (session, _) = key(session, Key::Left);
    assert_eq!(session.caret(), 1);
    let (session, _) = key(session, Key::Right);
    assert_eq!(session.caret(), 2);
}

#[test]
fn ctrl_enter_commits_from_either_field() {
    let session = session_changed(&[("M ", "a.rs")]);
    let (session, _) = key(session, ch('c'));
    let session = type_chars(session, "msg");
    let (session, _) = key(session, Key::Tab);
    let (_, effects) = key(session, Key::Enter { ctrl: true });
    assert!(effects
        .iter()
        .any(|e| matches!(e.kind, EffectKind::GitCommit { .. })));
}

