//! Refreshing the files panel.

#![allow(dead_code)]

use difforge::{ChildResult, Effect, EffectKind, Event, Key, MouseHit, Session, Strip, apply};


pub const COLS: u16 = 80;
pub const ROWS: u16 = 24;

pub fn porcelain_z(entries: &[(&str, &str)]) -> Vec<u8> {
    let mut out = Vec::new();
    for (xy, path) in entries {
        assert_eq!(xy.chars().count(), 2, "porcelain XY must be two characters");
        out.extend_from_slice(xy.as_bytes());
        out.push(b' ');
        out.extend_from_slice(path.as_bytes());
        out.push(0);
    }
    out
}

pub fn ls_files_z(paths: &[&str]) -> Vec<u8> {
    let mut out = Vec::new();
    for path in paths {
        out.extend_from_slice(path.as_bytes());
        out.push(0);
    }
    out
}

pub fn ok_child(id: u64, stdout: impl Into<Vec<u8>>) -> ChildResult {
    ChildResult {
        id,
        exit: 0,
        stdout: stdout.into(),
        stderr: Vec::new(),
    }
}

pub fn fail_child(id: u64, exit: i32, stderr: impl Into<Vec<u8>>, stdout: impl Into<Vec<u8>>) -> ChildResult {
    ChildResult {
        id,
        exit,
        stdout: stdout.into(),
        stderr: stderr.into(),
    }
}

pub fn take(effects: &[Effect], kind_matches: impl Fn(&EffectKind) -> bool) -> &Effect {
    effects
        .iter()
        .find(|e| kind_matches(&e.kind))
        .expect("missing effect")
}

pub fn feed(session: Session, child: ChildResult) -> (Session, Vec<Effect>) {
    apply(session, Event::Child(child))
}

pub fn key(session: Session, key: Key) -> (Session, Vec<Effect>) {
    apply(session, Event::Key(key))
}

pub fn ch(c: char) -> Key {
    Key::Char { c, ctrl: false }
}

pub fn ctrl(c: char) -> Key {
    Key::Char { c, ctrl: true }
}

/// Boot, fulfill porcelain + ls-files, then fulfill every dump the Session asked for.
pub fn session_with(
    porcelain: &[(&str, &str)],
    ls_files: &[&str],
    dump: impl Fn(&EffectKind) -> Vec<u8>,
) -> Session {
    let (session, effects) = Session::boot(COLS, ROWS);
    let (session, effects) = finish_refresh(session, effects, porcelain, ls_files, dump);
    session
}

pub fn tall_dump() -> Vec<u8> {
    (0..40).map(|i| format!("line {i}\n")).collect::<String>().into_bytes()
}

pub fn session_changed(porcelain: &[(&str, &str)]) -> Session {
    session_with(porcelain, &[], |_| tall_dump())
}

pub fn finish_refresh(
    mut session: Session,
    mut effects: Vec<Effect>,
    porcelain: &[(&str, &str)],
    ls_files: &[&str],
    dump: impl Fn(&EffectKind) -> Vec<u8>,
) -> (Session, Vec<Effect>) {
    let status = take(&effects, |k| matches!(k, EffectKind::GitPorcelain)).id;
    let ls = take(&effects, |k| matches!(k, EffectKind::GitLsFiles)).id;
    let (next, more) = feed(session, ok_child(status, porcelain_z(porcelain)));
    session = next;
    effects = more;
    let (next, more) = feed(session, ok_child(ls, ls_files_z(ls_files)));
    session = next;
    effects.extend(more);

    let dumps: Vec<Effect> = effects
        .iter()
        .filter(|e| {
            matches!(
                e.kind,
                EffectKind::GitDiff { .. } | EffectKind::Difft { .. }
            )
        })
        .cloned()
        .collect();
    let requested = dumps.clone();
    for effect in dumps {
        let body = dump(&effect.kind);
        let (next, more) = feed(session, ok_child(effect.id, body));
        session = next;
        effects = more;
    }
    effects.extend(requested);
    (session, effects)
}

pub fn pane_width() -> u16 {
    COLS.saturating_sub(28)
}

pub fn finish_dumps(
    mut session: Session,
    mut effects: Vec<Effect>,
    dump: impl Fn(&EffectKind) -> Vec<u8>,
) -> (Session, Vec<Effect>) {
    let dumps: Vec<Effect> = effects
        .iter()
        .filter(|e| {
            matches!(
                e.kind,
                EffectKind::GitDiff { .. } | EffectKind::Difft { .. }
            )
        })
        .cloned()
        .collect();
    let requested = dumps.clone();
    for effect in dumps {
        let body = dump(&effect.kind);
        let (next, more) = feed(session, ok_child(effect.id, body));
        session = next;
        effects = more;
    }
    effects.extend(requested);
    (session, effects)
}

pub fn select_path(
    session: Session,
    path: &str,
    dump: impl Fn(&EffectKind) -> Vec<u8>,
) -> Session {
    let index = session
        .files_rows()
        .iter()
        .position(|r| r.path == path)
        .unwrap_or_else(|| panic!("no row {path}"));
    let (session, effects) = apply(session, Event::Mouse(MouseHit::Files { index }));
    finish_dumps(session, effects, dump).0
}

pub fn type_chars(mut session: Session, text: &str) -> Session {
    for c in text.chars() {
        let (next, _) = key(session, ch(c));
        session = next;
    }
    session
}

#[test]
fn r_reloads_porcelain_and_the_current_dump() {
    let session = session_changed(&[(" M", "a.rs")]);
    let (session, effects) = key(session, ch('r'));
    assert!(effects.iter().any(|e| matches!(e.kind, EffectKind::GitPorcelain)));
    assert!(effects.iter().any(|e| matches!(e.kind, EffectKind::GitLsFiles)));
    let (session, effects) = finish_refresh(
        session,
        effects,
        &[(" M", "a.rs"), (" M", "b.rs")],
        &[],
        |_| b"new dump\n".to_vec(),
    );
    assert_eq!(session.files_rows().len(), 2);
    assert!(session.pane_body().contains("new dump"));
}

#[test]
fn tick_refreshes_when_idle_and_pauses_under_overlay_search_and_strip() {
    let session = session_changed(&[(" M", "a.rs")]);
    assert!(!session.poll_paused());
    let (_, effects) = apply(session, Event::Tick);
    assert!(effects.iter().any(|e| matches!(e.kind, EffectKind::GitPorcelain)));

    let session = session_changed(&[("M ", "a.rs")]);
    let (session, _) = key(session, ch('c'));
    assert!(session.poll_paused());
    let (session, effects) = apply(session, Event::Tick);
    assert!(effects.is_empty());
    let (session, _) = key(session, Key::Esc);

    let session = session_changed(&[(" M", "a.rs")]);
    let (session, _) = key(session, ch('/'));
    assert!(session.poll_paused());
    let (session, effects) = apply(session, Event::Tick);
    assert!(effects.is_empty());
    let (session, effects) = key(session, Key::Esc);
    let session = finish_dumps(session, effects, |_| b"dump\n".to_vec()).0;
    assert!(!session.poll_paused());
    let (_, effects) = apply(session, Event::Tick);
    assert!(effects.iter().any(|e| matches!(e.kind, EffectKind::GitPorcelain)));

    let session = session_changed(&[]);
    let (session, _) = key(session, ch('c'));
    assert!(session.poll_paused());
    let (_, effects) = apply(session, Event::Tick);
    assert!(effects.is_empty());
}

#[test]
fn r_on_no_files_closes_the_strip_when_files_appear() {
    let session = session_changed(&[]);
    let (session, _) = key(session, ch('c'));
    assert_eq!(session.strip(), Some(&Strip::NoFilesCommitError));
    let (session, effects) = key(session, ch('r'));
    let (session, _) = finish_refresh(session, effects, &[(" M", "a.rs")], &[], |_| {
        b"dump\n".to_vec()
    });
    assert!(session.strip().is_none());
    assert!(!session.overlay_open());
}

#[test]
fn r_on_no_files_leaves_the_strip_when_porcelain_is_still_empty() {
    let session = session_changed(&[]);
    let (session, _) = key(session, ch('c'));
    let (session, effects) = key(session, ch('r'));
    let (session, _) = finish_refresh(session, effects, &[], &[], |_| b"".to_vec());
    assert_eq!(session.strip(), Some(&Strip::NoFilesCommitError));
}

#[test]
fn r_on_a_git_write_error_refreshes_and_leaves_the_strip() {
    let session = session_changed(&[(" M", "a.rs")]);
    let (session, effects) = key(session, ch(' '));
    let write = take(&effects, |k| matches!(k, EffectKind::GitAdd { .. }));
    let (session, _) = feed(session, fail_child(write.id, 1, b"denied", b""));
    let (session, effects) = key(session, ch('r'));
    assert!(effects.iter().any(|e| matches!(e.kind, EffectKind::GitPorcelain)));
    let (session, _) = finish_refresh(session, effects, &[(" M", "a.rs")], &[], |_| {
        b"dump\n".to_vec()
    });
    match session.strip() {
        Some(Strip::GitWriteError { text }) => assert!(text.contains("denied")),
        other => panic!("{other:?}"),
    }
}

#[test]
fn refresh_keeps_the_selected_path_or_walks_to_the_next_old_row() {
    let session = session_changed(&[(" M", "a.rs"), (" M", "b.rs"), (" M", "c.rs")]);
    let (session, _) = key(session, ch('j'));
    assert_eq!(session.selected_path(), Some("b.rs"));
    let (session, effects) = key(session, ch('r'));
    let (session, _) = finish_refresh(
        session,
        effects,
        &[(" M", "a.rs"), (" M", "b.rs"), (" M", "c.rs")],
        &[],
        |_| b"dump\n".to_vec(),
    );
    assert_eq!(session.selected_path(), Some("b.rs"));

    let (session, effects) = key(session, ch('r'));
    let (session, _) = finish_refresh(
        session,
        effects,
        &[(" M", "a.rs"), (" M", "c.rs")],
        &[],
        |_| b"dump\n".to_vec(),
    );
    assert_eq!(session.selected_path(), Some("c.rs"));
}

#[test]
fn vanished_last_row_walks_to_the_previous_old_row() {
    let session = session_changed(&[(" M", "a.rs"), (" M", "b.rs"), (" M", "c.rs")]);
    let (session, _) = key(session, ch('j'));
    let (session, _) = key(session, ch('j'));
    assert_eq!(session.selected_path(), Some("c.rs"));
    let (session, effects) = key(session, ch('r'));
    let (session, _) = finish_refresh(
        session,
        effects,
        &[(" M", "a.rs"), (" M", "b.rs")],
        &[],
        |_| b"dump\n".to_vec(),
    );
    assert_eq!(session.selected_path(), Some("b.rs"));
}

#[test]
fn empty_list_after_refresh_clears_the_selection() {
    let session = session_changed(&[(" M", "a.rs")]);
    let (session, effects) = key(session, ch('r'));
    let (session, _) = finish_refresh(session, effects, &[], &[], |_| b"".to_vec());
    assert!(session.files_rows().is_empty());
    assert_eq!(session.selected_path(), None);
}

