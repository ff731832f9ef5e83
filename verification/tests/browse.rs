//! Browsing all files, trees, and folders.

#![allow(dead_code)]

use difforge::{ChildResult, Effect, EffectKind, Event, FilesMode, Key, MouseHit, RowKind, Session, apply};


pub const COLS: u16 = 80;
pub const ROWS: u16 = 24;

pub fn porcelain_z(entries: &[(&str, &str)]) -> Vec<u8> {
    let mut out = Vec::new();
    for (xy, path) in entries {
        assert_eq!(xy.chars().count(), 2, "porcelain XY must be two characters");
        out.extend_from_slice(xy.as_bytes());
        out.push(b' ');
        out.extend_from_slice(path.as_bytes());
        out.push(0);
    }
    out
}

pub fn ls_files_z(paths: &[&str]) -> Vec<u8> {
    let mut out = Vec::new();
    for path in paths {
        out.extend_from_slice(path.as_bytes());
        out.push(0);
    }
    out
}

pub fn ok_child(id: u64, stdout: impl Into<Vec<u8>>) -> ChildResult {
    ChildResult {
        id,
        exit: 0,
        stdout: stdout.into(),
        stderr: Vec::new(),
    }
}

pub fn fail_child(id: u64, exit: i32, stderr: impl Into<Vec<u8>>, stdout: impl Into<Vec<u8>>) -> ChildResult {
    ChildResult {
        id,
        exit,
        stdout: stdout.into(),
        stderr: stderr.into(),
    }
}

pub fn take(effects: &[Effect], kind_matches: impl Fn(&EffectKind) -> bool) -> &Effect {
    effects
        .iter()
        .find(|e| kind_matches(&e.kind))
        .expect("missing effect")
}

pub fn feed(session: Session, child: ChildResult) -> (Session, Vec<Effect>) {
    apply(session, Event::Child(child))
}

pub fn key(session: Session, key: Key) -> (Session, Vec<Effect>) {
    apply(session, Event::Key(key))
}

pub fn ch(c: char) -> Key {
    Key::Char { c, ctrl: false }
}

pub fn ctrl(c: char) -> Key {
    Key::Char { c, ctrl: true }
}

/// Boot, fulfill porcelain + ls-files, then fulfill every dump the Session asked for.
pub fn session_with(
    porcelain: &[(&str, &str)],
    ls_files: &[&str],
    dump: impl Fn(&EffectKind) -> Vec<u8>,
) -> Session {
    let (session, effects) = Session::boot(COLS, ROWS);
    let (session, effects) = finish_refresh(session, effects, porcelain, ls_files, dump);
    session
}

pub fn tall_dump() -> Vec<u8> {
    (0..40).map(|i| format!("line {i}\n")).collect::<String>().into_bytes()
}

pub fn session_changed(porcelain: &[(&str, &str)]) -> Session {
    session_with(porcelain, &[], |_| tall_dump())
}

pub fn finish_refresh(
    mut session: Session,
    mut effects: Vec<Effect>,
    porcelain: &[(&str, &str)],
    ls_files: &[&str],
    dump: impl Fn(&EffectKind) -> Vec<u8>,
) -> (Session, Vec<Effect>) {
    let status = take(&effects, |k| matches!(k, EffectKind::GitPorcelain)).id;
    let ls = take(&effects, |k| matches!(k, EffectKind::GitLsFiles)).id;
    let (next, more) = feed(session, ok_child(status, porcelain_z(porcelain)));
    session = next;
    effects = more;
    let (next, more) = feed(session, ok_child(ls, ls_files_z(ls_files)));
    session = next;
    effects.extend(more);

    let dumps: Vec<Effect> = effects
        .iter()
        .filter(|e| {
            matches!(
                e.kind,
                EffectKind::GitDiff { .. } | EffectKind::Difft { .. }
            )
        })
        .cloned()
        .collect();
    let requested = dumps.clone();
    for effect in dumps {
        let body = dump(&effect.kind);
        let (next, more) = feed(session, ok_child(effect.id, body));
        session = next;
        effects = more;
    }
    effects.extend(requested);
    (session, effects)
}

pub fn pane_width() -> u16 {
    COLS.saturating_sub(28)
}

pub fn finish_dumps(
    mut session: Session,
    mut effects: Vec<Effect>,
    dump: impl Fn(&EffectKind) -> Vec<u8>,
) -> (Session, Vec<Effect>) {
    let dumps: Vec<Effect> = effects
        .iter()
        .filter(|e| {
            matches!(
                e.kind,
                EffectKind::GitDiff { .. } | EffectKind::Difft { .. }
            )
        })
        .cloned()
        .collect();
    let requested = dumps.clone();
    for effect in dumps {
        let body = dump(&effect.kind);
        let (next, more) = feed(session, ok_child(effect.id, body));
        session = next;
        effects = more;
    }
    effects.extend(requested);
    (session, effects)
}

pub fn select_path(
    session: Session,
    path: &str,
    dump: impl Fn(&EffectKind) -> Vec<u8>,
) -> Session {
    let index = session
        .files_rows()
        .iter()
        .position(|r| r.path == path)
        .unwrap_or_else(|| panic!("no row {path}"));
    let (session, effects) = apply(session, Event::Mouse(MouseHit::Files { index }));
    finish_dumps(session, effects, dump).0
}

pub fn type_chars(mut session: Session, text: &str) -> Session {
    for c in text.chars() {
        let (next, _) = key(session, ch(c));
        session = next;
    }
    session
}

#[test]
fn f_toggles_all_files_versus_changed_files() {
    let session = session_with(
        &[(" M", "src/a.rs")],
        &["src/a.rs", "src/b.rs", "README.md"],
        |_| b"dump\n".to_vec(),
    );
    assert_eq!(session.files_mode(), FilesMode::ChangedFlat);
    let (session, _) = key(session, ch('f'));
    assert_eq!(session.files_mode(), FilesMode::AllTree);
    let paths: Vec<_> = session.files_rows().iter().map(|r| r.path.as_str()).collect();
    assert!(paths.contains(&"README.md"));
    assert!(paths.contains(&"src"));
    let (session, _) = key(session, ch('f'));
    assert_eq!(session.files_mode(), FilesMode::ChangedFlat);
}

#[test]
fn backtick_and_t_toggle_flat_versus_tree_on_changed_files() {
    let session = session_changed(&[(" M", "src/a.rs"), (" M", "src/b.rs")]);
    let (session, _) = key(session, ch('`'));
    assert_eq!(session.files_mode(), FilesMode::ChangedTree);
    let (session, _) = key(session, ch('t'));
    assert_eq!(session.files_mode(), FilesMode::ChangedFlat);
}

#[test]
fn all_files_stays_a_tree_when_t_or_backtick_is_pressed() {
    let session = session_with(&[(" M", "a.rs")], &["a.rs", "b.rs"], |_| b"dump\n".to_vec());
    let (session, _) = key(session, ch('f'));
    assert_eq!(session.files_mode(), FilesMode::AllTree);
    let (session, _) = key(session, ch('t'));
    assert_eq!(session.files_mode(), FilesMode::AllTree);
    let (session, _) = key(session, ch('`'));
    assert_eq!(session.files_mode(), FilesMode::AllTree);
}

#[test]
fn tree_order_is_folders_first_then_files_az() {
    let session = session_changed(&[
        (" M", "z.rs"),
        (" M", "src/b.rs"),
        (" M", "src/a.rs"),
        (" M", "lib/c.rs"),
    ]);
    let (session, _) = key(session, ch('`'));
    let labels: Vec<_> = session
        .files_rows()
        .iter()
        .map(|r| (r.kind, r.path.as_str()))
        .collect();
    assert_eq!(
        labels,
        vec![
            (RowKind::Directory, "lib"),
            (RowKind::File, "lib/c.rs"),
            (RowKind::Directory, "src"),
            (RowKind::File, "src/a.rs"),
            (RowKind::File, "src/b.rs"),
            (RowKind::File, "z.rs"),
        ]
    );
}

#[test]
fn all_files_is_union_of_ls_files_and_porcelain_and_omits_ignored() {
    let session = session_with(
        &[("D ", "gone.rs"), (" M", "src/a.rs")],
        &["src/a.rs", "src/b.rs"],
        |_| b"dump\n".to_vec(),
    );
    let (session, _) = key(session, ch('f'));
    let files: Vec<_> = session
        .files_rows()
        .iter()
        .filter(|r| r.kind == RowKind::File)
        .map(|r| r.path.as_str())
        .collect();
    assert_eq!(files, vec!["src/a.rs", "src/b.rs", "gone.rs"]);
    assert!(!session
        .files_rows()
        .iter()
        .any(|r| r.path.contains("node_modules")));
}

#[test]
fn h_l_and_enter_fold_a_directory_and_enter_on_a_file_does_nothing() {
    let session = session_changed(&[(" M", "src/a.rs"), (" M", "src/b.rs")]);
    let (session, _) = key(session, ch('`'));
    let src = session
        .files_rows()
        .iter()
        .position(|r| r.path == "src")
        .unwrap();
    let (session, _) = apply(
        session,
        Event::Mouse(MouseHit::Files { index: src }),
    );
    let before = session.files_rows().len();
    let (session, _) = key(session, ch('h'));
    assert!(session.files_rows().len() < before);
    assert_eq!(
        session
            .files_rows()
            .iter()
            .find(|r| r.path == "src")
            .unwrap()
            .expanded,
        Some(false)
    );
    let (session, _) = key(session, ch('l'));
    assert_eq!(
        session
            .files_rows()
            .iter()
            .find(|r| r.path == "src")
            .unwrap()
            .expanded,
        Some(true)
    );
    let (session, _) = key(session, Key::Enter { ctrl: false });
    assert_eq!(
        session
            .files_rows()
            .iter()
            .find(|r| r.path == "src")
            .unwrap()
            .expanded,
        Some(false)
    );
    let (session, _) = key(session, ch('l'));
    let file = session
        .files_rows()
        .iter()
        .position(|r| r.path == "src/a.rs")
        .unwrap();
    let (session, _) = apply(session, Event::Mouse(MouseHit::Files { index: file }));
    let n = session.files_rows().len();
    let (session, _) = key(session, Key::Enter { ctrl: false });
    assert_eq!(session.files_rows().len(), n);
    assert_eq!(session.selected_path(), Some("src/a.rs"));
}

#[test]
fn long_names_truncate_to_the_files_panel_width() {
    let long = "abcdefghijklmnopqrstuvwxyz0123456789.rs";
    let session = session_changed(&[(" M", long)]);
    let display = &session.files_rows()[0].display;
    assert!(display.len() < format!(" M {long}").len());
    assert!(display.len() <= 28);
}

#[test]
fn focused_folder_in_changed_files_stacks_only_dirty_descendants() {
    let dump = |kind: &EffectKind| match kind {
        EffectKind::GitDiff { path, .. } => format!("DUMP {path}\n").into_bytes(),
        _ => b"dump\n".to_vec(),
    };
    let session = session_with(
        &[(" M", "src/a.rs"), (" M", "src/b.rs")],
        &["src/a.rs", "src/b.rs", "src/clean.rs"],
        dump,
    );
    let (session, _) = key(session, ch('`'));
    let session = select_path(session, "src", dump);
    let body = session.pane_body();
    assert!(body.contains("DUMP src/a.rs"), "{body}");
    assert!(body.contains("DUMP src/b.rs"), "{body}");
    assert!(!body.contains("clean.rs"), "{body}");
}

#[test]
fn unchanged_file_and_folder_in_all_files_show_no_changes() {
    let session = session_with(
        &[(" M", "src/a.rs")],
        &["src/a.rs", "src/clean.rs", "empty/kept.rs"],
        |_| b"dirty\n".to_vec(),
    );
    let (session, _) = key(session, ch('f'));
    let session = select_path(session, "src/clean.rs", |_| b"dirty\n".to_vec());
    assert_eq!(session.pane_body(), "src/clean.rs --- no changes");

    let session = select_path(session, "empty", |_| b"dirty\n".to_vec());
    assert!(
        session.pane_body().contains("empty/kept.rs --- no changes"),
        "{}",
        session.pane_body()
    );
}

#[test]
fn failed_dump_in_a_folder_stack_occupies_only_that_slot() {
    let session = session_changed(&[(" M", "src/a.rs"), (" M", "src/b.rs")]);
    let (session, _) = key(session, ch('`'));
    let src = session
        .files_rows()
        .iter()
        .position(|r| r.path == "src")
        .unwrap();
    let (session, effects) = apply(session, Event::Mouse(MouseHit::Files { index: src }));
    let diffs: Vec<_> = effects
        .iter()
        .filter(|e| matches!(e.kind, EffectKind::GitDiff { .. }))
        .cloned()
        .collect();
    assert_eq!(diffs.len(), 2);
    let (a, b) = (&diffs[0], &diffs[1]);
    let (session, _) = feed(session, fail_child(a.id, 2, b"boom\n", b""));
    let (session, _) = feed(session, ok_child_named(b.id, b"GOOD\n"));
    let body = session.pane_body();
    assert!(body.contains("boom"), "{body}");
    assert!(body.contains("GOOD"), "{body}");
}

fn ok_child_named(id: u64, stdout: &[u8]) -> difforge::ChildResult {
    ok_child(id, stdout.to_vec())
}

#[test]
fn rename_add_delete_and_unmerged_are_ordinary_paths() {
    let session = session_changed(&[
        ("R ", "renamed.rs"),
        ("A ", "added.rs"),
        ("D ", "deleted.rs"),
        ("UU", "conflict.rs"),
    ]);
    let paths: Vec<_> = session.files_rows().iter().map(|r| r.path.as_str()).collect();
    assert_eq!(
        paths,
        vec!["renamed.rs", "added.rs", "deleted.rs", "conflict.rs"]
    );
}

