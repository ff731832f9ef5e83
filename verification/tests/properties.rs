//! Examples of what holds of every session, and of the start-up gate.

use difforge::files::{parse_porcelain, truncate};
use difforge::startup::{answers_true, inside_work_tree, startup_verdict, WorkTreeProbe};
use difforge::{apply, startup_message, ChildResult, Effect, EffectKind, Event, Key, Session, StartupError, Strip};

fn porcelain_z(entries: &[(&str, &str)]) -> Vec<u8> {
    let mut out = Vec::new();
    for (xy, path) in entries {
        out.extend_from_slice(xy.as_bytes());
        out.push(b' ');
        out.extend_from_slice(path.as_bytes());
        out.push(0);
    }
    out
}

fn ok(id: u64, stdout: &[u8]) -> ChildResult {
    ChildResult { id, exit: 0, stdout: stdout.to_vec(), stderr: Vec::new() }
}

fn booted(entries: &[(&str, &str)], dump: &[u8]) -> (Session, Vec<Effect>) {
    let (session, effects) = Session::boot(80, 24);
    let status = effects.iter().find(|e| matches!(e.kind, EffectKind::GitPorcelain)).unwrap().id;
    let ls = effects.iter().find(|e| matches!(e.kind, EffectKind::GitLsFiles)).unwrap().id;
    let (session, _) = apply(session, Event::Child(ok(status, &porcelain_z(entries))));
    let (mut session, more) = apply(session, Event::Child(ok(ls, b"")));
    let asked = more.clone();
    for e in more {
        if matches!(e.kind, EffectKind::GitDiff { .. } | EffectKind::Difft { .. }) {
            let (next, _) = apply(session, Event::Child(ok(e.id, dump)));
            session = next;
        }
    }
    (session, asked)
}

fn key(session: Session, k: Key) -> (Session, Vec<Effect>) {
    apply(session, Event::Key(k))
}

#[test]
fn typing_then_backspace_gives_the_draft_back() {
    let (session, _) = booted(&[("M ", "a.rs")], b"dump\n");
    let (session, _) = key(session, Key::Char { c: 'c', ctrl: false });
    assert!(session.overlay_open());
    let (session, _) = key(session, Key::Char { c: 'o', ctrl: false });
    let (session, _) = key(session, Key::Char { c: 'k', ctrl: false });
    let (session, _) = key(session, Key::Left);
    let before = (session.draft().summary.clone(), session.caret());
    let (session, _) = key(session, Key::Char { c: 'x', ctrl: false });
    assert_eq!(session.draft().summary, "oxk");
    let (session, effects) = key(session, Key::Backspace);
    assert!(effects.is_empty());
    assert_eq!((session.draft().summary.clone(), session.caret()), before);
}

#[test]
fn tab_twice_gives_the_focus_back() {
    let (session, _) = booted(&[(" M", "a.rs")], b"dump\n");
    let focus = session.focus();
    let (session, e1) = key(session, Key::Tab);
    assert_ne!(session.focus(), focus);
    let (session, e2) = key(session, Key::Tab);
    assert_eq!(session.focus(), focus);
    assert!(e1.is_empty() && e2.is_empty());
}

#[test]
fn ctrl_c_quits_even_under_a_strip() {
    let (session, _) = booted(&[], b"");
    let (session, _) = key(session, Key::Char { c: 'c', ctrl: false });
    assert_eq!(session.strip(), Some(&Strip::NoFilesCommitError));
    let (_, effects) = key(session, Key::Char { c: 'c', ctrl: true });
    assert_eq!(effects.len(), 1);
    assert!(matches!(effects[0].kind, EffectKind::Quit));
}

#[test]
fn every_startup_refusal_has_its_line() {
    assert_eq!(startup_verdict(WorkTreeProbe::GitNotFound, true, true), Err(StartupError::GitMissing));
    assert_eq!(startup_verdict(WorkTreeProbe::Failed, true, true), Err(StartupError::NotAWorkTree));
    assert_eq!(
        startup_verdict(WorkTreeProbe::Answered { inside: false }, true, true),
        Err(StartupError::NotAWorkTree)
    );
    assert_eq!(
        startup_verdict(WorkTreeProbe::Answered { inside: true }, false, true),
        Err(StartupError::GitMissing)
    );
    assert_eq!(
        startup_verdict(WorkTreeProbe::Answered { inside: true }, true, false),
        Err(StartupError::DifftMissing)
    );
    assert_eq!(startup_verdict(WorkTreeProbe::Answered { inside: true }, true, true), Ok(()));
    assert_eq!(startup_message(StartupError::GitMissing), "difforge: git not found on PATH");
    assert_eq!(startup_message(StartupError::DifftMissing), "difforge: difft not found on PATH");
    assert_eq!(startup_message(StartupError::NotAWorkTree), "difforge: not a git work tree");
}

#[test]
fn the_work_tree_answer_is_read_trimmed() {
    assert!(inside_work_tree(true, b"true\n"));
    assert!(inside_work_tree(true, b"  true "));
    assert!(!inside_work_tree(true, b"false\n"));
    assert!(!inside_work_tree(false, b"true\n"));
    assert!(!inside_work_tree(true, b"tru\xffe"));
}

#[test]
fn invalid_utf8_in_a_failure_becomes_replacement_characters() {
    let (session, _) = booted(&[(" M", "a.rs")], b"dump\n");
    let (session, effects) = key(session, Key::Char { c: 'r', ctrl: false });
    let status = effects.iter().find(|e| matches!(e.kind, EffectKind::GitPorcelain)).unwrap().id;
    let ls = effects.iter().find(|e| matches!(e.kind, EffectKind::GitLsFiles)).unwrap().id;
    let (session, _) = apply(session, Event::Child(ok(status, &porcelain_z(&[(" M", "a.rs")]))));
    let (session, more) = apply(session, Event::Child(ok(ls, b"")));
    let diff = more
        .iter()
        .find(|e| matches!(e.kind, EffectKind::GitDiff { .. }))
        .expect("a dump is asked for")
        .id;
    let (session, _) = apply(
        session,
        Event::Child(ChildResult { id: diff, exit: 2, stdout: Vec::new(), stderr: b"bad \xff\n".to_vec() }),
    );
    assert!(session.pane_body().contains("bad \u{FFFD}"), "{:?}", session.pane_body());
}

#[test]
fn escapes_become_styles_and_leave_the_text() {
    let (session, _) = booted(&[(" M", "a.rs")], b"\x1b[31mred\x1b[0m plain\n");
    assert!(session.pane_body().contains("red plain"), "{:?}", session.pane_body());
    assert!(!session.pane_body().contains('\x1b'));
}

#[test]
fn wide_characters_count_two_columns_when_truncating() {
    assert_eq!(truncate("abc", 3), "abc");
    assert_eq!(truncate("日本語", 6), "日本語");
    assert_eq!(truncate("日本語の名前", 7), "日本語");
    assert_eq!(truncate("ab日本", 3), "ab");
}

#[test]
fn porcelain_records_keep_their_order_and_skip_rename_sources() {
    let entries = parse_porcelain(b" M b.rs\0R  new.rs\0old.rs\0?? c.txt\0");
    let paths: Vec<&str> = entries.iter().map(|e| e.path.as_str()).collect();
    assert_eq!(paths, vec!["b.rs", "new.rs", "c.txt"]);
    assert_eq!(entries[1].xy, ('R', ' '));
}

#[test]
fn effects_take_the_next_ids_in_turn() {
    let (session, boot) = Session::boot(80, 24);
    let ids: Vec<u64> = boot.iter().map(|e| e.id).collect();
    assert_eq!(ids.len(), 2);
    assert_eq!(ids[1], ids[0] + 1);
    let status = boot[0].id;
    let ls = boot[1].id;
    let (session, _) = apply(session, Event::Child(ok(status, &porcelain_z(&[("MM", "a.rs"), (" M", "b.rs")]))));
    let (session, dumps) = apply(session, Event::Child(ok(ls, b"")));
    let dump_ids: Vec<u64> = dumps.iter().map(|e| e.id).collect();
    assert_eq!(dump_ids, vec![ls + 1, ls + 2]);
    let (_, more) = key(session, Key::Char { c: 'r', ctrl: false });
    assert_eq!(more.iter().map(|e| e.id).collect::<Vec<_>>(), vec![ls + 3, ls + 4]);
}

#[test]
fn only_a_trimmed_true_answers_true() {
    assert!(answers_true("true"));
    assert!(answers_true("\ttrue\r\n"));
    assert!(!answers_true("True"));
    assert!(!answers_true("true false"));
    assert!(!answers_true(""));
}

#[test]
fn the_pane_keeps_the_dump_colours() {
    let (session, _) = booted(&[(" M", "a.rs")], b"\x1b[31mred\x1b[0m plain\n");
    let line = &session.pane_text().lines[0];
    assert_eq!(line[0].content, "red");
    assert_eq!(line[0].style.fg, Some(ratatui::style::Color::Red));
}

#[test]
fn a_listed_panel_always_has_a_selection() {
    let (session, _) = booted(&[(" M", "a.rs"), (" M", "b.rs")], b"dump\n");
    assert!(session.selected_index().is_some());
    let (session, _) = key(session, Key::Char { c: '/', ctrl: false });
    let (session, _) = key(session, Key::Char { c: 'z', ctrl: false });
    assert!(session.files_rows().is_empty());
    assert!(session.selected_index().is_none());
    let (session, _) = key(session, Key::Esc);
    assert!(session.selected_index().is_some());
}

#[test]
fn all_files_lists_each_path_once() {
    let (session, _) = booted(&[(" M", "a.rs"), ("??", "n.rs")], b"dump\n");
    let (session, _) = key(session, Key::Char { c: 'f', ctrl: false });
    let paths: Vec<&str> = session.files_rows().iter().map(|r| r.path.as_str()).collect();
    assert_eq!(paths.iter().filter(|p| **p == "a.rs").count(), 1);
    assert_eq!(paths.iter().filter(|p| **p == "n.rs").count(), 1);
}

#[test]
fn records_written_by_git_read_back() {
    let mut bytes = Vec::new();
    bytes.extend_from_slice(b"R  new.rs\0old.rs\0");
    bytes.extend_from_slice(b" M b.rs\0");
    bytes.extend_from_slice(b"C  copy.rs\0src.rs\0");
    let entries = parse_porcelain(&bytes);
    let got: Vec<((char, char), &str)> = entries.iter().map(|e| (e.xy, e.path.as_str())).collect();
    assert_eq!(got, vec![(('R', ' '), "new.rs"), ((' ', 'M'), "b.rs"), (('C', ' '), "copy.rs")]);
}

#[test]
fn q_types_in_search_and_quits_at_rest() {
    let (session, _) = booted(&[(" M", "a.rs")], b"dump\n");
    let (session, _) = key(session, Key::Char { c: '/', ctrl: false });
    let (session, effects) = key(session, Key::Char { c: 'q', ctrl: false });
    assert!(!effects.iter().any(|e| matches!(e.kind, EffectKind::Quit)));
    assert_eq!(session.search_query(), "q");
    let (session, _) = key(session, Key::Esc);
    let (_, effects) = key(session, Key::Char { c: 'q', ctrl: false });
    assert!(effects.iter().any(|e| matches!(e.kind, EffectKind::Quit)));
}

#[test]
fn space_with_nothing_selected_changes_nothing() {
    let (session, _) = booted(&[], b"");
    assert!(session.selected_index().is_none());
    let (session, effects) = key(session, Key::Char { c: ' ', ctrl: false });
    assert!(effects.is_empty());
    assert!(session.strip().is_none());
}
