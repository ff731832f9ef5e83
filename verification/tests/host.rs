//! The host's bookkeeping: the dump cache, the debounce, fulfilling a
//! step's effects, and what a click or the footer resolves to.

use difforge::jobs::{
    content_hash, dft_env, dump_key, effect_command, is_large_binary, DumpJobs, DumpSide, Fulfill,
    Step, BINARY_SNIFF, LARGE_BINARY_BYTES,
};
use difforge::screen::{
    cursor_col, form_error_rows, loading_text, map_click, mode_title, search_field, spinner_char,
    Area, Hits, SEARCH_PREFIX,
};
use difforge::{apply, ChildResult, Effect, EffectKind, Event, FilesMode, Key, MouseHit, Session, Strip};

fn porcelain_z(entries: &[(&str, &str)]) -> Vec<u8> {
    let mut out = Vec::new();
    for (xy, path) in entries {
        out.extend_from_slice(xy.as_bytes());
        out.push(b' ');
        out.extend_from_slice(path.as_bytes());
        out.push(0);
    }
    out
}

fn session_with_files() -> Session {
    let (mut session, effects) = Session::boot(80, 24);
    let status = effects
        .iter()
        .find(|e| matches!(e.kind, EffectKind::GitPorcelain))
        .unwrap()
        .id;
    let ls = effects
        .iter()
        .find(|e| matches!(e.kind, EffectKind::GitLsFiles))
        .unwrap()
        .id;
    let (next, _) = apply(
        session,
        Event::Child(ChildResult {
            id: status,
            exit: 0,
            stdout: porcelain_z(&[(" M", "a.rs"), (" M", "b.rs")]),
            stderr: Vec::new(),
        }),
    );
    session = next;
    let (next, more) = apply(
        session,
        Event::Child(ChildResult { id: ls, exit: 0, stdout: Vec::new(), stderr: Vec::new() }),
    );
    session = next;
    for effect in more {
        if matches!(effect.kind, EffectKind::GitDiff { .. } | EffectKind::Difft { .. }) {
            let (next, _) = apply(
                session,
                Event::Child(ChildResult {
                    id: effect.id,
                    exit: 0,
                    stdout: b"dump\n".to_vec(),
                    stderr: Vec::new(),
                }),
            );
            session = next;
        }
    }
    session
}

fn difft(id: u64, path: &str, width: u16) -> Effect {
    Effect { id, kind: EffectKind::Difft { path: path.into(), width } }
}

#[test]
fn dump_cache_returns_stored_stdout_for_the_same_key() {
    let mut jobs = DumpJobs::new();
    let effect = Effect {
        id: 1,
        kind: EffectKind::Difft {
            path: "gone.rs".into(),
            width: 80,
        },
    };
    // A path that is not a file has an empty work-tree hash.
    let key = dump_key(&effect, String::new()).unwrap();
    jobs.remember(key, b"hit\n".to_vec());
    let key = dump_key(&effect, String::new()).unwrap();
    assert_eq!(jobs.cached(&key).as_deref(), Some(b"hit\n".as_slice()));
    let other = Effect {
        id: 2,
        kind: EffectKind::Difft {
            path: "gone.rs".into(),
            width: 81,
        },
    };
    let other_key = dump_key(&other, String::new()).unwrap();
    assert!(jobs.cached(&other_key).is_none());
}

#[test]
fn dump_schedule_keeps_only_the_latest_batch() {
    let mut jobs = DumpJobs::new();
    jobs.schedule(vec![Effect {
        id: 1,
        kind: EffectKind::Difft {
            path: "a.rs".into(),
            width: 80,
        },
    }], 0);
    jobs.schedule(vec![Effect {
        id: 2,
        kind: EffectKind::Difft {
            path: "b.rs".into(),
            width: 80,
        },
    }], 0);
    let ids: Vec<u64> = jobs
        .waiting()
        .unwrap()
        .iter()
        .map(|e| e.id)
        .collect();
    assert_eq!(ids, vec![2]);
}

#[test]
fn pending_dump_renders_loading_in_the_diff_pane() {
    let session = session_with_files();
    let (session, _) = apply(session, Event::Key(Key::Char { c: 'j', ctrl: false }));
    assert!(session.dumps_pending());
    let text = loading_text(spinner_char(0), session.selected_path().unwrap_or("diff"));
    assert!(text.contains("loading b.rs"), "{text}");
    assert!(text.contains("difft is working"), "{text}");
}

#[test]
fn cache_hit_finishes_dumps_without_loading_or_spawn() {
    let session = session_with_files();
    let (mut session, effects) = apply(session, Event::Key(Key::Char { c: 'j', ctrl: false }));
    assert!(session.dumps_pending());
    let mut jobs = DumpJobs::new();
    for effect in &effects {
        if let Some(key) = dump_key(effect, String::new()) {
            jobs.remember(key, b"from cache\n".to_vec());
        }
    }
    let mut fulfill = Fulfill::new(effects);
    let dumps = match fulfill.next() {
        Step::Dumps(dumps) => dumps,
        _ => panic!("only dumps were asked for"),
    };
    let pending: Vec<_> = dumps
        .into_iter()
        .map(|effect| {
            let key = dump_key(&effect, String::new());
            (effect, key)
        })
        .collect();
    let (hits, misses) = jobs.serve(pending);
    for child in hits {
        let (next, _) = apply(session, Event::Child(child));
        session = next;
    }
    assert!(misses.is_empty());
    assert!(!session.dumps_pending());
    assert!(session.pane_body().contains("from cache"), "got {:?}", session.pane_body());
    assert!(jobs.waiting().is_none());
}

#[test]
fn large_binary_path_is_a_one_liner_without_spawning_difft() {
    let sniff = vec![0u8; BINARY_SNIFF];
    assert!(is_large_binary(true, 1_200_000, &sniff));
    assert!(!is_large_binary(true, LARGE_BINARY_BYTES - 1, &sniff));
    assert!(!is_large_binary(false, 1_200_000, &sniff));
    assert!(!is_large_binary(true, 1_200_000, b"plain text"));
}

#[test]
fn search_field_maps_clicks_and_draws_the_caret_past_the_prefix() {
    let session = session_with_files();
    let (mut session, _) = apply(session, Event::Key(Key::Char { c: '/', ctrl: false }));
    for c in "abc".chars() {
        let (next, _) = apply(session, Event::Key(Key::Char { c, ctrl: false }));
        session = next;
    }
    // The footer is the last row of an 80x24 terminal.
    let footer = Area { x: 0, y: 23, width: 80, height: 1 };
    let area = search_field(footer);
    assert_eq!(area.x, SEARCH_PREFIX, "query starts after the ` /` prefix");
    let mut hits = Hits::empty();
    hits.search = Some(area);

    // Clicking the query's second visible column resolves to caret index 1.
    let hit = map_click(&hits, area.x + 1, area.y, session.files_rows().len());
    assert_eq!(hit, Some(MouseHit::Search { col: 1 }));

    // The caret sits at the end of "abc", offset past the prefix.
    assert_eq!(cursor_col(area, session.caret()), area.x + 3);
}

#[test]
fn clicks_resolve_in_order_and_miss_empty_rows() {
    let mut hits = Hits::empty();
    hits.files_inner = Some(Area { x: 0, y: 0, width: 27, height: 20 });
    hits.summary = Some(Area { x: 1, y: 19, width: 78, height: 1 });
    hits.description = Some(Area { x: 1, y: 20, width: 78, height: 2 });
    assert_eq!(map_click(&hits, 5, 19, 30), Some(MouseHit::Summary { col: 4 }));
    assert_eq!(map_click(&hits, 3, 21, 30), Some(MouseHit::Description { col: 2, row: 1 }));
    assert_eq!(map_click(&hits, 2, 4, 30), Some(MouseHit::Files { index: 4 }));
    assert_eq!(map_click(&hits, 2, 4, 4), None);
    assert_eq!(map_click(&hits, 79, 0, 30), None);
}

#[test]
fn stored_output_replaces_the_old_one_and_failures_are_not_cached() {
    let mut jobs = DumpJobs::new();
    let e = difft(7, "n.rs", 52);
    let key = dump_key(&e, "abc".to_string()).unwrap();
    jobs.track(7, key);
    jobs.started(7, 4242);
    jobs.finished(&ChildResult { id: 7, exit: 0, stdout: b"one\n".to_vec(), stderr: Vec::new() });
    let key = dump_key(&e, "abc".to_string()).unwrap();
    assert_eq!(jobs.cached(&key), Some(b"one\n".to_vec()));
    jobs.remember(dump_key(&e, "abc".to_string()).unwrap(), b"two\n".to_vec());
    assert_eq!(jobs.cached(&key), Some(b"two\n".to_vec()));

    let f = difft(8, "m.rs", 52);
    jobs.track(8, dump_key(&f, String::new()).unwrap());
    jobs.finished(&ChildResult { id: 8, exit: 1, stdout: b"bad\n".to_vec(), stderr: Vec::new() });
    assert_eq!(jobs.cached(&dump_key(&f, String::new()).unwrap()), None);
    // A different hash is a different key.
    assert_eq!(jobs.cached(&dump_key(&e, "abd".to_string()).unwrap()), None);
}

#[test]
fn cancel_hands_back_running_children_and_drops_the_batch() {
    let mut jobs = DumpJobs::new();
    jobs.started(1, 100);
    jobs.started(2, 200);
    assert_eq!(jobs.wait_ms(0, 10_000), 16);
    let stop = jobs.schedule(vec![difft(3, "a.rs", 80)], 1_000);
    assert_eq!(stop, vec![100, 200]);
    assert_eq!(jobs.wait_ms(1_000, 10_000), 50);
    assert!(jobs.take_due(1_049).is_empty());
    let due = jobs.take_due(1_050);
    assert_eq!(due.iter().map(|e| e.id).collect::<Vec<_>>(), vec![3]);
    assert!(jobs.waiting().is_none());
    assert!(jobs.cancel().is_empty());
    assert_eq!(jobs.wait_ms(2_000, 10_000), 8_000);
    assert_eq!(jobs.wait_ms(20_000, 10_000), 0);
}

#[test]
fn fulfill_runs_effects_in_order_and_sets_dumps_aside() {
    let quit = Effect { id: 9, kind: EffectKind::Quit };
    let add = Effect { id: 2, kind: EffectKind::GitAdd { path: "a.rs".into() } };
    let mut f = Fulfill::new(vec![difft(1, "a.rs", 80), add.clone(), difft(3, "b.rs", 80)]);
    match f.next() {
        Step::Run(e) => assert_eq!(e, add),
        _ => panic!("the add runs first"),
    }
    f.extend(vec![Effect { id: 4, kind: EffectKind::GitPorcelain }]);
    match f.next() {
        Step::Run(e) => assert_eq!(e.id, 4),
        _ => panic!("porcelain runs next"),
    }
    match f.next() {
        Step::Dumps(d) => assert_eq!(d.iter().map(|e| e.id).collect::<Vec<_>>(), vec![1, 3]),
        _ => panic!("then the dumps"),
    }
    let mut g = Fulfill::new(vec![difft(1, "a.rs", 80), quit]);
    assert!(matches!(g.next(), Step::Quit));
}

#[test]
fn each_effect_names_its_command() {
    let c = effect_command(&Effect {
        id: 1,
        kind: EffectKind::GitDiff { path: "a.rs".into(), cached: true, width: 52 },
    })
    .unwrap();
    assert_eq!(c.program, "git");
    assert_eq!(c.args, vec!["-c", "diff.external=difft", "--no-pager", "diff", "--cached", "--", "a.rs"]);
    assert_eq!(c.dft_width, Some(52));
    let c = effect_command(&Effect {
        id: 1,
        kind: EffectKind::GitCommit { summary: "fix".into(), description: String::new() },
    })
    .unwrap();
    assert_eq!(c.args, vec!["commit", "-m", "fix"]);
    let c = effect_command(&Effect { id: 1, kind: EffectKind::Difft { path: "n.rs".into(), width: 9 } })
        .unwrap();
    assert_eq!(c.program, "difft");
    assert_eq!(c.args, vec!["/dev/null", "n.rs"]);
    assert!(effect_command(&Effect { id: 1, kind: EffectKind::Quit }).is_none());
    let env = dft_env(52);
    assert_eq!(env[0], ("DFT_WIDTH".to_string(), "52".to_string()));
    assert_eq!(env.len(), 4);
}

#[test]
fn content_hash_joins_the_two_sides() {
    assert_eq!(content_hash(DumpSide::Untracked, "w", "i", "h"), "w");
    assert_eq!(content_hash(DumpSide::Unstaged, "w", "i", "h"), "i:w");
    assert_eq!(content_hash(DumpSide::Staged, "w", "i", "h"), "h:i");
}

#[test]
fn footer_words_and_error_rows() {
    assert_eq!(mode_title(FilesMode::ChangedFlat), " changed ");
    assert_eq!(mode_title(FilesMode::ChangedTree), " changed · tree ");
    assert_eq!(mode_title(FilesMode::AllTree), " all files ");
    assert_eq!(spinner_char(0), '⠋');
    assert_eq!(spinner_char(13), '⠸');
    assert_eq!(form_error_rows(Some(&Strip::GitWriteError { text: "a\nb\nc".into() })), 3);
    assert_eq!(form_error_rows(Some(&Strip::GitWriteError { text: "x\n".repeat(20) })), 8);
    assert_eq!(form_error_rows(Some(&Strip::EmptySummaryRefusal)), 1);
    assert_eq!(form_error_rows(Some(&Strip::NothingStagedConfirm)), 0);
    assert_eq!(form_error_rows(None), 0);
    assert_eq!(cursor_col(Area { x: 4, y: 0, width: 3, height: 1 }, 10), 6);
    assert_eq!(
        search_field(Area { x: 0, y: 0, width: 1, height: 1 }),
        Area { x: 2, y: 0, width: 0, height: 1 }
    );
}

#[test]
fn serve_answers_cached_dumps_and_returns_the_rest_in_order() {
    let mut jobs = DumpJobs::new();
    let a = difft(1, "a.rs", 80);
    let b = difft(2, "b.rs", 80);
    let c = difft(3, "c.rs", 80);
    jobs.remember(dump_key(&b, "h".to_string()).unwrap(), b"B\n".to_vec());
    let pending = vec![
        (a.clone(), dump_key(&a, "h".to_string())),
        (b.clone(), dump_key(&b, "h".to_string())),
        (c.clone(), None),
    ];
    let (hits, misses) = jobs.serve(pending);
    assert_eq!(hits, vec![ChildResult { id: 2, exit: 0, stdout: b"B\n".to_vec(), stderr: Vec::new() }]);
    assert_eq!(misses.iter().map(|(e, _)| e.id).collect::<Vec<_>>(), vec![1, 3]);
}
