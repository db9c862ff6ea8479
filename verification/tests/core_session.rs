//! Session-core behaviour: chord resolution, the modal router, navigation
//! round trips, marks, and incremental search.

use lsv::keyseq::{feed, FeedOutcome, KeyMapping, KeyState};
use lsv::nav::{file_name_of, join_path, parent_of};
use lsv::router::{handle_key, Effect, Key, KeyEvent, Modifiers};
use lsv::state::{App, ConfirmKind, ConfirmState, DirEntryInfo, NavPending, Overlay, PromptKind, PromptState};

fn plain(code: Key) -> KeyEvent {
    KeyEvent { code, mods: Modifiers { control: false, alt: false, sup: false }, is_press: true }
}

fn entry(name: &str, path: &str, is_dir: bool) -> DirEntryInfo {
    DirEntryInfo {
        name: name.to_string(),
        path: path.to_string(),
        is_dir,
        size: 0,
        mtime: None,
        ctime: None,
    }
}

fn keystate(bindings: &[(&str, &str)]) -> KeyState {
    let mut st = KeyState::new();
    st.maps = bindings
        .iter()
        .map(|(k, a)| KeyMapping { keys: k.to_string(), action: a.to_string() })
        .collect();
    st.rebuild();
    st
}

#[test]
fn chord_two_keys_within_timeout_matches() {
    let mut st = keystate(&[("gg", "go_top"), ("gd", "go_down")]);
    match feed(&mut st, "g", 1000, 500) {
        FeedOutcome::Prefix => {}
        _ => panic!("first token of a bound chord must be a prefix"),
    }
    assert_eq!(st.pending, "g");
    match feed(&mut st, "g", 1400, 500) {
        FeedOutcome::Matched(a) => assert_eq!(a, "go_top"),
        _ => panic!("second token within the timeout must resolve the chord"),
    }
    assert_eq!(st.pending, "");
}

#[test]
fn chord_after_timeout_equals_fresh_feed() {
    let mut st = keystate(&[("gg", "go_top")]);
    let _ = feed(&mut st, "g", 1000, 500);
    // Past the timeout the stale 'g' is abandoned: this is the same as
    // feeding 'g' alone from a clean state, which is again a prefix.
    match feed(&mut st, "g", 2000, 500) {
        FeedOutcome::Prefix => {}
        _ => panic!("a token fed after the timeout must start a fresh chord"),
    }
    assert_eq!(st.pending, "g");

    let mut fresh = keystate(&[("gg", "go_top")]);
    match feed(&mut fresh, "g", 2000, 500) {
        FeedOutcome::Prefix => {}
        _ => panic!("fresh feed disagreed"),
    }
    assert_eq!(fresh.pending, st.pending);
}

#[test]
fn unbound_key_no_match_clears_pending() {
    let mut st = keystate(&[("gg", "go_top")]);
    match feed(&mut st, "x", 1000, 500) {
        FeedOutcome::NoMatch => {}
        _ => panic!("a key outside every bound prefix must be NoMatch"),
    }
    assert_eq!(st.pending, "");
    // Subsequent input starts fresh.
    match feed(&mut st, "g", 1100, 500) {
        FeedOutcome::Prefix => {}
        _ => panic!("input after NoMatch must start fresh"),
    }
}

#[test]
fn rebuild_is_idempotent_and_keeps_pending() {
    let mut st = keystate(&[("ab", "do_it")]);
    let _ = feed(&mut st, "a", 10, 0);
    assert_eq!(st.pending, "a");
    st.rebuild();
    assert_eq!(st.pending, "a");
    match feed(&mut st, "b", 20, 0) {
        FeedOutcome::Matched(a) => assert_eq!(a, "do_it"),
        _ => panic!("rebuild must not disturb an in-flight chord"),
    }
}

#[test]
fn matched_chord_dispatches_action_effect() {
    let mut app = App::new("/a".to_string(), vec![entry("f", "/a/f", false)], Vec::new());
    app.keys = keystate(&[("zz", "center")]);
    let (quit, eff) = handle_key(&mut app, plain(Key::Char('z')), 100);
    assert!(!quit);
    assert!(eff.is_empty());
    assert!(app.get_show_whichkey());
    let (quit, eff) = handle_key(&mut app, plain(Key::Char('z')), 150);
    assert!(!quit);
    assert_eq!(eff.len(), 1);
    match &eff[0] {
        Effect::DispatchAction { name } => assert_eq!(name, "center"),
        _ => panic!("a matched chord must dispatch its action"),
    }
    assert!(!app.get_show_whichkey());
}

#[test]
fn q_quits_when_unbound() {
    let mut app = App::new("/a".to_string(), vec![entry("f", "/a/f", false)], Vec::new());
    let (quit, eff) = handle_key(&mut app, plain(Key::Char('q')), 100);
    assert!(quit);
    assert!(eff.is_empty());
}

#[test]
fn arrows_move_selection_and_refresh_preview() {
    let mut app = App::new(
        "/a".to_string(),
        vec![entry("one", "/a/one", false), entry("two", "/a/two", false)],
        Vec::new(),
    );
    assert_eq!(app.selected_index, Some(0));
    let (_, eff) = handle_key(&mut app, plain(Key::Down), 10);
    assert_eq!(app.selected_index, Some(1));
    assert!(matches!(eff[0], Effect::RefreshPreview));
    let (_, eff) = handle_key(&mut app, plain(Key::Down), 20);
    assert_eq!(app.selected_index, Some(1));
    assert!(eff.is_empty());
    let (_, eff) = handle_key(&mut app, plain(Key::Up), 30);
    assert_eq!(app.selected_index, Some(0));
    assert!(matches!(eff[0], Effect::RefreshPreview));
}

#[test]
fn descend_then_ascend_reselects_departed_directory() {
    // Directories sort first: [c/, a.txt].
    let mut app = App::new(
        "/a/b".to_string(),
        vec![entry("a.txt", "/a/b/a.txt", false), entry("c", "/a/b/c", true)],
        Vec::new(),
    );
    assert_eq!(app.selected_index, Some(0));
    assert_eq!(app.current_entries[0].name, "c");

    // Descend into /a/b/c.
    let (_, eff) = handle_key(&mut app, plain(Key::Enter), 10);
    assert_eq!(app.cwd, "/a/b/c");
    assert!(matches!(eff[0], Effect::RefreshLists));
    assert!(matches!(eff[1], Effect::RefreshPreview));
    app.apply_lists(
        vec![entry("inner", "/a/b/c/inner", false)],
        vec![entry("a.txt", "/a/b/a.txt", false), entry("c", "/a/b/c", true)],
    );
    assert_eq!(app.selected_index, Some(0));

    // Ascend back to /a/b; the departed component is remembered.
    let (_, eff) = handle_key(&mut app, plain(Key::Backspace), 20);
    assert_eq!(app.cwd, "/a/b");
    assert!(matches!(eff[0], Effect::RefreshLists));
    match &app.nav {
        NavPending::Reselect { name } => assert_eq!(name, "c"),
        _ => panic!("ascending must remember the departed name"),
    }
    app.apply_lists(
        vec![entry("a.txt", "/a/b/a.txt", false), entry("c", "/a/b/c", true)],
        Vec::new(),
    );
    let sel = app.selected_index.expect("cursor must land on the departed entry");
    assert_eq!(app.current_entries[sel].name, "c");
}

#[test]
fn path_model_round_trip() {
    let joined = join_path("/a/b", "c");
    assert_eq!(joined, "/a/b/c");
    assert_eq!(parent_of(&joined).as_deref(), Some("/a/b"));
    assert_eq!(file_name_of(&joined).as_deref(), Some("c"));
    assert_eq!(parent_of("/a").as_deref(), Some("/"));
    assert_eq!(parent_of("/"), None);
    assert_eq!(join_path("/", "x"), "/x");
}

#[test]
fn marks_record_and_jump() {
    let mut app = App::new("/home/u".to_string(), vec![entry("f", "/home/u/f", false)], Vec::new());
    // Arm the mark capture with 'm', record under 'a'.
    let (_, _) = handle_key(&mut app, plain(Key::Char('m')), 10);
    assert!(app.pending_mark);
    let (_, eff) = handle_key(&mut app, plain(Key::Char('a')), 20);
    assert!(!app.pending_mark);
    assert!(matches!(eff[0], Effect::PersistMarks));
    // Move somewhere else, then jump back via '`' + 'a'.
    app.cwd = "/tmp".to_string();
    let (_, _) = handle_key(&mut app, plain(Key::Char('`')), 30);
    assert!(app.pending_goto);
    let (_, eff) = handle_key(&mut app, plain(Key::Char('a')), 40);
    assert_eq!(app.cwd, "/home/u");
    assert!(matches!(eff[0], Effect::RefreshLists));
    assert!(matches!(app.nav, NavPending::ResetSelection));
}

#[test]
fn search_is_case_insensitive_and_wraps() {
    let app = App::new(
        "/a".to_string(),
        vec![
            entry("Makefile", "/a/Makefile", false),
            entry("README", "/a/README", false),
            entry("notes.txt", "/a/notes.txt", false),
        ],
        Vec::new(),
    );
    // Entries are name-sorted case-insensitively: Makefile, notes.txt, README.
    let i = app.find_match_from(1, "readme", false).expect("must find README");
    assert_eq!(app.current_entries[i].name, "README");
    // Wraps circularly past the end.
    let i = app.find_match_from(2, "make", false).expect("must wrap to Makefile");
    assert_eq!(app.current_entries[i].name, "Makefile");
    // Case-insensitive match through the lowercase fold.
    let i = app.find_match_from(0, "NOTES", false).expect("must find notes.txt");
    assert_eq!(app.current_entries[i].name, "notes.txt");
}

#[test]
fn rename_template_without_placeholder_renames_nothing() {
    let mut app = App::new("/a".to_string(), vec![entry("f1", "/a/f1", false)], Vec::new());
    app.overlay = Overlay::Prompt(Box::new(PromptState {
        title: "Rename".to_string(),
        input: "noplaceholder".to_string(),
        cursor: 13,
        kind: PromptKind::RenameMany {
            items: vec!["/a/f1".to_string(), "/a/f2".to_string()],
            pre: "f".to_string(),
            suf: "".to_string(),
        },
    }));
    let before = app.recent_messages_len();
    let (_, eff) = handle_key(&mut app, plain(Key::Enter), 10);
    assert!(eff.iter().all(|e| !matches!(e, Effect::Rename { .. })));
    assert!(eff.is_empty());
    assert_eq!(app.recent_messages_len(), before + 1);
    assert!(matches!(app.overlay, Overlay::Idle));
}

#[test]
fn rename_template_with_one_placeholder_renames_every_item() {
    let mut app = App::new("/a".to_string(), vec![entry("f1", "/a/f1", false)], Vec::new());
    app.overlay = Overlay::Prompt(Box::new(PromptState {
        title: "Rename".to_string(),
        input: "g{}x".to_string(),
        cursor: 4,
        kind: PromptKind::RenameMany {
            items: vec!["/a/f1".to_string(), "/a/f2".to_string()],
            pre: "f".to_string(),
            suf: "".to_string(),
        },
    }));
    let (_, eff) = handle_key(&mut app, plain(Key::Enter), 10);
    assert_eq!(eff.len(), 3);
    match &eff[0] {
        Effect::Rename { from, to } => {
            assert_eq!(from, "/a/f1");
            assert_eq!(to, "/a/g1x");
        }
        _ => panic!("first effect must rename the first item"),
    }
    match &eff[1] {
        Effect::Rename { from, to } => {
            assert_eq!(from, "/a/f2");
            assert_eq!(to, "/a/g2x");
        }
        _ => panic!("second effect must rename the second item"),
    }
    assert!(matches!(eff[2], Effect::RefreshLists));
}

#[test]
fn colon_opens_command_pane_and_tab_completes() {
    let mut app = App::new("/a".to_string(), vec![entry("f", "/a/f", false)], Vec::new());
    app.command_names = vec![
        "quit".to_string(),
        "quota".to_string(),
        "quotient".to_string(),
        "reload".to_string(),
    ];
    let (_, _) = handle_key(&mut app, plain(Key::Char(':')), 10);
    for c in "quo".chars() {
        let (_, _) = handle_key(&mut app, plain(Key::Char(c)), 20);
    }
    let (_, _) = handle_key(&mut app, plain(Key::Tab), 30);
    match &app.overlay {
        Overlay::CommandPane(st) => {
            // Two matches extend to their longest common prefix.
            assert_eq!(st.input, "quot");
            assert!(st.show_suggestions);
        }
        _ => panic!("command pane must stay open after Tab"),
    }
    let (_, _) = handle_key(&mut app, plain(Key::Char('a')), 40);
    let (_, _) = handle_key(&mut app, plain(Key::Tab), 50);
    match &app.overlay {
        Overlay::CommandPane(st) => assert_eq!(st.input, "quota"),
        _ => panic!("a single match must replace the input"),
    }
    let (_, eff) = handle_key(&mut app, plain(Key::Enter), 60);
    assert!(matches!(app.overlay, Overlay::Idle));
    match &eff[0] {
        Effect::ExecuteCommand { line } => assert_eq!(line, "quota"),
        _ => panic!("Enter with ':' must execute the command line"),
    }
}

#[test]
fn confirm_overlay_deletes_on_yes_only() {
    let doomed = vec!["/a/x".to_string(), "/a/y".to_string()];
    let mut app = App::new("/a".to_string(), vec![entry("x", "/a/x", false)], Vec::new());
    app.overlay = Overlay::Confirm(Box::new(ConfirmState {
        title: "Delete".to_string(),
        question: "Really?".to_string(),
        default_yes: false,
        kind: ConfirmKind::DeleteSelected(doomed.clone()),
    }));
    // Enter without default-yes cancels.
    let (_, eff) = handle_key(&mut app, plain(Key::Enter), 10);
    assert!(eff.is_empty());
    assert!(matches!(app.overlay, Overlay::Idle));
    // Re-open and confirm with 'y'.
    app.overlay = Overlay::Confirm(Box::new(ConfirmState {
        title: "Delete".to_string(),
        question: "Really?".to_string(),
        default_yes: false,
        kind: ConfirmKind::DeleteSelected(doomed),
    }));
    let (_, eff) = handle_key(&mut app, plain(Key::Char('y')), 20);
    assert_eq!(eff.len(), 3);
    assert!(matches!(&eff[0], Effect::DeletePath { path } if path == "/a/x"));
    assert!(matches!(&eff[1], Effect::DeletePath { path } if path == "/a/y"));
    assert!(matches!(eff[2], Effect::RefreshLists));
}

#[test]
fn release_events_are_ignored() {
    let mut app = App::new("/a".to_string(), vec![entry("f", "/a/f", false)], Vec::new());
    let ev = KeyEvent {
        code: Key::Char('q'),
        mods: Modifiers { control: false, alt: false, sup: false },
        is_press: false,
    };
    let (quit, eff) = handle_key(&mut app, ev, 10);
    assert!(!quit);
    assert!(eff.is_empty());
}

#[test]
fn add_message_trims_and_caps_at_hundred() {
    let mut app = App::new("/a".to_string(), Vec::new(), Vec::new());
    app.add_message("   ");
    assert_eq!(app.recent_messages_len(), 0);
    app.add_message("  hello  ");
    assert_eq!(app.recent_messages_len(), 1);
    assert_eq!(app.recent_messages[0], "hello");
    for i in 0..120 {
        app.add_message(&format!("m{}", i));
    }
    assert_eq!(app.recent_messages_len(), 100);
    assert_eq!(app.recent_messages[99], "m119");
}

#[test]
fn output_overlay_splits_and_joins_lines() {
    let mut app = App::new("/a".to_string(), Vec::new(), Vec::new());
    app.display_output("title", "one\r\ntwo\nthree");
    assert!(app.get_show_output());
    assert_eq!(app.get_output_title(), "title");
    assert_eq!(app.get_output_text(), "one\ntwo\nthree");
}
