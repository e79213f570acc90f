//! The keystroke state machine and the end-to-end Enter behavior.

use rlaunch::applications::{insert_path_entry, process_desktop_file, Registry};
use rlaunch::input::{
    handle_key, translate_keycode, Effect, Key, QueryState, KEY_BACKSPACE, KEY_DOWN, KEY_ENTER,
    KEY_ESCAPE, KEY_K, KEY_LEFT, KEY_RIGHT, KEY_TAB, KEY_U, KEY_UP,
};

fn b(s: &str) -> Vec<u8> {
    s.as_bytes().to_vec()
}

fn typed(text: &str) -> QueryState {
    let mut state = QueryState::new();
    let no_sugs: Vec<(i64, Vec<u8>)> = Vec::new();
    let reg = Registry::new();
    let term = b("term");
    for c in text.bytes() {
        handle_key(&mut state, Key::Char(c), &no_sugs, &reg, &term);
    }
    state
}

fn press(state: &mut QueryState, key: Key, sugs: &Vec<(i64, Vec<u8>)>) -> Effect {
    let reg = Registry::new();
    let term = b("term");
    handle_key(state, key, sugs, &reg, &term)
}

#[test]
fn typing_inserts_at_caret() {
    let state = typed("abc");
    assert_eq!(state.text, b("abc"));
    assert_eq!(state.caret, 3);
    assert_eq!(state.selected, 0);
}

#[test]
fn backspace_twice_from_abc() {
    let mut state = typed("abc");
    let none: Vec<(i64, Vec<u8>)> = Vec::new();
    press(&mut state, Key::Backspace, &none);
    press(&mut state, Key::Backspace, &none);
    assert_eq!(state.text, b("a"));
    assert_eq!(state.caret, 1);
    assert_eq!(state.selected, 0);
}

#[test]
fn backspace_at_start_does_nothing() {
    let mut state = QueryState::new();
    let none: Vec<(i64, Vec<u8>)> = Vec::new();
    press(&mut state, Key::Backspace, &none);
    assert_eq!(state.text, b(""));
    assert_eq!(state.caret, 0);
}

#[test]
fn control_characters_are_ignored() {
    let mut state = typed("ab");
    let none: Vec<(i64, Vec<u8>)> = Vec::new();
    press(&mut state, Key::Char(7), &none);
    press(&mut state, Key::Char(127), &none);
    assert_eq!(state.text, b("ab"));
}

#[test]
fn kill_to_start_and_end() {
    let mut state = typed("hello");
    let none: Vec<(i64, Vec<u8>)> = Vec::new();
    press(&mut state, Key::Left, &none);
    press(&mut state, Key::Left, &none);
    press(&mut state, Key::KillToStart, &none);
    assert_eq!(state.text, b("lo"));
    assert_eq!(state.caret, 0);

    let mut state = typed("hello");
    press(&mut state, Key::Left, &none);
    press(&mut state, Key::Left, &none);
    press(&mut state, Key::KillToEnd, &none);
    assert_eq!(state.text, b("hel"));
    assert_eq!(state.caret, 3);
    assert_eq!(state.selected, 0);
}

#[test]
fn arrows_move_caret_and_selection() {
    let sugs: Vec<(i64, Vec<u8>)> = vec![(2, b("one")), (1, b("two")), (0, b("three"))];
    let mut state = typed("x");

    // Caret at end: Right moves the selection, clamped to the list.
    press(&mut state, Key::Right, &sugs);
    assert_eq!(state.selected, 1);
    press(&mut state, Key::Down, &sugs);
    assert_eq!(state.selected, 2);
    press(&mut state, Key::Down, &sugs);
    assert_eq!(state.selected, 2);

    // Selection not at the left edge: Left moves the selection.
    press(&mut state, Key::Left, &sugs);
    assert_eq!(state.selected, 1);
    press(&mut state, Key::Up, &sugs);
    assert_eq!(state.selected, 0);
    press(&mut state, Key::Up, &sugs);
    assert_eq!(state.selected, 0);

    // Selection at the left edge: Left moves the caret, floored at 0.
    press(&mut state, Key::Left, &sugs);
    assert_eq!(state.caret, 0);
    press(&mut state, Key::Left, &sugs);
    assert_eq!(state.caret, 0);

    // Caret not at end: Right moves the caret.
    press(&mut state, Key::Right, &sugs);
    assert_eq!(state.caret, 1);
    assert_eq!(state.selected, 0);
}

#[test]
fn right_with_no_suggestions_does_not_underflow() {
    let mut state = QueryState::new();
    let none: Vec<(i64, Vec<u8>)> = Vec::new();
    press(&mut state, Key::Right, &none);
    press(&mut state, Key::Down, &none);
    assert_eq!(state.selected, 0);
}

#[test]
fn tab_completes_to_selected_suggestion() {
    let sugs: Vec<(i64, Vec<u8>)> = vec![(2, b("alpha")), (1, b("beta"))];
    let mut state = typed("al");
    press(&mut state, Key::Down, &sugs);
    press(&mut state, Key::Tab, &sugs);
    assert_eq!(state.text, b("beta"));
    assert_eq!(state.caret, 4);
    assert_eq!(state.selected, 0);

    let none: Vec<(i64, Vec<u8>)> = Vec::new();
    let before = state.text.clone();
    press(&mut state, Key::Tab, &none);
    assert_eq!(state.text, before);
}

#[test]
fn escape_exits_without_launch() {
    let mut state = typed("abc");
    let none: Vec<(i64, Vec<u8>)> = Vec::new();
    let eff = press(&mut state, Key::Escape, &none);
    assert!(matches!(eff, Effect::Exit));
    assert_eq!(state.text, b("abc"));
}

#[test]
fn enter_on_empty_registry_launches_raw_text() {
    // End to end: empty registry, query "anything", Enter.
    let reg = Registry::new();
    let mut state = typed("anything");
    let none: Vec<(i64, Vec<u8>)> = Vec::new();
    let eff = handle_key(&mut state, Key::Enter, &none, &reg, &b("term"));
    match eff {
        Effect::Launch(cmd) => assert_eq!(cmd, b("anything")),
        _ => panic!("expected a launch"),
    }
}

#[test]
fn enter_launches_selected_entry() {
    let mut reg = Registry::new();
    insert_path_entry(&mut reg, &b("editor"), &b("/usr/bin/editor"));
    let sugs: Vec<(i64, Vec<u8>)> = vec![(1, b("editor"))];
    let mut state = typed("edi");
    let eff = handle_key(&mut state, Key::Enter, &sugs, &reg, &b("term"));
    match eff {
        Effect::Launch(cmd) => assert_eq!(cmd, b("/usr/bin/editor")),
        _ => panic!("expected a launch"),
    }
}

#[test]
fn enter_wraps_terminal_entries() {
    let mut reg = Registry::new();
    let mut seen: Vec<Vec<u8>> = Vec::new();
    let content = b("Name=htop\nType=Application\nExec=htop\nTerminal=true\n");
    process_desktop_file(&mut reg, &mut seen, &b(""), &b("htop.desktop"), &content);
    let sugs: Vec<(i64, Vec<u8>)> = vec![(1, b("htop"))];
    let mut state = QueryState::new();
    let eff = handle_key(&mut state, Key::Enter, &sugs, &reg, &b("xterm"));
    match eff {
        Effect::Launch(cmd) => assert_eq!(cmd, b("xterm -e \"htop\"")),
        _ => panic!("expected a launch"),
    }
}

#[test]
fn clamp_selection_after_list_shrinks() {
    let mut state = QueryState::new();
    let sugs: Vec<(i64, Vec<u8>)> = vec![(3, b("a")), (2, b("b")), (1, b("c"))];
    press(&mut state, Key::Down, &sugs);
    press(&mut state, Key::Down, &sugs);
    assert_eq!(state.selected, 2);
    state.clamp_selection(2);
    assert_eq!(state.selected, 1);
    state.clamp_selection(0);
    assert_eq!(state.selected, 0);
}

#[test]
fn keycode_translation() {
    assert_eq!(translate_keycode(KEY_ESCAPE, false), Some(Key::Escape));
    assert_eq!(translate_keycode(KEY_LEFT, false), Some(Key::Left));
    assert_eq!(translate_keycode(KEY_RIGHT, true), Some(Key::Right));
    assert_eq!(translate_keycode(KEY_UP, false), Some(Key::Up));
    assert_eq!(translate_keycode(KEY_DOWN, false), Some(Key::Down));
    assert_eq!(translate_keycode(KEY_BACKSPACE, false), Some(Key::Backspace));
    assert_eq!(translate_keycode(KEY_ENTER, false), Some(Key::Enter));
    assert_eq!(translate_keycode(KEY_TAB, false), Some(Key::Tab));
    assert_eq!(translate_keycode(KEY_U, true), Some(Key::KillToStart));
    assert_eq!(translate_keycode(KEY_K, true), Some(Key::KillToEnd));
    assert_eq!(translate_keycode(KEY_U, false), None);
    assert_eq!(translate_keycode(KEY_K, false), None);
    assert_eq!(translate_keycode(38, false), None);
}
