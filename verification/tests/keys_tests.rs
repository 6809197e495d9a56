use etwviewer::app::{App, InputMode, TimestampMode};
use etwviewer::keys::{handle_key, normal_command, Action, Command, Key, KeyInput};
use etwviewer::store::ParsedEvent;

fn event(pid: u32, provider: &str, message: &str) -> ParsedEvent {
    ParsedEvent {
        timestamp: 133485408000000000,
        cpu: 0,
        pid,
        tid: 1,
        provider_name: provider.to_string(),
        event_id: 1,
        level: 4,
        opcode: 0,
        message: message.to_string(),
        field_ranges: Vec::new(),
    }
}

fn key(c: char) -> KeyInput {
    KeyInput { code: Key::Char(c), ctrl: false }
}

fn ctrl(c: char) -> KeyInput {
    KeyInput { code: Key::Char(c), ctrl: true }
}

fn special(k: Key) -> KeyInput {
    KeyInput { code: k, ctrl: false }
}

fn app_with(n: u32) -> App {
    let mut app = App::new();
    for i in 0..n {
        app.ingest(event(i, "Prov", &format!("message {}", i)));
    }
    app
}

fn is_nothing(a: &Action) -> bool {
    matches!(a, Action::Nothing)
}

#[test]
fn key_bindings_of_the_table() {
    assert_eq!(normal_command(key('q')), Command::Quit);
    assert_eq!(normal_command(ctrl('c')), Command::Quit);
    assert_eq!(normal_command(key('c')), Command::CopySelected);
    assert_eq!(normal_command(key('C')), Command::CopyAll);
    assert_eq!(normal_command(key('j')), Command::Down(1));
    assert_eq!(normal_command(special(Key::Down)), Command::Down(1));
    assert_eq!(normal_command(ctrl('d')), Command::Down(30));
    assert_eq!(normal_command(special(Key::PageUp)), Command::Up(30));
    assert_eq!(normal_command(key('g')), Command::Top);
    assert_eq!(normal_command(special(Key::End)), Command::Bottom);
    assert_eq!(normal_command(key('/')), Command::StartSearch);
    assert_eq!(normal_command(special(Key::Esc)), Command::ClearSearch);
    assert_eq!(normal_command(special(Key::Enter)), Command::OpenDetail);
    assert_eq!(normal_command(key('?')), Command::OpenHelp);
    assert_eq!(normal_command(key('x')), Command::Ignore);
    assert_eq!(normal_command(key('d')), Command::Ignore);
}

#[test]
fn q_quits() {
    let mut app = app_with(2);
    let act = handle_key(&mut app, key('q'));
    assert!(is_nothing(&act));
    assert!(app.should_quit);
}

#[test]
fn ctrl_c_quits() {
    let mut app = app_with(2);
    handle_key(&mut app, ctrl('c'));
    assert!(app.should_quit);
}

#[test]
fn navigation_keys_move_the_selection() {
    let mut app = app_with(50);
    handle_key(&mut app, key('j'));
    assert_eq!(app.table_state.selected(), Some(1));
    handle_key(&mut app, ctrl('d'));
    assert_eq!(app.table_state.selected(), Some(31));
    handle_key(&mut app, special(Key::PageDown));
    assert_eq!(app.table_state.selected(), Some(49));
    handle_key(&mut app, key('k'));
    assert_eq!(app.table_state.selected(), Some(48));
    handle_key(&mut app, ctrl('u'));
    assert_eq!(app.table_state.selected(), Some(18));
    handle_key(&mut app, key('g'));
    assert_eq!(app.table_state.selected(), Some(0));
    handle_key(&mut app, key('G'));
    assert_eq!(app.table_state.selected(), Some(49));
}

#[test]
fn horizontal_scroll_moves_by_eight() {
    let mut app = app_with(1);
    handle_key(&mut app, key('l'));
    handle_key(&mut app, special(Key::Right));
    assert_eq!(app.horizontal_scroll, 16);
    handle_key(&mut app, key('h'));
    assert_eq!(app.horizontal_scroll, 8);
    handle_key(&mut app, special(Key::Left));
    handle_key(&mut app, special(Key::Left));
    assert_eq!(app.horizontal_scroll, 0);
}

#[test]
fn toggles() {
    let mut app = app_with(1);
    handle_key(&mut app, key('t'));
    assert_eq!(app.timestamp_mode, TimestampMode::Local);
    handle_key(&mut app, key('s'));
    assert!(app.show_source);
    handle_key(&mut app, key('w'));
    assert!(app.wrap_lines);
    handle_key(&mut app, key('w'));
    assert!(!app.wrap_lines);
}

#[test]
fn typing_a_search() {
    let mut app = App::new();
    app.ingest(event(1, "Prov", "alpha"));
    app.ingest(event(2, "Prov", "beta"));
    app.ingest(event(3, "Prov", "alphabet"));
    app.input_buffer = "stale".to_string();
    handle_key(&mut app, key('/'));
    assert_eq!(app.input_mode, InputMode::Search);
    assert_eq!(app.input_buffer, "");
    for c in "alpx".chars() {
        handle_key(&mut app, key(c));
    }
    handle_key(&mut app, special(Key::Backspace));
    handle_key(&mut app, key('h'));
    assert_eq!(app.input_buffer, "alph");
    handle_key(&mut app, special(Key::Enter));
    assert_eq!(app.input_mode, InputMode::Normal);
    assert_eq!(app.search_matches, vec![0, 2]);
    handle_key(&mut app, key('n'));
    assert_eq!(app.table_state.selected(), Some(2));
    handle_key(&mut app, key('N'));
    assert_eq!(app.table_state.selected(), Some(0));
    handle_key(&mut app, special(Key::Esc));
    assert!(app.search_regex.is_none());
    assert!(app.search_matches.is_empty());
}

#[test]
fn escape_cancels_input() {
    let mut app = app_with(3);
    handle_key(&mut app, key('f'));
    assert_eq!(app.input_mode, InputMode::Filter);
    handle_key(&mut app, key('p'));
    handle_key(&mut app, special(Key::Esc));
    assert_eq!(app.input_mode, InputMode::Normal);
    assert_eq!(app.input_buffer, "");
    assert!(app.filtered_indices.is_none());
}

#[test]
fn typing_a_filter_and_clearing_it() {
    let mut app = app_with(5);
    handle_key(&mut app, key('f'));
    for c in "pid:3".chars() {
        handle_key(&mut app, key(c));
    }
    handle_key(&mut app, special(Key::Enter));
    assert_eq!(app.input_mode, InputMode::Normal);
    assert_eq!(app.visible_indices().to_vec(), vec![3]);
    handle_key(&mut app, key('F'));
    assert!(app.filtered_indices.is_none());
    assert_eq!(app.visible_count(), 5);
}

#[test]
fn copy_selected_line() {
    let mut app = app_with(3);
    handle_key(&mut app, key('j'));
    match handle_key(&mut app, key('c')) {
        Action::CopyLine(idx) => assert_eq!(idx, 1),
        _ => panic!("expected a line to copy"),
    }
}

#[test]
fn copy_with_nothing_shown() {
    let mut app = App::new();
    assert!(is_nothing(&handle_key(&mut app, key('c'))));
}

#[test]
fn copy_all_visible_lines() {
    let mut app = app_with(3);
    match handle_key(&mut app, key('C')) {
        Action::CopyLines(rows) => assert_eq!(rows, vec![0, 1, 2]),
        _ => panic!("expected lines to copy"),
    }
}

#[test]
fn visual_selection_and_yank() {
    let mut app = app_with(6);
    handle_key(&mut app, key('j'));
    handle_key(&mut app, key('v'));
    assert_eq!(app.input_mode, InputMode::Visual);
    assert_eq!(app.visual_anchor, 1);
    handle_key(&mut app, key('j'));
    handle_key(&mut app, key('j'));
    assert_eq!(app.visual_range(), Some((1, 3)));
    match handle_key(&mut app, key('y')) {
        Action::CopyLines(rows) => assert_eq!(rows, vec![1, 2, 3]),
        _ => panic!("expected the selection"),
    }
    assert_eq!(app.input_mode, InputMode::Normal);
}

#[test]
fn visual_selection_upwards_and_cancel() {
    let mut app = app_with(6);
    handle_key(&mut app, key('G'));
    handle_key(&mut app, key('v'));
    handle_key(&mut app, key('k'));
    handle_key(&mut app, key('k'));
    assert_eq!(app.visual_range(), Some((3, 5)));
    let act = handle_key(&mut app, special(Key::Esc));
    assert!(is_nothing(&act));
    assert_eq!(app.input_mode, InputMode::Normal);
}

#[test]
fn detail_view_scrolls_and_closes() {
    let mut app = app_with(2);
    app.detail_scroll = 7;
    handle_key(&mut app, special(Key::Enter));
    assert_eq!(app.input_mode, InputMode::Detail);
    assert_eq!(app.detail_scroll, 0);
    handle_key(&mut app, key('j'));
    handle_key(&mut app, special(Key::PageDown));
    assert_eq!(app.detail_scroll, 11);
    handle_key(&mut app, ctrl('u'));
    assert_eq!(app.detail_scroll, 1);
    handle_key(&mut app, key('k'));
    handle_key(&mut app, key('k'));
    assert_eq!(app.detail_scroll, 0);
    handle_key(&mut app, key('q'));
    assert_eq!(app.input_mode, InputMode::Normal);
    assert!(!app.should_quit);
}

#[test]
fn help_closes_on_any_key() {
    let mut app = app_with(1);
    handle_key(&mut app, key('?'));
    assert_eq!(app.input_mode, InputMode::Help);
    handle_key(&mut app, key('z'));
    assert_eq!(app.input_mode, InputMode::Normal);
}
