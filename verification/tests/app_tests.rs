use etwviewer::app::{take_another, App, Elapsed, InputMode, TimestampMode, INGEST_BATCH};
use etwviewer::store::{EventStore, ParsedEvent};

fn event(ts: i64, pid: u32, level: u8, provider: &str, message: &str) -> ParsedEvent {
    ParsedEvent {
        timestamp: ts,
        cpu: 0,
        pid,
        tid: 1,
        provider_name: provider.to_string(),
        event_id: 1,
        level,
        opcode: 0,
        message: message.to_string(),
        field_ranges: Vec::new(),
    }
}

fn sample_app() -> App {
    let mut app = App::new();
    app.ingest(event(10, 100, 4, "Microsoft-Windows-DNS-Client", "DNS query for example.com"));
    app.ingest(event(20, 200, 2, "Microsoft-Windows-Kernel-Process", "Process started"));
    app.ingest(event(20, 100, 3, "Microsoft-Windows-DNS-Client", "DNS timeout for test.org"));
    app.ingest(event(30, 300, 4, "MyProvider", "hello world"));
    app
}

#[test]
fn store_push_get_len() {
    let mut store = EventStore::new();
    assert_eq!(store.len(), 0);
    assert!(store.get(0).is_none());
    store.push(event(5, 1, 4, "P", "first"));
    store.push(event(5, 2, 4, "P", "second"));
    assert_eq!(store.len(), 2);
    assert_eq!(store.get(1).unwrap().message, "second");
    assert!(store.get(2).is_none());
}

#[test]
fn new_app_defaults() {
    let mut app = App::new();
    assert_eq!(app.input_mode, InputMode::Normal);
    assert_eq!(app.timestamp_mode, TimestampMode::Utc);
    assert_eq!(app.visible_count(), 0);
    assert!(app.visible_indices().is_empty());
    assert!(!app.should_quit);
    assert_eq!(app.selected_provider_name(), "");
}

#[test]
fn visible_indices_follow_the_store() {
    let mut app = sample_app();
    assert_eq!(app.visible_indices().to_vec(), vec![0, 1, 2, 3]);
    app.ingest(event(40, 1, 4, "P", "later"));
    assert_eq!(app.visible_indices().to_vec(), vec![0, 1, 2, 3, 4]);
    assert_eq!(app.visible_count(), 5);
}

#[test]
fn scrolling_stops_at_the_ends() {
    let mut app = sample_app();
    app.scroll_down(1);
    assert_eq!(app.table_state.selected(), Some(1));
    app.scroll_down(30);
    assert_eq!(app.table_state.selected(), Some(3));
    app.scroll_up(2);
    assert_eq!(app.table_state.selected(), Some(1));
    app.scroll_up(30);
    assert_eq!(app.table_state.selected(), Some(0));
    app.scroll_to_bottom();
    assert_eq!(app.table_state.selected(), Some(3));
    app.scroll_to_top();
    assert_eq!(app.table_state.selected(), Some(0));
}

#[test]
fn scrolling_an_empty_table_selects_nothing() {
    let mut app = App::new();
    app.scroll_down(1);
    app.scroll_to_bottom();
    app.scroll_to_top();
    assert_eq!(app.table_state.selected(), None);
}

#[test]
fn scroll_down_then_up_returns() {
    let mut app = sample_app();
    app.scroll_down(1);
    app.scroll_down(2);
    app.scroll_up(2);
    assert_eq!(app.table_state.selected(), Some(1));
}

#[test]
fn toggle_timestamp_twice_is_identity() {
    let mut app = App::new();
    app.toggle_timestamp();
    assert_eq!(app.timestamp_mode, TimestampMode::Local);
    app.toggle_timestamp();
    assert_eq!(app.timestamp_mode, TimestampMode::Utc);
}

#[test]
fn search_finds_rows_and_cycles() {
    let mut app = sample_app();
    app.input_buffer = "DNS".to_string();
    app.apply_search();
    assert_eq!(app.search_matches, vec![0, 2]);
    assert_eq!(app.search_match_pos, Some(0));
    assert_eq!(app.table_state.selected(), Some(0));
    app.next_match();
    assert_eq!(app.search_match_pos, Some(1));
    assert_eq!(app.table_state.selected(), Some(2));
    app.next_match();
    assert_eq!(app.search_match_pos, Some(0));
    assert_eq!(app.table_state.selected(), Some(0));
    app.prev_match();
    assert_eq!(app.search_match_pos, Some(1));
    assert_eq!(app.table_state.selected(), Some(2));
    assert_eq!(app.search_regex.as_ref().unwrap().source(), "DNS");
}

#[test]
fn next_then_prev_match_returns() {
    let mut app = sample_app();
    app.input_buffer = "o".to_string();
    app.apply_search();
    assert_eq!(app.search_matches, vec![0, 1, 2, 3]);
    app.next_match();
    app.next_match();
    let pos = app.search_match_pos;
    app.next_match();
    app.prev_match();
    assert_eq!(app.search_match_pos, pos);
    assert_eq!(app.table_state.selected(), Some(2));
}

#[test]
fn search_matches_provider_names() {
    let mut app = sample_app();
    app.input_buffer = "Kernel".to_string();
    app.apply_search();
    assert_eq!(app.search_matches, vec![1]);
    assert_eq!(app.table_state.selected(), Some(1));
}

#[test]
fn search_with_a_regex() {
    let mut app = sample_app();
    app.input_buffer = "^(hello|Process)".to_string();
    app.apply_search();
    assert_eq!(app.search_matches, vec![1, 3]);
}

#[test]
fn invalid_regex_is_searched_literally() {
    let mut app = sample_app();
    app.ingest(event(50, 1, 4, "P", "value (unbalanced"));
    app.input_buffer = "(unbalanced".to_string();
    app.apply_search();
    assert_eq!(app.search_matches, vec![4]);
    assert_eq!(app.search_regex.as_ref().unwrap().source(), "\\(unbalanced");
}

#[test]
fn search_without_hits_resets_position() {
    let mut app = sample_app();
    app.input_buffer = "DNS".to_string();
    app.apply_search();
    app.input_buffer = "nothing-like-this".to_string();
    app.apply_search();
    assert!(app.search_matches.is_empty());
    assert_eq!(app.search_match_pos, None);
    app.next_match();
    assert_eq!(app.search_match_pos, None);
}

#[test]
fn empty_search_clears() {
    let mut app = sample_app();
    app.input_buffer = "DNS".to_string();
    app.apply_search();
    app.input_buffer = String::new();
    app.apply_search();
    assert!(app.search_regex.is_none());
    assert!(app.search_matches.is_empty());
    assert_eq!(app.search_match_pos, None);
}

#[test]
fn filter_by_provider_level_and_pid() {
    let mut app = sample_app();
    app.input_buffer = "provider:dns-client".to_string();
    app.apply_filter();
    assert_eq!(app.visible_indices().to_vec(), vec![0, 2]);
    assert_eq!(app.active_filter_desc.as_deref(), Some("provider:dns-client"));
    assert_eq!(app.table_state.selected(), Some(0));

    app.input_buffer = "  level:warning ".to_string();
    app.apply_filter();
    assert_eq!(app.visible_indices().to_vec(), vec![2]);
    assert_eq!(app.active_filter_desc.as_deref(), Some("level:warning"));

    app.input_buffer = "pid:100 level:4".to_string();
    app.apply_filter();
    assert_eq!(app.visible_indices().to_vec(), vec![0]);
    assert_eq!(app.visible_count(), 1);
}

#[test]
fn filter_by_message_regex_and_plain_text() {
    let mut app = sample_app();
    app.input_buffer = "msg:^dns.*com$".to_string();
    app.apply_filter();
    assert_eq!(app.visible_indices().to_vec(), vec![0]);

    app.input_buffer = "WORLD".to_string();
    app.apply_filter();
    assert_eq!(app.visible_indices().to_vec(), vec![3]);

    app.input_buffer = "kernel".to_string();
    app.apply_filter();
    assert_eq!(app.visible_indices().to_vec(), vec![1]);
}

#[test]
fn filter_with_unknown_level_keeps_everything_else() {
    let mut app = sample_app();
    app.input_buffer = "level:bogus".to_string();
    app.apply_filter();
    assert_eq!(app.visible_indices().to_vec(), vec![0, 1, 2, 3]);
}

#[test]
fn clear_filter_shows_everything() {
    let mut app = sample_app();
    app.input_buffer = "pid:300".to_string();
    app.apply_filter();
    assert_eq!(app.visible_indices().to_vec(), vec![3]);
    app.clear_filter();
    assert!(app.filtered_indices.is_none());
    assert!(app.active_filter_desc.is_none());
    assert_eq!(app.visible_indices().to_vec(), vec![0, 1, 2, 3]);
}

#[test]
fn empty_filter_clears() {
    let mut app = sample_app();
    app.input_buffer = "pid:300".to_string();
    app.apply_filter();
    app.input_buffer = "   ".to_string();
    app.apply_filter();
    assert!(app.filtered_indices.is_none());
    assert_eq!(app.visible_count(), 4);
}

#[test]
fn filtered_view_grows_with_new_events_only_through_filter() {
    let mut app = sample_app();
    app.input_buffer = "pid:300".to_string();
    app.apply_filter();
    assert_eq!(app.visible_indices().to_vec(), vec![3]);
    app.ingest(event(60, 300, 4, "P", "not yet filtered"));
    assert_eq!(app.visible_indices().to_vec(), vec![3]);
}

#[test]
fn selected_provider_name_uses_the_shown_rows() {
    let mut app = sample_app();
    app.visible_indices();
    app.scroll_down(1);
    assert_eq!(app.selected_provider_name(), "Microsoft-Windows-Kernel-Process");
}

#[test]
fn visual_range_only_in_visual_mode() {
    let mut app = sample_app();
    app.scroll_down(3);
    app.visual_anchor = 1;
    assert_eq!(app.visual_range(), None);
    app.input_mode = InputMode::Visual;
    assert_eq!(app.visual_range(), Some((1, 3)));
    app.scroll_up(3);
    assert_eq!(app.visual_range(), Some((0, 1)));
}

#[test]
fn parse_time_is_shown_for_two_seconds() {
    let mut app = App::new();
    assert!(!app.should_show_parse_elapsed(0));
    app.mark_parse_done(Elapsed { secs: 1, nanos: 500_000_000 }, 10_000);
    assert!(app.parse_done);
    assert!(app.should_show_parse_elapsed(10_000));
    assert!(app.should_show_parse_elapsed(12_000));
    assert!(!app.should_show_parse_elapsed(12_001));
}

#[test]
fn literal_search_without_hits_has_no_position() {
    let mut app = sample_app();
    app.input_buffer = "DNS".to_string();
    app.apply_search();
    app.next_match();
    assert_eq!(app.search_match_pos, Some(1));
    app.input_buffer = "(nowhere".to_string();
    app.apply_search();
    assert!(app.search_matches.is_empty());
    assert_eq!(app.search_match_pos, None);
    assert_eq!(app.search_regex.as_ref().unwrap().source(), "\\(nowhere");
}

#[test]
fn filter_matches_the_search_again() {
    let mut app = sample_app();
    app.input_buffer = "o".to_string();
    app.apply_search();
    assert_eq!(app.search_matches, vec![0, 1, 2, 3]);
    app.next_match();
    app.next_match();
    app.next_match();
    assert_eq!(app.search_match_pos, Some(3));
    app.input_buffer = "provider:dns".to_string();
    app.apply_filter();
    assert_eq!(app.visible_indices().to_vec(), vec![0, 2]);
    assert_eq!(app.search_matches, vec![0, 1]);
    assert_eq!(app.search_match_pos, None);
    app.next_match();
    assert_eq!(app.table_state.selected(), Some(0));
    app.next_match();
    assert_eq!(app.table_state.selected(), Some(1));
    app.input_buffer = "hello".to_string();
    app.apply_search();
    assert!(app.search_matches.is_empty());
    app.clear_filter();
    assert_eq!(app.search_matches, vec![3]);
    assert_eq!(app.search_match_pos, None);
}

#[test]
fn filter_without_search_has_no_matches() {
    let mut app = sample_app();
    app.input_buffer = "pid:100".to_string();
    app.apply_filter();
    assert!(app.search_matches.is_empty());
    assert_eq!(app.search_match_pos, None);
}

#[test]
fn provider_of_the_selected_row_after_filtering() {
    let mut app = sample_app();
    app.input_buffer = "pid:200".to_string();
    app.apply_filter();
    assert_eq!(app.selected_provider_name(), "Microsoft-Windows-Kernel-Process");
    app.clear_filter();
    app.scroll_to_bottom();
    assert_eq!(app.selected_provider_name(), "MyProvider");
    app.input_buffer = "nothing-at-all".to_string();
    app.apply_filter();
    assert_eq!(app.selected_provider_name(), "");
}

#[test]
fn level_names_are_accepted_back() {
    let mut app = sample_app();
    for (word, expected) in [("ERROR", vec![1]), ("warning", vec![2]), ("Info", vec![0, 3]), ("4", vec![0, 3])] {
        app.input_buffer = format!("level:{}", word);
        app.apply_filter();
        assert_eq!(app.visible_indices().to_vec(), expected);
    }
}

#[test]
fn pid_term_only_narrows() {
    let mut app = sample_app();
    app.input_buffer = "provider:dns".to_string();
    app.apply_filter();
    let wide = app.visible_indices().to_vec();
    app.input_buffer = "provider:dns pid:100".to_string();
    app.apply_filter();
    let narrow = app.visible_indices().to_vec();
    assert_eq!(wide, vec![0, 2]);
    assert_eq!(narrow, vec![0, 2]);
    app.input_buffer = "provider:dns pid:7".to_string();
    app.apply_filter();
    assert!(app.visible_indices().is_empty());
    app.input_buffer = "provider:dns pid:x".to_string();
    app.apply_filter();
    assert_eq!(app.visible_indices().to_vec(), wide);
}

#[test]
fn pid_term_narrows_the_rows_shown() {
    let mut app = sample_app();
    app.input_buffer = "  provider:dns ".to_string();
    app.apply_filter();
    let before = app.filtered_indices.clone().unwrap();
    assert_eq!(before, vec![0, 2]);
    app.input_buffer = "provider:dns pid:100".to_string();
    app.apply_filter();
    let expected: Vec<usize> = before.iter().copied().filter(|&i| app.store.get(i).unwrap().pid == 100).collect();
    assert_eq!(app.filtered_indices.clone().unwrap(), expected);
    app.input_buffer = "provider:dns pid:200".to_string();
    app.apply_filter();
    assert_eq!(app.filtered_indices.clone().unwrap(), Vec::<usize>::new());
}

#[test]
fn pushed_events_come_back_in_order() {
    let mut store = EventStore::new();
    let messages = ["a", "b", "c", "d"];
    for (k, m) in messages.iter().enumerate() {
        store.push(event(7, k as u32, 4, "P", m));
    }
    assert_eq!(store.len(), messages.len());
    for (k, m) in messages.iter().enumerate() {
        assert_eq!(store.get(k).unwrap().message, *m);
        assert_eq!(store.get(k).unwrap().pid, k as u32);
    }
    assert!(store.get(messages.len()).is_none());
    assert!(store.get(usize::MAX).is_none());
}

#[test]
fn a_turn_takes_one_batch_until_parsing_ends() {
    assert!(take_another(0, false));
    assert!(take_another(INGEST_BATCH - 1, false));
    assert!(!take_another(INGEST_BATCH, false));
    assert!(take_another(INGEST_BATCH, true));
    assert!(take_another(usize::MAX, true));
}
