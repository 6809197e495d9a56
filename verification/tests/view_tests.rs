use etwviewer::app::{App, Elapsed, InputMode, TimestampMode};
use etwviewer::store::{EventStore, ParsedEvent};
use etwviewer::timefmt::{copied_lines, format_event_line, format_timestamp, format_timestamp_full};
use etwviewer::view::{
    detail_popup_area, detail_text, format_duration, indicator_marker, input_bar, layout_table,
    level_str, message_column_width, source_text, status_line,
};

/// 2024-01-01 00:00:00 UTC as a FILETIME.
const JAN_2024: i64 = 133_485_408_000_000_000;

fn event(ts: i64, provider: &str, message: &str) -> ParsedEvent {
    ParsedEvent {
        timestamp: ts,
        cpu: 3,
        pid: 0x1A4,
        tid: 255,
        provider_name: provider.to_string(),
        event_id: 42,
        level: 2,
        opcode: 1,
        message: message.to_string(),
        field_ranges: Vec::new(),
    }
}

fn app_with(n: usize) -> App {
    let mut app = App::new();
    for i in 0..n {
        app.ingest(event(JAN_2024, "Prov", &format!("m{}", i)));
    }
    app
}

#[test]
fn timestamps_in_utc() {
    assert_eq!(format_timestamp(JAN_2024, TimestampMode::Utc), "2024-01-01 00:00:00.000000");
    assert_eq!(
        format_timestamp(JAN_2024 + 1_234_567, TimestampMode::Utc),
        "2024-01-01 00:00:00.123456"
    );
    assert_eq!(
        format_timestamp_full(JAN_2024 + 1_234_567, TimestampMode::Utc),
        "2024-01-01 00:00:00.123456700 UTC"
    );
    assert_eq!(format_timestamp(116_444_736_000_000_000, TimestampMode::Utc), "1970-01-01 00:00:00.000000");
    assert_eq!(format_timestamp(0, TimestampMode::Utc), "1601-01-01 00:00:00.000000");
}

#[test]
fn out_of_range_timestamp_shows_hex() {
    assert_eq!(format_timestamp(1, TimestampMode::Utc), "0x0000000000000001");
    assert_eq!(format_timestamp(1, TimestampMode::Local), "0x0000000000000001");
    assert_eq!(format_timestamp_full(1, TimestampMode::Utc), "0x0000000000000001");
}

#[test]
fn local_timestamps_have_the_same_shape() {
    let t = format_timestamp(JAN_2024, TimestampMode::Local);
    assert_eq!(t.len(), 26);
    assert!(t.ends_with(".000000"));
}

#[test]
fn local_lines_keep_the_message() {
    let line = format_event_line(&event(JAN_2024, "Prov", "hello"), TimestampMode::Local);
    assert_eq!(line.len(), 26 + 2 + 5);
    assert!(line.ends_with(".000000  hello"));
    let full = format_timestamp_full(JAN_2024, TimestampMode::Local);
    assert_eq!(&full[19..30], ".000000000 ");
    assert!(full.len() > 30);
    let mut store = EventStore::new();
    store.push(event(JAN_2024, "P", "one"));
    store.push(event(JAN_2024 + 10_000_000, "P", "two"));
    let text = copied_lines(&store, &[0, 1], TimestampMode::Local);
    let lines: Vec<&str> = text.split('\n').collect();
    assert_eq!(lines.len(), 3);
    assert!(lines[0].ends_with(".000000  one"));
    assert!(lines[1].ends_with(".000000  two"));
    assert_eq!(lines[2], "");
}

#[test]
fn copied_event_lines() {
    let e = event(JAN_2024, "Prov", "hello");
    assert_eq!(format_event_line(&e, TimestampMode::Utc), "2024-01-01 00:00:00.000000  hello");
    assert_eq!(format_event_line(&event(1, "P", "hello"), TimestampMode::Utc), "1601-01-01 00:00:00.000000  hello");
    assert_eq!(format_event_line(&event(-1, "P", "hello"), TimestampMode::Utc), "  hello");
    assert_eq!(format_event_line(&event(-1, "P", "hello"), TimestampMode::Local), "  hello");
    let mut store = EventStore::new();
    store.push(event(JAN_2024, "P", "one"));
    store.push(event(JAN_2024 + 10_000_000, "P", "two"));
    assert_eq!(
        copied_lines(&store, &[1, 7, 0], TimestampMode::Utc),
        "2024-01-01 00:00:01.000000  two\n2024-01-01 00:00:00.000000  one\n"
    );
    assert_eq!(copied_lines(&store, &[], TimestampMode::Utc), "");
}

#[test]
fn level_names() {
    assert_eq!(level_str(0), "None");
    assert_eq!(level_str(1), "Critical");
    assert_eq!(level_str(2), "Error");
    assert_eq!(level_str(3), "Warning");
    assert_eq!(level_str(4), "Info");
    assert_eq!(level_str(5), "Verbose");
    assert_eq!(level_str(9), "?");
}

#[test]
fn durations() {
    assert_eq!(format_duration(Elapsed { secs: 0, nanos: 250_000_000 }), "250ms");
    assert_eq!(format_duration(Elapsed { secs: 0, nanos: 999_999 }), "0ms");
    assert_eq!(format_duration(Elapsed { secs: 3, nanos: 45_000_000 }), "3.045s");
    assert_eq!(format_duration(Elapsed { secs: 12, nanos: 0 }), "12.000s");
}

#[test]
fn message_column_widths() {
    assert_eq!(message_column_width(100, false), 72);
    assert_eq!(message_column_width(100, true), 53);
    assert_eq!(message_column_width(20, false), 0);
    assert_eq!(message_column_width(40, true), 0);
}

#[test]
fn position_indicator() {
    assert_eq!(indicator_marker(1, 11, 101, 50), Some((10, 4)));
    assert_eq!(indicator_marker(1, 11, 101, 100), Some((10, 9)));
    assert_eq!(indicator_marker(1, 11, 1, 0), Some((10, 0)));
    assert_eq!(indicator_marker(0, 11, 5, 0), None);
    assert_eq!(indicator_marker(1, 1, 5, 0), None);
    assert_eq!(indicator_marker(1, 11, 0, 0), None);
}

#[test]
fn source_column() {
    assert_eq!(source_text(&event(0, "P", "m")), "[3]1A4.FF");
}

#[test]
fn popup_area() {
    assert_eq!(detail_popup_area(100, 40), (4, 3, 92, 34));
    assert_eq!(detail_popup_area(30, 8), (0, 0, 40, 10));
    assert_eq!(detail_popup_area(45, 15), (2, 2, 40, 10));
}

#[test]
fn detail_view_text() {
    let e = event(JAN_2024, "Microsoft-Windows-Test", "Something happened");
    assert_eq!(
        detail_text(&e, TimestampMode::Utc),
        "Timestamp: 2024-01-01 00:00:00.000000000 UTC\n\
         CPU: 3  PID: 1A4 (420)  TID: FF (255)\n\
         Provider:  Microsoft-Windows-Test\n\
         Event ID:  42  Level: Error (2)  Opcode: 1\n\
         \n\
         Something happened"
    );
}

#[test]
fn table_layout_keeps_the_selection_in_view() {
    let mut app = app_with(100);
    let w = layout_table(&mut app, 10);
    assert_eq!(app.table_state.selected(), Some(0));
    assert_eq!(w.first_row, 0);
    assert_eq!(w.rows, (0..14).collect::<Vec<usize>>());
    assert_eq!(w.total, 100);
    app.scroll_down(25);
    let w = layout_table(&mut app, 10);
    assert_eq!(w.first_row, 16);
    assert_eq!(w.selected_in_window, 9);
    assert_eq!(app.table_state.offset(), 16);
    app.scroll_up(20);
    let w = layout_table(&mut app, 10);
    assert_eq!(w.first_row, 5);
    assert_eq!(w.selected_in_window, 0);
    app.scroll_to_bottom();
    let w = layout_table(&mut app, 10);
    assert_eq!(w.first_row, 90);
    assert_eq!(w.rows.len(), 10);
    assert!(!w.on_search_match);
    assert!(w.visual.is_none());
}

#[test]
fn table_layout_marks_search_match_and_selection() {
    let mut app = app_with(5);
    app.input_buffer = "m3".to_string();
    app.apply_search();
    let w = layout_table(&mut app, 4);
    assert!(w.on_search_match);
    assert_eq!(w.selected, 3);
    app.visual_anchor = 1;
    app.input_mode = InputMode::Visual;
    let w = layout_table(&mut app, 4);
    assert_eq!(w.visual, Some((1, 3)));
    assert!(w.in_selection(1));
    assert!(w.in_selection(3));
    assert!(!w.in_selection(0));
    assert!(!w.in_selection(4));
}

#[test]
fn status_bar_texts() {
    let mut app = app_with(3);
    let help = " | q quit  / search  f filter  F clear  v select  c copy  s src  t time  w wrap  ? help  PgUp/^U PgDn/^D page  ←→ scroll  Enter detail ";
    assert_eq!(status_line(&app, 0), format!(" 3 events [UTC] | Prov | loading{}", help));
    app.mark_parse_done(Elapsed { secs: 0, nanos: 120_000_000 }, 1_000);
    assert_eq!(status_line(&app, 1_500), format!(" 3 events [UTC] | Prov | parsed in 120ms{}", help));
    assert_eq!(status_line(&app, 5_000), format!(" 3 events [UTC] | Prov{}", help));
    app.input_buffer = "m1".to_string();
    app.apply_filter();
    app.toggle_timestamp();
    assert_eq!(status_line(&app, 5_000), format!(" 1/3 events | filter m1 [Local] | Prov{}", help));
    app.scroll_down(5);
    app.input_buffer = "nothing".to_string();
    app.apply_filter();
    assert_eq!(status_line(&app, 5_000), format!(" 0/3 events | filter nothing [Local]{}", help));
}

#[test]
fn input_bar_texts() {
    let mut app = app_with(4);
    app.input_mode = InputMode::Search;
    app.input_buffer = "abc".to_string();
    assert_eq!(input_bar(&app, 0), ("Search", "/abc".to_string()));
    app.input_mode = InputMode::Filter;
    assert_eq!(input_bar(&app, 0), ("Filter", "filter> abc".to_string()));
    app.input_mode = InputMode::Detail;
    assert_eq!(input_bar(&app, 0), ("Detail", " ↑↓ scroll  PgUp/^U PgDn/^D page  Esc close ".to_string()));
    app.input_mode = InputMode::Help;
    assert_eq!(input_bar(&app, 0), ("Help", " Press any key to close ".to_string()));
    app.scroll_down(3);
    app.visual_anchor = 1;
    app.input_mode = InputMode::Visual;
    assert_eq!(
        input_bar(&app, 0),
        ("Visual", " -- VISUAL -- 3 lines selected | ↑↓ move  PgUp/^U PgDn/^D page  y yank  Esc cancel ".to_string())
    );
    app.input_mode = InputMode::Normal;
    assert_eq!(input_bar(&app, 0).0, "Status");
}
