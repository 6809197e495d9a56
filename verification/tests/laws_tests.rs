use etwviewer::app::App;
use etwviewer::etw::key_value_message;
use etwviewer::segments::{apply_search_highlight, hscroll_line, styled_message, Segment, SegmentStyle};
use etwviewer::store::ParsedEvent;
use etwviewer::template::fill_template_from_normalized;
use etwviewer::view::{indicator_marker, layout_table};

fn text_of(v: &[Segment]) -> String {
    v.iter().map(|s| s.text.as_str()).collect()
}

fn event(message: &str) -> ParsedEvent {
    ParsedEvent {
        timestamp: 0,
        cpu: 0,
        pid: 0,
        tid: 0,
        provider_name: "P".to_string(),
        event_id: 0,
        level: 0,
        opcode: 0,
        message: message.to_string(),
        field_ranges: Vec::new(),
    }
}

#[test]
fn highlighting_keeps_the_text() {
    let mut app = App::new();
    app.ingest(event("x"));
    app.input_buffer = "[aeiou]".to_string();
    app.apply_search();
    let re = app.search_regex.as_ref().unwrap();
    let segs = vec![
        Segment { text: "hello ".to_string(), style: SegmentStyle::Plain },
        Segment { text: "wörld".to_string(), style: SegmentStyle::Field(2) },
    ];
    let out = apply_search_highlight(segs, re);
    assert_eq!(text_of(&out), "hello wörld");
    assert_eq!(out.iter().filter(|s| s.style == SegmentStyle::SearchHit).count(), 2);
}

#[test]
fn scrolling_drops_leading_characters() {
    let segs = vec![
        Segment { text: "añb".to_string(), style: SegmentStyle::Plain },
        Segment { text: "cd".to_string(), style: SegmentStyle::Field(0) },
    ];
    assert_eq!(text_of(&hscroll_line(segs, 2)), "bcd");
}

#[test]
fn styled_message_shows_the_message_scrolled() {
    let msg = "Read 12 bytes from café";
    let out = styled_message(msg, &[(5, 7, 0), (19, 24, 1)], None, 3);
    assert_eq!(text_of(&out), "d 12 bytes from café");
}

#[test]
fn filled_ranges_mark_the_values() {
    let values = vec!["é".to_string(), "x y".to_string()];
    let (msg, ranges) = fill_template_from_normalized("[%2] and (%1)", &values);
    assert_eq!(msg, "[x y] and (é)");
    for &(s, e, c) in &ranges {
        assert!(s < e && e <= msg.len());
        let v = &msg[s..e];
        assert!(values.iter().enumerate().any(|(i, val)| val == v && (i % 8) as u8 == c));
    }
    assert_eq!(ranges.len(), 2);
}

#[test]
fn key_value_ranges_mark_the_values() {
    let names: Vec<String> = ["α", "b"].iter().map(|s| s.to_string()).collect();
    let values: Vec<String> = ["ü", "2"].iter().map(|s| s.to_string()).collect();
    let (msg, ranges) = key_value_message(&names, &values);
    assert_eq!(msg, "α=ü; b=2");
    for (j, &(s, e, c)) in ranges.iter().enumerate() {
        assert_eq!(&msg[s..e], values[j]);
        assert_eq!(c as usize, j);
    }
}

#[test]
fn marker_stays_on_track() {
    for total in 1..40usize {
        for selected in 0..total {
            if let Some((track, row)) = indicator_marker(1, 9, total, selected) {
                assert!(row < track);
            }
        }
    }
}

#[test]
fn selection_stays_in_view() {
    let mut app = App::new();
    for i in 0..60 {
        app.ingest(event(&format!("e{}", i)));
    }
    for step in [7usize, 20, 3, 33, 1] {
        app.scroll_down(step);
        let w = layout_table(&mut app, 8);
        assert!(w.first_row <= w.selected && w.selected < w.first_row + 8);
    }
}

#[test]
fn filled_fields_are_drawn_in_their_colours() {
    let values = vec!["80".to_string(), "höst".to_string()];
    let (msg, ranges) = fill_template_from_normalized("Connect %2 port %1!u!", &values);
    let segs = styled_message(&msg, &ranges, None, 0);
    let fields: Vec<(String, SegmentStyle)> = segs
        .iter()
        .filter(|s| matches!(s.style, SegmentStyle::Field(_)))
        .map(|s| (s.text.clone(), s.style))
        .collect();
    assert_eq!(
        fields,
        vec![("höst".to_string(), SegmentStyle::Field(1)), ("80".to_string(), SegmentStyle::Field(0))]
    );
}

#[test]
fn key_value_fields_are_drawn_in_their_colours() {
    let names: Vec<String> = ["a", "b", "c"].iter().map(|s| s.to_string()).collect();
    let values: Vec<String> = ["1", "", "ü"].iter().map(|s| s.to_string()).collect();
    let (msg, ranges) = key_value_message(&names, &values);
    let segs = styled_message(&msg, &ranges, None, 0);
    let fields: Vec<(String, SegmentStyle)> = segs
        .iter()
        .filter(|s| matches!(s.style, SegmentStyle::Field(_)))
        .map(|s| (s.text.clone(), s.style))
        .collect();
    assert_eq!(
        fields,
        vec![("1".to_string(), SegmentStyle::Field(0)), ("ü".to_string(), SegmentStyle::Field(2))]
    );
}

#[test]
fn two_scrolls_are_one() {
    let line = || {
        vec![
            Segment { text: "ab".to_string(), style: SegmentStyle::Plain },
            Segment { text: "".to_string(), style: SegmentStyle::Plain },
            Segment { text: "cdé".to_string(), style: SegmentStyle::Field(4) },
            Segment { text: "fg".to_string(), style: SegmentStyle::SearchHit },
        ]
    };
    for a in 0..9usize {
        for b in 0..9usize {
            let twice = hscroll_line(hscroll_line(line(), a), b);
            let once = hscroll_line(line(), a + b);
            let v = |s: &Vec<Segment>| s.iter().map(|x| (x.text.clone(), x.style)).collect::<Vec<_>>();
            assert_eq!(v(&twice), v(&once));
        }
    }
}
