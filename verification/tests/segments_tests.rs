use etwviewer::app::App;
use etwviewer::segments::{
    apply_search_highlight, char_index, field_segments_of, hscroll_line, styled_message, wrap_line,
    Segment, SegmentStyle,
};
use etwviewer::store::ParsedEvent;

fn seg(text: &str, style: SegmentStyle) -> Segment {
    Segment { text: text.to_string(), style }
}

fn views(v: &[Segment]) -> Vec<(String, SegmentStyle)> {
    v.iter().map(|s| (s.text.clone(), s.style)).collect()
}

fn pair(text: &str, style: SegmentStyle) -> (String, SegmentStyle) {
    (text.to_string(), style)
}

/// An app whose search pattern is `pattern`, for the highlighting tests.
fn searched_app(pattern: &str) -> App {
    let mut app = App::new();
    app.ingest(ParsedEvent {
        timestamp: 0,
        cpu: 0,
        pid: 0,
        tid: 0,
        provider_name: "P".to_string(),
        event_id: 0,
        level: 0,
        opcode: 0,
        message: String::new(),
        field_ranges: Vec::new(),
    });
    app.input_buffer = pattern.to_string();
    app.apply_search();
    app
}

use SegmentStyle::{Field, Plain, SearchHit};

#[test]
fn char_positions_of_bytes() {
    let t: Vec<char> = "aé€b".chars().collect();
    assert_eq!(char_index(&t, 0), Some(0));
    assert_eq!(char_index(&t, 1), Some(1));
    assert_eq!(char_index(&t, 2), None);
    assert_eq!(char_index(&t, 3), Some(2));
    assert_eq!(char_index(&t, 6), Some(3));
    assert_eq!(char_index(&t, 7), Some(4));
    assert_eq!(char_index(&t, 8), None);
}

#[test]
fn fields_are_coloured() {
    let segs = field_segments_of("Opened a.txt mode rw", &[(7, 12, 0), (18, 20, 9)]).unwrap();
    assert_eq!(
        views(&segs),
        vec![
            pair("Opened ", Plain),
            pair("a.txt", Field(0)),
            pair(" mode ", Plain),
            pair("rw", Field(1)),
        ]
    );
}

#[test]
fn field_ranges_are_clamped_and_skipped() {
    let segs = field_segments_of("abcdef", &[(2, 4, 1), (3, 5, 2), (5, 5, 3), (4, 100, 4)]).unwrap();
    assert_eq!(
        views(&segs),
        vec![pair("ab", Plain), pair("cd", Field(1)), pair("ef", Field(4))]
    );
    let segs = field_segments_of("abc", &[]).unwrap();
    assert_eq!(views(&segs), vec![pair("abc", Plain)]);
    let segs = field_segments_of("", &[]).unwrap();
    assert_eq!(views(&segs), vec![pair("", Plain)]);
}

#[test]
fn field_range_inside_a_character() {
    assert!(field_segments_of("é", &[(1, 2, 0)]).is_none());
}

#[test]
fn horizontal_scroll() {
    let line = vec![seg("abc", Plain), seg("", Plain), seg("de", Field(1)), seg("fgh", Plain)];
    assert_eq!(
        views(&hscroll_line(line, 4)),
        vec![pair("e", Field(1)), pair("fgh", Plain)]
    );
    let line = vec![seg("abc", Plain), seg("de", Field(1))];
    assert_eq!(views(&hscroll_line(line, 0)), vec![pair("abc", Plain), pair("de", Field(1))]);
    let line = vec![seg("abc", Plain), seg("de", Field(1))];
    assert_eq!(views(&hscroll_line(line, 3)), vec![pair("de", Field(1))]);
    let line = vec![seg("abc", Plain)];
    assert!(hscroll_line(line, 10).is_empty());
}

#[test]
fn wrapping() {
    let line = vec![seg("abcd", Plain), seg("efgh", Field(2)), seg("ij", Plain)];
    let lines = wrap_line(line, 3);
    let v: Vec<Vec<(String, SegmentStyle)>> = lines.iter().map(|l| views(l)).collect();
    assert_eq!(
        v,
        vec![
            vec![pair("abc", Plain)],
            vec![pair("d", Plain), pair("ef", Field(2))],
            vec![pair("gh", Field(2)), pair("i", Plain)],
            vec![pair("j", Plain)],
        ]
    );
}

#[test]
fn wrapping_exact_fit_and_edges() {
    let lines = wrap_line(vec![seg("abc", Plain), seg("def", Plain)], 3);
    let v: Vec<Vec<(String, SegmentStyle)>> = lines.iter().map(|l| views(l)).collect();
    assert_eq!(v, vec![vec![pair("abc", Plain)], vec![pair("def", Plain)]]);

    let lines = wrap_line(vec![seg("abc", Plain)], 0);
    assert_eq!(lines.len(), 1);
    assert_eq!(views(&lines[0]), vec![pair("abc", Plain)]);

    let lines = wrap_line(vec![seg("", Plain)], 5);
    assert_eq!(lines.len(), 1);
    assert_eq!(views(&lines[0]), vec![pair("", Plain)]);
}

#[test]
fn wrapped_lines_keep_the_text() {
    let text = "The quick brown fox jumps over the lazy dog";
    let lines = wrap_line(vec![seg(text, Plain)], 7);
    let joined: String = lines.iter().flat_map(|l| l.iter().map(|s| s.text.clone())).collect();
    assert_eq!(joined, text);
    for (i, l) in lines.iter().enumerate() {
        let n: usize = l.iter().map(|s| s.text.chars().count()).sum();
        if i + 1 < lines.len() {
            assert_eq!(n, 7);
        } else {
            assert!(n <= 7 && n > 0);
        }
    }
}

#[test]
fn search_highlighting() {
    let app = searched_app("o+");
    let re = app.search_regex.as_ref().unwrap();
    let segs = vec![seg("foo bar", Plain), seg("boo", Field(3)), seg("xyz", Plain), seg("", Plain)];
    let out = apply_search_highlight(segs, re);
    assert_eq!(
        views(&out),
        vec![
            pair("f", Plain),
            pair("oo", SearchHit),
            pair(" bar", Plain),
            pair("b", Field(3)),
            pair("oo", SearchHit),
            pair("xyz", Plain),
            pair("", Plain),
        ]
    );
}

#[test]
fn styled_messages() {
    let app = searched_app("txt");
    let re = app.search_regex.as_ref();
    let out = styled_message("Opened a.txt now", &[(7, 12, 0)], re, 0);
    assert_eq!(
        views(&out),
        vec![
            pair("Opened ", Plain),
            pair("a.", Field(0)),
            pair("txt", SearchHit),
            pair(" now", Plain),
        ]
    );
    let out = styled_message("Opened a.txt now", &[(7, 12, 0)], None, 8);
    assert_eq!(views(&out), vec![pair(".txt", Field(0)), pair(" now", Plain)]);
    assert!(field_segments_of("é", &[(0, 1, 0)]).is_none());
}
