use etwviewer::filter::{compile_filter, event_passes, level_of, parse_filter_terms};
use etwviewer::store::ParsedEvent;
use etwviewer::template::{decimal_digit, fill_template_from_normalized, find_placeholder, normalize_template};
use etwviewer::text::{
    decimal_text, hex_text, parse_u32, split_words, strip_prefix, trim_chars, is_whitespace,
};

fn chars(s: &str) -> Vec<char> {
    s.chars().collect()
}

fn event(pid: u32, level: u8, provider: &str, message: &str) -> ParsedEvent {
    ParsedEvent {
        timestamp: 0,
        cpu: 0,
        pid,
        tid: 0,
        provider_name: provider.to_string(),
        event_id: 0,
        level,
        opcode: 0,
        message: message.to_string(),
        field_ranges: Vec::new(),
    }
}

#[test]
fn decimal_and_hex() {
    assert_eq!(decimal_text(0), "0");
    assert_eq!(decimal_text(1234567890), "1234567890");
    assert_eq!(decimal_text(u64::MAX), "18446744073709551615");
    assert_eq!(hex_text(0, false, 0), "0");
    assert_eq!(hex_text(0xBEEF, true, 0), "BEEF");
    assert_eq!(hex_text(0xBEEF, false, 8), "0000beef");
    assert_eq!(hex_text(u64::MAX, false, 16), "ffffffffffffffff");
}

#[test]
fn parsing_numbers() {
    assert_eq!(parse_u32(&chars("42")), Some(42));
    assert_eq!(parse_u32(&chars("+7")), Some(7));
    assert_eq!(parse_u32(&chars("4294967295")), Some(u32::MAX));
    assert_eq!(parse_u32(&chars("4294967296")), None);
    assert_eq!(parse_u32(&chars("")), None);
    assert_eq!(parse_u32(&chars("+")), None);
    assert_eq!(parse_u32(&chars("-1")), None);
    assert_eq!(parse_u32(&chars("1a")), None);
}

#[test]
fn words_and_trimming() {
    let w = split_words(&chars("  a\tbc \u{3000} d  "));
    assert_eq!(w, vec![chars("a"), chars("bc"), chars("d")]);
    assert_eq!(trim_chars(&chars("\u{a0} x y \n")), chars("x y"));
    assert!(is_whitespace('\u{2028}'));
    assert!(!is_whitespace('x'));
    assert_eq!(strip_prefix(&chars("pid:12"), "pid:"), Some(chars("12")));
    assert_eq!(strip_prefix(&chars("pi"), "pid:"), None);
}

#[test]
fn level_names_in_filters() {
    assert_eq!(level_of(&chars("Critical")), Some(1));
    assert_eq!(level_of(&chars("ERROR")), Some(2));
    assert_eq!(level_of(&chars("3")), Some(3));
    assert_eq!(level_of(&chars("info")), Some(4));
    assert_eq!(level_of(&chars("VerBose")), Some(5));
    assert_eq!(level_of(&chars("6")), None);
    assert_eq!(level_of(&chars("warn")), None);
}

#[test]
fn filter_terms() {
    let t = parse_filter_terms("provider:a.b level:error pid:12 msg:x+");
    assert_eq!(t.provider.as_deref(), Some("(?i)a\\.b"));
    assert_eq!(t.level, Some(2));
    assert_eq!(t.pid, Some(12));
    assert_eq!(t.msg.as_deref(), Some("(?i)x+"));
    assert!(t.generic.is_none());

    let t = parse_filter_terms("disk full?");
    assert!(t.provider.is_none() && t.level.is_none() && t.pid.is_none() && t.msg.is_none());
    assert_eq!(t.generic.as_deref(), Some("(?i)disk full\\?"));

    let t = parse_filter_terms("pid:1 pid:2 pid:x");
    assert_eq!(t.pid, None);
    let t = parse_filter_terms("pid:x pid:2");
    assert_eq!(t.pid, Some(2));
}

#[test]
fn filters_on_events() {
    let f = compile_filter(parse_filter_terms("provider:dns level:4"));
    assert!(event_passes(&f, &event(1, 4, "Microsoft-Windows-DNS-Client", "q")));
    assert!(!event_passes(&f, &event(1, 3, "Microsoft-Windows-DNS-Client", "q")));
    assert!(!event_passes(&f, &event(1, 4, "Kernel", "dns")));

    let f = compile_filter(parse_filter_terms("msg:("));
    assert!(f.msg.is_none());
    assert!(event_passes(&f, &event(1, 4, "P", "anything")));

    let f = compile_filter(parse_filter_terms("a.c"));
    assert!(event_passes(&f, &event(1, 4, "P", "xA.Cx")));
    assert!(!event_passes(&f, &event(1, 4, "P", "abc")));
    assert!(event_passes(&f, &event(1, 4, "a.c provider", "")));
}

#[test]
fn template_line_breaks() {
    assert_eq!(normalize_template("a\r\nb\nc\rd"), "a b c\rd");
}

#[test]
fn placeholders() {
    let t = chars("x %12!s! %3!x %4");
    assert_eq!(find_placeholder(&t, 0), None);
    assert_eq!(find_placeholder(&t, 2), Some((5, 8)));
    assert_eq!(find_placeholder(&t, 9), Some((11, 11)));
    assert_eq!(find_placeholder(&t, 14), Some((16, 16)));
    assert!(decimal_digit('7'));
    assert!(decimal_digit('\u{0663}'));
    assert!(!decimal_digit('x'));
}

#[test]
fn template_trimming_and_colours() {
    let values: Vec<String> = (1..=10).map(|i| format!("v{}", i)).collect();
    let (msg, ranges) = fill_template_from_normalized("  %1 %10  ", &values);
    assert_eq!(msg, "v1 v10");
    assert_eq!(ranges, vec![(0, 2, 0), (3, 6, 1)]);
    let (msg, ranges) = fill_template_from_normalized("%9%10", &values);
    assert_eq!(msg, "v9v10");
    assert_eq!(ranges, vec![(0, 2, 0), (2, 5, 1)]);
}

#[test]
fn template_empty_values_and_unicode_digits() {
    let values = vec!["".to_string(), "x".to_string()];
    let (msg, ranges) = fill_template_from_normalized("[%1][%2][%0][%\u{0663}]", &values);
    assert_eq!(msg, "[][x][%0][%\u{0663}]");
    assert_eq!(ranges, vec![(3, 4, 1)]);
}

#[test]
fn template_value_trimmed_away() {
    let values = vec![" ".to_string(), "ab ".to_string()];
    let (msg, ranges) = fill_template_from_normalized("%1%2", &values);
    assert_eq!(msg, "ab");
    assert_eq!(ranges, vec![(0, 2, 1)]);
}

#[test]
fn decimal_digits_agree_with_the_regex_crate() {
    let digit = regex::Regex::new(r"^\d$").unwrap();
    let mut buf = [0u8; 4];
    for v in 0..=0x10FFFFu32 {
        if let Some(c) = char::from_u32(v) {
            assert_eq!(decimal_digit(c), digit.is_match(c.encode_utf8(&mut buf)), "U+{:04X}", v);
        }
    }
}
