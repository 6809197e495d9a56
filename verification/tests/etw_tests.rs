use etwviewer::etw::{format_step, info_buffer_size, map_buffer_size, FormatStep};
use etwviewer::etw::{
    decode_units, element_advance, event_message, extract_string_from_buffer, formatted_value,
    infer_property_size, is_control, join, key_value_message, pointer_size_of, property_name,
    read_uint_from_user_data, try_read_raw_string, PropertyLayout,
};

fn utf16_bytes(s: &str) -> Vec<u8> {
    let mut out = Vec::new();
    for u in s.encode_utf16() {
        out.push((u & 0xff) as u8);
        out.push((u >> 8) as u8);
    }
    out
}

fn strings(v: &[&str]) -> Vec<String> {
    v.iter().map(|s| s.to_string()).collect()
}

#[test]
fn read_small_integers() {
    let data = [0x34u8, 0x12, 0x78, 0x56, 0xff];
    assert_eq!(read_uint_from_user_data(&data, 0, 1), 0x34);
    assert_eq!(read_uint_from_user_data(&data, 0, 2), 0x1234);
    assert_eq!(read_uint_from_user_data(&data, 0, 4), 0x1234);
    assert_eq!(read_uint_from_user_data(&data, 1, 2), 0x7812);
    assert_eq!(read_uint_from_user_data(&data, 0, 3), 0);
    assert_eq!(read_uint_from_user_data(&data, 2, 4), 0);
    assert_eq!(read_uint_from_user_data(&data, 5, 1), 0);
}

#[test]
fn property_sizes_by_input_type() {
    assert_eq!(infer_property_size(4, 8), 1);
    assert_eq!(infer_property_size(13, 8), 1);
    assert_eq!(infer_property_size(6, 8), 2);
    assert_eq!(infer_property_size(8, 8), 4);
    assert_eq!(infer_property_size(11, 8), 4);
    assert_eq!(infer_property_size(10, 4), 8);
    assert_eq!(infer_property_size(17, 4), 8);
    assert_eq!(infer_property_size(16, 4), 4);
    assert_eq!(infer_property_size(19, 8), 8);
    assert_eq!(infer_property_size(18, 8), 16);
    assert_eq!(infer_property_size(1, 8), 0);
    assert_eq!(infer_property_size(2, 8), 0);
}

#[test]
fn pointer_size_from_header_flags() {
    assert_eq!(pointer_size_of(0x0020, 0x0020), 4);
    assert_eq!(pointer_size_of(0x0040, 0x0020), 8);
}

#[test]
fn element_advance_rules() {
    assert_eq!(element_advance(10, Some(6), 4, 8, 8), 16);
    assert_eq!(element_advance(10, None, 4, 8, 8), 14);
    assert_eq!(element_advance(10, None, 0, 9, 8), 18);
    assert_eq!(element_advance(10, None, 0, 1, 8), 10);
}

#[test]
fn property_walk_with_length_reference() {
    // Property 0 holds a 2-byte length (3); property 1 takes its length from it.
    let data = [3u8, 0, b'a', b'b', b'c', 9];
    let mut layout = PropertyLayout::new();
    assert!(layout.begin_property(data.len()));
    assert_eq!(layout.element_start(0, data.len()), Some(0));
    let total = element_advance(0, Some(2), 2, 6, 8);
    layout.finish_property(&strings(&["3"]), total, data.len());
    assert_eq!(layout.offset, 2);

    let len = layout.resolve_length(&data, true, 0);
    assert_eq!(len, 3);
    let count = layout.resolve_count(&data, false, 0);
    assert_eq!(count, 1);
    assert!(layout.begin_property(data.len()));
    assert_eq!(layout.element_start(0, data.len()), Some(2));
    layout.finish_property(&strings(&["abc"]), 3, data.len());
    assert_eq!(layout.offset, 5);
    assert_eq!(layout.offsets, vec![0, 2]);
    assert_eq!(layout.consumed, vec![2, 3]);

    layout.skip_struct();
    assert_eq!(layout.values, strings(&["3", "abc", ""]));
    assert_eq!(layout.resolve_count(&data, true, 7), 1);
    assert_eq!(layout.resolve_length(&data, true, 7), 0);
    assert_eq!(layout.resolve_count(&data, false, 4), 4);

    assert!(layout.begin_property(data.len()));
    assert_eq!(layout.element_start(1, data.len()), None);
    layout.finish_property(&strings(&["x", "y"]), 1, data.len());
    assert!(!layout.begin_property(data.len()));
    assert_eq!(layout.values, strings(&["3", "abc", "", "x, y", ""]));
}

#[test]
fn join_texts() {
    assert_eq!(join(&strings(&[]), ", "), "");
    assert_eq!(join(&strings(&["a"]), ", "), "a");
    assert_eq!(join(&strings(&["a", "b", "c"]), ", "), "a, b, c");
}

#[test]
fn utf16_decoding() {
    assert_eq!(decode_units(&vec![0x48, 0x69]), vec!['H', 'i']);
    assert_eq!(decode_units(&vec![0xD83D, 0xDE00]), vec!['\u{1F600}']);
    assert_eq!(decode_units(&vec![0xD83D, 0x41]), vec!['\u{FFFD}', 'A']);
    assert_eq!(decode_units(&vec![0xDE00]), vec!['\u{FFFD}']);
    assert_eq!(decode_units(&vec![0xD83D]), vec!['\u{FFFD}']);
}

#[test]
fn strings_in_buffers() {
    let mut buf = vec![0xAAu8, 0xBB];
    buf.extend(utf16_bytes("Provider"));
    buf.extend([0, 0]);
    buf.extend(utf16_bytes("Next"));
    assert_eq!(extract_string_from_buffer(&buf, 2), "Provider");
    assert_eq!(extract_string_from_buffer(&buf, 20), "Next");
    assert_eq!(extract_string_from_buffer(&buf, buf.len()), "");
    assert_eq!(extract_string_from_buffer(&buf, 1000), "");
    let mut odd = utf16_bytes("ab");
    odd.push(b'c');
    assert_eq!(extract_string_from_buffer(&odd, 0), "ab");
}

#[test]
fn formatted_values() {
    let buf: Vec<u16> = "42\0junk".encode_utf16().collect();
    assert_eq!(formatted_value(&buf, 7), "42");
    let full: Vec<u16> = "12345".encode_utf16().collect();
    assert_eq!(formatted_value(&full, 3), "123");
}

#[test]
fn control_characters() {
    assert!(is_control('\u{0}'));
    assert!(is_control('\n'));
    assert!(is_control('\u{7f}'));
    assert!(is_control('\u{9f}'));
    assert!(!is_control(' '));
    assert!(!is_control('\u{a0}'));
}

#[test]
fn raw_strings() {
    let mut data = utf16_bytes("hello\r\nworld");
    data.extend([0, 0, 0x41, 0]);
    assert_eq!(try_read_raw_string(&data), "hello\r\nworld");
    assert_eq!(try_read_raw_string(&utf16_bytes("bad\u{1}")), "");
    assert_eq!(try_read_raw_string(&[0, 0, 0x41, 0]), "");
    assert_eq!(try_read_raw_string(&[0x41]), "");
    assert_eq!(try_read_raw_string(&[]), "");
}

#[test]
fn property_names() {
    let mut buf = vec![0u8, 0];
    buf.extend(utf16_bytes("QueryName"));
    buf.extend([0, 0]);
    assert_eq!(property_name(&buf, 2, 0), "QueryName");
    assert_eq!(property_name(&buf, 0, 12), "prop12");
}

#[test]
fn key_value_messages() {
    let names = strings(&["Name", "Empty", "Count"]);
    let values = strings(&["café", "", "7"]);
    let (msg, ranges) = key_value_message(&names, &values);
    assert_eq!(msg, "Name=café; Count=7");
    assert_eq!(ranges, vec![(5, 10, 0), (18, 19, 2)]);
    assert_eq!(&msg[ranges[0].0..ranges[0].1], "café");
    assert_eq!(&msg[ranges[1].0..ranges[1].1], "7");
}

#[test]
fn key_value_with_fewer_values_than_names() {
    let (msg, ranges) = key_value_message(&strings(&["A", "B"]), &strings(&["1"]));
    assert_eq!(msg, "A=1");
    assert_eq!(ranges, vec![(2, 3, 0)]);
}

#[test]
fn event_messages() {
    let mut info = vec![0u8, 0];
    info.extend(utf16_bytes("Opened %1 with\r\nmode %2"));
    info.extend([0, 0]);
    let names = strings(&["File", "Mode"]);
    let values = strings(&["a.txt", "rw"]);
    let (msg, ranges) = event_message(&[], &info, 2, &names, &values);
    assert_eq!(msg, "Opened a.txt with mode rw");
    assert_eq!(ranges, vec![(7, 12, 0), (23, 25, 1)]);

    let (msg, ranges) = event_message(&[], &info, 0, &names, &values);
    assert_eq!(msg, "File=a.txt; Mode=rw");
    assert_eq!(ranges, vec![(5, 10, 0), (17, 19, 1)]);

    let raw = utf16_bytes("raw text");
    let (msg, ranges) = event_message(&raw, &info, 2, &strings(&[]), &strings(&[]));
    assert_eq!(msg, "raw text");
    assert!(ranges.is_empty());
}

#[test]
fn formatter_status_steps() {
    assert_eq!(format_step(0, 12, true, 256), FormatStep::Done(12));
    assert_eq!(format_step(0, 12, false, 900), FormatStep::Done(900));
    assert_eq!(format_step(122, 900, true, 256), FormatStep::Retry(900));
    assert_eq!(format_step(122, 200, true, 256), FormatStep::Fail);
    assert_eq!(format_step(122, 900, false, 900), FormatStep::Fail);
    assert_eq!(format_step(87, 900, true, 256), FormatStep::Fail);
    assert_eq!(info_buffer_size(122, 64), Some(64));
    assert_eq!(info_buffer_size(0, 64), Some(64));
    assert_eq!(info_buffer_size(122, 0), None);
    assert_eq!(info_buffer_size(5, 64), None);
    assert_eq!(map_buffer_size(122, 64), Some(64));
    assert_eq!(map_buffer_size(0, 64), None);
    assert_eq!(map_buffer_size(122, 0), None);
}
