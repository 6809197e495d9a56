use etwviewer::template::{fill_template_from_normalized, normalize_template};

#[test]
fn fill_template_basic() {
    let template = normalize_template("DNS query for %1 type %2 response %3");
    let (msg, ranges) =
        fill_template_from_normalized(&template, &["example.com".into(), "A".into(), "0x0".into()]);
    assert_eq!(msg, "DNS query for example.com type A response 0x0");
    assert_eq!(ranges.len(), 3);
    assert_eq!(&msg[ranges[0].0..ranges[0].1], "example.com");
    assert_eq!(&msg[ranges[1].0..ranges[1].1], "A");
    assert_eq!(&msg[ranges[2].0..ranges[2].1], "0x0");
    assert_eq!(ranges[0].2, 0);
    assert_eq!(ranges[1].2, 1);
    assert_eq!(ranges[2].2, 2);
}

#[test]
fn fill_template_format_specifier() {
    let template = normalize_template("Value is %1!u! and hex %2!x!");
    let (msg, ranges) = fill_template_from_normalized(&template, &["42".into(), "FF".into()]);
    assert_eq!(msg, "Value is 42 and hex FF");
    assert_eq!(ranges.len(), 2);
    assert_eq!(&msg[ranges[0].0..ranges[0].1], "42");
    assert_eq!(&msg[ranges[1].0..ranges[1].1], "FF");
}

#[test]
fn fill_template_missing_value() {
    let template = normalize_template("Has %1 and %99");
    let (msg, ranges) = fill_template_from_normalized(&template, &["hello".into()]);
    assert_eq!(msg, "Has hello and %99");
    assert_eq!(ranges.len(), 1);
    assert_eq!(&msg[ranges[0].0..ranges[0].1], "hello");
}
