use stardust::xenbus::XenBus;
use stardust::xenstore::{decimal_bytes, ls_entries, domain_id, parse_u32, read_value, split_entries};

#[test]
fn parses_decimal_numbers() {
    assert_eq!(parse_u32(b"0"), Some(0));
    assert_eq!(parse_u32(b"42"), Some(42));
    assert_eq!(parse_u32(b"  17\n\n\n"), Some(17));
    assert_eq!(parse_u32(b"4294967295"), Some(u32::MAX));
    assert_eq!(parse_u32(b"4294967296"), None);
    assert_eq!(parse_u32(b"99999999999999"), None);
    assert_eq!(parse_u32(b""), None);
    assert_eq!(parse_u32(b" \t "), None);
    assert_eq!(parse_u32(b"1 2"), None);
    assert_eq!(parse_u32(b"-1"), None);
    assert_eq!(parse_u32(b"12a"), None);
    assert_eq!(domain_id(b"0"), Some(0));
    assert_eq!(domain_id(b"32752"), Some(32752));
}

#[test]
fn splits_directory_entries() {
    let e = split_entries(b"a\0bc\0\0d");
    assert_eq!(e, vec![b"a".to_vec(), b"bc".to_vec(), b"d".to_vec()]);
    assert!(split_entries(b"").is_empty());
    assert!(split_entries(b"\0\0").is_empty());
    assert_eq!(split_entries(b"only"), vec![b"only".to_vec()]);
}

#[test]
fn listing_drops_invalid_text() {
    let names = ls_entries(b"ok\0\xff\xfe\0fine\0");
    assert_eq!(names, vec!["ok".to_string(), "fine".to_string()]);
}

#[test]
fn read_value_checks_utf8() {
    assert_eq!(read_value(b"hello"), Some("hello".to_string()));
    assert_eq!(read_value("h\u{e9}".as_bytes()), Some("h\u{e9}".to_string()));
    assert_eq!(read_value(b"\xc3"), None);
}

#[test]
fn write_frames_key_then_value() {
    let mut bus = XenBus::new();
    stardust::xenstore::write(&mut bus, 0, 3, b"k\0", b"v").unwrap();
    let bytes = bus.req.peek(0, bus.req.available());
    assert_eq!(bytes, vec![11, 0, 0, 0, 0, 0, 0, 0, 3, 0, 0, 0, 3, 0, 0, 0, b'k', 0, b'v']);
}

#[test]
fn numbers_print_in_decimal() {
    assert_eq!(decimal_bytes(0), b"0".to_vec());
    assert_eq!(decimal_bytes(7), b"7".to_vec());
    assert_eq!(decimal_bytes(2047), b"2047".to_vec());
    assert_eq!(decimal_bytes(u32::MAX), b"4294967295".to_vec());
    for n in [0u32, 9, 10, 99, 100, 65535, 123456789] {
        assert_eq!(parse_u32(&decimal_bytes(n)), Some(n));
    }
}
