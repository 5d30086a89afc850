use whatdidisay::reply::{cfg_value_from_reply, extract_json_number, unquote};

#[test]
fn unquote_strips_one_pair() {
    assert_eq!(unquote("\"micyou_start\""), "micyou_start");
    assert_eq!(unquote("\"\"x\"\""), "\"x\"");
    assert_eq!(unquote("\"\""), "");
}

#[test]
fn unquote_leaves_other_text() {
    assert_eq!(unquote("plain"), "plain");
    assert_eq!(unquote("\""), "\"");
    assert_eq!(unquote("\"open"), "\"open");
    assert_eq!(unquote("close\""), "close\"");
    assert_eq!(unquote(""), "");
}

#[test]
fn unquote_non_ascii() {
    assert_eq!(unquote("\"设备连接\""), "设备连接");
}

#[test]
fn json_number_found() {
    let j = "{\"sampleRate\":44100,\"channels\":1}";
    assert_eq!(extract_json_number(j, "sampleRate"), Some(44100));
    assert_eq!(extract_json_number(j, "channels"), Some(1));
}

#[test]
fn json_number_missing_key() {
    assert_eq!(extract_json_number("{\"rate\":1}", "sampleRate"), None);
    assert_eq!(extract_json_number("", "x"), None);
}

#[test]
fn json_number_needs_digits_right_after_colon() {
    assert_eq!(extract_json_number("{\"channels\": 2}", "channels"), None);
    assert_eq!(extract_json_number("{\"channels\":\"2\"}", "channels"), None);
    assert_eq!(extract_json_number("{\"channels\":-2}", "channels"), None);
}

#[test]
fn json_number_first_occurrence_wins() {
    assert_eq!(extract_json_number("{\"a\":x,\"a\":5}", "a"), None);
    assert_eq!(extract_json_number("{\"a\":7,\"a\":5}", "a"), Some(7));
}

#[test]
fn json_number_stops_at_non_digit() {
    assert_eq!(extract_json_number("{\"n\":123abc}", "n"), Some(123));
    assert_eq!(extract_json_number("{\"n\":007}", "n"), Some(7));
}

#[test]
fn json_number_overflow_is_none() {
    assert_eq!(extract_json_number("{\"n\":4294967295}", "n"), Some(4294967295));
    assert_eq!(extract_json_number("{\"n\":4294967296}", "n"), None);
    assert_eq!(extract_json_number("{\"n\":99999999999999999999}", "n"), None);
}

#[test]
fn cfg_value_ok_quoted() {
    let mut b = [0u8; 256];
    let v = b"\"device_connect\"";
    b[..v.len()].copy_from_slice(v);
    assert_eq!(cfg_value_from_reply(true, &b, v.len() as u32), "device_connect");
}

#[test]
fn cfg_value_failed_call_is_empty() {
    let b = *b"\"x\"";
    assert_eq!(cfg_value_from_reply(false, &b, 3), "");
    assert_eq!(cfg_value_from_reply(true, &b, 0), "");
}

#[test]
fn cfg_value_size_clamped_to_buffer() {
    let b = *b"abc";
    assert_eq!(cfg_value_from_reply(true, &b, 1000), "abc");
    assert_eq!(cfg_value_from_reply(true, &b, 2), "ab");
}

#[test]
fn cfg_value_invalid_utf8_is_replaced() {
    let b = [b'a', 0xff, b'b'];
    assert_eq!(cfg_value_from_reply(true, &b, 3), "a\u{FFFD}b");
}
