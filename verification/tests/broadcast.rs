use whatdidisay::broadcast::{decode_transcript, encode_transcript, segment_span_ms};

#[test]
fn encode_layout() {
    let m = encode_transcript(1, -1, "hi");
    assert_eq!(&m[0..4], b"WDIS");
    assert_eq!(&m[4..12], &1i64.to_le_bytes());
    assert_eq!(&m[12..20], &(-1i64).to_le_bytes());
    assert_eq!(&m[20..], b"hi");
    assert_eq!(m.len(), 22);
}

#[test]
fn roundtrip() {
    for (s, e, t) in [
        (0i64, 0i64, ""),
        (1_787_000_000_000, 1_787_000_002_500, "打开灯"),
        (i64::MIN, i64::MAX, "x"),
        (-42, 42, "The DSP ring buffer"),
    ] {
        let m = encode_transcript(s, e, t);
        let d = decode_transcript(&m).unwrap();
        assert_eq!(d.start_ms, s);
        assert_eq!(d.end_ms, e);
        assert_eq!(d.text, t.as_bytes().to_vec());
    }
}

#[test]
fn decode_matches_readme_consumer() {
    let mut data = b"WDIS".to_vec();
    data.extend_from_slice(&1000i64.to_le_bytes());
    data.extend_from_slice(&2000i64.to_le_bytes());
    data.extend_from_slice("hello".as_bytes());
    let d = decode_transcript(&data).unwrap();
    assert_eq!(d.start_ms, i64::from_le_bytes(data[4..12].try_into().unwrap()));
    assert_eq!(d.end_ms, i64::from_le_bytes(data[12..20].try_into().unwrap()));
    assert_eq!(std::str::from_utf8(&d.text).unwrap(), "hello");
}

#[test]
fn decode_rejects_short_or_foreign() {
    assert!(decode_transcript(b"WDIS").is_none());
    assert!(decode_transcript(&[0u8; 19]).is_none());
    let mut m = encode_transcript(1, 2, "x");
    m[0] = b'X';
    assert!(decode_transcript(&m).is_none());
    let mut m = encode_transcript(1, 2, "x");
    m[3] = b'T';
    assert!(decode_transcript(&m).is_none());
}

#[test]
fn spans() {
    assert_eq!(segment_span_ms(1_000_000_000, 16_000), Some((1000, 2000)));
    assert_eq!(segment_span_ms(1_999_999, 0), Some((1, 1)));
    assert_eq!(segment_span_ms(0, 15), Some((0, 0)));
    assert_eq!(segment_span_ms(0, 16), Some((0, 1)));
    assert_eq!(segment_span_ms(u64::MAX, 1), None);
}
