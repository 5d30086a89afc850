use chrono::{DateTime, Datelike, Local, Timelike};
use std::time::{Duration, UNIX_EPOCH};
use whatdidisay::clock::{segment_stamp, segment_time_nanos, LocalStamp};

fn at(year: i32, month: u32, day: u32, hour: u32, minute: u32) -> LocalStamp {
    LocalStamp { unix_nanos: 0, year, month, day, hour, minute, second: 0 }
}

#[test]
fn segment_times() {
    assert_eq!(segment_time_nanos(1_000, 0), Some(1_000));
    assert_eq!(segment_time_nanos(0, 16000), Some(1_000_000_000));
    assert_eq!(segment_time_nanos(5, 1), Some(62_505));
    assert_eq!(segment_time_nanos(0, -1), None);
    assert_eq!(segment_time_nanos(u64::MAX, 1), None);
    assert_eq!(segment_time_nanos(0, i64::MAX), None);
}

#[test]
fn day_and_minute_rendering() {
    assert_eq!(at(2026, 8, 22, 14, 30).day_text(), "20260822");
    assert_eq!(at(2026, 8, 22, 14, 30).minute_text(), "14:30");
    assert_eq!(at(1999, 1, 5, 0, 7).day_text(), "19990105");
    assert_eq!(at(1999, 1, 5, 0, 7).minute_text(), "00:07");
    assert_eq!(at(7, 12, 31, 23, 59).day_text(), "00071231");
}

#[test]
fn year_rendering_matches_chrono_outside_four_digits() {
    for (y, m, d) in [(12345, 3, 4), (-5, 6, 7), (-12345, 1, 1), (0, 1, 1), (9999, 12, 31)] {
        let nd = chrono::NaiveDate::from_ymd_opt(y, m, d).unwrap();
        assert_eq!(at(y, m, d, 0, 0).day_text(), nd.format("%Y%m%d").to_string());
    }
}

#[test]
fn segment_stamp_matches_chrono() {
    let first: u64 = 1_787_000_000_123_456_789;
    for start in [0i64, 15_999, 16_000, 960_000, 123_456_789] {
        let s = segment_stamp(first, start).unwrap();
        let nanos = first + (start as u64) * 62_500;
        assert_eq!(s.unix_nanos, nanos);
        let dt: DateTime<Local> = (UNIX_EPOCH + Duration::from_nanos(nanos)).into();
        assert_eq!(s.year, dt.year());
        assert_eq!(s.month, dt.month());
        assert_eq!(s.day, dt.day());
        assert_eq!(s.hour, dt.hour());
        assert_eq!(s.minute, dt.minute());
        assert_eq!(s.second, dt.second());
        assert_eq!(s.day_text(), dt.format("%Y%m%d").to_string());
        assert_eq!(s.minute_text(), dt.format("%H:%M").to_string());
    }
    assert!(segment_stamp(0, -5).is_none());
}

#[test]
fn extreme_instants_have_eight_digit_days() {
    for n in [0u64, u64::MAX] {
        let s = segment_stamp(n, 0).unwrap();
        let day = s.day_text();
        assert_eq!(day.len(), 8);
        assert!(day.bytes().all(|b| b.is_ascii_digit()));
    }
}
