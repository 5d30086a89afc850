use whatdidisay::clock::{decimal, LocalStamp};
use whatdidisay::transcript::{transcript_text, trim, TranscriptWriter};

fn stamp(day: &str, minute: &str, second: u32) -> LocalStamp {
    let year: i32 = day[0..4].parse().unwrap();
    let month: u32 = day[4..6].parse().unwrap();
    let d: u32 = day[6..8].parse().unwrap();
    let hour: u32 = minute[0..2].parse().unwrap();
    let min: u32 = minute[3..5].parse().unwrap();
    LocalStamp { unix_nanos: 0, year, month, day: d, hour, minute: min, second }
}

#[test]
fn record_format_example() {
    let mut w = TranscriptWriter::new();
    let s1 = stamp("20260822", "14:30", 15);
    assert_eq!(w.file_to_open(&s1), Some("20260822.txt".to_string()));
    w.file_opened(&s1);
    let mut file = w.entry(&s1, "Hello everyone, let's start the meeting.");
    let s2 = stamp("20260822", "14:30", 45);
    assert_eq!(w.file_to_open(&s2), None);
    file.extend(w.entry(&s2, "Today we will discuss the new plugin architecture."));
    let s3 = stamp("20260822", "14:31", 10);
    assert_eq!(w.file_to_open(&s3), None);
    file.extend(w.entry(&s3, "The DSP ring buffer is fully lock-free."));
    let expected = "14:30\n\t15 Hello everyone, let's start the meeting.\n\t45 Today we will discuss the new plugin architecture.\n14:31\n\t10 The DSP ring buffer is fully lock-free.\n";
    assert_eq!(String::from_utf8(file).unwrap(), expected);
}

#[test]
fn new_day_opens_new_file_and_repeats_header() {
    let mut w = TranscriptWriter::new();
    let a = stamp("20260822", "23:59", 59);
    assert!(w.file_to_open(&a).is_some());
    w.file_opened(&a);
    assert_eq!(w.entry(&a, "x"), b"23:59\n\t59 x\n".to_vec());
    let b = stamp("20260823", "23:59", 59);
    assert_eq!(w.file_to_open(&b), Some("20260823.txt".to_string()));
    w.file_opened(&b);
    assert_eq!(w.entry(&b, "y"), b"23:59\n\t59 y\n".to_vec());
}

#[test]
fn nothing_written_when_file_failed_to_open() {
    let mut w = TranscriptWriter::new();
    let a = stamp("20260822", "10:00", 1);
    assert!(w.file_to_open(&a).is_some());
    // the open failed: file_opened is not called, and the sentence is dropped
    // the next sentence asks for the file again
    assert!(w.file_to_open(&a).is_some());
    assert_eq!(w.entry(&a, "lost"), Vec::<u8>::new());
}

#[test]
fn failed_reopen_after_day_change_drops_entries() {
    let mut w = TranscriptWriter::new();
    let a = stamp("20260822", "10:00", 1);
    w.file_to_open(&a);
    w.file_opened(&a);
    let b = stamp("20260823", "10:00", 2);
    assert!(w.file_to_open(&b).is_some());
    // not opened; a sentence of the old day finds no open file
    assert_eq!(w.file_to_open(&a), None);
    assert_eq!(w.entry(&a, "x"), Vec::<u8>::new());
}

#[test]
fn decimal_digits() {
    assert_eq!(decimal(0), "0");
    assert_eq!(decimal(7), "7");
    assert_eq!(decimal(59), "59");
    assert_eq!(decimal(100), "100");
    assert_eq!(decimal(u64::MAX), u64::MAX.to_string());
}

#[test]
fn trimming_matches_std() {
    for s in ["  hi  ", "\t\nx y\r\n", "", "   ", "\u{3000}全角\u{3000}", "a", "\u{a0}b\u{2009}"] {
        assert_eq!(trim(s), s.trim());
    }
}

#[test]
fn transcript_text_skips_blank_results() {
    assert_eq!(transcript_text("  "), None);
    assert_eq!(transcript_text(""), None);
    assert_eq!(transcript_text(" Hello. "), Some("Hello."));
}


#[test]
fn one_header_per_minute_over_a_sequence() {
    let mut w = TranscriptWriter::new();
    let stamps = [
        stamp("20260822", "09:00", 1),
        stamp("20260822", "09:00", 30),
        stamp("20260822", "09:01", 2),
        stamp("20260822", "09:01", 3),
        stamp("20260822", "09:05", 59),
    ];
    let mut file = Vec::new();
    for (k, s) in stamps.iter().enumerate() {
        if let Some(_) = w.file_to_open(s) {
            w.file_opened(s);
        }
        file.extend(w.entry(s, &format!("s{}", k)));
    }
    let text = String::from_utf8(file).unwrap();
    assert_eq!(text, "09:00\n\t1 s0\n\t30 s1\n09:01\n\t2 s2\n\t3 s3\n09:05\n\t59 s4\n");
}
