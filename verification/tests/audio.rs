use whatdidisay::audio::{
    down_ratio, le_words, next_window, split_whole_frames, worker_step, WorkerStep,
};

#[test]
fn words_are_little_endian() {
    assert_eq!(le_words(&[1, 0, 0, 0, 0x78, 0x56, 0x34, 0x12]), vec![1, 0x12345678]);
    assert_eq!(le_words(&[0xff, 0xff, 0xff, 0xff, 9, 9]), vec![u32::MAX]);
    assert_eq!(le_words(&[1, 2, 3]), Vec::<u32>::new());
}

#[test]
fn words_are_f32_bit_patterns() {
    let samples = [0.5f32, -1.25, 3.0];
    let mut bytes = Vec::new();
    for s in samples {
        bytes.extend_from_slice(&s.to_le_bytes());
    }
    let back: Vec<f32> = le_words(&bytes).into_iter().map(f32::from_bits).collect();
    assert_eq!(back, samples.to_vec());
}

#[test]
fn ratios() {
    assert_eq!(down_ratio(48000), Some(3));
    assert_eq!(down_ratio(44100), Some(2));
    assert_eq!(down_ratio(16000), Some(1));
    assert_eq!(down_ratio(8000), None);
    assert_eq!(down_ratio(0), None);
}

#[test]
fn frames_carry_remainder_over() {
    let mut left = vec![1, 2];
    let frames = split_whole_frames(&mut left, &[3, 4, 5, 6], 4);
    assert_eq!(frames, vec![1, 2, 3, 4]);
    assert_eq!(left, vec![5, 6]);
    let frames = split_whole_frames(&mut left, &[7], 4);
    assert!(frames.is_empty());
    assert_eq!(left, vec![5, 6, 7]);
    let frames = split_whole_frames(&mut left, &[8, 9, 10, 11, 12], 4);
    assert_eq!(frames, vec![5, 6, 7, 8, 9, 10, 11, 12]);
    assert!(left.is_empty());
}

#[test]
fn ratio_one_keeps_everything() {
    let mut left: Vec<i32> = Vec::new();
    let frames = split_whole_frames(&mut left, &[1, 2, 3], 1);
    assert_eq!(frames, vec![1, 2, 3]);
    assert!(left.is_empty());
}

#[test]
fn windows_while_running() {
    let mut buf = vec![1, 2, 3, 4, 5];
    assert_eq!(next_window(&mut buf, 2, false), Some(vec![1, 2]));
    assert_eq!(buf, vec![3, 4, 5]);
    assert_eq!(next_window(&mut buf, 4, false), None);
    assert_eq!(buf, vec![3, 4, 5]);
    assert_eq!(next_window(&mut buf, 3, false), Some(vec![3, 4, 5]));
    assert!(buf.is_empty());
    assert_eq!(next_window(&mut buf, 3, false), None);
}

#[test]
fn windows_at_shutdown_keep_the_rest() {
    let mut buf = vec![1, 2, 3, 4, 5];
    assert_eq!(next_window(&mut buf, 2, true), Some(vec![1, 2]));
    assert_eq!(next_window(&mut buf, 2, true), Some(vec![3, 4]));
    assert_eq!(next_window(&mut buf, 2, true), Some(vec![5]));
    assert!(buf.is_empty());
    assert_eq!(next_window(&mut buf, 2, true), None);
}

#[test]
fn worker_steps() {
    assert_eq!(worker_step(true, 10), WorkerStep::Process);
    assert_eq!(worker_step(true, 0), WorkerStep::Wait);
    assert_eq!(worker_step(false, 10), WorkerStep::ProcessThenFinish);
    assert_eq!(worker_step(false, 0), WorkerStep::Finish);
}
