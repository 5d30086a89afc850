use whatdidisay::ring::{Ring, RING_CAP, WAKE_THRESHOLD};

#[test]
fn new_ring_is_empty() {
    let r = Ring::new(8);
    assert_eq!(r.available(), 0);
    assert_eq!(r.space(), 7);
}

#[test]
fn write_then_drain_gives_data_back() {
    let mut r = Ring::new(16);
    r.write(&[1, 2, 3, 4, 5]);
    assert_eq!(r.available(), 5);
    assert_eq!(r.space(), 10);
    let mut out = Vec::new();
    assert_eq!(r.drain(&mut out), 5);
    assert_eq!(out, vec![1, 2, 3, 4, 5]);
    assert_eq!(r.available(), 0);
}

#[test]
fn fifo_order_across_writes() {
    let mut r = Ring::new(16);
    r.write(&[1, 2]);
    r.write(&[3, 4, 5]);
    let mut out = Vec::new();
    assert_eq!(r.read_chunk(&mut out, 3), 3);
    assert_eq!(out, vec![1, 2, 3]);
    assert_eq!(r.drain(&mut out), 2);
    assert_eq!(out, vec![4, 5]);
}

#[test]
fn write_wraps_around_the_end() {
    let mut r = Ring::new(8);
    r.write(&[1, 2, 3, 4, 5, 6]);
    let mut out = Vec::new();
    assert_eq!(r.read_chunk(&mut out, 5), 5);
    assert_eq!(out, vec![1, 2, 3, 4, 5]);
    // write position is at 6, two slots to the end, so this wraps
    r.write(&[7, 8, 9, 10, 11]);
    assert_eq!(r.available(), 6);
    assert_eq!(r.drain(&mut out), 6);
    assert_eq!(out, vec![6, 7, 8, 9, 10, 11]);
}

#[test]
fn write_that_does_not_fit_is_dropped_whole() {
    let mut r = Ring::new(8);
    r.write(&[1, 2, 3, 4, 5]);
    r.write(&[6, 7, 8]); // needs 3, only 2 free
    assert_eq!(r.available(), 5);
    r.write(&[6, 7]);
    assert_eq!(r.available(), 7);
    assert_eq!(r.space(), 0);
    r.write(&[9]);
    let mut out = Vec::new();
    r.drain(&mut out);
    assert_eq!(out, vec![1, 2, 3, 4, 5, 6, 7]);
}

#[test]
fn empty_write_changes_nothing() {
    let mut r = Ring::new(4);
    r.write(&[]);
    assert_eq!(r.available(), 0);
}

#[test]
fn read_chunk_needs_enough_bytes() {
    let mut r = Ring::new(8);
    r.write(&[1, 2, 3]);
    let mut out = vec![42u8];
    assert_eq!(r.read_chunk(&mut out, 4), 0);
    assert_eq!(out, vec![42]);
    assert_eq!(r.available(), 3);
}

#[test]
fn read_chunk_of_zero_clears_out() {
    let mut r = Ring::new(8);
    let mut out = vec![1u8, 2];
    assert_eq!(r.read_chunk(&mut out, 0), 0);
    assert!(out.is_empty());
}

#[test]
fn drain_of_empty_ring_keeps_out() {
    let mut r = Ring::new(8);
    let mut out = vec![9u8, 9];
    assert_eq!(r.drain(&mut out), 0);
    assert_eq!(out, vec![9, 9]);
}

#[test]
fn reset_forgets_everything() {
    let mut r = Ring::new(8);
    r.write(&[1, 2, 3]);
    r.reset();
    assert_eq!(r.available(), 0);
    assert_eq!(r.space(), 7);
    r.write(&[4]);
    let mut out = Vec::new();
    r.drain(&mut out);
    assert_eq!(out, vec![4]);
}

#[test]
fn ring_of_capacity_one_holds_nothing() {
    let mut r = Ring::new(1);
    assert_eq!(r.space(), 0);
    r.write(&[1]);
    assert_eq!(r.available(), 0);
}

#[test]
fn worker_waits_below_threshold_while_running() {
    let mut r = Ring::new(RING_CAP);
    assert!(r.should_wait(true));
    assert!(!r.should_wait(false));
    let data = vec![0u8; WAKE_THRESHOLD];
    r.write(&data[..WAKE_THRESHOLD - 1]);
    assert!(r.should_wait(true));
    r.write(&data[..1]);
    assert!(!r.should_wait(true));
}

#[test]
fn space_and_available_sum_to_capacity_minus_one() {
    let mut r = Ring::new(10);
    for k in 0..20u8 {
        r.write(&[k, k]);
        assert_eq!(r.available() + r.space(), 9);
        if k % 3 == 0 {
            let mut out = Vec::new();
            r.read_chunk(&mut out, 3);
            assert_eq!(r.available() + r.space(), 9);
        }
    }
}
