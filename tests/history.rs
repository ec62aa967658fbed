use frame_timer::history::LogBuffer;

#[test]
fn fresh_buffer_holds_initial_values() {
    let b = LogBuffer::new(4, 7u32);
    assert_eq!(b.contents(), &[7, 7, 7, 7]);
    assert_eq!(b.logical_count(), 0);
    assert_eq!(b.latest(), 7);
}

#[test]
fn count_grows_then_saturates() {
    let mut b = LogBuffer::new(3, 0u64);
    for k in 1..=3usize {
        b.push(k as u64);
        assert_eq!(b.logical_count(), k);
    }
    for k in 4..=10u64 {
        b.push(k);
        assert_eq!(b.logical_count(), 3);
    }
}

#[test]
fn latest_is_last_pushed() {
    let mut b = LogBuffer::new(5, 0i32);
    for x in [3, -1, 8, 8, 2, 9, 4] {
        b.push(x);
        assert_eq!(b.latest(), x);
    }
}

#[test]
fn cursor_moves_before_writing() {
    let mut b = LogBuffer::new(3, 0u8);
    b.push(1);
    assert_eq!(b.contents(), &[0, 1, 0]);
    b.push(2);
    assert_eq!(b.contents(), &[0, 1, 2]);
    b.push(3);
    assert_eq!(b.contents(), &[3, 1, 2]);
    b.push(4);
    assert_eq!(b.contents(), &[3, 4, 2]);
}

#[test]
fn single_slot_buffer() {
    let mut b = LogBuffer::new(1, 0u64);
    b.push(5);
    assert_eq!(b.contents(), &[5]);
    b.push(6);
    assert_eq!(b.contents(), &[6]);
    assert_eq!(b.logical_count(), 1);
    assert_eq!(b.latest(), 6);
}
