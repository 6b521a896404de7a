use taiko_untitled::ring_buffer::RingBuffer;

fn ring(len: usize) -> RingBuffer<i64> {
    let mut next = 0;
    RingBuffer::try_new::<(), _>(len, || {
        next += 1;
        Ok(next * 100)
    })
    .unwrap()
}

fn push(ring: &mut RingBuffer<i64>, value: i64) -> Option<i64> {
    ring.try_append_and_jump_there::<(), _>(|slot| {
        *slot = value;
        Ok(true)
    })
    .unwrap()
    .copied()
}

#[test]
fn new_ring_is_empty() {
    let r = ring(4);
    assert!(r.current().is_none());
    assert!(!r.valid_index(0));
}

#[test]
fn try_new_stops_at_the_first_error() {
    let mut calls = 0;
    let r: Result<RingBuffer<i32>, &str> = RingBuffer::try_new(5, || {
        calls += 1;
        if calls == 3 { Err("third") } else { Ok(calls) }
    });
    assert_eq!(r.err(), Some("third"));
    assert_eq!(calls, 3);
}

#[test]
fn append_moves_cursor_and_current_returns_it() {
    let mut r = ring(3);
    assert_eq!(push(&mut r, 7), Some(7));
    assert_eq!(r.current(), Some(&7));
    assert_eq!(push(&mut r, 8), Some(8));
    assert_eq!(r.current(), Some(&8));
}

#[test]
fn window_keeps_at_most_capacity_minus_one() {
    let mut r = ring(3);
    push(&mut r, 1);
    push(&mut r, 2);
    push(&mut r, 3);
    // the oldest value was dropped: two steps back is not possible
    assert!(r.backward());
    assert_eq!(r.current(), Some(&2));
    assert!(!r.backward());
    assert_eq!(r.current(), Some(&2));
    assert!(r.forward());
    assert_eq!(r.current(), Some(&3));
    assert!(!r.forward());
}

#[test]
fn forward_then_backward_returns() {
    let mut r = ring(5);
    for v in 1..=4 {
        push(&mut r, v);
    }
    assert!(r.backward());
    assert!(r.backward());
    let here = *r.current().unwrap();
    assert!(r.forward());
    assert!(r.backward());
    assert_eq!(*r.current().unwrap(), here);
}

#[test]
fn failed_or_declined_append_changes_nothing_but_the_slot() {
    let mut r = ring(3);
    push(&mut r, 1);
    let declined = r.try_append_and_jump_there::<(), _>(|slot| {
        *slot = 99;
        Ok(false)
    });
    assert_eq!(declined.unwrap(), None);
    assert_eq!(r.current(), Some(&1));
    let failed = r.try_append_and_jump_there::<&str, _>(|_| Err("decoder"));
    assert_eq!(failed.err(), Some("decoder"));
    assert_eq!(r.current(), Some(&1));
}

#[test]
fn clear_empties_the_window() {
    let mut r = ring(3);
    push(&mut r, 1);
    push(&mut r, 2);
    r.clear();
    assert!(r.current().is_none());
    assert!(!r.forward());
    assert!(!r.backward());
}

#[test]
fn indices_wrap() {
    let r = ring(4);
    assert_eq!(r.next_index(3), 0);
    assert_eq!(r.next_index(1), 2);
    assert_eq!(r.previous_index(0), 3);
    assert_eq!(r.previous_index(2), 1);
}

#[test]
fn single_slot_ring_never_holds_anything() {
    let mut r = ring(1);
    assert_eq!(push(&mut r, 5), Some(5));
    assert!(r.current().is_none());
}

#[test]
fn index_steps_undo_each_other() {
    let r = ring(5);
    assert_eq!(r.previous_index(0), 4);
    assert_eq!(r.next_index(4), 0);
    for i in 0..5usize {
        assert_eq!(r.previous_index(i), (i + 5 - 1) % 5);
        assert_eq!(r.next_index(i), (i + 1) % 5);
        assert_eq!(r.next_index(r.previous_index(i)), i);
        assert_eq!(r.previous_index(r.next_index(i)), i);
    }
}

#[test]
fn a_ring_of_no_slots_never_calls_the_generator() {
    let mut calls = 0;
    let r: Result<RingBuffer<i32>, &str> = RingBuffer::try_new(0, || {
        calls += 1;
        Err("called")
    });
    assert!(r.is_ok());
    assert_eq!(calls, 0);
}
