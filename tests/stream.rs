use chainquery::stream::{Delivery, FrameOutcome, Multiplexer};

fn take(m: &mut Multiplexer, id: u64) -> Option<Vec<u8>> {
    match m.next(id) {
        Delivery::Chunk(c) => Some(c),
        _ => None,
    }
}

#[test]
fn deltas_subscription_delivers_backfill_then_live_frames_in_order() {
    let mut m = Multiplexer::new(4, 16);
    let a = m.open().unwrap();
    let other = m.open().unwrap();
    assert_ne!(a, other);
    let frames: Vec<(u64, &[u8])> = vec![
        (a, b"backfill-1"),
        (other, b"x-1"),
        (a, b"backfill-2"),
        (a, b"live-1"),
        (other, b"x-2"),
        (a, b"live-2"),
        (other, b"x-3"),
        (a, b"live-3"),
    ];
    for (id, p) in frames {
        assert!(matches!(m.on_frame(id, p.to_vec()), FrameOutcome::Queued));
    }
    assert!(m.on_end(a));
    let mut got: Vec<Vec<u8>> = Vec::new();
    while let Some(c) = take(&mut m, a) {
        got.push(c);
    }
    assert_eq!(
        got,
        vec![b"backfill-1".to_vec(), b"backfill-2".to_vec(), b"live-1".to_vec(), b"live-2".to_vec(), b"live-3".to_vec()]
    );
    assert!(matches!(m.next(a), Delivery::Finished));
    assert_eq!(take(&mut m, other), Some(b"x-1".to_vec()));
    assert_eq!(take(&mut m, other), Some(b"x-2".to_vec()));
    assert_eq!(take(&mut m, other), Some(b"x-3".to_vec()));
    assert!(matches!(m.next(other), Delivery::Waiting));
}

#[test]
fn closing_frees_the_slot_for_the_next_call() {
    let mut m = Multiplexer::new(1, 4);
    let a = m.open().unwrap();
    assert_eq!(m.open(), None);
    assert!(matches!(m.on_frame(a, vec![1]), FrameOutcome::Queued));
    assert!(m.close(a));
    assert_eq!(m.active(), 0);
    assert!(!m.close(a));
    let b = m.open().unwrap();
    assert_ne!(a, b);
    assert_eq!(m.active(), 1);
    assert!(matches!(m.next(b), Delivery::Waiting));
}

#[test]
fn frames_for_closed_operation_are_dropped() {
    let mut m = Multiplexer::new(2, 4);
    let a = m.open().unwrap();
    let b = m.open().unwrap();
    m.close(a);
    assert!(matches!(m.on_frame(a, vec![9]), FrameOutcome::Unknown));
    assert!(matches!(m.next(a), Delivery::Unknown));
    assert!(!m.on_end(a));
    assert!(matches!(m.next(b), Delivery::Waiting));
}

#[test]
fn full_queue_hands_the_frame_back() {
    let mut m = Multiplexer::new(1, 2);
    let a = m.open().unwrap();
    assert!(matches!(m.on_frame(a, vec![1]), FrameOutcome::Queued));
    assert!(matches!(m.on_frame(a, vec![2]), FrameOutcome::Queued));
    match m.on_frame(a, vec![3]) {
        FrameOutcome::Full(p) => assert_eq!(p, vec![3]),
        _ => panic!("expected a full queue"),
    }
    assert_eq!(take(&mut m, a), Some(vec![1]));
    assert!(matches!(m.on_frame(a, vec![3]), FrameOutcome::Queued));
    assert_eq!(take(&mut m, a), Some(vec![2]));
    assert_eq!(take(&mut m, a), Some(vec![3]));
}

#[test]
fn open_stops_at_the_limit() {
    let mut m = Multiplexer::new(0, 1);
    assert_eq!(m.open(), None);
    let mut m = Multiplexer::new(2, 1);
    assert_eq!(m.open(), Some(0));
    assert_eq!(m.open(), Some(1));
    assert_eq!(m.open(), None);
}

#[test]
fn failed_connection_ends_streams_with_failure_after_their_frames() {
    let mut m = Multiplexer::new(3, 4);
    let a = m.open().unwrap();
    let b = m.open().unwrap();
    assert!(matches!(m.on_frame(a, vec![1]), FrameOutcome::Queued));
    assert!(matches!(m.on_frame(a, vec![2]), FrameOutcome::Queued));
    m.fail_all();
    assert_eq!(take(&mut m, a), Some(vec![1]));
    assert_eq!(take(&mut m, a), Some(vec![2]));
    assert!(matches!(m.next(a), Delivery::Failed));
    assert!(matches!(m.next(b), Delivery::Failed));
    assert_eq!(m.active(), 2);
}

#[test]
fn one_failed_operation_leaves_the_others() {
    let mut m = Multiplexer::new(3, 4);
    let a = m.open().unwrap();
    let b = m.open().unwrap();
    assert!(m.on_fail(a));
    assert!(!m.on_fail(99));
    assert!(matches!(m.next(a), Delivery::Failed));
    assert!(matches!(m.next(b), Delivery::Waiting));
    assert_eq!(m.open(), Some(2));
}
