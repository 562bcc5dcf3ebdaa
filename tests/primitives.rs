use swe_mockup::{BoundedChannel, Gate, PoolWidths, Received, SendError, feature_ranges};

#[test]
fn ranges_split_evenly_longer_first() {
    assert_eq!(feature_ranges(10, 3), vec![(0, 4), (4, 7), (7, 10)]);
}

#[test]
fn ranges_one_worker_takes_all() {
    assert_eq!(feature_ranges(7, 1), vec![(0, 7)]);
}

#[test]
fn ranges_more_workers_than_features() {
    assert_eq!(feature_ranges(3, 8), vec![(0, 1), (1, 2), (2, 3)]);
}

#[test]
fn pool_widths_from_cpus() {
    assert_eq!(PoolWidths::from_cpus(1), PoolWidths { outer: 1, inner: 1 });
    assert_eq!(PoolWidths::from_cpus(2), PoolWidths { outer: 1, inner: 1 });
    assert_eq!(PoolWidths::from_cpus(4), PoolWidths { outer: 1, inner: 3 });
    assert_eq!(PoolWidths::from_cpus(5), PoolWidths { outer: 2, inner: 3 });
    assert_eq!(PoolWidths::from_cpus(16), PoolWidths { outer: 2, inner: 14 });
}

#[test]
fn pool_widths_detect_positive() {
    let w = PoolWidths::detect();
    assert!(w.outer == 1 || w.outer == 2);
    assert!(w.inner >= 1);
    assert_eq!(w.channel_capacity(), w.outer + w.inner);
}

#[test]
fn gate_admits_at_most_width_blocks() {
    let mut g = Gate::new(2);
    assert!(g.try_reserve());
    assert!(g.try_reserve());
    assert!(!g.try_reserve());
    assert_eq!(g.reserved(), 2);
    assert!(g.try_enter_inner());
    assert!(!g.try_enter_inner());
    g.finish();
    assert_eq!(g.reserved(), 1);
    assert!(!g.inner_busy());
    assert!(g.try_reserve());
    assert!(!g.try_reserve());
    assert_eq!(g.outer_width(), 2);
}

#[test]
fn gate_live_count_never_exceeds_width() {
    let mut g = Gate::new(3);
    let mut peak = 0;
    for step in 0..40 {
        if step % 3 == 2 && g.reserved() > 0 {
            assert!(g.try_enter_inner());
            g.finish();
        } else {
            g.try_reserve();
        }
        peak = peak.max(g.reserved());
        assert!(g.reserved() <= 3);
    }
    assert_eq!(peak, 3);
}

#[test]
fn channel_refuses_when_full_and_keeps_order() {
    let mut c: BoundedChannel<u32> = BoundedChannel::new(2);
    assert!(c.try_send(1).is_ok());
    assert!(c.try_send(2).is_ok());
    match c.try_send(3) {
        Err(SendError::Full(v)) => assert_eq!(v, 3),
        _ => panic!("expected a full channel"),
    }
    assert_eq!(c.len(), 2);
    match c.try_recv() {
        Received::Item(v) => assert_eq!(v, 1),
        _ => panic!("expected an item"),
    }
    assert!(c.try_send(3).is_ok());
    match c.try_recv() {
        Received::Item(v) => assert_eq!(v, 2),
        _ => panic!("expected an item"),
    }
    match c.try_recv() {
        Received::Item(v) => assert_eq!(v, 3),
        _ => panic!("expected an item"),
    }
    assert!(matches!(c.try_recv(), Received::Empty));
}

#[test]
fn channel_in_flight_bounded_with_slow_consumer() {
    let mut c: BoundedChannel<usize> = BoundedChannel::new(4);
    let mut received = Vec::new();
    let mut next = 0;
    let mut step = 0;
    let mut peak = 0;
    while received.len() < 30 {
        step += 1;
        if next < 30 {
            match c.try_send(next) {
                Ok(()) => next += 1,
                Err(SendError::Full(_)) => {}
                Err(SendError::Closed(_)) => panic!("channel closed"),
            }
        }
        assert!(c.len() <= 4);
        peak = peak.max(c.len());
        if step % 3 == 0 || next == 30 {
            if let Received::Item(v) = c.try_recv() {
                received.push(v);
            }
        }
    }
    assert_eq!(received, (0..30).collect::<Vec<usize>>());
    assert_eq!(peak, 4);
}

#[test]
fn channel_close_drains_then_finishes() {
    let mut c: BoundedChannel<u8> = BoundedChannel::new(3);
    assert!(c.try_send(7).is_ok());
    c.close();
    assert!(c.is_closed());
    assert!(matches!(c.try_send(8), Err(SendError::Closed(8))));
    assert!(matches!(c.try_recv(), Received::Item(7)));
    assert!(matches!(c.try_recv(), Received::Finished));
    assert_eq!(c.capacity(), 3);
}
