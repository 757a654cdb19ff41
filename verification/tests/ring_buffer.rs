//! The two ring buffers.

use match_risk_engine::ring_buffer::cache_pad::CachePadded;
use match_risk_engine::ring_buffer::spmc::spmc_queue;
use match_risk_engine::ring_buffer::spsc::spsc_queue;

#[test]
fn push_then_pop_returns_same_value() {
    let (mut p, mut c, mut ring) = spsc_queue::<u64, 4>();
    assert!(p.try_push(&mut ring, 42).is_ok());
    assert_eq!(c.try_pop(&mut ring), Some(42));
}

#[test]
fn pop_on_empty_queue_returns_none() {
    let (_p, mut c, mut ring) = spsc_queue::<u64, 4>();
    assert_eq!(c.try_pop(&mut ring), None);
}

#[test]
fn push_until_full_then_rejects() {
    let (mut p, _c, mut ring) = spsc_queue::<u64, 4>();
    for i in 0..4 {
        assert!(
            p.try_push(&mut ring, i).is_ok(),
            "slot {i} should not be full yet"
        );
    }
    // The queue is full; the 5th push must be rejected and must hand the
    // item back rather than dropping it silently.
    match p.try_push(&mut ring, 999) {
        Err(returned) => assert_eq!(returned, 999),
        Ok(()) => panic!("push succeeded on a full queue"),
    }
}

#[test]
fn fifo_order_is_preserved() {
    let (mut p, mut c, mut ring) = spsc_queue::<u64, 8>();
    for i in 0..5 {
        p.try_push(&mut ring, i).unwrap();
    }
    for i in 0..5 {
        assert_eq!(
            c.try_pop(&mut ring),
            Some(i),
            "items must come out in push order"
        );
    }
    assert_eq!(c.try_pop(&mut ring), None);
}

#[test]
fn wraparound_across_capacity_boundary() {
    let (mut p, mut c, mut ring) = spsc_queue::<u64, 4>();
    for round in 0..10u64 {
        p.try_push(&mut ring, round).unwrap();
        assert_eq!(c.try_pop(&mut ring), Some(round));
    }
}

#[test]
fn interleaved_push_pop_never_loses_or_duplicates_items() {
    let (mut p, mut c, mut ring) = spsc_queue::<u64, 4>();
    let mut next_push = 0u64;
    let mut next_expected_pop = 0u64;
    let mut in_flight = 0usize;

    for step in 0..100 {
        if in_flight < 4 && step % 3 != 0 {
            p.try_push(&mut ring, next_push).unwrap();
            next_push += 1;
            in_flight += 1;
        } else if let Some(v) = c.try_pop(&mut ring) {
            assert_eq!(v, next_expected_pop, "FIFO order violated");
            next_expected_pop += 1;
            in_flight -= 1;
        }
    }
    // Drain whatever is left.
    while let Some(v) = c.try_pop(&mut ring) {
        assert_eq!(v, next_expected_pop);
        next_expected_pop += 1;
    }
    assert_eq!(next_expected_pop, next_push, "some items were lost");
}

#[test]
fn single_consumer_sees_pushed_item() {
    let (mut p, mut consumers, mut ring) = spmc_queue::<u64, 4>(1);
    let mut c0 = consumers.remove(0);
    p.try_push(&mut ring, 7).unwrap();
    assert_eq!(c0.try_pop(&mut ring), Some(7));
}

#[test]
fn every_consumer_independently_sees_every_item() {
    let (mut p, mut consumers, mut ring) = spmc_queue::<u64, 4>(3);
    p.try_push(&mut ring, 11).unwrap();
    p.try_push(&mut ring, 22).unwrap();

    for c in consumers.iter_mut() {
        assert_eq!(c.try_pop(&mut ring), Some(11));
        assert_eq!(c.try_pop(&mut ring), Some(22));
        assert_eq!(c.try_pop(&mut ring), None);
    }
}

#[test]
fn push_blocked_by_slowest_consumer() {
    // With 2 consumers, one of which never reads, the producer must be held
    // back once that consumer's oldest item would be overwritten.
    let (mut p, mut consumers, mut ring) = spmc_queue::<u64, 2>(2);
    let mut fast = consumers.remove(0);
    let mut slow = consumers.remove(0);

    assert!(p.try_push(&mut ring, 1).is_ok());
    assert!(p.try_push(&mut ring, 2).is_ok());
    match p.try_push(&mut ring, 3) {
        Err(returned) => assert_eq!(returned, 3),
        Ok(()) => panic!("push should have been blocked by the slow consumer"),
    }

    // The fast consumer alone does not make room.
    fast.try_pop(&mut ring).unwrap();
    assert!(p.try_push(&mut ring, 3).is_err());

    // Once the slow consumer catches up, the producer can push again.
    assert_eq!(slow.try_pop(&mut ring), Some(1));
    assert!(p.try_push(&mut ring, 3).is_ok());
}

#[test]
fn fifo_order_per_consumer() {
    let (mut p, mut consumers, mut ring) = spmc_queue::<u64, 8>(2);
    let mut c0 = consumers.remove(0);
    let mut c1 = consumers.remove(0);

    for i in 0..5 {
        p.try_push(&mut ring, i).unwrap();
    }
    for i in 0..5 {
        assert_eq!(c0.try_pop(&mut ring), Some(i));
    }
    // c1 has not read anything yet and must still see all 5 in order,
    // independently of c0's cursor.
    for i in 0..5 {
        assert_eq!(c1.try_pop(&mut ring), Some(i));
    }
}

#[test]
fn capacity_one_ring_alternates() {
    let (mut p, mut c, mut ring) = spsc_queue::<u64, 1>();
    for i in 0..5 {
        assert_eq!(p.try_push(&mut ring, i), Ok(()));
        assert_eq!(p.try_push(&mut ring, 100), Err(100));
        assert_eq!(c.try_pop(&mut ring), Some(i));
        assert_eq!(c.try_pop(&mut ring), None);
    }
}

#[test]
fn ring_without_consumers_fills_up_once() {
    let (mut p, consumers, mut ring) = spmc_queue::<u64, 2>(0);
    assert!(consumers.is_empty());
    assert_eq!(p.try_push(&mut ring, 1), Ok(()));
    assert_eq!(p.try_push(&mut ring, 2), Ok(()));
    assert_eq!(p.try_push(&mut ring, 3), Err(3));
}

#[test]
fn padding_keeps_the_value() {
    let mut cell = CachePadded::new(7u64);
    assert_eq!(*cell.get(), 7);
    *cell.get_mut() = 8;
    assert_eq!(*cell.get(), 8);
}
