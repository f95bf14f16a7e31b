use epoch_reclaim::Collector;
use epoch_reclaim::LocalHandle;

#[test]
fn bag_overflow_seals_three_bags() {
    let mut collector: Collector<u32> = Collector::with_bag_capacity(4);
    let handle = collector.register();
    let guard = handle.pin(&mut collector);
    for object in 0..10 {
        guard.defer_destroy(&mut collector, object);
    }
    // Two full bags are sealed; the last two objects are in the open bag.
    assert_eq!(collector.queued(), 2);
    assert!(!guard.is_bag_empty(&collector));
    guard.unpin(&mut collector);
    // The last handle publishes the open bag: the third one.
    handle.release(&mut collector);
    assert_eq!(collector.queued(), 3);
    assert!(collector.drain_reclaimed().is_empty());

    let handle = collector.register();
    let start = collector.global_epoch();
    let mut run: Vec<u32> = Vec::new();
    while collector.global_epoch().wrapping_sub(start) < 2 {
        let guard = handle.pin(&mut collector);
        collector.collect(&guard);
        guard.unpin(&mut collector);
        run.extend(collector.drain_reclaimed());
    }
    assert_eq!(run, vec![0, 1, 2, 3, 4, 5, 6, 7, 8, 9]);
    assert_eq!(collector.queued(), 0);

    // Nothing runs a second time.
    for _ in 0..10 {
        let guard = handle.pin(&mut collector);
        collector.collect(&guard);
        guard.unpin(&mut collector);
        assert!(collector.drain_reclaimed().is_empty());
    }
    handle.release(&mut collector);
}

#[test]
fn deferred_objects_wait_two_advances() {
    let mut collector: Collector<u32> = Collector::new();
    let handle = collector.register();
    let guard = handle.pin(&mut collector);
    // The first pin ran a collection: the participant is pinned at 0 and the
    // global epoch is 1.
    assert_eq!(collector.global_epoch().value(), 1);
    guard.defer_destroy(&mut collector, 5);
    // The bag is sealed at the participant's epoch, 0. The collection of the
    // flush cannot advance past the pinned participant.
    guard.flush(&mut collector);
    assert_eq!(collector.global_epoch().value(), 1);
    assert_eq!(collector.queued(), 1);
    assert!(collector.drain_reclaimed().is_empty());
    guard.unpin(&mut collector);

    // One more advance: the global epoch is 2, the grace period is over.
    let guard = handle.pin(&mut collector);
    collector.collect(&guard);
    assert_eq!(collector.global_epoch().value(), 2);
    assert_eq!(collector.drain_reclaimed(), vec![5]);
    assert_eq!(collector.queued(), 0);
    guard.unpin(&mut collector);
    handle.release(&mut collector);
}

#[test]
fn pinned_participant_holds_the_epoch_back() {
    let mut collector: Collector<u32> = Collector::new();
    let reader = collector.register();
    let writer = collector.register();

    let reading = reader.pin(&mut collector);
    assert_eq!(collector.global_epoch().value(), 1);
    let writing = writer.pin(&mut collector);
    // The writer is pinned at 1; its first pin could not advance, since the
    // reader is pinned at 0.
    assert_eq!(collector.global_epoch().value(), 1);
    writing.defer_destroy(&mut collector, 77);
    writing.flush(&mut collector);
    for _ in 0..100 {
        collector.collect(&writing);
    }
    // The reader is still pinned at 0: no advance, nothing is executed.
    assert_eq!(collector.global_epoch().value(), 1);
    assert!(collector.drain_reclaimed().is_empty());
    assert_eq!(collector.queued(), 1);

    reading.unpin(&mut collector);
    collector.collect(&writing);
    assert_eq!(collector.global_epoch().value(), 2);
    assert!(collector.drain_reclaimed().is_empty());
    // The writer itself is pinned at 1 and holds the epoch at 2.
    collector.collect(&writing);
    assert_eq!(collector.global_epoch().value(), 2);
    writing.unpin(&mut collector);

    let writing = writer.pin(&mut collector);
    collector.collect(&writing);
    assert_eq!(collector.global_epoch().value(), 3);
    assert_eq!(collector.drain_reclaimed(), vec![77]);
    writing.unpin(&mut collector);
    reader.release(&mut collector);
    writer.release(&mut collector);
}

#[test]
fn repin_lets_the_epoch_advance() {
    let mut collector: Collector<u32> = Collector::new();
    let handle = collector.register();
    let mut guard = handle.pin(&mut collector);
    assert_eq!(collector.global_epoch().value(), 1);
    collector.collect(&guard);
    assert_eq!(collector.global_epoch().value(), 1);
    guard.repin(&mut collector);
    collector.collect(&guard);
    assert_eq!(collector.global_epoch().value(), 2);
    guard.reactivate(&mut collector);
    collector.collect(&guard);
    assert_eq!(collector.global_epoch().value(), 3);
    guard.unpin(&mut collector);
    handle.release(&mut collector);
}

#[test]
fn repin_does_nothing_under_nested_guards() {
    let mut collector: Collector<u32> = Collector::new();
    let handle = collector.register();
    let mut outer = handle.pin(&mut collector);
    let inner = handle.pin(&mut collector);
    assert_eq!(collector.global_epoch().value(), 1);
    outer.repin(&mut collector);
    collector.collect(&outer);
    // The participant still publishes epoch 0.
    assert_eq!(collector.global_epoch().value(), 1);
    inner.unpin(&mut collector);
    outer.repin(&mut collector);
    collector.collect(&outer);
    assert_eq!(collector.global_epoch().value(), 2);
    outer.unpin(&mut collector);
    handle.release(&mut collector);
}

#[test]
fn flush_leaves_the_open_bag_empty() {
    let mut collector: Collector<u32> = Collector::with_bag_capacity(8);
    let handle = collector.register();
    let guard = handle.pin(&mut collector);
    for object in 0..5 {
        guard.defer_destroy(&mut collector, object);
    }
    assert!(!guard.is_bag_empty(&collector));
    guard.flush(&mut collector);
    assert!(guard.is_bag_empty(&collector));
    // A flush publishes the open bag even where it is empty.
    let queued = collector.queued();
    guard.flush(&mut collector);
    assert!(guard.is_bag_empty(&collector));
    assert_eq!(collector.queued(), queued + 1);
    guard.unpin(&mut collector);
    handle.release(&mut collector);
}

#[test]
fn every_pin_after_128_runs_a_collection() {
    let mut collector: Collector<u32> = Collector::new();
    let handle = collector.register();
    // Pin 0 runs a collection, and advances.
    let guard = handle.pin(&mut collector);
    guard.unpin(&mut collector);
    assert_eq!(collector.global_epoch().value(), 1);
    // Pins 1 to 127 run none.
    for _ in 1..128 {
        let guard = handle.pin(&mut collector);
        guard.unpin(&mut collector);
    }
    assert_eq!(collector.global_epoch().value(), 1);
    // Pin 128 runs the next.
    let guard = handle.pin(&mut collector);
    guard.unpin(&mut collector);
    assert_eq!(collector.global_epoch().value(), 2);
    // A nested pin counts as none.
    let outer = handle.pin(&mut collector);
    for _ in 0..300 {
        let inner = handle.pin(&mut collector);
        inner.unpin(&mut collector);
    }
    outer.unpin(&mut collector);
    assert_eq!(collector.global_epoch().value(), 2);
    handle.release(&mut collector);
}

#[test]
fn every_object_is_executed_exactly_once() {
    const THREADS: u32 = 5;
    const COUNT: u32 = 1000;
    let mut collector: Collector<u32> = Collector::with_bag_capacity(7);
    let mut handles: Vec<LocalHandle> = Vec::new();
    for _ in 0..THREADS {
        handles.push(collector.register());
    }
    let mut run: Vec<u32> = Vec::new();
    for round in 0..COUNT {
        for (thread, handle) in handles.iter().enumerate() {
            let guard = handle.pin(&mut collector);
            guard.defer_destroy(&mut collector, round * THREADS + thread as u32);
            if round % 97 == thread as u32 {
                guard.flush(&mut collector);
            }
            guard.unpin(&mut collector);
            run.extend(collector.drain_reclaimed());
        }
    }
    assert!(run.len() < (THREADS * COUNT) as usize);
    for handle in handles {
        handle.release(&mut collector);
    }
    let handle = collector.register();
    while run.len() < (THREADS * COUNT) as usize {
        let guard = handle.pin(&mut collector);
        collector.collect(&guard);
        guard.unpin(&mut collector);
        run.extend(collector.drain_reclaimed());
    }
    // Nothing is left to run a second time.
    for _ in 0..10 {
        let guard = handle.pin(&mut collector);
        collector.collect(&guard);
        guard.unpin(&mut collector);
        run.extend(collector.drain_reclaimed());
    }
    assert_eq!(collector.queued(), 0);
    handle.release(&mut collector);
    run.sort();
    let expected: Vec<u32> = (0..THREADS * COUNT).collect();
    assert_eq!(run, expected);
}

#[test]
fn executed_objects_come_out_in_the_order_they_were_deferred() {
    let mut collector: Collector<u32> = Collector::with_bag_capacity(3);
    let handle = collector.register();
    let guard = handle.pin(&mut collector);
    for object in [4, 2, 9, 1, 5, 0, 3] {
        guard.defer_destroy(&mut collector, object);
    }
    guard.flush(&mut collector);
    guard.unpin(&mut collector);
    let guard = handle.pin(&mut collector);
    collector.collect(&guard);
    guard.unpin(&mut collector);
    assert_eq!(collector.drain_reclaimed(), vec![4, 2, 9, 1, 5, 0, 3]);
    // What was taken is gone.
    assert!(collector.drain_reclaimed().is_empty());
    handle.release(&mut collector);
}

#[test]
fn stale_snapshot_loses_the_race() {
    let mut collector: Collector<u32> = Collector::new();
    let snapshot = collector.global_epoch();
    assert_eq!(snapshot.value(), 0);
    // Somebody else advances first.
    assert!(collector.global.try_advance());
    collector.global.reclaim();
    assert_eq!(collector.global_epoch().value(), 1);
    // The loser changes nothing, and does not try again.
    assert!(!collector.global.try_advance_from(snapshot));
    collector.global.reclaim();
    assert_eq!(collector.global_epoch().value(), 1);
    let fresh = collector.global_epoch();
    assert!(collector.global.try_advance_from(fresh));
    collector.global.reclaim();
    assert_eq!(collector.global_epoch().value(), 2);
}

#[test]
fn advance_stops_at_a_participant_pinned_earlier() {
    let mut collector: Collector<u32> = Collector::new();
    let handle = collector.register();
    let guard = handle.pin(&mut collector);
    // The participant is pinned at 0 and the global epoch is 1.
    assert!(!collector.global.try_advance());
    collector.global.reclaim();
    assert_eq!(collector.global_epoch().value(), 1);
    guard.unpin(&mut collector);
    assert!(collector.global.try_advance());
    collector.global.reclaim();
    assert_eq!(collector.global_epoch().value(), 2);
    handle.release(&mut collector);
}
