use epoch_reclaim::Collector;
use epoch_reclaim::LocalHandle;

#[test]
fn new_collector_starts_at_epoch_zero() {
    let collector: Collector<u32> = Collector::new();
    assert_eq!(collector.global_epoch().value(), 0);
    assert_eq!(collector.queued(), 0);
    let by_default: Collector<u32> = Collector::default();
    assert_eq!(by_default.global_epoch().value(), 0);
}

#[test]
fn default_bag_takes_64_objects() {
    let mut collector: Collector<u32> = Collector::new();
    let handle = collector.register();
    let guard = handle.pin(&mut collector);
    for object in 0..64 {
        guard.defer_destroy(&mut collector, object);
    }
    assert_eq!(collector.queued(), 0);
    guard.defer_destroy(&mut collector, 64);
    assert_eq!(collector.queued(), 1);
    guard.unpin(&mut collector);
    handle.release(&mut collector);
}

#[test]
fn registration_takes_the_next_slot() {
    let mut collector: Collector<u32> = Collector::new();
    let first = collector.register();
    let second = collector.register();
    let third = collector.register();
    assert_eq!(first.slot(), 0);
    assert_eq!(second.slot(), 1);
    assert_eq!(third.slot(), 2);
    assert!(!first.is_pinned(&collector));
    assert!(!second.is_pinned(&collector));
    first.release(&mut collector);
    second.release(&mut collector);
    third.release(&mut collector);
}

#[test]
fn free_slot_is_used_again() {
    let mut collector: Collector<u32> = Collector::new();
    let first = collector.register();
    let second = collector.register();
    let third = collector.register();
    second.release(&mut collector);
    let again = collector.register();
    assert_eq!(again.slot(), 1);
    first.release(&mut collector);
    let lowest = collector.register();
    assert_eq!(lowest.slot(), 0);
    let next = collector.register();
    assert_eq!(next.slot(), 3);
    assert_eq!(third.slot(), 2);
}

#[test]
fn reused_slot_starts_unpinned_with_an_empty_bag() {
    let mut collector: Collector<u32> = Collector::new();
    let first = collector.register();
    let guard = first.pin(&mut collector);
    guard.defer_destroy(&mut collector, 1);
    // The handle goes first; the guard keeps the participant.
    first.release(&mut collector);
    assert_eq!(collector.queued(), 0);
    let other = collector.register();
    assert_eq!(other.slot(), 1);
    // The guard goes: the participant is deregistered and its bag published.
    guard.unpin(&mut collector);
    assert_eq!(collector.queued(), 1);

    let reused = collector.register();
    assert_eq!(reused.slot(), 0);
    assert!(!reused.is_pinned(&collector));
    let guard = reused.pin(&mut collector);
    assert!(guard.is_bag_empty(&collector));
    guard.unpin(&mut collector);
}

#[test]
fn deregistration_publishes_the_pending_bag() {
    let mut collector: Collector<u32> = Collector::new();
    let handle = collector.register();
    let guard = handle.pin(&mut collector);
    guard.defer_destroy(&mut collector, 11);
    guard.defer_destroy(&mut collector, 12);
    guard.unpin(&mut collector);
    assert_eq!(collector.queued(), 0);
    handle.release(&mut collector);
    assert_eq!(collector.queued(), 1);

    let collecting = collector.register();
    let mut run: Vec<u32> = Vec::new();
    for _ in 0..3 {
        let guard = collecting.pin(&mut collector);
        collector.collect(&guard);
        guard.unpin(&mut collector);
        run.extend(collector.drain_reclaimed());
    }
    assert_eq!(run, vec![11, 12]);
}

#[test]
fn many_participants_come_and_go() {
    let mut collector: Collector<u32> = Collector::with_bag_capacity(2);
    let mut handles: Vec<LocalHandle> = Vec::new();
    let mut deferred = 0;
    let mut run: Vec<u32> = Vec::new();
    for round in 0..200u32 {
        let handle = collector.register();
        let guard = handle.pin(&mut collector);
        guard.defer_destroy(&mut collector, round);
        deferred += 1;
        guard.unpin(&mut collector);
        handles.push(handle);
        if round % 3 == 0 {
            let leaving = handles.remove(0);
            leaving.release(&mut collector);
        }
        run.extend(collector.drain_reclaimed());
    }
    // No slot is handed out twice.
    let mut slots: Vec<usize> = handles.iter().map(|handle| handle.slot()).collect();
    slots.sort();
    slots.dedup();
    assert_eq!(slots.len(), handles.len());
    for handle in handles {
        handle.release(&mut collector);
    }
    let handle = collector.register();
    assert_eq!(handle.slot(), 0);
    while run.len() < deferred {
        let guard = handle.pin(&mut collector);
        collector.collect(&guard);
        guard.unpin(&mut collector);
        run.extend(collector.drain_reclaimed());
    }
    run.sort();
    let expected: Vec<u32> = (0..200).collect();
    assert_eq!(run, expected);
}
