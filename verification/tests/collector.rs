use epoch_reclaim::Collector;
use epoch_reclaim::Guard;
use epoch_reclaim::LocalHandle;

const NUM_THREADS: usize = 8;

#[test]
fn pin_reentrant() {
    let mut collector: Collector<u64> = Collector::new();
    let handle = collector.register();

    assert!(!handle.is_pinned(&collector));
    {
        let outer = handle.pin(&mut collector);
        assert!(handle.is_pinned(&collector));
        {
            let inner = handle.pin(&mut collector);
            assert!(handle.is_pinned(&collector));
            inner.unpin(&mut collector);
        }
        assert!(handle.is_pinned(&collector));
        outer.unpin(&mut collector);
    }
    assert!(!handle.is_pinned(&collector));
    handle.release(&mut collector);
}

#[test]
fn flush_local_bag() {
    let mut collector: Collector<i32> = Collector::new();
    let handle = collector.register();

    for _ in 0..100 {
        let guard = handle.pin(&mut collector);
        guard.defer_destroy(&mut collector, 7);

        assert!(!guard.is_bag_empty(&collector));

        while !guard.is_bag_empty(&collector) {
            guard.flush(&mut collector);
        }
        guard.unpin(&mut collector);
    }
    handle.release(&mut collector);
}

#[test]
fn garbage_buffering() {
    let mut collector: Collector<i32> = Collector::new();
    let handle = collector.register();

    let guard = handle.pin(&mut collector);
    for _ in 0..10 {
        guard.defer_destroy(&mut collector, 7);
    }
    assert!(!guard.is_bag_empty(&collector));
    guard.unpin(&mut collector);
    handle.release(&mut collector);
}

#[test]
fn pin_holds_advance() {
    const N: usize = 500_000;

    let mut collector: Collector<i32> = Collector::new();
    let mut handles: Vec<LocalHandle> = Vec::new();
    for _ in 0..NUM_THREADS {
        handles.push(collector.register());
    }

    // Each participant stays pinned while the next one pins and collects.
    let mut earlier: Option<Guard> = None;
    for _ in 0..N {
        for handle in handles.iter() {
            let guard = handle.pin(&mut collector);

            let before = collector.global_epoch();
            collector.collect(&guard);
            let after = collector.global_epoch();

            assert!(after.wrapping_sub(before) <= 2);
            if let Some(held) = earlier.replace(guard) {
                held.unpin(&mut collector);
            }
        }
    }
    if let Some(held) = earlier.take() {
        held.unpin(&mut collector);
    }
    for handle in handles {
        handle.release(&mut collector);
    }
}

#[test]
fn buffering() {
    const COUNT: usize = 10;
    const N: usize = 100_000;
    let mut destroys: usize = 0;

    let mut collector: Collector<i32> = Collector::new();
    let handle = collector.register();

    {
        let guard = handle.pin(&mut collector);
        for _ in 0..COUNT {
            guard.defer_unchecked(&mut collector, 7);
        }
        guard.unpin(&mut collector);
    }

    for _ in 0..N {
        let guard = handle.pin(&mut collector);
        collector.collect(&guard);
        guard.unpin(&mut collector);
        destroys += collector.drain_reclaimed().len();
    }
    assert!(destroys < COUNT);

    let guard = handle.pin(&mut collector);
    guard.flush(&mut collector);
    guard.unpin(&mut collector);
    destroys += collector.drain_reclaimed().len();

    while destroys < COUNT {
        let guard = handle.pin(&mut collector);
        collector.collect(&guard);
        guard.unpin(&mut collector);
        destroys += collector.drain_reclaimed().len();
    }
    assert_eq!(destroys, COUNT);
    handle.release(&mut collector);
}

#[test]
fn count_drops() {
    const COUNT: usize = 100_000;
    let mut drops: usize = 0;

    let mut collector: Collector<i32> = Collector::new();
    let handle = collector.register();

    {
        let guard = handle.pin(&mut collector);
        for _ in 0..COUNT {
            guard.defer_destroy(&mut collector, 7);
        }
        guard.flush(&mut collector);
        guard.unpin(&mut collector);
        drops += collector.drain_reclaimed().len();
    }

    while drops < COUNT {
        let guard = handle.pin(&mut collector);
        collector.collect(&guard);
        guard.unpin(&mut collector);
        drops += collector.drain_reclaimed().len();
    }
    assert_eq!(drops, COUNT);
    handle.release(&mut collector);
}

#[test]
fn count_destroy() {
    const COUNT: usize = 100_000;
    let mut destroys: usize = 0;

    let mut collector: Collector<i32> = Collector::new();
    let handle = collector.register();

    {
        let guard = handle.pin(&mut collector);
        for _ in 0..COUNT {
            guard.defer_unchecked(&mut collector, 7);
        }
        guard.flush(&mut collector);
        guard.unpin(&mut collector);
        destroys += collector.drain_reclaimed().len();
    }

    while destroys < COUNT {
        let guard = handle.pin(&mut collector);
        collector.collect(&guard);
        guard.unpin(&mut collector);
        destroys += collector.drain_reclaimed().len();
    }
    assert_eq!(destroys, COUNT);
    handle.release(&mut collector);
}

#[test]
fn drop_array() {
    const COUNT: usize = 700;
    let mut drops: usize = 0;

    let mut collector: Collector<Vec<i32>> = Collector::new();
    let handle = collector.register();

    let mut guard = handle.pin(&mut collector);

    let mut v = Vec::with_capacity(COUNT);
    for i in 0..COUNT {
        v.push(i as i32);
    }

    guard.defer_destroy(&mut collector, v);
    guard.flush(&mut collector);
    for array in collector.drain_reclaimed() {
        drops += array.len();
    }

    while drops < COUNT {
        guard.reactivate(&mut collector);
        collector.collect(&guard);
        for array in collector.drain_reclaimed() {
            drops += array.len();
        }
    }
    assert_eq!(drops, COUNT);
    guard.unpin(&mut collector);
    handle.release(&mut collector);
}

#[test]
fn destroy_array() {
    const COUNT: usize = 100_000;
    let mut destroys: usize = 0;

    let mut collector: Collector<Vec<i32>> = Collector::new();
    let handle = collector.register();

    {
        let guard = handle.pin(&mut collector);

        let mut v = Vec::with_capacity(COUNT);
        for i in 0..COUNT {
            v.push(i as i32);
        }

        guard.defer_unchecked(&mut collector, v);
        guard.flush(&mut collector);
        guard.unpin(&mut collector);
        for array in collector.drain_reclaimed() {
            destroys += array.len();
        }
    }

    while destroys < COUNT {
        let guard = handle.pin(&mut collector);
        collector.collect(&guard);
        guard.unpin(&mut collector);
        for array in collector.drain_reclaimed() {
            destroys += array.len();
        }
    }
    assert_eq!(destroys, COUNT);
    handle.release(&mut collector);
}

#[test]
fn stress() {
    const THREADS: usize = 8;
    const COUNT: usize = 100_000;
    let mut drops: usize = 0;

    let mut collector: Collector<i32> = Collector::new();

    let mut handles: Vec<LocalHandle> = Vec::new();
    for _ in 0..THREADS {
        handles.push(collector.register());
    }
    // Each participant stays pinned while the next one pins and defers.
    let mut earlier: Option<Guard> = None;
    for _ in 0..COUNT {
        for handle in handles.iter() {
            let guard = handle.pin(&mut collector);
            guard.defer_destroy(&mut collector, 7i32);
            if let Some(held) = earlier.replace(guard) {
                held.unpin(&mut collector);
            }
        }
        drops += collector.drain_reclaimed().len();
    }
    if let Some(held) = earlier.take() {
        held.unpin(&mut collector);
    }
    for handle in handles {
        handle.release(&mut collector);
    }

    let handle = collector.register();
    while drops < COUNT * THREADS {
        let guard = handle.pin(&mut collector);
        collector.collect(&guard);
        guard.unpin(&mut collector);
        drops += collector.drain_reclaimed().len();
    }
    assert_eq!(drops, COUNT * THREADS);
    handle.release(&mut collector);
}
