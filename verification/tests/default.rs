use epoch_reclaim::cs;
use epoch_reclaim::default::collector;
use epoch_reclaim::default::global_epoch;
use epoch_reclaim::default::with_handle;
use epoch_reclaim::default_collector;
use epoch_reclaim::DefaultCollector;
use epoch_reclaim::ThreadHandle;

#[test]
fn pin_while_exiting() {
    let mut place: DefaultCollector<i32> = DefaultCollector::new();
    let mut thread = ThreadHandle::new();

    // The thread uses its handle, and exits: its storage is torn down.
    let guard = cs(&mut place, &mut thread);
    guard.unpin(collector(&mut place));
    thread.teardown(&mut place);

    // Pin after the handle has been dropped. This must not panic.
    let guard = cs(&mut place, &mut thread);
    guard.unpin(collector(&mut place));
}

#[test]
fn default_collector_is_created_on_first_use() {
    let mut place: DefaultCollector<i32> = DefaultCollector::new();
    assert!(!place.is_created());
    assert_eq!(global_epoch(&mut place), 0);
    assert!(place.is_created());
    let handle = default_collector(&mut place).register();
    assert_eq!(handle.slot(), 0);
    // The same collector serves the next request.
    let again = collector(&mut place).register();
    assert_eq!(again.slot(), 1);
}

#[test]
fn first_use_registers_the_thread_handle() {
    let mut place: DefaultCollector<i32> = DefaultCollector::new();
    let mut thread = ThreadHandle::new();
    assert!(matches!(thread, ThreadHandle::Uninit));

    let temporary = with_handle(&mut place, &mut thread);
    assert!(temporary.is_none());
    match &thread {
        ThreadHandle::Live(handle) => assert_eq!(handle.slot(), 0),
        _ => panic!("the thread has no handle"),
    }

    // The second request is served by the same handle: nothing registers.
    let temporary = with_handle(&mut place, &mut thread);
    assert!(temporary.is_none());
    let other = collector(&mut place).register();
    assert_eq!(other.slot(), 1);
}

#[test]
fn torn_down_thread_gets_a_handle_for_one_request() {
    let mut place: DefaultCollector<i32> = DefaultCollector::new();
    let mut thread = ThreadHandle::new();
    let guard = cs(&mut place, &mut thread);
    assert_eq!(guard.slot(), 0);
    guard.unpin(collector(&mut place));
    thread.teardown(&mut place);
    assert!(matches!(thread, ThreadHandle::Destroyed));

    // The slot of the thread's handle is free again, and serves the request.
    let guard = cs(&mut place, &mut thread);
    assert_eq!(guard.slot(), 0);
    assert!(matches!(thread, ThreadHandle::Destroyed));
    // The participant lives as long as the guard: the slot is not free.
    let other = collector(&mut place).register();
    assert_eq!(other.slot(), 1);
    // With the guard gone the slot is free.
    guard.unpin(collector(&mut place));
    let next = collector(&mut place).register();
    assert_eq!(next.slot(), 0);
}

#[test]
fn critical_section_pins_the_thread() {
    let mut place: DefaultCollector<i32> = DefaultCollector::new();
    let mut thread = ThreadHandle::new();
    let guard = cs(&mut place, &mut thread);
    match &thread {
        ThreadHandle::Live(handle) => {
            assert!(handle.is_pinned(collector(&mut place)));
            guard.unpin(collector(&mut place));
            assert!(!handle.is_pinned(collector(&mut place)));
        }
        _ => panic!("the thread has no handle"),
    }
    // The first pin of a participant runs a collection, which advances.
    assert_eq!(global_epoch(&mut place), 1);
}
