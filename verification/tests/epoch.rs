use epoch_reclaim::epoch::EpochCounter;
use epoch_reclaim::Epoch;

#[test]
fn starting_epoch_is_zero() {
    assert_eq!(Epoch::starting().value(), 0);
    assert_eq!(Epoch::starting(), Epoch::from_value(0));
}

#[test]
fn successor_adds_one() {
    assert_eq!(Epoch::from_value(0).successor().value(), 1);
    assert_eq!(Epoch::from_value(41).successor().value(), 42);
}

#[test]
fn successor_wraps_at_the_top() {
    assert_eq!(Epoch::from_value(usize::MAX).successor().value(), 0);
}

#[test]
fn wrapping_sub_counts_advances() {
    let seven = Epoch::from_value(7);
    assert_eq!(seven.wrapping_sub(Epoch::from_value(7)), 0);
    assert_eq!(seven.wrapping_sub(Epoch::from_value(5)), 2);
    assert_eq!(seven.wrapping_sub(Epoch::from_value(9)), -2);
}

#[test]
fn wrapping_sub_is_safe_across_the_wrap() {
    let before = Epoch::from_value(usize::MAX);
    let after = before.successor().successor();
    assert_eq!(after.value(), 1);
    assert_eq!(after.wrapping_sub(before), 2);
    assert_eq!(before.wrapping_sub(after), -2);
}

#[test]
fn wrapping_sub_at_the_far_side() {
    let zero = Epoch::from_value(0);
    let half = Epoch::from_value(isize::MAX as usize);
    assert_eq!(half.wrapping_sub(zero), isize::MAX);
    assert_eq!(half.successor().wrapping_sub(zero), isize::MIN);
    assert_eq!(zero.wrapping_sub(half), -isize::MAX);
    assert_eq!(Epoch::from_value(usize::MAX).wrapping_sub(zero), -1);
}

#[test]
fn same_compares_counter_values() {
    assert!(Epoch::from_value(3).same(Epoch::from_value(3)));
    assert!(!Epoch::from_value(3).same(Epoch::from_value(4)));
}

#[test]
fn counter_advances_from_its_snapshot() {
    let mut counter = EpochCounter::new();
    let snapshot = counter.load();
    assert_eq!(snapshot.value(), 0);
    assert!(counter.advance(snapshot));
    assert_eq!(counter.load().value(), 1);
}

#[test]
fn counter_refuses_a_stale_snapshot() {
    let mut counter = EpochCounter::new();
    let stale = counter.load();
    assert!(counter.advance(stale));
    // Somebody else has advanced: the loser changes nothing.
    assert!(!counter.advance(stale));
    assert_eq!(counter.load().value(), 1);
    assert!(counter.advance(counter.load()));
    assert_eq!(counter.load().value(), 2);
}
