use epoch_reclaim::Bag;
use epoch_reclaim::Epoch;

#[test]
fn new_bag_is_empty() {
    let bag: Bag<u32> = Bag::new(4);
    assert!(bag.is_empty());
    assert_eq!(bag.len(), 0);
    assert_eq!(bag.capacity(), 4);
}

#[test]
fn push_appends_while_there_is_room() {
    let mut bag: Bag<u32> = Bag::new(2);
    assert_eq!(bag.push(10), Ok(()));
    assert_eq!(bag.push(11), Ok(()));
    assert_eq!(bag.len(), 2);
    assert!(!bag.is_empty());
}

#[test]
fn push_hands_back_what_a_full_bag_rejects() {
    let mut bag: Bag<u32> = Bag::new(2);
    assert_eq!(bag.push(10), Ok(()));
    assert_eq!(bag.push(11), Ok(()));
    assert_eq!(bag.push(12), Err(12));
    assert_eq!(bag.len(), 2);
}

#[test]
fn seal_stamps_the_epoch_and_keeps_the_items() {
    let mut bag: Bag<u32> = Bag::new(4);
    assert_eq!(bag.push(1), Ok(()));
    assert_eq!(bag.push(2), Ok(()));
    let sealed = bag.seal(Epoch::from_value(9));
    assert_eq!(sealed.epoch().value(), 9);
    assert_eq!(sealed.len(), 2);
}

#[test]
fn grace_period_is_two_advances() {
    let bag: Bag<u32> = Bag::new(4);
    let sealed = bag.seal(Epoch::from_value(5));
    assert!(!sealed.is_expired(Epoch::from_value(5)));
    assert!(!sealed.is_expired(Epoch::from_value(6)));
    assert!(sealed.is_expired(Epoch::from_value(7)));
    assert!(sealed.is_expired(Epoch::from_value(8)));
    assert!(!sealed.is_expired(Epoch::from_value(4)));
}

#[test]
fn grace_period_across_the_wrap() {
    let bag: Bag<u32> = Bag::new(4);
    let sealed = bag.seal(Epoch::from_value(usize::MAX));
    assert!(!sealed.is_expired(Epoch::from_value(usize::MAX)));
    assert!(!sealed.is_expired(Epoch::from_value(0)));
    assert!(sealed.is_expired(Epoch::from_value(1)));
}

#[test]
fn execute_hands_over_every_item_once_and_in_order() {
    let mut bag: Bag<u32> = Bag::new(4);
    for item in [3, 1, 2] {
        assert_eq!(bag.push(item), Ok(()));
    }
    let sealed = bag.seal(Epoch::starting());
    let mut log = vec![9];
    sealed.execute(&mut log);
    assert_eq!(log, vec![9, 3, 1, 2]);
}
