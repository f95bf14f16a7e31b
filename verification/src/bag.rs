//! Batches of deferred items.

use crate::epoch::distance;
use crate::epoch::lemma_epoch_range;
use crate::epoch::modulus;
use crate::epoch::Epoch;
use vstd::prelude::*;

verus! {

/// Number of advances a sealed batch waits before it may be executed.
pub const GRACE_PERIOD: isize = 2;

/// Whether a batch sealed at epoch `sealed` may be executed when the global
/// epoch is `global`: the global epoch is at least two advances past it.
pub open spec fn expired(global: int, sealed: int) -> bool {
    distance(global, sealed) >= GRACE_PERIOD as int
}

/// An open batch of deferred items, written by one participant.
#[derive(Debug)]
pub struct Bag<T> {
    items: Vec<T>,
    capacity: usize,
}

impl<T> View for Bag<T> {
    type V = Seq<T>;

    /// The items in the batch, in the order they were deferred.
    closed spec fn view(&self) -> Seq<T> {
        self.items@
    }
}

impl<T> Bag<T> {
    /// The number of items the batch can take.
    pub closed spec fn limit(&self) -> nat {
        self.capacity as nat
    }

    /// The batch can take at least one item and holds no more than it can take.
    pub open spec fn wf(&self) -> bool {
        &&& self.limit() >= 1
        &&& self@.len() <= self.limit()
    }

    /// An empty batch that can take `capacity` items.
    pub fn new(capacity: usize) -> (bag: Bag<T>)
        requires
            capacity >= 1,
        ensures
            bag.wf(),
            bag@ == Seq::<T>::empty(),
            bag.limit() == capacity,
    {
        Bag { items: Vec::new(), capacity }
    }

    /// The number of items the batch can take.
    pub fn capacity(&self) -> (capacity: usize)
        ensures
            capacity == self.limit(),
    {
        self.capacity
    }

    /// The number of items in the batch.
    pub fn len(&self) -> (len: usize)
        ensures
            len == self@.len(),
    {
        self.items.len()
    }

    /// Whether the batch holds no item.
    pub fn is_empty(&self) -> (empty: bool)
        ensures
            empty == (self@.len() == 0),
    {
        self.items.len() == 0
    }

    /// Appends `item` if the batch has room, and hands it back otherwise.
    pub fn push(&mut self, item: T) -> (outcome: Result<(), T>)
        requires
            old(self).wf(),
        ensures
            final(self).wf(),
            final(self).limit() == old(self).limit(),
            old(self)@.len() < old(self).limit() ==> outcome == Ok::<(), T>(())
                && final(self)@ == old(self)@.push(item),
            old(self)@.len() >= old(self).limit() ==> outcome == Err::<(), T>(item)
                && final(self)@ == old(self)@,
    {
        if self.items.len() < self.capacity {
            self.items.push(item);
            Ok(())
        } else {
            Err(item)
        }
    }

    /// Freezes the batch and stamps it with `epoch`.
    pub fn seal(self, epoch: Epoch) -> (sealed: SealedBag<T>)
        ensures
            sealed@ == (SealedView { epoch: epoch@, items: self@ }),
    {
        SealedBag { epoch, items: self.items }
    }
}

/// What a sealed batch is: the epoch it was sealed at and its items.
pub struct SealedView<T> {
    pub epoch: int,
    pub items: Seq<T>,
}

/// A batch that takes no more items and waits for its grace period.
#[derive(Debug)]
pub struct SealedBag<T> {
    epoch: Epoch,
    items: Vec<T>,
}

impl<T> View for SealedBag<T> {
    type V = SealedView<T>;

    closed spec fn view(&self) -> SealedView<T> {
        SealedView { epoch: self.epoch@, items: self.items@ }
    }
}

impl<T> SealedBag<T> {
    /// The epoch a batch was sealed at is a counter value.
    pub proof fn lemma_epoch_in_range(&self)
        ensures
            0 <= self@.epoch < modulus(),
    {
        lemma_epoch_range(self.epoch);
    }

    /// The epoch the batch was sealed at.
    pub fn epoch(&self) -> (epoch: Epoch)
        ensures
            epoch@ == self@.epoch,
    {
        self.epoch
    }

    /// The number of items in the batch.
    pub fn len(&self) -> (len: usize)
        ensures
            len == self@.items.len(),
    {
        self.items.len()
    }

    /// Whether the grace period of the batch is over at `global_epoch`.
    pub fn is_expired(&self, global_epoch: Epoch) -> (over: bool)
        ensures
            over == expired(global_epoch@, self@.epoch),
    {
        global_epoch.wrapping_sub(self.epoch) >= GRACE_PERIOD
    }

    /// Executes the batch: every item is handed over to `log`, once and in
    /// the order it was deferred, and the batch is consumed.
    pub fn execute(self, log: &mut Vec<T>)
        ensures
            final(log)@ == old(log)@ + self@.items,
    {
        let mut items = self.items;
        log.append(&mut items);
    }
}

} // verus!
