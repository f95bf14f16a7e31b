//! The proof that a participant is pinned.

use crate::collector::Collector;
use crate::laws::lemma_flush_empties_bag;
use vstd::prelude::*;

verus! {

/// One unit of pin depth of a participant: while it lasts, the participant
/// is pinned. It is the only way to defer an item.
///
/// A guard is neither copied nor cloned. Its scope ends with [`Guard::unpin`].
#[derive(Debug)]
pub struct Guard {
    slot: usize,
}

impl View for Guard {
    type V = int;

    /// The registry slot of the participant that the guard pins.
    closed spec fn view(&self) -> int {
        self.slot as int
    }
}

impl Guard {
    /// The guard of a participant that has just been pinned.
    pub(crate) fn new(slot: usize) -> (guard: Guard)
        ensures
            guard@ == slot as int,
    {
        Guard { slot }
    }

    /// The registry slot of the participant that the guard pins.
    pub fn slot(&self) -> (slot: usize)
        ensures
            slot as int == self@,
    {
        self.slot
    }

    /// Hands `object`, which the caller has retired, to the engine, to be
    /// executed once its grace period is over. The caller hands no object
    /// over twice.
    pub fn defer_destroy<T>(&self, collector: &mut Collector<T>, object: T)
        requires
            old(collector).wf(),
            old(collector)@.has_guard(self@),
        ensures
            final(collector).wf(),
            final(collector)@ == old(collector)@.defer(self@, object),
    {
        self.defer_unchecked(collector, object);
    }

    /// Schedules `action` to be executed once its grace period is over.
    /// Where the open batch of the participant is full, that batch is sealed
    /// and published first.
    pub fn defer_unchecked<T>(&self, collector: &mut Collector<T>, action: T)
        requires
            old(collector).wf(),
            old(collector)@.has_guard(self@),
        ensures
            final(collector).wf(),
            final(collector)@ == old(collector)@.defer(self@, action),
    {
        collector.global.defer(self.slot, action);
    }

    /// Seals and publishes the open batch of the participant, and runs a
    /// collection at once.
    pub fn flush<T>(&self, collector: &mut Collector<T>)
        requires
            old(collector).wf(),
            old(collector)@.has_guard(self@),
        ensures
            final(collector).wf(),
            final(collector)@ == old(collector)@.flush(self@),
            final(collector)@.locals[self@].bag == Seq::<T>::empty(),
    {
        proof {
            collector.lemma_wf();
            lemma_flush_empties_bag(collector@, self@);
        }
        collector.global.flush(self.slot);
    }

    /// Publishes the global epoch for the participant again without
    /// unpinning it, so that a long-lived guard does not hold the global
    /// epoch back. Nothing changes while guards are nested.
    pub fn repin<T>(&mut self, collector: &mut Collector<T>)
        requires
            old(collector).wf(),
            old(collector)@.has_guard(old(self)@),
        ensures
            final(self)@ == old(self)@,
            final(collector).wf(),
            final(collector)@ == old(collector)@.repin(old(self)@),
    {
        collector.global.repin(self.slot);
    }

    /// Another name for [`Guard::repin`].
    pub fn reactivate<T>(&mut self, collector: &mut Collector<T>)
        requires
            old(collector).wf(),
            old(collector)@.has_guard(old(self)@),
        ensures
            final(self)@ == old(self)@,
            final(collector).wf(),
            final(collector)@ == old(collector)@.repin(old(self)@),
    {
        self.repin(collector);
    }

    /// Ends the scope of the guard. The last guard of a participant unpins
    /// it; where no handle refers to the participant either, it is
    /// deregistered.
    pub fn unpin<T>(self, collector: &mut Collector<T>)
        requires
            old(collector).wf(),
            old(collector)@.has_guard(self@),
        ensures
            final(collector).wf(),
            final(collector)@ == old(collector)@.unpin(self@),
    {
        collector.global.unpin(self.slot);
    }

    /// Whether the open batch of the participant holds no item.
    pub fn is_bag_empty<T>(&self, collector: &Collector<T>) -> (empty: bool)
        requires
            collector.wf(),
            collector@.has_guard(self@),
        ensures
            empty == (collector@.locals[self@].bag.len() == 0),
    {
        collector.global.bag_len(self.slot) == 0
    }
}

} // verus!
