//! The collector and the handles of its participants.

use crate::epoch::Epoch;
use crate::global::Global;
use crate::global::DEFAULT_BAG_CAPACITY;
use crate::guard::Guard;
use crate::model::GlobalState;
use vstd::prelude::*;

verus! {

/// A garbage collector based on epoch-based reclamation.
#[derive(Debug)]
pub struct Collector<T> {
    /// The shared state that the participants of the collector work on.
    pub global: Global<T>,
}

impl<T> View for Collector<T> {
    type V = GlobalState<T>;

    open spec fn view(&self) -> GlobalState<T> {
        self.global@
    }
}

impl<T> Default for Collector<T> {
    fn default() -> (collector: Self)
        ensures
            collector.wf(),
            collector@ == GlobalState::<T>::starting(DEFAULT_BAG_CAPACITY as nat),
    {
        Collector { global: Global::new(DEFAULT_BAG_CAPACITY) }
    }
}

impl<T> Collector<T> {
    /// The invariant of the collector.
    pub open spec fn wf(&self) -> bool {
        self.global.wf()
    }

    /// What the invariant says of the state.
    pub proof fn lemma_wf(&self)
        requires
            self.wf(),
        ensures
            self@.wf(),
    {
        self.global.lemma_wf();
    }

    /// Creates a new collector: no participant, the starting epoch, and
    /// batches of the default capacity.
    pub fn new() -> (collector: Self)
        ensures
            collector.wf(),
            collector@ == GlobalState::<T>::starting(DEFAULT_BAG_CAPACITY as nat),
    {
        Collector { global: Global::new(DEFAULT_BAG_CAPACITY) }
    }

    /// Creates a new collector with batches of `bag_capacity` items.
    pub fn with_bag_capacity(bag_capacity: usize) -> (collector: Self)
        requires
            bag_capacity >= 1,
        ensures
            collector.wf(),
            collector@ == GlobalState::<T>::starting(bag_capacity as nat),
    {
        Collector { global: Global::new(bag_capacity) }
    }

    /// Registers a new participant, in the first free slot of the registry
    /// or in a new slot where none is free, and returns its handle.
    pub fn register(&mut self) -> (handle: LocalHandle)
        requires
            old(self).wf(),
        ensures
            final(self).wf(),
            old(self)@.first_free(handle@),
            final(self)@ == old(self)@.register(handle@),
    {
        let slot = self.global.register();
        LocalHandle { slot }
    }

    /// Reads the global epoch.
    pub fn global_epoch(&self) -> (epoch: Epoch)
        ensures
            epoch@ == self@.epoch,
    {
        self.global.epoch()
    }

    /// Runs a collection on behalf of the pinned participant of `guard`:
    /// tries to advance the global epoch and then, whether or not it
    /// advanced, executes every queued batch whose grace period is over.
    pub fn collect(&mut self, guard: &Guard)
        requires
            old(self).wf(),
            old(self)@.has_guard(guard@),
        ensures
            final(self).wf(),
            final(self)@ == old(self)@.collect(),
    {
        self.global.collect();
    }

    /// Takes the executed items, in the order they were executed. What is
    /// to happen to an item once its grace period is over happens to it
    /// here, in the hands of the caller.
    pub fn drain_reclaimed(&mut self) -> (items: Vec<T>)
        requires
            old(self).wf(),
        ensures
            final(self).wf(),
            items@ == old(self)@.reclaimed,
            final(self)@ == old(self)@.drained(),
    {
        self.global.drain_reclaimed()
    }

    /// The number of sealed batches that wait for their grace period.
    pub fn queued(&self) -> (queued: usize)
        ensures
            queued == self@.queue.len(),
    {
        self.global.queued()
    }
}

/// A handle to a participant of a collector.
///
/// A handle is neither copied nor cloned. Its life ends with
/// [`LocalHandle::release`].
#[derive(Debug)]
pub struct LocalHandle {
    slot: usize,
}

impl View for LocalHandle {
    type V = int;

    /// The registry slot of the participant.
    closed spec fn view(&self) -> int {
        self.slot as int
    }
}

impl LocalHandle {
    /// The registry slot of the participant.
    pub fn slot(&self) -> (slot: usize)
        ensures
            slot as int == self@,
    {
        self.slot
    }

    /// Pins the participant and returns the guard that keeps it pinned. The
    /// first guard publishes the global epoch; a pin that is due for it runs
    /// a collection.
    pub fn pin<T>(&self, collector: &mut Collector<T>) -> (guard: Guard)
        requires
            old(collector).wf(),
            old(collector)@.has_handle(self@),
            old(collector)@.locals[self@].guard_count < usize::MAX,
        ensures
            guard@ == self@,
            final(collector).wf(),
            final(collector)@ == old(collector)@.pin(self@),
    {
        proof {
            collector.lemma_wf();
            assert(collector@.locals[self@].wf(collector@.capacity));
        }
        collector.global.pin(self.slot);
        Guard::new(self.slot)
    }

    /// Returns `true` if the participant is pinned.
    pub fn is_pinned<T>(&self, collector: &Collector<T>) -> (pinned: bool)
        requires
            collector.wf(),
            collector@.has_handle(self@),
        ensures
            pinned == collector@.locals[self@].pinned,
            pinned == (collector@.locals[self@].guard_count > 0),
    {
        proof {
            collector.lemma_wf();
            assert(collector@.locals[self@].wf(collector@.capacity));
        }
        collector.global.is_pinned(self.slot)
    }

    /// Ends the life of the handle. Where no guard refers to the participant
    /// either, the participant is deregistered: its open batch is published
    /// and its slot is free.
    pub fn release<T>(self, collector: &mut Collector<T>)
        requires
            old(collector).wf(),
            old(collector)@.has_handle(self@),
        ensures
            final(collector).wf(),
            final(collector)@ == old(collector)@.release_handle(self@),
    {
        collector.global.release_handle(self.slot);
    }
}

} // verus!
