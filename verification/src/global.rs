//! The shared state of the engine: the global epoch, the registry of
//! participants and the queue of sealed batches.

use crate::bag::SealedBag;
use crate::bag::SealedView;
use crate::epoch::Epoch;
use crate::epoch::EpochCounter;
use crate::laws::lemma_deregister_keeps_invariant;
use crate::laws::lemma_executed_push;
use crate::laws::lemma_publish_keeps_invariant;
use crate::laws::lemma_reclaim_restores_invariant;
use crate::laws::lemma_register_keeps_invariant;
use crate::laws::lemma_settle_keeps_invariant;
use crate::laws::lemma_survivors_push;
use crate::laws::lemma_try_advance_keeps_registry;
use crate::laws::lemma_with_local_keeps_invariant;
use crate::local::Local;
use crate::local::LocalState;
use crate::model::executed;
use crate::model::recent;
use crate::model::survivors;
use crate::model::GlobalState;
use vstd::prelude::*;

verus! {

/// Number of items a batch takes unless the engine is made with another
/// capacity.
pub const DEFAULT_BAG_CAPACITY: usize = 64;

/// What the slots of a registry hold.
pub open spec fn local_views<T>(locals: Seq<Local<T>>) -> Seq<LocalState<T>> {
    locals.map_values(|local: Local<T>| local@)
}

/// What the batches of a queue are.
pub open spec fn sealed_views<T>(queue: Seq<SealedBag<T>>) -> Seq<SealedView<T>> {
    queue.map_values(|bag: SealedBag<T>| bag@)
}

/// The shared state of the engine.
#[derive(Debug)]
pub struct Global<T> {
    epoch: EpochCounter,
    locals: Vec<Local<T>>,
    queue: Vec<SealedBag<T>>,
    reclaimed: Vec<T>,
    bag_capacity: usize,
}

impl<T> View for Global<T> {
    type V = GlobalState<T>;

    closed spec fn view(&self) -> GlobalState<T> {
        GlobalState {
            epoch: self.epoch@,
            locals: local_views(self.locals@),
            queue: sealed_views(self.queue@),
            reclaimed: self.reclaimed@,
            capacity: self.bag_capacity as nat,
        }
    }
}

impl<T> Global<T> {
    /// Every slot is well formed for the capacity of the engine.
    pub closed spec fn wf_slots(&self) -> bool {
        forall|i: int|
            0 <= i < self.locals@.len() ==> (#[trigger] self.locals@[i]).wf()
                && self.locals@[i].limit() == self.bag_capacity
    }

    /// The invariant of the engine between operations.
    pub closed spec fn wf(&self) -> bool {
        &&& self@.wf()
        &&& self.wf_slots()
    }

    /// The invariant right after an advance.
    pub closed spec fn wf_advanced(&self) -> bool {
        &&& self@.wf_advanced()
        &&& self.wf_slots()
    }

    /// An engine with no participant, at the starting epoch, with batches
    /// of `bag_capacity` items.
    pub fn new(bag_capacity: usize) -> (global: Global<T>)
        requires
            bag_capacity >= 1,
        ensures
            global.wf(),
            global@ == GlobalState::<T>::starting(bag_capacity as nat),
    {
        let global = Global {
            epoch: EpochCounter::new(),
            locals: Vec::new(),
            queue: Vec::new(),
            reclaimed: Vec::new(),
            bag_capacity,
        };
        assert(global@.locals =~= Seq::<LocalState<T>>::empty());
        assert(global@.queue =~= Seq::<SealedView<T>>::empty());
        global
    }

    /// What the invariant says of the state.
    pub proof fn lemma_wf(&self)
        requires
            self.wf(),
        ensures
            self@.wf(),
    {
    }

    /// The global epoch.
    pub fn epoch(&self) -> (epoch: Epoch)
        ensures
            epoch@ == self@.epoch,
    {
        self.epoch.load()
    }

    /// The number of slots in the registry, free ones included.
    pub fn slots(&self) -> (slots: usize)
        ensures
            slots == self@.locals.len(),
    {
        self.locals.len()
    }

    /// The number of sealed batches that wait for their grace period.
    pub fn queued(&self) -> (queued: usize)
        ensures
            queued == self@.queue.len(),
    {
        self.queue.len()
    }

    /// Registers a participant in the first free slot of the registry, or
    /// in a new slot where none is free, and returns the slot.
    pub fn register(&mut self) -> (slot: usize)
        requires
            old(self).wf(),
        ensures
            final(self).wf(),
            old(self)@.first_free(slot as int),
            final(self)@ == old(self)@.register(slot as int),
    {
        let mut slot: usize = 0;
        while slot < self.locals.len() && self.locals[slot].is_registered()
            invariant
                slot <= self.locals.len(),
                forall|i: int| 0 <= i < slot ==> (#[trigger] self@.locals[i]).registered,
            decreases self.locals.len() - slot,
        {
            slot = slot + 1;
        }
        proof {
            lemma_register_keeps_invariant(self@, slot as int);
        }
        if slot < self.locals.len() {
            self.locals[slot].occupy();
            assert(self@.locals =~= old(self)@.locals.update(slot as int, LocalState::fresh()));
        } else {
            self.locals.push(Local::register(self.bag_capacity));
            assert(self@.locals =~= old(self)@.locals.push(LocalState::fresh()));
        }
        slot
    }

    /// Puts `bag` at the back of the queue.
    pub fn push_bag(&mut self, bag: SealedBag<T>)
        requires
            old(self).wf(),
            recent(old(self)@.epoch, bag@.epoch),
        ensures
            final(self).wf(),
            final(self)@ == old(self)@.publish(bag@),
    {
        proof {
            bag.lemma_epoch_in_range();
            lemma_publish_keeps_invariant(self@, bag@);
        }
        self.queue.push(bag);
        assert(self@.queue =~= old(self)@.queue.push(bag@));
    }

    /// Tries to advance the global epoch on behalf of a participant that
    /// read it as `snapshot`. It advances where no participant is pinned at
    /// an epoch other than `snapshot` and the global epoch still is
    /// `snapshot`; where somebody else has advanced it since, nothing
    /// changes. The result says whether it advanced.
    pub fn try_advance_from(&mut self, snapshot: Epoch) -> (advanced: bool)
        requires
            old(self).wf(),
        ensures
            final(self).wf_advanced(),
            advanced == (old(self)@.quiescent_at(snapshot@) && old(self)@.epoch == snapshot@),
            final(self)@ == old(self)@.try_advance_from(snapshot@),
    {
        proof {
            lemma_try_advance_keeps_registry(self@, snapshot@);
        }
        let mut i: usize = 0;
        while i < self.locals.len()
            invariant
                i <= self.locals.len(),
                *self == *old(self),
                self.wf(),
                self@.try_advance_from(snapshot@).wf_advanced(),
                forall|j: int|
                    0 <= j < i && (#[trigger] self@.locals[j]).pinned ==> self@.locals[j].epoch
                        == snapshot@,
            decreases self.locals.len() - i,
        {
            let local = &self.locals[i];
            if local.is_registered() && local.is_pinned() && !local.epoch().same(snapshot) {
                assert(self@.locals[i as int].pinned);
                return false;
            }
            assert(self@.locals[i as int].wf(self@.capacity));
            i = i + 1;
        }
        self.epoch.advance(snapshot)
    }

    /// Tries to advance the global epoch. It advances where no participant
    /// is pinned at an epoch other than the global one, and the result says
    /// whether it did.
    pub fn try_advance(&mut self) -> (advanced: bool)
        requires
            old(self).wf(),
        ensures
            final(self).wf_advanced(),
            advanced == old(self)@.can_advance(),
            final(self)@ == old(self)@.try_advance(),
    {
        let snapshot = self.epoch.load();
        self.try_advance_from(snapshot)
    }

    /// Executes every queued batch whose grace period is over, in queue
    /// order, and keeps the others.
    pub fn reclaim(&mut self)
        requires
            old(self).wf_advanced(),
        ensures
            final(self).wf(),
            final(self)@ == old(self)@.reclaim(),
    {
        let global_epoch = self.epoch.load();
        let mut pending: Vec<SealedBag<T>> = Vec::new();
        core::mem::swap(&mut self.queue, &mut pending);
        let ghost queue = sealed_views(pending@);
        let ghost before = self.reclaimed@;
        assert(sealed_views(self.queue@) =~= survivors(queue.take(0), global_epoch@)) by {
            assert(queue.take(0) =~= Seq::<SealedView<T>>::empty());
            lemma_survivors_push(Seq::<SealedView<T>>::empty(), queue[0], global_epoch@);
        }
        assert(self.reclaimed@ =~= before + executed(queue.take(0), global_epoch@)) by {
            assert(queue.take(0) =~= Seq::<SealedView<T>>::empty());
            lemma_executed_push(Seq::<SealedView<T>>::empty(), queue[0], global_epoch@);
        }
        for bag in it: pending
            invariant
                it.seq() == pending@,
                queue == sealed_views(pending@),
                global_epoch@ == self.epoch@,
                self.epoch@ == old(self).epoch@,
                self.locals == old(self).locals,
                self.bag_capacity == old(self).bag_capacity,
                sealed_views(self.queue@) == survivors(queue.take(it.index()), global_epoch@),
                self.reclaimed@ == before + executed(queue.take(it.index()), global_epoch@),
        {
            proof {
                let done = queue.take(it.index());
                assert(queue.take(it.index() + 1) =~= done.push(bag@));
                lemma_survivors_push(done, bag@, global_epoch@);
                lemma_executed_push(done, bag@, global_epoch@);
            }
            if bag.is_expired(global_epoch) {
                bag.execute(&mut self.reclaimed);
            } else {
                self.queue.push(bag);
                assert(sealed_views(self.queue@) =~= survivors(
                    queue.take(it.index()),
                    global_epoch@,
                ).push(bag@));
            }
        }
        proof {
            assert(queue.take(queue.len() as int) =~= queue);
            lemma_reclaim_restores_invariant(old(self)@);
        }
    }

    /// Runs a collection: tries to advance the global epoch and then,
    /// whether or not it advanced, executes every queued batch whose grace
    /// period is over.
    pub fn collect(&mut self)
        requires
            old(self).wf(),
        ensures
            final(self).wf(),
            final(self)@ == old(self)@.collect(),
    {
        self.try_advance();
        self.reclaim();
    }

    /// Whether the participant in `slot` is pinned.
    pub fn is_pinned(&self, slot: usize) -> (pinned: bool)
        requires
            slot < self@.locals.len(),
        ensures
            pinned == self@.locals[slot as int].pinned,
    {
        self.locals[slot].is_pinned()
    }

    /// The number of items in the open batch of the participant in `slot`.
    pub fn bag_len(&self, slot: usize) -> (len: usize)
        requires
            slot < self@.locals.len(),
        ensures
            len == self@.locals[slot as int].bag.len(),
    {
        self.locals[slot].bag_len()
    }

    /// The number of guards that refer to the participant in `slot`.
    pub fn guard_count(&self, slot: usize) -> (count: usize)
        requires
            slot < self@.locals.len(),
        ensures
            count == self@.locals[slot as int].guard_count,
    {
        self.locals[slot].guard_count()
    }

    /// The number of handles that refer to the participant in `slot`.
    pub fn handle_count(&self, slot: usize) -> (count: usize)
        requires
            slot < self@.locals.len(),
        ensures
            count == self@.locals[slot as int].handle_count,
    {
        self.locals[slot].handle_count()
    }

    /// Takes one more guard on the participant in `slot`. The first guard
    /// publishes the global epoch and pins the participant; where the pin is
    /// one that runs a collection, the collection follows.
    pub fn pin(&mut self, slot: usize)
        requires
            old(self).wf(),
            old(self)@.occupied(slot as int),
            old(self)@.locals[slot as int].guard_count < usize::MAX,
        ensures
            final(self).wf(),
            final(self)@ == old(self)@.pin(slot as int),
    {
        let epoch = self.epoch.load();
        assert(old(self)@.locals[slot as int].wf(old(self)@.capacity));
        let collect = self.locals[slot].pin(epoch);
        proof {
            let local = old(self)@.locals[slot as int].pin(epoch@);
            assert(self@.locals =~= old(self)@.locals.update(slot as int, local));
            lemma_with_local_keeps_invariant(old(self)@, slot as int, local);
        }
        if collect {
            self.collect();
        }
    }

    /// Deregisters the participant in `slot`, to which nothing refers any
    /// more: publishes its open batch, sealed at the global epoch, and frees
    /// the slot.
    fn deregister(&mut self, slot: usize)
        requires
            slot < old(self).locals@.len(),
            old(self)@.with_local(slot as int, LocalState::vacant()).wf(),
            old(self).locals@[slot as int].wf_but_unreferenced(),
            old(self).locals@[slot as int].limit() == old(self).bag_capacity,
            forall|i: int|
                0 <= i < old(self).locals@.len() && i != slot ==> (#[trigger] old(
                    self,
                ).locals@[i]).wf() && old(self).locals@[i].limit() == old(self).bag_capacity,
        ensures
            final(self).wf(),
            final(self)@ == old(self)@.deregister(slot as int),
    {
        let epoch = self.epoch.load();
        let sealed = self.locals[slot].take_bag(epoch);
        self.locals[slot].vacate();
        self.queue.push(sealed);
        proof {
            lemma_deregister_keeps_invariant(old(self)@, slot as int);
            assert(self@.locals =~= old(self)@.locals.update(slot as int, LocalState::vacant()));
            assert(self@.queue =~= old(self)@.queue.push(
                old(self)@.locals[slot as int].sealed(old(self)@.epoch),
            ));
        }
    }

    /// Drops one guard of the participant in `slot`. The last guard unpins
    /// it; where no handle refers to it either, it is deregistered.
    pub fn unpin(&mut self, slot: usize)
        requires
            old(self).wf(),
            old(self)@.has_guard(slot as int),
        ensures
            final(self).wf(),
            final(self)@ == old(self)@.unpin(slot as int),
    {
        assert(old(self)@.locals[slot as int].wf(old(self)@.capacity));
        let unreferenced = self.locals[slot].unpin();
        proof {
            let local = old(self)@.locals[slot as int].unpin();
            assert(self@.locals =~= old(self)@.locals.update(slot as int, local));
            lemma_settle_keeps_invariant(old(self)@, slot as int, local);
            lemma_with_local_keeps_invariant(old(self)@, slot as int, LocalState::vacant());
            assert(self@.locals.update(slot as int, LocalState::<T>::vacant()) =~= old(
                self,
            )@.locals.update(slot as int, LocalState::<T>::vacant()));
        }
        if unreferenced {
            self.deregister(slot);
        }
    }

    /// Drops one handle of the participant in `slot`; where no guard refers
    /// to it either, it is deregistered.
    pub fn release_handle(&mut self, slot: usize)
        requires
            old(self).wf(),
            old(self)@.has_handle(slot as int),
        ensures
            final(self).wf(),
            final(self)@ == old(self)@.release_handle(slot as int),
    {
        assert(old(self)@.locals[slot as int].wf(old(self)@.capacity));
        let unreferenced = self.locals[slot].release_handle();
        proof {
            let local = old(self)@.locals[slot as int].release_handle();
            assert(self@.locals =~= old(self)@.locals.update(slot as int, local));
            lemma_settle_keeps_invariant(old(self)@, slot as int, local);
            lemma_with_local_keeps_invariant(old(self)@, slot as int, LocalState::vacant());
            assert(self@.locals.update(slot as int, LocalState::<T>::vacant()) =~= old(
                self,
            )@.locals.update(slot as int, LocalState::<T>::vacant()));
        }
        if unreferenced {
            self.deregister(slot);
        }
    }

    /// Publishes the global epoch for the participant in `slot` again,
    /// without unpinning it, unless its guards are nested.
    pub fn repin(&mut self, slot: usize)
        requires
            old(self).wf(),
            old(self)@.has_guard(slot as int),
        ensures
            final(self).wf(),
            final(self)@ == old(self)@.repin(slot as int),
    {
        let epoch = self.epoch.load();
        assert(old(self)@.locals[slot as int].wf(old(self)@.capacity));
        self.locals[slot].repin(epoch);
        proof {
            let local = old(self)@.locals[slot as int].repin(epoch@);
            assert(self@.locals =~= old(self)@.locals.update(slot as int, local));
            lemma_with_local_keeps_invariant(old(self)@, slot as int, local);
        }
    }

    /// Defers `item` for the participant in `slot`. Where its open batch is
    /// full, that batch is sealed at the participant's epoch and published,
    /// and `item` starts a new batch.
    pub fn defer(&mut self, slot: usize, item: T)
        requires
            old(self).wf(),
            old(self)@.has_guard(slot as int),
        ensures
            final(self).wf(),
            final(self)@ == old(self)@.defer(slot as int, item),
    {
        assert(old(self)@.locals[slot as int].wf(old(self)@.capacity));
        let overflow = self.locals[slot].defer(item);
        proof {
            let local = old(self)@.locals[slot as int].defer(item, old(self)@.capacity);
            assert(self@.locals =~= old(self)@.locals.update(slot as int, local));
            lemma_with_local_keeps_invariant(old(self)@, slot as int, local);
        }
        match overflow {
            Some(sealed) => {
                self.push_bag(sealed);
            },
            None => {},
        }
    }

    /// Flushes the participant in `slot`: seals its open batch at the
    /// participant's epoch, publishes it, and runs a collection.
    pub fn flush(&mut self, slot: usize)
        requires
            old(self).wf(),
            old(self)@.has_guard(slot as int),
        ensures
            final(self).wf(),
            final(self)@ == old(self)@.flush(slot as int),
    {
        assert(old(self)@.locals[slot as int].wf(old(self)@.capacity));
        let epoch = self.locals[slot].epoch();
        let sealed = self.locals[slot].take_bag(epoch);
        proof {
            let local = old(self)@.locals[slot as int].emptied();
            assert(self@.locals =~= old(self)@.locals.update(slot as int, local));
            lemma_with_local_keeps_invariant(old(self)@, slot as int, local);
        }
        self.push_bag(sealed);
        self.collect();
    }

    /// Takes the executed items, in the order they were executed.
    pub fn drain_reclaimed(&mut self) -> (items: Vec<T>)
        requires
            old(self).wf(),
        ensures
            final(self).wf(),
            items@ == old(self)@.reclaimed,
            final(self)@ == old(self)@.drained(),
    {
        let mut items: Vec<T> = Vec::new();
        core::mem::swap(&mut self.reclaimed, &mut items);
        assert(self@ == old(self)@.drained());
        assert(self.wf_slots());
        items
    }
}

} // verus!
