//! The engine as a state machine: its state and what each operation makes
//! of it.

use crate::bag::expired;
use crate::bag::SealedView;
use crate::epoch::distance;
use crate::epoch::modulus;
use crate::epoch::next_value;
use crate::local::LocalState;
use vstd::multiset::Multiset;
use vstd::prelude::*;

verus! {

/// Whether `epoch` is the global epoch `global` or the one before it.
pub open spec fn recent(global: int, epoch: int) -> bool {
    0 <= distance(global, epoch) <= 1
}

/// Whether `epoch` is at most two advances behind the global epoch `global`.
pub open spec fn lately(global: int, epoch: int) -> bool {
    0 <= distance(global, epoch) <= 2
}

/// The batches of `queue` whose grace period is not over at `global`, in
/// queue order.
pub open spec fn survivors<T>(queue: Seq<SealedView<T>>, global: int) -> Seq<SealedView<T>> {
    queue.filter(|bag: SealedView<T>| !expired(global, bag.epoch))
}

/// The items of the batches of `queue` whose grace period is over at
/// `global`: batch by batch in queue order, each batch in the order its
/// items were deferred.
pub open spec fn executed<T>(queue: Seq<SealedView<T>>, global: int) -> Seq<T> {
    queue.filter(|bag: SealedView<T>| expired(global, bag.epoch)).map_values(
        |bag: SealedView<T>| bag.items,
    ).flatten()
}

/// The items in the open batches of the slots of `locals`, each as often as
/// it occurs.
pub open spec fn open_items<T>(locals: Seq<LocalState<T>>) -> Multiset<T>
    decreases locals.len(),
{
    if locals.len() == 0 {
        Multiset::empty()
    } else {
        open_items(locals.drop_last()).add(locals.last().bag.to_multiset())
    }
}

/// The items in the batches of `queue`, each as often as it occurs.
pub open spec fn queued_items<T>(queue: Seq<SealedView<T>>) -> Multiset<T>
    decreases queue.len(),
{
    if queue.len() == 0 {
        Multiset::empty()
    } else {
        queued_items(queue.drop_last()).add(queue.last().items.to_multiset())
    }
}

/// The state of the engine.
pub struct GlobalState<T> {
    /// The global epoch.
    pub epoch: int,
    /// The registry: one entry per slot.
    pub locals: Seq<LocalState<T>>,
    /// The sealed batches that wait for their grace period, oldest first.
    pub queue: Seq<SealedView<T>>,
    /// The executed items that the owner has not taken yet, in the order
    /// they were executed.
    pub reclaimed: Seq<T>,
    /// The number of items a batch can take.
    pub capacity: nat,
}

impl<T> GlobalState<T> {
    /// The state of a new engine with batches of `capacity` items.
    pub open spec fn starting(capacity: nat) -> Self {
        GlobalState {
            epoch: 0,
            locals: Seq::empty(),
            queue: Seq::empty(),
            reclaimed: Seq::empty(),
            capacity,
        }
    }

    /// Every slot is well formed, and every pinned participant published the
    /// global epoch or the one before it.
    pub open spec fn wf_registry(self) -> bool {
        &&& 0 <= self.epoch < modulus()
        &&& self.capacity >= 1
        &&& forall|i: int|
            0 <= i < self.locals.len() ==> (#[trigger] self.locals[i]).wf(self.capacity)
        &&& forall|i: int|
            0 <= i < self.locals.len() && (#[trigger] self.locals[i]).pinned ==> recent(
                self.epoch,
                self.locals[i].epoch,
            )
    }

    /// The invariant of the engine between operations: the registry is well
    /// formed and every queued batch was sealed at the global epoch or the
    /// one before it.
    pub open spec fn wf(self) -> bool {
        &&& self.wf_registry()
        &&& forall|j: int|
            0 <= j < self.queue.len() ==> 0 <= (#[trigger] self.queue[j]).epoch < modulus()
                && recent(self.epoch, self.queue[j].epoch)
    }

    /// The invariant right after an advance: queued batches may be two
    /// advances old.
    pub open spec fn wf_advanced(self) -> bool {
        &&& self.wf_registry()
        &&& forall|j: int|
            0 <= j < self.queue.len() ==> 0 <= (#[trigger] self.queue[j]).epoch < modulus()
                && lately(self.epoch, self.queue[j].epoch)
    }

    /// Whether `slot` is an occupied slot of the registry.
    pub open spec fn occupied(self, slot: int) -> bool {
        0 <= slot < self.locals.len() && self.locals[slot].registered
    }

    /// Whether a handle refers to the participant in `slot`.
    pub open spec fn has_handle(self, slot: int) -> bool {
        0 <= slot < self.locals.len() && self.locals[slot].handle_count >= 1
    }

    /// Whether a guard refers to the participant in `slot`.
    pub open spec fn has_guard(self, slot: int) -> bool {
        0 <= slot < self.locals.len() && self.locals[slot].guard_count >= 1
    }

    /// The state with the entry of `slot` replaced by `local`.
    pub open spec fn with_local(self, slot: int, local: LocalState<T>) -> Self {
        GlobalState { locals: self.locals.update(slot, local), ..self }
    }

    /// Whether `slot` is where the next participant registers: the first
    /// free slot, or a new slot at the end where none is free.
    pub open spec fn first_free(self, slot: int) -> bool {
        &&& 0 <= slot <= self.locals.len()
        &&& slot < self.locals.len() ==> !self.locals[slot].registered
        &&& forall|i: int| 0 <= i < slot ==> (#[trigger] self.locals[i]).registered
    }

    /// The state with a participant newly registered in `slot`.
    pub open spec fn register(self, slot: int) -> Self {
        if slot < self.locals.len() {
            self.with_local(slot, LocalState::fresh())
        } else {
            GlobalState { locals: self.locals.push(LocalState::fresh()), ..self }
        }
    }

    /// The state with `bag` at the back of the queue.
    pub open spec fn publish(self, bag: SealedView<T>) -> Self {
        GlobalState { queue: self.queue.push(bag), ..self }
    }

    /// Whether no participant is pinned at an epoch other than `snapshot`.
    pub open spec fn quiescent_at(self, snapshot: int) -> bool {
        forall|i: int|
            0 <= i < self.locals.len() && (#[trigger] self.locals[i]).pinned
                ==> self.locals[i].epoch == snapshot
    }

    /// Whether no participant is pinned at an epoch other than the global
    /// one.
    pub open spec fn can_advance(self) -> bool {
        self.quiescent_at(self.epoch)
    }

    /// The state after an attempt to advance the global epoch from
    /// `snapshot`: one later where the global epoch still is `snapshot`.
    pub open spec fn advance(self, snapshot: int) -> Self {
        if self.epoch == snapshot {
            GlobalState { epoch: next_value(self.epoch), ..self }
        } else {
            self
        }
    }

    /// The state after an attempt to advance by a participant that read the
    /// global epoch as `snapshot`, possibly a while ago: the global epoch is
    /// one later where no participant is pinned at another epoch than
    /// `snapshot` and nobody has advanced it since.
    pub open spec fn try_advance_from(self, snapshot: int) -> Self {
        if self.quiescent_at(snapshot) {
            self.advance(snapshot)
        } else {
            self
        }
    }

    /// The state after an attempt to advance the global epoch.
    pub open spec fn try_advance(self) -> Self {
        self.try_advance_from(self.epoch)
    }

    /// The state with every queued batch whose grace period is over
    /// executed.
    pub open spec fn reclaim(self) -> Self {
        GlobalState {
            queue: survivors(self.queue, self.epoch),
            reclaimed: self.reclaimed + executed(self.queue, self.epoch),
            ..self
        }
    }

    /// The state after a collection: an attempt to advance, then the
    /// execution of every batch whose grace period is over.
    pub open spec fn collect(self) -> Self {
        self.try_advance().reclaim()
    }

    /// The state after the participant in `slot` has taken one more guard.
    pub open spec fn pin(self, slot: int) -> Self {
        let pinned = self.with_local(slot, self.locals[slot].pin(self.epoch));
        if self.locals[slot].collect_due() {
            pinned.collect()
        } else {
            pinned
        }
    }

    /// The state after the participant in `slot` has been deregistered: its
    /// open batch is published, sealed at the global epoch, and the slot is
    /// free.
    pub open spec fn deregister(self, slot: int) -> Self {
        self.publish(self.locals[slot].sealed(self.epoch)).with_local(slot, LocalState::vacant())
    }

    /// The state with the entry of `slot` replaced by `local`, and the
    /// participant deregistered where nothing refers to it any more.
    pub open spec fn settle(self, slot: int, local: LocalState<T>) -> Self {
        let updated = self.with_local(slot, local);
        if local.unreferenced() {
            updated.deregister(slot)
        } else {
            updated
        }
    }

    /// The state after the participant in `slot` has dropped one guard.
    pub open spec fn unpin(self, slot: int) -> Self {
        self.settle(slot, self.locals[slot].unpin())
    }

    /// The state after the participant in `slot` has dropped one handle.
    pub open spec fn release_handle(self, slot: int) -> Self {
        self.settle(slot, self.locals[slot].release_handle())
    }

    /// The state after the participant in `slot` has published the global
    /// epoch again.
    pub open spec fn repin(self, slot: int) -> Self {
        self.with_local(slot, self.locals[slot].repin(self.epoch))
    }

    /// The state after the participant in `slot` has deferred `item`: where
    /// its open batch is full, that batch is published, sealed at the
    /// participant's epoch.
    pub open spec fn defer(self, slot: int, item: T) -> Self {
        let local = self.locals[slot];
        let deferred = self.with_local(slot, local.defer(item, self.capacity));
        if local.bag_full(self.capacity) {
            deferred.publish(local.sealed(local.epoch))
        } else {
            deferred
        }
    }

    /// The state after the participant in `slot` has flushed: its open
    /// batch is published, sealed at the participant's epoch, and a
    /// collection has run.
    pub open spec fn flush(self, slot: int) -> Self {
        let local = self.locals[slot];
        self.with_local(slot, local.emptied()).publish(local.sealed(local.epoch)).collect()
    }

    /// The deferred items that have not been executed: those in the open
    /// batches and those in the queue, each as often as it occurs.
    pub open spec fn pending(self) -> Multiset<T> {
        open_items(self.locals).add(queued_items(self.queue))
    }

    /// The items in the hands of the engine: the pending ones and the
    /// executed ones that the owner has not taken yet.
    pub open spec fn held(self) -> Multiset<T> {
        self.pending().add(self.reclaimed.to_multiset())
    }

    /// The state after the owner has taken the executed items.
    pub open spec fn drained(self) -> Self {
        GlobalState { reclaimed: Seq::empty(), ..self }
    }
}

} // verus!
