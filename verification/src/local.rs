//! Per-participant reclamation state.

use crate::bag::Bag;
use crate::bag::SealedBag;
use crate::bag::SealedView;
use crate::epoch::lemma_epoch_range;
use crate::epoch::modulus;
use crate::epoch::next_value;
use crate::epoch::Epoch;
use vstd::prelude::*;

verus! {

/// A participant runs a collection on its first pin and on every pin that
/// comes this many first pins after one that did.
pub const PINNINGS_BETWEEN_COLLECT: usize = 128;

/// What a registry slot holds.
pub struct LocalState<T> {
    /// Whether a participant occupies the slot.
    pub registered: bool,
    /// The epoch the participant published when it was last pinned.
    pub epoch: int,
    /// Whether the participant is pinned.
    pub pinned: bool,
    /// Outstanding guards: the depth of nested pins.
    pub guard_count: nat,
    /// Outstanding handles.
    pub handle_count: nat,
    /// How often the participant went from unpinned to pinned, wrapping.
    pub pin_count: nat,
    /// The items in the open batch.
    pub bag: Seq<T>,
}

impl<T> LocalState<T> {
    /// A slot that no participant occupies.
    pub open spec fn vacant() -> Self {
        LocalState {
            registered: false,
            epoch: 0,
            pinned: false,
            guard_count: 0,
            handle_count: 0,
            pin_count: 0,
            bag: Seq::empty(),
        }
    }

    /// A participant that has just registered: one handle, not pinned.
    pub open spec fn fresh() -> Self {
        LocalState { registered: true, handle_count: 1, ..Self::vacant() }
    }

    /// The pinned flag is set exactly while guards are outstanding, a slot is
    /// occupied exactly while a handle or a guard refers to it, and the open
    /// batch holds at most `capacity` items.
    pub open spec fn wf(self, capacity: nat) -> bool {
        &&& 0 <= self.epoch < modulus()
        &&& self.pin_count < modulus()
        &&& self.guard_count < modulus()
        &&& self.handle_count < modulus()
        &&& self.pinned <==> self.guard_count > 0
        &&& self.registered <==> self.guard_count + self.handle_count > 0
        &&& self.bag.len() <= capacity
        &&& !self.registered ==> self.bag.len() == 0
    }

    /// Whether the next pin is one that runs a collection.
    pub open spec fn collect_due(self) -> bool {
        self.guard_count == 0 && self.pin_count % (PINNINGS_BETWEEN_COLLECT as nat) == 0
    }

    /// One more guard. The first one publishes `global_epoch` and sets the
    /// pinned flag; a nested one only counts.
    pub open spec fn pin(self, global_epoch: int) -> Self {
        if self.guard_count == 0 {
            LocalState {
                epoch: global_epoch,
                pinned: true,
                guard_count: 1,
                pin_count: next_value(self.pin_count as int) as nat,
                ..self
            }
        } else {
            LocalState { guard_count: self.guard_count + 1, ..self }
        }
    }

    /// One guard less. The last one clears the pinned flag.
    pub open spec fn unpin(self) -> Self {
        LocalState {
            guard_count: (self.guard_count - 1) as nat,
            pinned: self.guard_count > 1,
            ..self
        }
    }

    /// Publishes `global_epoch` again, unless guards are nested.
    pub open spec fn repin(self, global_epoch: int) -> Self {
        if self.guard_count == 1 {
            LocalState { epoch: global_epoch, ..self }
        } else {
            self
        }
    }

    /// One handle less.
    pub open spec fn release_handle(self) -> Self {
        LocalState { handle_count: (self.handle_count - 1) as nat, ..self }
    }

    /// Whether neither a handle nor a guard refers to the participant.
    pub open spec fn unreferenced(self) -> bool {
        self.guard_count == 0 && self.handle_count == 0
    }

    /// Whether the open batch has no room for another item.
    pub open spec fn bag_full(self, capacity: nat) -> bool {
        self.bag.len() >= capacity
    }

    /// The open batch, sealed at `epoch`.
    pub open spec fn sealed(self, epoch: int) -> SealedView<T> {
        SealedView { epoch, items: self.bag }
    }

    /// The participant with `item` deferred: appended to the open batch, or
    /// alone in a new batch where the open one is full.
    pub open spec fn defer(self, item: T, capacity: nat) -> Self {
        if self.bag_full(capacity) {
            LocalState { bag: seq![item], ..self }
        } else {
            LocalState { bag: self.bag.push(item), ..self }
        }
    }

    /// The participant with an empty open batch.
    pub open spec fn emptied(self) -> Self {
        LocalState { bag: Seq::empty(), ..self }
    }
}

/// The reclamation state of one participant: a registry slot.
#[derive(Debug)]
pub struct Local<T> {
    registered: bool,
    epoch: Epoch,
    pinned: bool,
    guard_count: usize,
    handle_count: usize,
    pin_count: usize,
    bag: Bag<T>,
}

impl<T> View for Local<T> {
    type V = LocalState<T>;

    closed spec fn view(&self) -> LocalState<T> {
        LocalState {
            registered: self.registered,
            epoch: self.epoch@,
            pinned: self.pinned,
            guard_count: self.guard_count as nat,
            handle_count: self.handle_count as nat,
            pin_count: self.pin_count as nat,
            bag: self.bag@,
        }
    }
}

impl<T> Local<T> {
    /// The number of items a batch of the participant can take.
    pub closed spec fn limit(&self) -> nat {
        self.bag.limit()
    }

    /// The state is well formed.
    pub closed spec fn wf(&self) -> bool {
        &&& self@.wf(self.limit())
        &&& self.limit() >= 1
    }

    /// The state of a participant that nothing refers to any more and that
    /// still occupies its slot.
    pub closed spec fn wf_but_unreferenced(&self) -> bool {
        &&& self@.registered
        &&& self@.unreferenced()
        &&& !self@.pinned
        &&& self.bag.wf()
    }

    /// A participant that has just registered, with batches of `capacity`
    /// items.
    pub fn register(capacity: usize) -> (local: Local<T>)
        requires
            capacity >= 1,
        ensures
            local.wf(),
            local.limit() == capacity,
            local@ == LocalState::<T>::fresh(),
    {
        Local {
            registered: true,
            epoch: Epoch::starting(),
            pinned: false,
            guard_count: 0,
            handle_count: 1,
            pin_count: 0,
            bag: Bag::new(capacity),
        }
    }

    /// Whether a participant occupies the slot.
    pub fn is_registered(&self) -> (registered: bool)
        ensures
            registered == self@.registered,
    {
        self.registered
    }

    /// Whether the participant is pinned.
    pub fn is_pinned(&self) -> (pinned: bool)
        ensures
            pinned == self@.pinned,
    {
        self.pinned
    }

    /// The epoch the participant published when it was last pinned.
    pub fn epoch(&self) -> (epoch: Epoch)
        ensures
            epoch@ == self@.epoch,
    {
        self.epoch
    }

    /// The number of outstanding guards.
    pub fn guard_count(&self) -> (count: usize)
        ensures
            count == self@.guard_count,
    {
        self.guard_count
    }

    /// The number of outstanding handles.
    pub fn handle_count(&self) -> (count: usize)
        ensures
            count == self@.handle_count,
    {
        self.handle_count
    }

    /// The number of items in the open batch.
    pub fn bag_len(&self) -> (len: usize)
        ensures
            len == self@.bag.len(),
    {
        self.bag.len()
    }

    /// Pins the participant. Returns whether this pin is one that runs a
    /// collection.
    pub fn pin(&mut self, global_epoch: Epoch) -> (collect: bool)
        requires
            old(self).wf(),
            old(self)@.registered,
            old(self)@.guard_count < usize::MAX,
        ensures
            final(self).wf(),
            final(self).limit() == old(self).limit(),
            final(self)@ == old(self)@.pin(global_epoch@),
            collect == old(self)@.collect_due(),
    {
        proof {
            lemma_epoch_range(global_epoch);
        }
        if self.guard_count == 0 {
            self.guard_count = 1;
            self.epoch = global_epoch;
            self.pinned = true;
            let count: usize = self.pin_count;
            self.pin_count = if count == usize::MAX {
                0
            } else {
                count + 1
            };
            count % PINNINGS_BETWEEN_COLLECT == 0
        } else {
            self.guard_count = self.guard_count + 1;
            false
        }
    }

    /// Drops one guard. Returns whether nothing refers to the participant any
    /// more, so that it is to be deregistered.
    pub fn unpin(&mut self) -> (unreferenced: bool)
        requires
            old(self).wf(),
            old(self)@.guard_count >= 1,
        ensures
            final(self)@ == old(self)@.unpin(),
            unreferenced == final(self)@.unreferenced(),
            !unreferenced ==> final(self).wf(),
            final(self).limit() == old(self).limit(),
            unreferenced ==> final(self).wf_but_unreferenced(),
    {
        self.guard_count = self.guard_count - 1;
        if self.guard_count == 0 {
            self.pinned = false;
            self.handle_count == 0
        } else {
            false
        }
    }

    /// Publishes `global_epoch` again without unpinning, unless guards are
    /// nested.
    pub fn repin(&mut self, global_epoch: Epoch)
        requires
            old(self).wf(),
        ensures
            final(self).wf(),
            final(self).limit() == old(self).limit(),
            final(self)@ == old(self)@.repin(global_epoch@),
    {
        proof {
            lemma_epoch_range(global_epoch);
        }
        if self.guard_count == 1 {
            self.epoch = global_epoch;
        }
    }

    /// Drops one handle. Returns whether nothing refers to the participant
    /// any more, so that it is to be deregistered.
    pub fn release_handle(&mut self) -> (unreferenced: bool)
        requires
            old(self).wf(),
            old(self)@.handle_count >= 1,
        ensures
            final(self)@ == old(self)@.release_handle(),
            unreferenced == final(self)@.unreferenced(),
            !unreferenced ==> final(self).wf(),
            final(self).limit() == old(self).limit(),
            unreferenced ==> final(self).wf_but_unreferenced(),
    {
        self.handle_count = self.handle_count - 1;
        self.guard_count == 0 && self.handle_count == 0
    }

    /// Defers `item`. Where the open batch is full, it is sealed at the
    /// participant's epoch and returned for publication, and `item` starts a
    /// new batch.
    pub fn defer(&mut self, item: T) -> (overflow: Option<SealedBag<T>>)
        requires
            old(self).wf(),
            old(self)@.registered,
        ensures
            final(self).wf(),
            final(self).limit() == old(self).limit(),
            final(self)@ == old(self)@.defer(item, old(self).limit()),
            old(self)@.bag_full(old(self).limit()) ==> overflow is Some && overflow->0@ == old(
                self,
            )@.sealed(old(self)@.epoch),
            !old(self)@.bag_full(old(self).limit()) ==> overflow is None,
    {
        match self.bag.push(item) {
            Ok(()) => None,
            Err(item) => {
                let mut full: Bag<T> = Bag::new(self.bag.capacity());
                core::mem::swap(&mut self.bag, &mut full);
                let sealed = full.seal(self.epoch);
                let _ = self.bag.push(item);
                Some(sealed)
            },
        }
    }

    /// Seals the open batch at `epoch` and returns it for publication; the
    /// participant goes on with an empty batch.
    pub fn take_bag(&mut self, epoch: Epoch) -> (sealed: SealedBag<T>)
        requires
            old(self).wf() || old(self).wf_but_unreferenced(),
        ensures
            old(self).wf() ==> final(self).wf(),
            final(self).limit() == old(self).limit(),
            old(self).wf_but_unreferenced() ==> final(self).wf_but_unreferenced(),
            final(self)@ == old(self)@.emptied(),
            sealed@ == old(self)@.sealed(epoch@),
    {
        let mut full: Bag<T> = Bag::new(self.bag.capacity());
        core::mem::swap(&mut self.bag, &mut full);
        full.seal(epoch)
    }

    /// Frees the slot of a participant that nothing refers to and whose open
    /// batch is empty.
    pub fn vacate(&mut self)
        requires
            old(self).wf_but_unreferenced(),
            old(self)@.bag.len() == 0,
        ensures
            final(self).wf(),
            final(self).limit() == old(self).limit(),
            final(self)@ == LocalState::<T>::vacant(),
    {
        self.registered = false;
        self.epoch = Epoch::starting();
        self.pin_count = 0;
        assert(self.bag@ =~= Seq::<T>::empty());
    }

    /// Claims a free slot for a participant that registers.
    pub fn occupy(&mut self)
        requires
            old(self).wf(),
            !old(self)@.registered,
        ensures
            final(self).wf(),
            final(self).limit() == old(self).limit(),
            final(self)@ == LocalState::<T>::fresh(),
    {
        self.registered = true;
        self.epoch = Epoch::starting();
        self.pin_count = 0;
        self.handle_count = 1;
        assert(self.bag@ =~= Seq::<T>::empty());
    }
}

} // verus!
