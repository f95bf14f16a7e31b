//! Histories: what holds after any sequence of operations, whichever
//! participants they come from and however they are interleaved.

use crate::bag::expired;
use crate::bag::SealedView;
use crate::conservation::lemma_collect_conserves;
use crate::conservation::lemma_defer_conserves;
use crate::conservation::lemma_drain_hands_over;
use crate::conservation::lemma_flush_conserves;
use crate::conservation::lemma_pinning_conserves;
use crate::conservation::lemma_register_conserves;
use crate::epoch::next_value;
use crate::laws::lemma_collect_keeps_invariant;
use crate::laws::lemma_defer_keeps_invariant;
use crate::laws::lemma_distance_after_advance;
use crate::laws::lemma_executed_push;
use crate::laws::lemma_flush_keeps_invariant;
use crate::laws::lemma_pin_keeps_invariant;
use crate::laws::lemma_register_keeps_invariant;
use crate::laws::lemma_release_keeps_invariant;
use crate::laws::lemma_repin_keeps_invariant;
use crate::laws::lemma_unpin_keeps_invariant;
use crate::local::LocalState;
use crate::model::executed;
use crate::model::recent;
use crate::model::GlobalState;
use vstd::multiset::Multiset;
use vstd::prelude::*;

verus! {

broadcast use {vstd::multiset::group_multiset_axioms, vstd::seq_lib::group_to_multiset_ensures};

/// One operation on a collector.
pub enum Step<T> {
    /// A participant registers in the given slot.
    Register(int),
    /// The participant in the slot takes a guard.
    Pin(int),
    /// The participant in the slot drops a guard.
    Unpin(int),
    /// The participant in the slot publishes the global epoch again.
    Repin(int),
    /// The participant in the slot drops a handle.
    Release(int),
    /// The participant in the slot defers an item.
    Defer(int, T),
    /// The participant in the slot flushes.
    Flush(int),
    /// The participant in the slot runs a collection.
    Collect(int),
    /// The owner takes the executed items.
    Drain,
}

/// Whether `step` can be taken in `state`: the handle or the guard that it
/// goes through exists.
pub open spec fn enabled<T>(state: GlobalState<T>, step: Step<T>) -> bool {
    match step {
        Step::Register(slot) => state.first_free(slot),
        Step::Pin(slot) => state.has_handle(slot) && state.locals[slot].guard_count < usize::MAX,
        Step::Unpin(slot) => state.has_guard(slot),
        Step::Repin(slot) => state.has_guard(slot),
        Step::Release(slot) => state.has_handle(slot),
        Step::Defer(slot, _) => state.has_guard(slot),
        Step::Flush(slot) => state.has_guard(slot),
        Step::Collect(slot) => state.has_guard(slot),
        Step::Drain => true,
    }
}

/// The state after `step`.
pub open spec fn next<T>(state: GlobalState<T>, step: Step<T>) -> GlobalState<T> {
    match step {
        Step::Register(slot) => state.register(slot),
        Step::Pin(slot) => state.pin(slot),
        Step::Unpin(slot) => state.unpin(slot),
        Step::Repin(slot) => state.repin(slot),
        Step::Release(slot) => state.release_handle(slot),
        Step::Defer(slot, item) => state.defer(slot, item),
        Step::Flush(slot) => state.flush(slot),
        Step::Collect(_) => state.collect(),
        Step::Drain => state.drained(),
    }
}

/// The state after `steps`, taken in order from `state`.
pub open spec fn run<T>(state: GlobalState<T>, steps: Seq<Step<T>>) -> GlobalState<T>
    decreases steps.len(),
{
    if steps.len() == 0 {
        state
    } else {
        next(run(state, steps.drop_last()), steps.last())
    }
}

/// Whether `steps` can be taken in order from `state`.
pub open spec fn possible<T>(state: GlobalState<T>, steps: Seq<Step<T>>) -> bool
    decreases steps.len(),
{
    steps.len() == 0 || (possible(state, steps.drop_last()) && enabled(
        run(state, steps.drop_last()),
        steps.last(),
    ))
}

/// The items that `step` defers.
pub open spec fn deferred_by<T>(step: Step<T>) -> Multiset<T> {
    match step {
        Step::Defer(_, item) => Multiset::singleton(item),
        _ => Multiset::empty(),
    }
}

/// The items that `step` hands to the owner when it is taken in `state`.
pub open spec fn taken_by<T>(state: GlobalState<T>, step: Step<T>) -> Multiset<T> {
    match step {
        Step::Drain => state.reclaimed.to_multiset(),
        _ => Multiset::empty(),
    }
}

/// The items that `steps` defer, each as often as it is deferred.
pub open spec fn deferred<T>(steps: Seq<Step<T>>) -> Multiset<T>
    decreases steps.len(),
{
    if steps.len() == 0 {
        Multiset::empty()
    } else {
        deferred(steps.drop_last()).add(deferred_by(steps.last()))
    }
}

/// The items that `steps`, taken from `state`, hand to the owner, each as
/// often as it is handed over.
pub open spec fn taken<T>(state: GlobalState<T>, steps: Seq<Step<T>>) -> Multiset<T>
    decreases steps.len(),
{
    if steps.len() == 0 {
        Multiset::empty()
    } else {
        taken(state, steps.drop_last()).add(
            taken_by(run(state, steps.drop_last()), steps.last()),
        )
    }
}

/// Every operation keeps the invariant.
pub proof fn lemma_step_keeps_invariant<T>(state: GlobalState<T>, step: Step<T>)
    requires
        state.wf(),
        enabled(state, step),
    ensures
        next(state, step).wf(),
{
    match step {
        Step::Register(slot) => lemma_register_keeps_invariant(state, slot),
        Step::Pin(slot) => {
            assert(state.locals[slot].wf(state.capacity));
            lemma_pin_keeps_invariant(state, slot)
        },
        Step::Unpin(slot) => lemma_unpin_keeps_invariant(state, slot),
        Step::Repin(slot) => lemma_repin_keeps_invariant(state, slot),
        Step::Release(slot) => lemma_release_keeps_invariant(state, slot),
        Step::Defer(slot, item) => lemma_defer_keeps_invariant(state, slot, item),
        Step::Flush(slot) => lemma_flush_keeps_invariant(state, slot),
        Step::Collect(_) => lemma_collect_keeps_invariant(state),
        Step::Drain => {
            assert(state.drained().locals == state.locals);
        },
    }
}

/// The invariant holds after every history.
pub proof fn lemma_invariant_throughout<T>(state: GlobalState<T>, steps: Seq<Step<T>>)
    requires
        state.wf(),
        possible(state, steps),
    ensures
        run(state, steps).wf(),
    decreases steps.len(),
{
    if steps.len() > 0 {
        lemma_invariant_throughout(state, steps.drop_last());
        lemma_step_keeps_invariant(run(state, steps.drop_last()), steps.last());
    }
}

/// The life of a participant: a free slot becomes occupied only by a
/// registration in it, which leaves the participant unpinned; an occupied
/// slot becomes free only when the last handle or the last guard of its
/// participant is dropped and nothing else refers to it; and a slot that
/// becomes free holds nothing.
pub proof fn lemma_participant_life<T>(state: GlobalState<T>, step: Step<T>, slot: int)
    requires
        state.wf(),
        enabled(state, step),
        0 <= slot < next(state, step).locals.len(),
    ensures
        !state.occupied(slot) && next(state, step).occupied(slot) ==> step == Step::<T>::Register(
            slot,
        ) && next(state, step).locals[slot] == LocalState::<T>::fresh(),
        state.occupied(slot) && !next(state, step).occupied(slot) ==> {
            &&& next(state, step).locals[slot] == LocalState::<T>::vacant()
            &&& !state.locals[slot].pinned || state.locals[slot].guard_count == 1
            &&& {
                ||| step == Step::<T>::Unpin(slot) && state.locals[slot].guard_count == 1
                    && state.locals[slot].handle_count == 0
                ||| step == Step::<T>::Release(slot) && state.locals[slot].guard_count == 0
                    && state.locals[slot].handle_count == 1
            }
        },
{
    if slot < state.locals.len() {
        assert(state.locals[slot].wf(state.capacity));
    }
    match step {
        Step::Register(at) => {
            if at < state.locals.len() {
                assert(state.locals[at].wf(state.capacity));
            }
        },
        Step::Pin(at) => {
            assert(state.locals[at].wf(state.capacity));
        },
        Step::Unpin(at) => {
            assert(state.locals[at].wf(state.capacity));
        },
        Step::Repin(at) => {
            assert(state.locals[at].wf(state.capacity));
        },
        Step::Release(at) => {
            assert(state.locals[at].wf(state.capacity));
        },
        Step::Defer(at, _) => {
            assert(state.locals[at].wf(state.capacity));
        },
        Step::Flush(at) => {
            assert(state.locals[at].wf(state.capacity));
        },
        Step::Collect(_) => {},
        Step::Drain => {},
    }
}

/// The global epoch never goes back: an operation leaves it where it is or
/// advances it by one.
pub proof fn lemma_epoch_advances_by_one<T>(state: GlobalState<T>, step: Step<T>)
    ensures
        next(state, step).epoch == state.epoch || next(state, step).epoch == next_value(
            state.epoch,
        ),
{
}

/// Between operations no queued batch may be executed: nothing is executed
/// without an advance.
pub proof fn lemma_nothing_expired_at_rest<T>(queue: Seq<SealedView<T>>, global: int)
    requires
        forall|j: int| 0 <= j < queue.len() ==> recent(global, (#[trigger] queue[j]).epoch),
    ensures
        executed(queue, global) == Seq::<T>::empty(),
    decreases queue.len(),
{
    if queue.len() == 0 {
        lemma_executed_push(queue, arbitrary(), global);
        assert(queue =~= Seq::<SealedView<T>>::empty());
    } else {
        let earlier = queue.drop_last();
        assert(earlier.push(queue.last()) =~= queue);
        assert forall|j: int| 0 <= j < earlier.len() implies recent(
            global,
            (#[trigger] earlier[j]).epoch,
        ) by {
            assert(earlier[j] == queue[j]);
        }
        lemma_nothing_expired_at_rest(earlier, global);
        lemma_executed_push(earlier, queue.last(), global);
        assert(recent(global, queue[queue.len() - 1].epoch));
    }
}

/// No early reclamation, for every operation: what an operation executes
/// are the items of the batches that were queued before it and that the
/// global epoch, as the operation leaves it, has passed by two advances.
/// Nothing else is ever executed, and a batch is never executed by the
/// operation that publishes it.
pub proof fn lemma_step_executes_only_expired<T>(state: GlobalState<T>, step: Step<T>)
    requires
        state.wf(),
        enabled(state, step),
        !(step is Drain),
    ensures
        next(state, step).reclaimed == state.reclaimed + executed(
            state.queue,
            next(state, step).epoch,
        ),
{
    lemma_nothing_expired_at_rest(state.queue, state.epoch);
    assert(state.reclaimed + Seq::<T>::empty() =~= state.reclaimed);
    match step {
        Step::Flush(slot) => {
            let local = state.locals[slot];
            let bag = local.sealed(local.epoch);
            let published = state.with_local(slot, local.emptied()).publish(bag);
            let advanced = published.try_advance();
            assert(local.wf(state.capacity));
            assert(published.locals[slot].pinned);
            if published.can_advance() {
                assert(published.locals[slot].epoch == published.epoch);
                lemma_distance_after_advance(state.epoch, local.epoch);
            }
            assert(!expired(advanced.epoch, bag.epoch));
            lemma_executed_push(state.queue, bag, advanced.epoch);
        },
        _ => {},
    }
}

/// Every operation conserves the items: what the engine holds after it,
/// with what it handed to the owner, is what the engine held before it,
/// with what it deferred.
pub proof fn lemma_step_conserves<T>(state: GlobalState<T>, step: Step<T>)
    requires
        state.wf(),
        enabled(state, step),
    ensures
        next(state, step).held().add(taken_by(state, step)) == state.held().add(deferred_by(step)),
{
    match step {
        Step::Register(slot) => lemma_register_conserves(state, slot),
        Step::Pin(slot) => lemma_pinning_conserves(state, slot),
        Step::Unpin(slot) => lemma_pinning_conserves(state, slot),
        Step::Repin(slot) => lemma_pinning_conserves(state, slot),
        Step::Release(slot) => lemma_pinning_conserves(state, slot),
        Step::Defer(slot, item) => lemma_defer_conserves(state, slot, item),
        Step::Flush(slot) => lemma_flush_conserves(state, slot),
        Step::Collect(_) => lemma_collect_conserves(state),
        Step::Drain => lemma_drain_hands_over(state),
    }
    assert(next(state, step).held().add(taken_by(state, step)) =~= state.held().add(
        deferred_by(step),
    ));
}

/// Exactly once: after every history, each item that was deferred is in one
/// place, as often as it was deferred: still pending, executed and waiting
/// for the owner, or handed to the owner. None is lost and none is executed
/// twice.
pub proof fn lemma_exactly_once<T>(state: GlobalState<T>, steps: Seq<Step<T>>)
    requires
        state.wf(),
        possible(state, steps),
    ensures
        run(state, steps).held().add(taken(state, steps)) == state.held().add(deferred(steps)),
    decreases steps.len(),
{
    if steps.len() == 0 {
        assert(run(state, steps).held().add(taken(state, steps)) =~= state.held().add(
            deferred(steps),
        ));
    } else {
        let earlier = steps.drop_last();
        let before = run(state, earlier);
        lemma_exactly_once(state, earlier);
        lemma_invariant_throughout(state, earlier);
        lemma_step_conserves(before, steps.last());
        let step = steps.last();
        assert forall|item: T|
            run(state, steps).held().add(taken(state, steps)).count(item) == state.held().add(
                deferred(steps),
            ).count(item) by {
            assert(before.held().add(taken(state, earlier)).count(item) == state.held().add(
                deferred(earlier),
            ).count(item));
            assert(next(before, step).held().add(taken_by(before, step)).count(item)
                == before.held().add(deferred_by(step)).count(item));
        }
        assert(run(state, steps).held().add(taken(state, steps)) =~= state.held().add(
            deferred(steps),
        ));
    }
}

/// A history that starts with a new collector: the items that were
/// deferred are exactly the pending ones, the executed ones and the ones
/// handed to the owner.
pub proof fn lemma_exactly_once_from_start<T>(capacity: nat, steps: Seq<Step<T>>)
    requires
        capacity >= 1,
        possible(GlobalState::<T>::starting(capacity), steps),
    ensures
        run(GlobalState::<T>::starting(capacity), steps).held().add(
            taken(GlobalState::<T>::starting(capacity), steps),
        ) == deferred(steps),
{
    let start = GlobalState::<T>::starting(capacity);
    lemma_exactly_once(start, steps);
    assert(start.held() =~= Multiset::<T>::empty());
    assert(start.held().add(deferred(steps)) =~= deferred(steps));
}

} // verus!
