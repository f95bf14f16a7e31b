//! What holds of the engine whatever its participants do.

use crate::bag::expired;
use crate::bag::SealedView;
use crate::epoch::distance;
use crate::epoch::modulus;
use crate::epoch::next_value;
use crate::local::LocalState;
use crate::model::executed;
use crate::model::lately;
use crate::model::recent;
use crate::model::survivors;
use crate::model::GlobalState;
use vstd::prelude::*;

verus! {

/// The survivors of a queue with one more batch at its back are the
/// survivors of the queue, followed by that batch unless its grace period
/// is over.
pub proof fn lemma_survivors_push<T>(queue: Seq<SealedView<T>>, bag: SealedView<T>, global: int)
    ensures
        survivors(Seq::<SealedView<T>>::empty(), global) == Seq::<SealedView<T>>::empty(),
        survivors(queue.push(bag), global) == if expired(global, bag.epoch) {
            survivors(queue, global)
        } else {
            survivors(queue, global).push(bag)
        },
{
    let keep = |bag: SealedView<T>| !expired(global, bag.epoch);
    reveal(Seq::filter);
    assert(queue.push(bag).drop_last() =~= queue);
    assert(Seq::<SealedView<T>>::empty().filter(keep) =~= Seq::<SealedView<T>>::empty());
}

/// The executed items of a queue with one more batch at its back are those
/// of the queue, followed by the items of that batch where its grace period
/// is over.
pub proof fn lemma_executed_push<T>(queue: Seq<SealedView<T>>, bag: SealedView<T>, global: int)
    ensures
        executed(Seq::<SealedView<T>>::empty(), global) == Seq::<T>::empty(),
        executed(queue.push(bag), global) == if expired(global, bag.epoch) {
            executed(queue, global) + bag.items
        } else {
            executed(queue, global)
        },
{
    let over = |bag: SealedView<T>| expired(global, bag.epoch);
    let items = |bag: SealedView<T>| bag.items;
    reveal(Seq::filter);
    assert(queue.push(bag).drop_last() =~= queue);
    assert(Seq::<SealedView<T>>::empty().filter(over) =~= Seq::<SealedView<T>>::empty());
    assert(Seq::<SealedView<T>>::empty().map_values(items) =~= Seq::<Seq<T>>::empty());
    assert(Seq::<Seq<T>>::empty().flatten() =~= Seq::<T>::empty());
    if expired(global, bag.epoch) {
        let chosen = queue.filter(over);
        assert(chosen.push(bag).map_values(items) =~= chosen.map_values(items).push(bag.items));
        chosen.map_values(items).lemma_flatten_push(bag.items);
    }
}

/// Registration keeps the invariant.
pub proof fn lemma_register_keeps_invariant<T>(state: GlobalState<T>, slot: int)
    requires
        state.wf(),
        state.first_free(slot),
    ensures
        state.register(slot).wf(),
{
    let after = state.register(slot);
    assert forall|i: int| 0 <= i < after.locals.len() implies (#[trigger] after.locals[i]).wf(
        after.capacity,
    ) by {
        if i != slot {
            assert(state.locals[i].wf(state.capacity));
        }
    }
    assert forall|i: int| 0 <= i < after.locals.len() && (#[trigger] after.locals[i]).pinned
        implies recent(after.epoch, after.locals[i].epoch) by {
        if i != slot {
            assert(state.locals[i].pinned);
        }
    }
}

/// Replacing the entry of a slot by a well-formed one that, if pinned,
/// published the global epoch or the one before it keeps the invariant.
pub proof fn lemma_with_local_keeps_invariant<T>(
    state: GlobalState<T>,
    slot: int,
    local: LocalState<T>,
)
    requires
        state.wf(),
        0 <= slot < state.locals.len(),
        local.wf(state.capacity),
        local.pinned ==> recent(state.epoch, local.epoch),
    ensures
        state.with_local(slot, local).wf(),
{
    let after = state.with_local(slot, local);
    assert forall|i: int| 0 <= i < after.locals.len() implies (#[trigger] after.locals[i]).wf(
        after.capacity,
    ) by {
        if i != slot {
            assert(state.locals[i].wf(state.capacity));
        }
    }
    assert forall|i: int| 0 <= i < after.locals.len() && (#[trigger] after.locals[i]).pinned
        implies recent(after.epoch, after.locals[i].epoch) by {
        if i != slot {
            assert(state.locals[i].pinned);
        }
    }
    assert forall|j: int| 0 <= j < after.queue.len() implies 0 <= (#[trigger] after.queue[j]).epoch
        < modulus() && recent(after.epoch, after.queue[j].epoch) by {
        assert(state.queue[j].epoch == after.queue[j].epoch);
    }
}

/// Deregistering a participant keeps the invariant, whatever its slot held.
pub proof fn lemma_deregister_keeps_invariant<T>(state: GlobalState<T>, slot: int)
    requires
        state.with_local(slot, LocalState::vacant()).wf(),
        0 <= slot < state.locals.len(),
    ensures
        state.deregister(slot).wf(),
{
    let vacated = state.with_local(slot, LocalState::vacant());
    let bag = state.locals[slot].sealed(state.epoch);
    lemma_publish_keeps_invariant(vacated, bag);
    assert(state.deregister(slot) == vacated.publish(bag));
}

/// Dropping a guard or a handle keeps the invariant: the participant stays
/// where something still refers to it, and is deregistered otherwise.
pub proof fn lemma_settle_keeps_invariant<T>(state: GlobalState<T>, slot: int, local: LocalState<T>)
    requires
        state.wf(),
        0 <= slot < state.locals.len(),
        !local.unreferenced() ==> local.wf(state.capacity) && (local.pinned ==> recent(
            state.epoch,
            local.epoch,
        )),
    ensures
        state.settle(slot, local).wf(),
{
    if local.unreferenced() {
        let updated = state.with_local(slot, local);
        lemma_with_local_keeps_invariant(state, slot, LocalState::vacant());
        assert(updated.with_local(slot, LocalState::vacant()) == state.with_local(
            slot,
            LocalState::vacant(),
        )) by {
            assert(updated.locals.update(slot, LocalState::<T>::vacant()) =~= state.locals.update(
                slot,
                LocalState::<T>::vacant(),
            ));
        }
        lemma_deregister_keeps_invariant(updated, slot);
    } else {
        lemma_with_local_keeps_invariant(state, slot, local);
    }
}

/// Publishing a batch sealed at the global epoch or the one before it keeps
/// the invariant.
pub proof fn lemma_publish_keeps_invariant<T>(state: GlobalState<T>, bag: SealedView<T>)
    requires
        state.wf(),
        0 <= bag.epoch < modulus(),
        recent(state.epoch, bag.epoch),
    ensures
        state.publish(bag).wf(),
{
    let after = state.publish(bag);
    assert forall|j: int| 0 <= j < after.queue.len() implies 0 <= (#[trigger] after.queue[j]).epoch
        < modulus() && recent(after.epoch, after.queue[j].epoch) by {
        if j < state.queue.len() {
            assert(state.queue[j].epoch == after.queue[j].epoch);
        }
    }
}

/// One advance moves every epoch one step further back.
pub proof fn lemma_distance_after_advance(global: int, epoch: int)
    requires
        0 <= global < modulus(),
        0 <= epoch < modulus(),
        0 <= distance(global, epoch) <= 1,
    ensures
        distance(next_value(global), epoch) == distance(global, epoch) + 1,
        0 <= next_value(global) < modulus(),
{
}

/// An attempt to advance keeps the registry well formed, and leaves every
/// queued batch at most two advances old. With a snapshot that is no longer
/// the global epoch it changes nothing.
pub proof fn lemma_try_advance_keeps_registry<T>(state: GlobalState<T>, snapshot: int)
    requires
        state.wf(),
    ensures
        state.try_advance_from(snapshot).wf_advanced(),
        state.try_advance().wf_advanced(),
        snapshot != state.epoch ==> state.try_advance_from(snapshot) == state,
{
    lemma_advance_keeps_registry(state, snapshot);
    lemma_advance_keeps_registry(state, state.epoch);
}

/// An attempt to advance from one snapshot keeps the registry well formed.
proof fn lemma_advance_keeps_registry<T>(state: GlobalState<T>, snapshot: int)
    requires
        state.wf(),
    ensures
        state.try_advance_from(snapshot).wf_advanced(),
{
    let after = state.try_advance_from(snapshot);
    if state.quiescent_at(snapshot) && state.epoch == snapshot {
        lemma_distance_after_advance(state.epoch, state.epoch);
        assert forall|i: int| 0 <= i < after.locals.len() && (#[trigger] after.locals[i]).pinned
            implies recent(after.epoch, after.locals[i].epoch) by {
            assert(state.locals[i].pinned);
            lemma_distance_after_advance(state.epoch, state.locals[i].epoch);
        }
        assert forall|j: int| 0 <= j < after.queue.len() implies 0 <= (#[trigger] after.queue[j]).epoch
            < modulus() && lately(after.epoch, after.queue[j].epoch) by {
            assert(recent(state.epoch, state.queue[j].epoch));
            lemma_distance_after_advance(state.epoch, state.queue[j].epoch);
        }
    } else {
        assert(after == state);
        assert forall|j: int| 0 <= j < after.queue.len() implies 0 <= (#[trigger] after.queue[j]).epoch
            < modulus() && lately(after.epoch, after.queue[j].epoch) by {
            assert(recent(state.epoch, state.queue[j].epoch));
        }
    }
}

/// Executing the batches whose grace period is over restores the
/// invariant after an advance.
pub proof fn lemma_reclaim_restores_invariant<T>(state: GlobalState<T>)
    requires
        state.wf_advanced(),
    ensures
        state.reclaim().wf(),
{
    let after = state.reclaim();
    let keep = |bag: SealedView<T>| !expired(state.epoch, bag.epoch);
    assert forall|j: int| 0 <= j < after.queue.len() implies 0 <= (#[trigger] after.queue[j]).epoch
        < modulus() && recent(after.epoch, after.queue[j].epoch) by {
        state.queue.lemma_filter_pred(keep, j);
        assert(state.queue.filter(keep).contains(after.queue[j]));
        state.queue.lemma_filter_contains_rev(keep, after.queue[j]);
        let k = choose|k: int| 0 <= k < state.queue.len() && state.queue[k] == after.queue[j];
        assert(lately(state.epoch, state.queue[k].epoch));
    }
}

/// A collection keeps the invariant.
pub proof fn lemma_collect_keeps_invariant<T>(state: GlobalState<T>)
    requires
        state.wf(),
    ensures
        state.collect().wf(),
{
    lemma_try_advance_keeps_registry(state, state.epoch);
    lemma_reclaim_restores_invariant(state.try_advance());
}

/// A participant is pinned exactly while guards on it are outstanding.
pub proof fn lemma_pinned_iff_guarded<T>(state: GlobalState<T>, slot: int)
    requires
        state.wf(),
        0 <= slot < state.locals.len(),
    ensures
        state.locals[slot].pinned <==> state.locals[slot].guard_count > 0,
{
    assert(state.locals[slot].wf(state.capacity));
}

/// A pin adds one guard to the participant and leaves it pinned; the other
/// slots stay as they are.
pub proof fn lemma_pin_adds_guard<T>(state: GlobalState<T>, slot: int)
    requires
        state.wf(),
        state.occupied(slot),
    ensures
        state.pin(slot).locals.len() == state.locals.len(),
        state.pin(slot).locals[slot].guard_count == state.locals[slot].guard_count + 1,
        state.pin(slot).locals[slot].handle_count == state.locals[slot].handle_count,
        state.pin(slot).locals[slot].pinned,
        forall|i: int|
            0 <= i < state.locals.len() && i != slot ==> #[trigger] state.pin(slot).locals[i]
                == state.locals[i],
{
}

/// Dropping a guard takes one guard from the participant, which stays
/// pinned exactly if another guard is left; the other slots stay as they
/// are.
pub proof fn lemma_unpin_drops_guard<T>(state: GlobalState<T>, slot: int)
    requires
        state.wf(),
        state.has_guard(slot),
    ensures
        state.unpin(slot).locals.len() == state.locals.len(),
        state.unpin(slot).locals[slot].guard_count == state.locals[slot].guard_count - 1,
        state.unpin(slot).locals[slot].pinned <==> state.locals[slot].guard_count > 1,
        state.locals[slot].handle_count > 0 ==> state.unpin(slot).locals[slot].handle_count
            == state.locals[slot].handle_count,
        forall|i: int|
            0 <= i < state.locals.len() && i != slot ==> #[trigger] state.unpin(slot).locals[i]
                == state.locals[i],
{
    assert(state.locals[slot].wf(state.capacity));
}

/// The state after the participant in `slot` has gone through `steps`, in
/// order: `true` takes a guard, `false` drops one.
pub open spec fn after_steps<T>(state: GlobalState<T>, slot: int, steps: Seq<bool>) -> GlobalState<
    T,
>
    decreases steps.len(),
{
    if steps.len() == 0 {
        state
    } else {
        let before = after_steps(state, slot, steps.drop_last());
        if steps.last() {
            before.pin(slot)
        } else {
            before.unpin(slot)
        }
    }
}

/// The guards taken in `steps` less the guards dropped.
pub open spec fn outstanding(steps: Seq<bool>) -> int
    decreases steps.len(),
{
    if steps.len() == 0 {
        0
    } else {
        outstanding(steps.drop_last()) + if steps.last() {
            1int
        } else {
            -1int
        }
    }
}

/// Whether a participant with `depth` guards can go through `steps`: it
/// never drops a guard that it does not have, and never has more guards than
/// can be counted.
pub open spec fn admissible(depth: nat, steps: Seq<bool>) -> bool {
    forall|k: int|
        0 <= k <= steps.len() ==> 0 <= depth + #[trigger] outstanding(steps.take(k)) <= usize::MAX
}

/// Reentrancy: after any admissible sequence of pins and unpins through one
/// handle, the participant holds as many guards as were taken and not
/// dropped, and it is pinned exactly if that number is positive.
pub proof fn lemma_reentrancy<T>(state: GlobalState<T>, slot: int, steps: Seq<bool>)
    requires
        state.wf(),
        state.has_handle(slot),
        admissible(state.locals[slot].guard_count, steps),
    ensures
        after_steps(state, slot, steps).wf(),
        after_steps(state, slot, steps).has_handle(slot),
        after_steps(state, slot, steps).locals[slot].guard_count == state.locals[slot].guard_count
            + outstanding(steps),
        after_steps(state, slot, steps).locals[slot].pinned <==> state.locals[slot].guard_count
            + outstanding(steps) > 0,
    decreases steps.len(),
{
    let depth = state.locals[slot].guard_count;
    if steps.len() == 0 {
        lemma_pinned_iff_guarded(state, slot);
    } else {
        let earlier = steps.drop_last();
        assert forall|k: int| 0 <= k <= earlier.len() implies 0 <= depth + #[trigger] outstanding(
            earlier.take(k),
        ) <= usize::MAX by {
            assert(earlier.take(k) =~= steps.take(k));
        }
        lemma_reentrancy(state, slot, earlier);
        let before = after_steps(state, slot, earlier);
        assert(steps.take(steps.len() as int) =~= steps);
        assert(earlier.take(earlier.len() as int) =~= earlier);
        assert(0 <= depth + outstanding(steps.take(steps.len() as int)) <= usize::MAX);
        assert(0 <= depth + outstanding(earlier.take(earlier.len() as int)) <= usize::MAX);
        assert(before.locals[slot].wf(before.capacity));
        if steps.last() {
            lemma_pin_keeps_invariant(before, slot);
            lemma_pin_adds_guard(before, slot);
        } else {
            lemma_unpin_keeps_invariant(before, slot);
            lemma_unpin_drops_guard(before, slot);
        }
    }
}

/// A pin keeps the invariant.
pub proof fn lemma_pin_keeps_invariant<T>(state: GlobalState<T>, slot: int)
    requires
        state.wf(),
        state.occupied(slot),
        state.locals[slot].guard_count < usize::MAX,
    ensures
        state.pin(slot).wf(),
{
    assert(state.locals[slot].wf(state.capacity));
    let local = state.locals[slot].pin(state.epoch);
    lemma_with_local_keeps_invariant(state, slot, local);
    lemma_collect_keeps_invariant(state.with_local(slot, local));
}

/// Dropping a guard keeps the invariant.
pub proof fn lemma_unpin_keeps_invariant<T>(state: GlobalState<T>, slot: int)
    requires
        state.wf(),
        state.has_guard(slot),
    ensures
        state.unpin(slot).wf(),
{
    assert(state.locals[slot].wf(state.capacity));
    lemma_settle_keeps_invariant(state, slot, state.locals[slot].unpin());
}

/// Dropping a handle keeps the invariant.
pub proof fn lemma_release_keeps_invariant<T>(state: GlobalState<T>, slot: int)
    requires
        state.wf(),
        state.has_handle(slot),
    ensures
        state.release_handle(slot).wf(),
{
    assert(state.locals[slot].wf(state.capacity));
    lemma_settle_keeps_invariant(state, slot, state.locals[slot].release_handle());
}

/// Publishing the global epoch again keeps the invariant.
pub proof fn lemma_repin_keeps_invariant<T>(state: GlobalState<T>, slot: int)
    requires
        state.wf(),
        state.has_guard(slot),
    ensures
        state.repin(slot).wf(),
{
    assert(state.locals[slot].wf(state.capacity));
    lemma_with_local_keeps_invariant(state, slot, state.locals[slot].repin(state.epoch));
}

/// Deferring an item keeps the invariant.
pub proof fn lemma_defer_keeps_invariant<T>(state: GlobalState<T>, slot: int, item: T)
    requires
        state.wf(),
        state.has_guard(slot),
    ensures
        state.defer(slot, item).wf(),
{
    let local = state.locals[slot];
    assert(local.wf(state.capacity));
    assert(local.pinned);
    lemma_with_local_keeps_invariant(state, slot, local.defer(item, state.capacity));
    if local.bag_full(state.capacity) {
        lemma_publish_keeps_invariant(
            state.with_local(slot, local.defer(item, state.capacity)),
            local.sealed(local.epoch),
        );
    }
}

/// A flush keeps the invariant.
pub proof fn lemma_flush_keeps_invariant<T>(state: GlobalState<T>, slot: int)
    requires
        state.wf(),
        state.has_guard(slot),
    ensures
        state.flush(slot).wf(),
{
    let local = state.locals[slot];
    assert(local.wf(state.capacity));
    assert(local.pinned);
    lemma_with_local_keeps_invariant(state, slot, local.emptied());
    let published = state.with_local(slot, local.emptied()).publish(local.sealed(local.epoch));
    lemma_publish_keeps_invariant(state.with_local(slot, local.emptied()), local.sealed(local.epoch));
    lemma_collect_keeps_invariant(published);
}

/// The grace period: when a batch sealed at epoch `sealed` may be executed,
/// every pinned participant published an epoch later than `sealed`, so none
/// has been pinned since the batch was sealed.
pub proof fn lemma_grace_period<T>(state: GlobalState<T>, slot: int, sealed: int)
    requires
        state.wf(),
        0 <= slot < state.locals.len(),
        state.locals[slot].pinned,
        0 <= sealed < modulus(),
        expired(state.epoch, sealed),
    ensures
        distance(state.locals[slot].epoch, sealed) >= 1,
{
    assert(state.locals[slot].wf(state.capacity));
    assert(recent(state.epoch, state.locals[slot].epoch));
}

/// No early reclamation: a collection leaves in the queue every batch that
/// the global epoch has not passed by two advances, and executes the items
/// of the others and nothing else.
pub proof fn lemma_no_early_reclamation<T>(state: GlobalState<T>, j: int)
    requires
        state.wf(),
        0 <= j < state.queue.len(),
    ensures
        !expired(state.collect().epoch, state.queue[j].epoch) ==> state.collect().queue.contains(
            state.queue[j],
        ),
        state.collect().reclaimed == state.reclaimed + executed(
            state.queue,
            state.collect().epoch,
        ),
{
    let advanced = state.try_advance();
    let keep = |bag: SealedView<T>| !expired(advanced.epoch, bag.epoch);
    if !expired(advanced.epoch, state.queue[j].epoch) {
        advanced.queue.lemma_filter_contains(keep, j);
    }
}

/// Every executed item comes from a batch whose grace period is over.
pub proof fn lemma_executed_from_expired<T>(queue: Seq<SealedView<T>>, global: int, item: T)
    requires
        executed(queue, global).contains(item),
    ensures
        exists|j: int|
            0 <= j < queue.len() && expired(global, (#[trigger] queue[j]).epoch)
                && queue[j].items.contains(item),
    decreases queue.len(),
{
    if queue.len() == 0 {
        lemma_executed_push(queue, arbitrary(), global);
        assert(queue =~= Seq::<SealedView<T>>::empty());
    } else {
        let earlier = queue.drop_last();
        let bag = queue.last();
        assert(earlier.push(bag) =~= queue);
        lemma_executed_push(earlier, bag, global);
        if executed(earlier, global).contains(item) {
            lemma_executed_from_expired(earlier, global, item);
            let j = choose|j: int|
                0 <= j < earlier.len() && expired(global, (#[trigger] earlier[j]).epoch)
                    && earlier[j].items.contains(item);
            assert(queue[j] == earlier[j]);
        } else {
            let all = executed(queue, global);
            let k = choose|k: int| 0 <= k < all.len() && all[k] == item;
            assert(expired(global, bag.epoch));
            assert(k >= executed(earlier, global).len()) by {
                if k < executed(earlier, global).len() {
                    assert(executed(earlier, global)[k] == item);
                }
            }
            assert(bag.items[k - executed(earlier, global).len()] == item);
            assert(queue[queue.len() - 1] == bag);
        }
    }
}

/// Flush completeness: right after a flush the open batch of the
/// participant is empty, and the batch it held is what was published.
pub proof fn lemma_flush_empties_bag<T>(state: GlobalState<T>, slot: int)
    requires
        state.wf(),
        state.has_guard(slot),
    ensures
        state.flush(slot).locals[slot].bag == Seq::<T>::empty(),
        state.flush(slot).locals.len() == state.locals.len(),
{
}

/// Registry integrity on registration: the slot was free, no other slot
/// changes, the new participant is not pinned, and whether the global epoch
/// can advance does not depend on what the slot held before.
pub proof fn lemma_register_integrity<T>(state: GlobalState<T>, slot: int)
    requires
        state.wf(),
        state.first_free(slot),
    ensures
        !state.occupied(slot),
        state.register(slot).occupied(slot),
        state.register(slot).locals[slot] == LocalState::<T>::fresh(),
        !state.register(slot).locals[slot].pinned,
        state.register(slot).locals.len() >= state.locals.len(),
        forall|i: int|
            0 <= i < state.locals.len() && i != slot ==> #[trigger] state.register(slot).locals[i]
                == state.locals[i],
        state.register(slot).can_advance() == state.can_advance(),
        state.register(slot).queue == state.queue,
        state.register(slot).epoch == state.epoch,
{
    let after = state.register(slot);
    if slot < state.locals.len() {
        assert(state.locals[slot].wf(state.capacity));
    }
    if state.can_advance() {
        assert forall|i: int| 0 <= i < after.locals.len() && (#[trigger] after.locals[i]).pinned
            implies after.locals[i].epoch == after.epoch by {
            assert(state.locals[i].pinned);
        }
    }
    if after.can_advance() {
        assert forall|i: int| 0 <= i < state.locals.len() && (#[trigger] state.locals[i]).pinned
            implies state.locals[i].epoch == state.epoch by {
            assert(state.locals[i].wf(state.capacity));
            assert(after.locals[i].pinned);
        }
    }
}

/// Registry integrity on deregistration: the slot becomes free, no other
/// slot changes, and the open batch of the participant is at the back of
/// the queue.
pub proof fn lemma_deregister_integrity<T>(state: GlobalState<T>, slot: int)
    requires
        0 <= slot < state.locals.len(),
    ensures
        !state.deregister(slot).occupied(slot),
        state.deregister(slot).locals[slot] == LocalState::<T>::vacant(),
        state.deregister(slot).locals.len() == state.locals.len(),
        forall|i: int|
            0 <= i < state.locals.len() && i != slot ==> #[trigger] state.deregister(slot).locals[i]
                == state.locals[i],
        state.deregister(slot).queue == state.queue.push(state.locals[slot].sealed(state.epoch)),
{
}

/// A slot is occupied exactly while a handle or a guard refers to its
/// participant, and a slot that is free holds nothing: it is not pinned and
/// its batch is empty.
pub proof fn lemma_occupied_iff_referenced<T>(state: GlobalState<T>, slot: int)
    requires
        state.wf(),
        0 <= slot < state.locals.len(),
    ensures
        state.occupied(slot) <==> state.has_handle(slot) || state.has_guard(slot),
        !state.occupied(slot) ==> !state.locals[slot].pinned && state.locals[slot].bag.len() == 0,
{
    assert(state.locals[slot].wf(state.capacity));
}

} // verus!
