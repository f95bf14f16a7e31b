//! Every deferred item is executed once: no operation of the engine loses
//! or repeats an item.

use crate::bag::expired;
use crate::bag::SealedView;
use crate::laws::lemma_executed_push;
use crate::laws::lemma_survivors_push;
use crate::local::LocalState;
use crate::model::executed;
use crate::model::open_items;
use crate::model::queued_items;
use crate::model::survivors;
use crate::model::GlobalState;
use vstd::prelude::*;
use vstd::seq_lib::lemma_multiset_commutative;

verus! {

broadcast use {vstd::multiset::group_multiset_axioms, vstd::seq_lib::group_to_multiset_ensures};

/// A batch at the back of the queue adds its items to those of the queue.
pub proof fn lemma_queued_items_push<T>(queue: Seq<SealedView<T>>, bag: SealedView<T>)
    ensures
        queued_items(queue.push(bag)) == queued_items(queue).add(bag.items.to_multiset()),
{
    assert(queue.push(bag).drop_last() =~= queue);
}

/// A slot at the end of the registry adds the items of its open batch.
pub proof fn lemma_open_items_push<T>(locals: Seq<LocalState<T>>, local: LocalState<T>)
    ensures
        open_items(locals.push(local)) == open_items(locals).add(local.bag.to_multiset()),
{
    assert(locals.push(local).drop_last() =~= locals);
}

/// Replacing the entry of a slot exchanges the items of its open batch for
/// those of the new entry.
pub proof fn lemma_open_items_update<T>(locals: Seq<LocalState<T>>, slot: int, local: LocalState<T>)
    requires
        0 <= slot < locals.len(),
    ensures
        open_items(locals.update(slot, local)).add(locals[slot].bag.to_multiset()) == open_items(
            locals,
        ).add(local.bag.to_multiset()),
        forall|item: T|
            #[trigger] open_items(locals.update(slot, local)).count(item)
                + locals[slot].bag.to_multiset().count(item) == open_items(locals).count(item)
                + local.bag.to_multiset().count(item),
    decreases locals.len(),
{
    let updated = locals.update(slot, local);
    assert(open_items(updated) == open_items(updated.drop_last()).add(
        updated.last().bag.to_multiset(),
    ));
    assert(open_items(locals) == open_items(locals.drop_last()).add(
        locals.last().bag.to_multiset(),
    ));
    if slot == locals.len() - 1 {
        assert(updated.drop_last() =~= locals.drop_last());
    } else {
        assert(updated.drop_last() =~= locals.drop_last().update(slot, local));
        lemma_open_items_update(locals.drop_last(), slot, local);
    }
    assert forall|item: T|
        #[trigger] open_items(updated).count(item) + locals[slot].bag.to_multiset().count(item)
            == open_items(locals).count(item) + local.bag.to_multiset().count(item) by {
        if slot != locals.len() - 1 {
            assert(open_items(updated.drop_last()).count(item)
                + locals[slot].bag.to_multiset().count(item) == open_items(
                locals.drop_last(),
            ).count(item) + local.bag.to_multiset().count(item));
        }
    }
    assert(open_items(updated).add(locals[slot].bag.to_multiset()) =~= open_items(locals).add(
        local.bag.to_multiset(),
    ));
}

/// The batches that stay in the queue and the executed items are together
/// the items of the queue.
pub proof fn lemma_reclaim_splits_queue<T>(queue: Seq<SealedView<T>>, global: int)
    ensures
        queued_items(survivors(queue, global)).add(executed(queue, global).to_multiset())
            == queued_items(queue),
    decreases queue.len(),
{
    if queue.len() == 0 {
        lemma_survivors_push(queue, arbitrary(), global);
        lemma_executed_push(queue, arbitrary(), global);
        assert(queue =~= Seq::<SealedView<T>>::empty());
        assert(queued_items(survivors(queue, global)).add(executed(queue, global).to_multiset())
            =~= queued_items(queue));
    } else {
        let earlier = queue.drop_last();
        let bag = queue.last();
        assert(earlier.push(bag) =~= queue);
        lemma_survivors_push(earlier, bag, global);
        lemma_executed_push(earlier, bag, global);
        lemma_reclaim_splits_queue(earlier, global);
        if expired(global, bag.epoch) {
            lemma_multiset_commutative(executed(earlier, global), bag.items);
        } else {
            lemma_queued_items_push(survivors(earlier, global), bag);
        }
        assert(queued_items(survivors(queue, global)).add(executed(queue, global).to_multiset())
            =~= queued_items(queue));
    }
}

/// A collection neither loses nor repeats an item: what it executes is
/// what leaves the queue.
pub proof fn lemma_collect_conserves<T>(state: GlobalState<T>)
    ensures
        state.collect().held() == state.held(),
        state.try_advance().held() == state.held(),
        state.reclaim().held() == state.held(),
{
    let advanced = state.try_advance();
    lemma_reclaim_splits_queue(state.queue, advanced.epoch);
    lemma_reclaim_splits_queue(state.queue, state.epoch);
    lemma_multiset_commutative(state.reclaimed, executed(state.queue, advanced.epoch));
    lemma_multiset_commutative(state.reclaimed, executed(state.queue, state.epoch));
    assert(state.collect().held() =~= state.held());
    assert(state.reclaim().held() =~= state.held());
}

/// Deferring an item adds that item to the pending ones, once, and changes
/// nothing else.
pub proof fn lemma_defer_conserves<T>(state: GlobalState<T>, slot: int, item: T)
    requires
        0 <= slot < state.locals.len(),
    ensures
        state.defer(slot, item).held() == state.held().insert(item),
        state.defer(slot, item).pending() == state.pending().insert(item),
{
    let local = state.locals[slot];
    let after = local.defer(item, state.capacity);
    lemma_open_items_update(state.locals, slot, after);
    if local.bag_full(state.capacity) {
        lemma_queued_items_push(state.queue, local.sealed(local.epoch));
        assert(after.bag =~= Seq::<T>::empty().push(item));
    }
    assert(state.defer(slot, item).pending() =~= state.pending().insert(item));
    assert(state.defer(slot, item).held() =~= state.held().insert(item));
}

/// A flush neither loses nor repeats an item.
pub proof fn lemma_flush_conserves<T>(state: GlobalState<T>, slot: int)
    requires
        0 <= slot < state.locals.len(),
    ensures
        state.flush(slot).held() == state.held(),
{
    let local = state.locals[slot];
    let published = state.with_local(slot, local.emptied()).publish(local.sealed(local.epoch));
    lemma_open_items_update(state.locals, slot, local.emptied());
    lemma_queued_items_push(state.queue, local.sealed(local.epoch));
    assert(published.held() =~= state.held());
    lemma_collect_conserves(published);
}

/// Deregistering a participant neither loses nor repeats an item: its open
/// batch goes to the queue.
pub proof fn lemma_deregister_conserves<T>(state: GlobalState<T>, slot: int)
    requires
        0 <= slot < state.locals.len(),
    ensures
        state.deregister(slot).held() == state.held(),
{
    lemma_open_items_update(state.locals, slot, LocalState::vacant());
    lemma_queued_items_push(state.queue, state.locals[slot].sealed(state.epoch));
    assert(state.deregister(slot).held() =~= state.held());
}

/// Replacing the entry of a slot by one with the same open batch neither
/// loses nor repeats an item, whether or not the participant is
/// deregistered by it.
pub proof fn lemma_settle_conserves<T>(state: GlobalState<T>, slot: int, local: LocalState<T>)
    requires
        0 <= slot < state.locals.len(),
        local.bag == state.locals[slot].bag,
    ensures
        state.with_local(slot, local).held() == state.held(),
        state.settle(slot, local).held() == state.held(),
{
    lemma_open_items_update(state.locals, slot, local);
    assert(state.with_local(slot, local).held() =~= state.held());
    lemma_deregister_conserves(state.with_local(slot, local), slot);
}

/// Pinning, unpinning, publishing the epoch again and dropping a handle
/// neither lose nor repeat an item.
pub proof fn lemma_pinning_conserves<T>(state: GlobalState<T>, slot: int)
    requires
        0 <= slot < state.locals.len(),
    ensures
        state.pin(slot).held() == state.held(),
        state.unpin(slot).held() == state.held(),
        state.repin(slot).held() == state.held(),
        state.release_handle(slot).held() == state.held(),
{
    let local = state.locals[slot];
    lemma_settle_conserves(state, slot, local.pin(state.epoch));
    lemma_collect_conserves(state.with_local(slot, local.pin(state.epoch)));
    lemma_settle_conserves(state, slot, local.unpin());
    lemma_settle_conserves(state, slot, local.repin(state.epoch));
    lemma_settle_conserves(state, slot, local.release_handle());
}

/// Registration neither loses nor repeats an item.
pub proof fn lemma_register_conserves<T>(state: GlobalState<T>, slot: int)
    requires
        state.wf(),
        state.first_free(slot),
    ensures
        state.register(slot).held() == state.held(),
{
    if slot < state.locals.len() {
        assert(state.locals[slot].wf(state.capacity));
        assert(state.locals[slot].bag =~= Seq::<T>::empty());
        lemma_open_items_update(state.locals, slot, LocalState::fresh());
    } else {
        lemma_open_items_push(state.locals, LocalState::fresh());
    }
    assert(state.register(slot).held() =~= state.held());
}

/// Taking the executed items hands over exactly those items: together with
/// what the engine still holds they are what it held.
pub proof fn lemma_drain_hands_over<T>(state: GlobalState<T>)
    ensures
        state.drained().held().add(state.reclaimed.to_multiset()) == state.held(),
        state.drained().pending() == state.pending(),
{
    assert(state.drained().held().add(state.reclaimed.to_multiset()) =~= state.held());
}

} // verus!
