//! The default collector and the ambient handle of a thread.
//!
//! The default collector is created on its first use. A thread's handle is
//! registered with it on the thread's first use and released when the
//! thread's storage is torn down; a thread that asks for its handle after
//! that is served by a handle that lives for that one request.

use crate::collector::Collector;
use crate::collector::LocalHandle;
use crate::global::DEFAULT_BAG_CAPACITY;
use crate::guard::Guard;
use crate::model::GlobalState;
use vstd::prelude::*;

verus! {

/// The place of the default collector: empty until its first use.
#[derive(Debug)]
pub struct DefaultCollector<T> {
    cell: Option<Collector<T>>,
}

impl<T> View for DefaultCollector<T> {
    type V = GlobalState<T>;

    /// The state of the default collector: that of a new collector until it
    /// is created.
    closed spec fn view(&self) -> GlobalState<T> {
        match self.cell {
            Some(collector) => collector@,
            None => GlobalState::starting(DEFAULT_BAG_CAPACITY as nat),
        }
    }
}

impl<T> DefaultCollector<T> {
    /// The invariant of the default collector, once it is created.
    pub closed spec fn wf(&self) -> bool {
        match self.cell {
            Some(collector) => collector.wf(),
            None => true,
        }
    }

    /// Whether the default collector has been created.
    pub closed spec fn created(&self) -> bool {
        self.cell is Some
    }

    /// The place of a default collector that is not created yet.
    pub fn new() -> (place: Self)
        ensures
            place.wf(),
            !place.created(),
            place@ == GlobalState::<T>::starting(DEFAULT_BAG_CAPACITY as nat),
    {
        DefaultCollector { cell: None }
    }

    /// Whether the default collector has been created.
    pub fn is_created(&self) -> (created: bool)
        ensures
            created == self.created(),
    {
        self.cell.is_some()
    }
}

/// The storage of a thread's ambient handle.
#[derive(Debug)]
pub enum ThreadHandle {
    /// The thread has not used its handle yet.
    Uninit,
    /// The thread's handle.
    Live(LocalHandle),
    /// The storage has been torn down.
    Destroyed,
}

impl ThreadHandle {
    /// The thread's handle, if it has one, is a handle of a participant of
    /// the collector in `state`.
    pub open spec fn wf<T>(self, state: GlobalState<T>) -> bool {
        self matches ThreadHandle::Live(handle) ==> state.has_handle(handle@)
    }

    /// The storage of a thread that has not used its handle yet.
    pub fn new() -> (thread: ThreadHandle)
        ensures
            thread == ThreadHandle::Uninit,
    {
        ThreadHandle::Uninit
    }

    /// Tears the storage down, as at the exit of the thread: the thread's
    /// handle, if it has one, is released.
    pub fn teardown<T>(&mut self, place: &mut DefaultCollector<T>)
        requires
            old(place).wf(),
            old(self).wf(old(place)@),
        ensures
            final(place).wf(),
            *final(self) == ThreadHandle::Destroyed,
            final(place)@ == (match *old(self) {
                ThreadHandle::Live(handle) => old(place)@.release_handle(handle@),
                _ => old(place)@,
            }),
    {
        let mut previous = ThreadHandle::Destroyed;
        core::mem::swap(self, &mut previous);
        match previous {
            ThreadHandle::Live(handle) => {
                let engine = collector(place);
                handle.release(engine);
            },
            _ => {},
        }
    }
}

/// The default collector, created by this call if it is the first use.
pub fn collector<T>(place: &mut DefaultCollector<T>) -> (collector: &mut Collector<T>)
    ensures
        collector@ == old(place)@,
        old(place).wf() ==> collector.wf(),
        final(place).created(),
        final(place)@ == final(collector)@,
        final(place).wf() == final(collector).wf(),
{
    if place.cell.is_none() {
        place.cell = Some(Collector::new());
    }
    match &mut place.cell {
        Some(collector) => collector,
        None => vstd::pervasive::unreached(),
    }
}

/// Returns the default global collector.
pub fn default_collector<T>(place: &mut DefaultCollector<T>) -> (collector: &mut Collector<T>)
    ensures
        collector@ == old(place)@,
        old(place).wf() ==> collector.wf(),
        final(place).created(),
        final(place)@ == final(collector)@,
        final(place).wf() == final(collector).wf(),
{
    collector(place)
}

/// The counter value of the global epoch of the default collector.
pub fn global_epoch<T>(place: &mut DefaultCollector<T>) -> (value: usize)
    ensures
        value as int == old(place)@.epoch,
        final(place)@ == old(place)@,
        old(place).wf() ==> final(place).wf(),
        final(place).created(),
{
    default_collector(place).global_epoch().value()
}

/// Finds the handle that serves a request of the thread. The result is
/// `None` where the thread's own handle serves it, which is registered by
/// this call if the thread has not used it yet. Where the thread's storage
/// has been torn down, the result is a handle registered for this request
/// alone, which the caller releases when the request is served.
pub fn with_handle<T>(place: &mut DefaultCollector<T>, thread: &mut ThreadHandle) -> (temporary:
    Option<LocalHandle>)
    requires
        old(place).wf(),
        old(thread).wf(old(place)@),
    ensures
        final(place).wf(),
        final(place).created(),
        final(thread).wf(final(place)@),
        match *old(thread) {
            ThreadHandle::Live(_) => {
                &&& temporary is None
                &&& *final(thread) == *old(thread)
                &&& final(place)@ == old(place)@
            },
            ThreadHandle::Uninit => {
                &&& temporary is None
                &&& *final(thread) matches ThreadHandle::Live(handle)
                &&& old(place)@.first_free(handle@)
                &&& final(place)@ == old(place)@.register(handle@)
            },
            ThreadHandle::Destroyed => {
                &&& temporary matches Some(handle)
                &&& *final(thread) == ThreadHandle::Destroyed
                &&& old(place)@.first_free(handle@)
                &&& final(place)@ == old(place)@.register(handle@)
            },
        },
{
    let engine = collector(place);
    match thread {
        ThreadHandle::Live(_) => None,
        ThreadHandle::Uninit => {
            let handle = engine.register();
            *thread = ThreadHandle::Live(handle);
            None
        },
        ThreadHandle::Destroyed => Some(engine.register()),
    }
}

/// Enters a critical section: pins the calling thread with its ambient
/// handle and returns the guard. A thread whose storage has been torn down
/// is pinned through a handle that is registered for this call and released
/// before it returns; its participant lives as long as the guard.
pub fn cs<T>(place: &mut DefaultCollector<T>, thread: &mut ThreadHandle) -> (guard: Guard)
    requires
        old(place).wf(),
        old(thread).wf(old(place)@),
        *old(thread) matches ThreadHandle::Live(handle) ==> old(place)@.locals[handle@].guard_count
            < usize::MAX,
    ensures
        final(place).wf(),
        final(place).created(),
        final(thread).wf(final(place)@),
        match *old(thread) {
            ThreadHandle::Live(handle) => {
                &&& guard@ == handle@
                &&& *final(thread) == *old(thread)
                &&& final(place)@ == old(place)@.pin(guard@)
            },
            ThreadHandle::Uninit => {
                &&& *final(thread) matches ThreadHandle::Live(handle)
                &&& guard@ == handle@
                &&& old(place)@.first_free(guard@)
                &&& final(place)@ == old(place)@.register(guard@).pin(guard@)
            },
            ThreadHandle::Destroyed => {
                &&& *final(thread) == ThreadHandle::Destroyed
                &&& old(place)@.first_free(guard@)
                &&& final(place)@ == old(place)@.register(guard@).pin(guard@).release_handle(
                    guard@,
                )
            },
        },
{
    let temporary = with_handle(place, thread);
    let engine = collector(place);
    match temporary {
        Some(handle) => {
            let guard = handle.pin(engine);
            handle.release(engine);
            guard
        },
        None => match thread {
            ThreadHandle::Live(handle) => handle.pin(engine),
            _ => vstd::pervasive::unreached(),
        },
    }
}

} // verus!
