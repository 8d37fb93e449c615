//! The activation gate: for each thread, whether its file calls are to be
//! served by the store. A thread is active while it is inside a scope that
//! it entered, and at no other time.

use std::collections::HashMap;
use vstd::prelude::*;

verus! {

broadcast use vstd::std_specs::hash::group_hash_axioms;

/// A thread is active when the map holds it with `true`. A thread that the
/// map does not hold is inactive.
pub open spec fn active(flags: Map<u64, bool>, thread: u64) -> bool {
    flags.contains_key(thread) && flags[thread]
}

/// The flags of the threads that have entered a scope at some time.
pub struct ThreadActivationMap {
    flags: HashMap<u64, bool>,
}

impl View for ThreadActivationMap {
    type V = Map<u64, bool>;

    closed spec fn view(&self) -> Map<u64, bool> {
        self.flags@
    }
}

impl ThreadActivationMap {
    /// A map that holds no thread.
    pub fn new() -> (map: ThreadActivationMap)
        ensures
            map@ == Map::<u64, bool>::empty(),
    {
        ThreadActivationMap { flags: HashMap::new() }
    }

    /// Marks a thread as active.
    pub fn enter(&mut self, thread: u64)
        ensures
            final(self)@ == old(self)@.insert(thread, true),
    {
        self.flags.insert(thread, true);
    }

    /// Marks a thread as inactive.
    pub fn leave(&mut self, thread: u64)
        ensures
            final(self)@ == old(self)@.insert(thread, false),
    {
        self.flags.insert(thread, false);
    }

    /// Whether a thread is active. A thread that never entered a scope is
    /// not.
    pub fn is_active(&self, thread: u64) -> (r: bool)
        ensures
            r == active(self@, thread),
    {
        match self.flags.get(&thread) {
            Some(flag) => *flag,
            None => false,
        }
    }

    /// Runs `work` with the thread marked as active, and marks it as
    /// inactive again whatever `work` returns: its result, a failure too,
    /// is handed on. `work` is shown the map as it is while it runs.
    pub fn enter_scope<T, F: FnOnce(&ThreadActivationMap) -> T>(&mut self, thread: u64, work: F) -> (result: T)
        requires
            forall|during: ThreadActivationMap|
                during@ == old(self)@.insert(thread, true) ==> work.requires((&during,)),
        ensures
            exists|during: ThreadActivationMap|
                during@ == old(self)@.insert(thread, true) && work.ensures((&during,), result),
            final(self)@ == old(self)@.insert(thread, false),
            !active(final(self)@, thread),
    {
        self.enter(thread);
        let result = work(&*self);
        self.leave(thread);
        assert(self@ =~= old(self)@.insert(thread, false));
        result
    }
}

} // verus!
