//! A count in a place that several handles share.
//!
//! What is done at the place leaves a mark: that a count was found there
//! ([`Shared::was_found`]) and that one was put there for another
//! ([`Shared::was_replaced`]). As a statement about counts a mark says only that
//! they may be at the place. What more it tells rests on this module, which keeps
//! the definitions to itself: elsewhere a mark can only be had from the operation
//! that leaves it, so a function that promises one has to perform the operation
//! at least once. That it does so only once, a mark does not tell.

use crate::counter::{Allowed, Count};
use std::sync::Arc;
use vstd::prelude::*;
use vstd::rwlock::{RwLock, RwLockPredicate, WriteHandle};

verus! {

/// A handle to a place for a count. A clone is a handle to the same place.
pub struct Shared {
    lock: Arc<RwLock<Count, Allowed>>,
}

impl Clone for Shared {
    fn clone(&self) -> (copy: Self)
        ensures
            copy == *self,
    {
        Self { lock: self.lock.clone() }
    }
}

/// The right to the place: while one has it, nobody else finds a count there.
pub struct Turn<'a> {
    handle: WriteHandle<'a, Count, Allowed>,
    shared: Ghost<Shared>,
    found: Ghost<Count>,
}

impl<'a> Turn<'a> {
    #[verifier::type_invariant]
    spec fn wf(self) -> bool {
        &&& self.handle.rwlock() == *self.shared@.lock
        &&& self.shared@.lock.inv(self.found@)
    }

    /// The place that the turn is for.
    pub closed spec fn place(self) -> Shared {
        self.shared@
    }

    /// The count that was found there.
    pub closed spec fn found(self) -> Count {
        self.found@
    }

    /// Ends the turn and leaves `count` at the place.
    pub fn put(self, count: Count)
        requires
            self.place().allowed().inv(count),
        ensures
            self.place().was_replaced(self.found(), count),
    {
        proof {
            use_type_invariant(&self);
        }
        self.handle.release_write(count);
    }
}

impl Shared {
    /// What may be at the place.
    pub closed spec fn allowed(self) -> Allowed {
        self.lock.pred()
    }

    /// The mark of a count that was found at the place and stood at `n`. By itself
    /// it says that such a count may be there.
    pub closed spec fn was_found(self, n: usize) -> bool {
        exists|count: Count| #[trigger] self.lock.inv(count) && count@ == n
    }

    /// The mark of a turn that found `before` at the place and left `after`. By
    /// itself it says that both may be there.
    pub closed spec fn was_replaced(self, before: Count, after: Count) -> bool {
        self.lock.inv(before) && self.lock.inv(after)
    }

    /// A place for `count`.
    pub fn new(count: Count, Ghost(allowed): Ghost<Allowed>) -> (shared: Self)
        requires
            allowed.inv(count),
        ensures
            shared.allowed() == allowed,
    {
        Self { lock: Arc::new(RwLock::new(count, Ghost(allowed))) }
    }

    /// Where the count at the place stands.
    pub fn look(&self) -> (n: usize)
        ensures
            self.was_found(n),
            exists|count: Count| #[trigger] self.allowed().inv(count) && count@ == n,
    {
        let handle = self.lock.acquire_read();
        let n: usize = handle.borrow().value();
        assert(self.lock.inv(handle.view()) && handle.view()@ == n);
        assert(self.allowed().inv(handle.view()));
        handle.release_read();
        n
    }

    /// Waits for a turn, and takes the count from the place.
    pub fn take(&self) -> (taken: (Count, Turn<'_>))
        ensures
            taken.1.place() == *self,
            taken.1.found() == taken.0,
            self.allowed().inv(taken.0),
    {
        let (count, handle) = self.lock.acquire_write();
        let ghost found = count;
        let turn = Turn { handle, shared: Ghost(*self), found: Ghost(found) };
        (count, turn)
    }
}

/// The marks of a place are of counts that may be there.
pub proof fn lemma_marks_are_allowed(shared: Shared, before: Count, after: Count, n: usize)
    ensures
        shared.was_replaced(before, after) ==> shared.allowed().inv(before)
            && shared.allowed().inv(after),
        shared.was_found(n) ==> exists|count: Count| #[trigger]
            shared.allowed().inv(count) && count@ == n,
{
    if shared.was_found(n) {
        let count = choose|count: Count| #[trigger] shared.lock.inv(count) && count@ == n;
        assert(shared.allowed().inv(count));
    }
}

} // verus!
