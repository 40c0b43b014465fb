//! Counting busy jobs.

use crate::shared::Shared;
use vstd::arithmetic::div_mod::{
    lemma_add_mod_noop_right, lemma_mod_add_multiples_vanish, lemma_small_mod,
};
use vstd::prelude::*;
use vstd::rwlock::RwLockPredicate;

verus! {

/// The count that is left when `n` is added to `count`, wrapping around from
/// `usize::MAX` to zero.
pub open spec fn count_plus(count: usize, n: usize) -> usize {
    if count + n <= usize::MAX {
        (count + n) as usize
    } else {
        (count + n - usize::MAX - 1) as usize
    }
}

/// The count that is left when `n` is taken from `count`, wrapping around from
/// zero to `usize::MAX`.
pub open spec fn count_minus(count: usize, n: usize) -> usize {
    if n <= count {
        (count - n) as usize
    } else {
        (count - n + usize::MAX + 1) as usize
    }
}

/// A change of a count.
pub enum Update {
    Add(usize),
    Take(usize),
}

/// The count that `updates` leave, one after the other, of `count`.
pub open spec fn after_updates(count: usize, updates: Seq<Update>) -> usize
    decreases updates.len(),
{
    if updates.len() == 0 {
        count
    } else {
        let before = after_updates(count, updates.drop_last());
        match updates.last() {
            Update::Add(n) => count_plus(before, n),
            Update::Take(n) => count_minus(before, n),
        }
    }
}

/// What `updates` add in all, less what they take.
pub open spec fn total(updates: Seq<Update>) -> int
    decreases updates.len(),
{
    if updates.len() == 0 {
        0
    } else {
        total(updates.drop_last()) + match updates.last() {
            Update::Add(n) => n as int,
            Update::Take(n) => -(n as int),
        }
    }
}

/// A count of jobs, owned by whoever counts.
///
/// A `Count` cannot be cloned: two copies would count apart. To count from
/// several places use a [`Counter`].
pub struct Count {
    count: usize,
    start: Ghost<usize>,
    updates: Ghost<Seq<Update>>,
}

impl View for Count {
    type V = usize;

    closed spec fn view(&self) -> usize {
        self.count
    }
}

impl Count {
    /// The number that the count was made with.
    pub closed spec fn started_at(&self) -> usize {
        self.start@
    }

    /// What was done to it since.
    pub closed spec fn updates(&self) -> Seq<Update> {
        self.updates@
    }

    /// The number is what the updates have made of the start.
    #[verifier::type_invariant]
    spec fn adds_up(self) -> bool {
        self.count == after_updates(self.start@, self.updates@)
    }

    /// A count that stands at `n`.
    #[must_use]
    pub fn new(n: usize) -> (count: Self)
        ensures
            count@ == n,
            count.started_at() == n,
            count.updates() == Seq::<Update>::empty(),
    {
        Self { count: n, start: Ghost(n), updates: Ghost(Seq::empty()) }
    }

    /// Where the count stands.
    #[must_use]
    pub fn value(&self) -> (n: usize)
        ensures
            n == self@,
            n == after_updates(self.started_at(), self.updates()),
    {
        proof {
            use_type_invariant(self);
        }
        self.count
    }

    /// Takes `n` off. The count wraps around below zero.
    pub fn decrby(&mut self, n: usize)
        ensures
            final(self)@ == count_minus(old(self)@, n),
            final(self).started_at() == old(self).started_at(),
            final(self).updates() == old(self).updates().push(Update::Take(n)),
    {
        proof {
            use_type_invariant(&*self);
            assert(self.updates@.push(Update::Take(n)).drop_last() =~= self.updates@);
        }
        *self = Self {
            count: self.count.wrapping_sub(n),
            start: self.start,
            updates: Ghost(self.updates@.push(Update::Take(n))),
        };
    }

    /// Adds `n`. The count wraps around beyond `usize::MAX`.
    pub fn incrby(&mut self, n: usize)
        ensures
            final(self)@ == count_plus(old(self)@, n),
            final(self).started_at() == old(self).started_at(),
            final(self).updates() == old(self).updates().push(Update::Add(n)),
    {
        proof {
            use_type_invariant(&*self);
            assert(self.updates@.push(Update::Add(n)).drop_last() =~= self.updates@);
        }
        *self = Self {
            count: self.count.wrapping_add(n),
            start: self.start,
            updates: Ghost(self.updates@.push(Update::Add(n))),
        };
    }
}

/// What a [`Counter`] may hold: a count that was made with `start` and stands at
/// one of `counts`.
pub struct Allowed {
    pub start: usize,
    pub counts: spec_fn(usize) -> bool,
}

impl RwLockPredicate<Count> for Allowed {
    open spec fn inv(self, v: Count) -> bool {
        v.started_at() == self.start && (self.counts)(v@)
    }
}

/// A counter of jobs that can be shared: every clone counts in the same place,
/// from whichever thread it is used.
///
/// Each operation holds a lock while it performs the operation of the same
/// name on the [`Count`] inside. Other clones may change the count at any time,
/// so the contracts speak of all the counts at which the counter may stand
/// ([`Counter::may_stand_at`]): what is read is one of them, and an update must
/// not lead out of them. And they speak of the marks that the operation leaves on
/// the count inside: where it was found ([`Shared::was_found`]), and that it was
/// found as one count and left as another ([`Shared::was_replaced`]). What a later
/// call reads they leave open; the contracts of [`Count`] say it where one counts
/// alone.
pub struct Counter {
    count: Shared,
}

impl Clone for Counter {
    /// Another handle to the same counter.
    fn clone(&self) -> (copy: Self)
        ensures
            copy == *self,
    {
        Self { count: self.count.clone() }
    }
}

impl Counter {
    /// The number that the count inside was made with.
    pub closed spec fn started_at(&self) -> usize {
        self.count.allowed().start
    }

    /// Whether `n` is one of the counts at which the counter may stand.
    pub closed spec fn may_stand_at(&self, n: usize) -> bool {
        (self.count.allowed().counts)(n)
    }

    /// The place at which this counter and its clones count.
    pub closed spec fn place(&self) -> Shared {
        self.count
    }

    /// A counter that starts at `n` and may stand anywhere.
    #[must_use]
    pub fn new(n: usize) -> (counter: Self)
        ensures
            counter.started_at() == n,
            forall|m: usize| #[trigger] counter.may_stand_at(m),
    {
        Self::with_counts(n, Ghost(|m: usize| true))
    }

    /// A counter that starts at `n` and only ever stands at one of
    /// `counts`.
    #[must_use]
    pub fn with_counts(n: usize, Ghost(counts): Ghost<spec_fn(usize) -> bool>) -> (counter: Self)
        requires
            counts(n),
        ensures
            counter.started_at() == n,
            forall|m: usize| #[trigger] counter.may_stand_at(m) == counts(m),
    {
        Self { count: Shared::new(Count::new(n), Ghost(Allowed { start: n, counts })) }
    }

    /// Where the counter stands at the moment of the call.
    #[must_use]
    pub fn value(&self) -> (n: usize)
        ensures
            self.may_stand_at(n),
            self.place().was_found(n),
    {
        self.count.look()
    }

    /// Takes `n` off the count, in one step. A counter from [`Counter::new`]
    /// admits every `n`.
    pub fn decrby(&self, n: usize)
        requires
            forall|m: usize|
                self.may_stand_at(m) ==> #[trigger] self.may_stand_at(count_minus(m, n)),
        ensures
            exists|before: Count, after: Count| #[trigger]
                self.place().was_replaced(before, after) && after@ == count_minus(before@, n)
                    && after.updates() == before.updates().push(Update::Take(n)),
    {
        let (mut count, turn) = self.count.take();
        let ghost before = count;
        assert(self.may_stand_at(before@));
        count.decrby(n);
        let ghost after = count;
        assert(self.may_stand_at(after@));
        turn.put(count);
        assert(self.place().was_replaced(before, after));
    }

    /// Adds `n` to the count, in one step. A counter from [`Counter::new`]
    /// admits every `n`.
    pub fn incrby(&self, n: usize)
        requires
            forall|m: usize|
                self.may_stand_at(m) ==> #[trigger] self.may_stand_at(count_plus(m, n)),
        ensures
            exists|before: Count, after: Count| #[trigger]
                self.place().was_replaced(before, after) && after@ == count_plus(before@, n)
                    && after.updates() == before.updates().push(Update::Add(n)),
    {
        let (mut count, turn) = self.count.take();
        let ghost before = count;
        assert(self.may_stand_at(before@));
        count.incrby(n);
        let ghost after = count;
        assert(self.may_stand_at(after@));
        turn.put(count);
        assert(self.place().was_replaced(before, after));
    }
}

/// Updates add up, whatever their order and whoever made them: the count is the
/// start and their total, modulo the number of counts there are.
pub proof fn lemma_updates_add_up(count: usize, updates: Seq<Update>)
    ensures
        after_updates(count, updates) == (count + total(updates)) % (usize::MAX + 1),
    decreases updates.len(),
{
    let values = usize::MAX + 1;
    if updates.len() == 0 {
        lemma_small_mod(count as nat, values as nat);
    } else {
        let rest = updates.drop_last();
        lemma_updates_add_up(count, rest);
        let before = after_updates(count, rest);
        let change = total(updates) - total(rest);
        lemma_add_mod_noop_right(change, count + total(rest), values);
        if before + change < 0 {
            lemma_mod_add_multiples_vanish(before + change, values);
            lemma_small_mod((before + change + values) as nat, values as nat);
        } else if before + change >= values {
            lemma_mod_add_multiples_vanish(before + change - values, values);
            lemma_small_mod((before + change - values) as nat, values as nat);
        } else {
            lemma_small_mod((before + change) as nat, values as nat);
        }
    }
}

/// Adding and taking off are sums and differences, modulo the number of counts
/// that there are.
pub proof fn lemma_counting_is_modular(count: usize, n: usize)
    ensures
        count_plus(count, n) == (count + n) % (usize::MAX + 1),
        count_minus(count, n) == (count - n) % (usize::MAX + 1),
        count + n <= usize::MAX ==> count_plus(count, n) == count + n,
        n <= count ==> count_minus(count, n) == count - n,
{
    let added = seq![Update::Add(n)];
    let taken = seq![Update::Take(n)];
    lemma_updates_add_up(count, added);
    lemma_updates_add_up(count, taken);
    assert(added.drop_last() =~= Seq::<Update>::empty());
    assert(taken.drop_last() =~= Seq::<Update>::empty());
    reveal_with_fuel(after_updates, 2);
    reveal_with_fuel(total, 2);
}

/// One more update adds its amount to the total, or takes it off.
pub proof fn lemma_total_of_one_more(updates: Seq<Update>, n: usize)
    ensures
        total(updates.push(Update::Add(n))) == total(updates) + n,
        total(updates.push(Update::Take(n))) == total(updates) - n,
        total(Seq::<Update>::empty()) == 0,
{
    assert(updates.push(Update::Add(n)).drop_last() =~= updates);
    assert(updates.push(Update::Take(n)).drop_last() =~= updates);
}

/// Taking off what was added leaves the count where it was, even when it
/// wrapped around in between; so does adding back what was taken off.
pub proof fn lemma_decr_undoes_incr(count: usize, n: usize)
    ensures
        count_minus(count_plus(count, n), n) == count,
        count_plus(count_minus(count, n), n) == count,
{
}

/// The order in which jobs start and finish does not matter to the count.
pub proof fn lemma_counting_commutes(count: usize, m: usize, n: usize)
    ensures
        count_plus(count_plus(count, m), n) == count_plus(count_plus(count, n), m),
        count_minus(count_minus(count, m), n) == count_minus(count_minus(count, n), m),
        count_minus(count_plus(count, m), n) == count_plus(count_minus(count, n), m),
{
}

} // verus!
