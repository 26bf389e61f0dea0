//! Lock books: how many units of every lock are free, and how many every thread
//! holds and waits for. What is proved here holds of mutexes and semaphores alike.

use vstd::prelude::*;
#[allow(unused_imports)]
use crate::resource::amount;
#[allow(unused_imports)]
use crate::task::safety::{
    held, held_by_all, is_safe, is_thread, lemma_same_amounts_same_safety,
    lemma_same_held_same_sum, lemma_sum_after_update, ready_thread_keeps_state_safe,
    returned_units_keep_state_safe, wanted, with_claim, Claim,
};

verus! {

/// The books on one kind of locks.
#[verifier::ext_equal]
pub struct Books {
    /// The free units, by lock id.
    pub available: Seq<usize>,
    /// What the threads hold and wait for.
    pub claims: Seq<Option<Claim>>,
}

impl Books {
    /// How many units of lock `id` are free.
    pub open spec fn free(self, id: int) -> int {
        amount(self.available, id)
    }

    /// How many units of lock `id` thread `t` holds.
    pub open spec fn has(self, t: int, id: int) -> int {
        held(self.claims, t, id)
    }

    /// How many units of lock `id` thread `t` waits for.
    pub open spec fn waits(self, t: int, id: int) -> int {
        wanted(self.claims, t, id)
    }

    /// No deadlock: there is an order in which all threads can finish.
    pub open spec fn is_safe(self) -> bool {
        is_safe(self.available, self.claims)
    }

    /// All units of lock `id`: those that are free and those that threads hold.
    pub open spec fn total(self, id: int) -> int {
        self.free(id) + held_by_all(self.claims, id)
    }
}

/// The books have the same threads and the same counts.
pub open spec fn same_counts(before: Books, after: Books) -> bool {
    &&& after.claims.len() == before.claims.len()
    &&& forall|i: int| #[trigger] is_thread(after.claims, i) <==> is_thread(before.claims, i)
    &&& forall|r: int| #[trigger] after.free(r) == before.free(r)
    &&& forall|i: int, r: int|
        is_thread(before.claims, i) ==> #[trigger] after.has(i, r) == before.has(i, r)
    &&& forall|i: int, r: int|
        is_thread(before.claims, i) ==> #[trigger] after.waits(i, r) == before.waits(i, r)
}

/// The books have the same threads, and the same counts but for lock `id`: of it,
/// `free` units are free now, and thread `t` holds `has` and waits for `waits`.
pub open spec fn changes_one(
    before: Books,
    after: Books,
    t: int,
    id: int,
    free: int,
    has: int,
    waits: int,
) -> bool {
    &&& after.claims.len() == before.claims.len()
    &&& forall|i: int| #[trigger] is_thread(after.claims, i) <==> is_thread(before.claims, i)
    &&& forall|r: int| #[trigger]
        after.free(r) == (if r == id {
            free
        } else {
            before.free(r)
        })
    &&& forall|i: int, r: int|
        is_thread(before.claims, i) ==> #[trigger] after.has(i, r) == (if i == t && r == id {
            has
        } else {
            before.has(i, r)
        })
    &&& forall|i: int, r: int|
        is_thread(before.claims, i) ==> #[trigger] after.waits(i, r) == (if i == t && r == id {
            waits
        } else {
            before.waits(i, r)
        })
}

/// Books with the same counts are equally safe.
pub proof fn same_counts_same_safety(before: Books, after: Books)
    requires
        same_counts(before, after),
    ensures
        after.is_safe() == before.is_safe(),
{
    assert forall|id: int| #[trigger] amount(before.available, id) == amount(
        after.available,
        id,
    ) by {
        assert(after.free(id) == before.free(id));
    }
    assert forall|i: int| 0 <= i < before.claims.len() implies (#[trigger] before.claims[i] is Some
        <==> after.claims[i] is Some) by {
        assert(is_thread(after.claims, i) <==> is_thread(before.claims, i));
    }
    assert forall|i: int, id: int| 0 <= i < before.claims.len() implies #[trigger] held(
        after.claims,
        i,
        id,
    ) == held(before.claims, i, id) by {
        assert(is_thread(after.claims, i) <==> is_thread(before.claims, i));
        assert(is_thread(before.claims, i) ==> after.has(i, id) == before.has(i, id));
    }
    assert forall|i: int, id: int| 0 <= i < before.claims.len() implies #[trigger] wanted(
        after.claims,
        i,
        id,
    ) == wanted(before.claims, i, id) by {
        assert(is_thread(after.claims, i) <==> is_thread(before.claims, i));
        assert(is_thread(before.claims, i) ==> after.waits(i, id) == before.waits(i, id));
    }
    lemma_same_amounts_same_safety(
        before.available,
        before.claims,
        after.available,
        after.claims,
    );
}

/// The books after the claim of thread `t` was taken over from `after`, and nothing
/// else but the free units.
spec fn replaced(before: Books, after: Books, t: int) -> Books {
    Books {
        available: after.available,
        claims: with_claim(before.claims, t, after.claims[t]->0),
    }
}

proof fn lemma_replaced_has_same_counts(
    before: Books,
    after: Books,
    t: int,
    id: int,
    free: int,
    has: int,
    waits: int,
)
    requires
        is_thread(before.claims, t),
        changes_one(before, after, t, id, free, has, waits),
    ensures
        same_counts(replaced(before, after, t), after),
{
    let middle = replaced(before, after, t);
    assert(is_thread(after.claims, t));
    assert forall|i: int| #[trigger] is_thread(after.claims, i) <==> is_thread(
        middle.claims,
        i,
    ) by {
        assert(is_thread(after.claims, i) <==> is_thread(before.claims, i));
    }
    assert forall|i: int, r: int| is_thread(middle.claims, i) implies #[trigger] after.has(i, r)
        == middle.has(i, r) by {
        assert(is_thread(before.claims, i));
        if i != t {
            assert(after.has(i, r) == before.has(i, r));
        }
    }
    assert forall|i: int, r: int| is_thread(middle.claims, i) implies #[trigger] after.waits(i, r)
        == middle.waits(i, r) by {
        assert(is_thread(before.claims, i));
        if i != t {
            assert(after.waits(i, r) == before.waits(i, r));
        }
    }
}

/// A safe state stays safe when the free units do not get fewer, the thread waits
/// for no more than before or than is free, and no unit gets lost. Where the free
/// count is the largest one, any wait can be met, so that a unit may get lost
/// there.
pub proof fn returned_units_keep_books_safe(
    before: Books,
    after: Books,
    t: int,
    id: int,
    free: int,
    has: int,
    waits: int,
)
    requires
        is_thread(before.claims, t),
        changes_one(before, after, t, id, free, has, waits),
        before.is_safe(),
        before.free(id) <= free,
        waits <= before.waits(t, id) || waits <= free,
        before.free(id) + before.has(t, id) <= free + has || free == usize::MAX,
    ensures
        after.is_safe(),
{
    let claim = after.claims[t]->0;
    assert(is_thread(after.claims, t));
    assert forall|r: int| 0 <= r implies {
        &&& amount(before.available, r) <= #[trigger] amount(after.available, r)
        &&& amount(after.available, r) + amount(claim.allocation, r) >= amount(before.available, r)
            + held(before.claims, t, r) || amount(after.available, r) == usize::MAX
    } by {
        assert(after.free(r) == amount(after.available, r));
        assert(after.has(t, r) == amount(claim.allocation, r));
    }
    assert forall|r: int| 0 <= r implies #[trigger] amount(claim.need, r) <= wanted(
        before.claims,
        t,
        r,
    ) || amount(claim.need, r) <= amount(after.available, r) by {
        assert(after.free(r) == amount(after.available, r));
        assert(after.waits(t, r) == amount(claim.need, r));
    }
    returned_units_keep_state_safe(
        before.available,
        before.claims,
        t,
        after.available,
        claim,
    );
    lemma_replaced_has_same_counts(before, after, t, id, free, has, waits);
    same_counts_same_safety(replaced(before, after, t), after);
}

/// A safe state stays safe when no unit gets lost and all that the thread waits
/// for is free.
pub proof fn ready_thread_keeps_books_safe(
    before: Books,
    after: Books,
    t: int,
    id: int,
    free: int,
    has: int,
    waits: int,
)
    requires
        is_thread(before.claims, t),
        changes_one(before, after, t, id, free, has, waits),
        before.is_safe(),
        waits <= free,
        forall|r: int| r != id ==> #[trigger] before.waits(t, r) <= before.free(r),
        before.free(id) + before.has(t, id) <= free + has,
    ensures
        after.is_safe(),
{
    let claim = after.claims[t]->0;
    assert(is_thread(after.claims, t));
    assert forall|r: int| 0 <= r implies {
        &&& amount(claim.need, r) <= #[trigger] amount(after.available, r)
        &&& amount(after.available, r) + amount(claim.allocation, r) >= amount(before.available, r)
            + held(before.claims, t, r)
    } by {
        assert(after.free(r) == amount(after.available, r));
        assert(after.has(t, r) == amount(claim.allocation, r));
        assert(after.waits(t, r) == amount(claim.need, r));
        assert(r != id ==> before.waits(t, r) <= before.free(r));
    }
    ready_thread_keeps_state_safe(before.available, before.claims, t, after.available, claim);
    lemma_replaced_has_same_counts(before, after, t, id, free, has, waits);
    same_counts_same_safety(replaced(before, after, t), after);
}

/// Books with the same counts have the same units.
pub proof fn same_counts_same_total(before: Books, after: Books, r: int)
    requires
        same_counts(before, after),
    ensures
        after.total(r) == before.total(r),
{
    assert forall|i: int| 0 <= i < before.claims.len() implies #[trigger] held(after.claims, i, r)
        == held(before.claims, i, r) by {
        assert(is_thread(after.claims, i) <==> is_thread(before.claims, i));
        assert(is_thread(before.claims, i) ==> after.has(i, r) == before.has(i, r));
    }
    lemma_same_held_same_sum(before.claims, after.claims, r);
    assert(after.free(r) == before.free(r));
}

/// A change of one lock changes its units by as much as its free units and those
/// of the thread change together, and those of no other lock. `change` holds the
/// new counts: free, held, waited for.
pub proof fn total_after_change(
    before: Books,
    after: Books,
    t: int,
    id: int,
    change: (int, int, int),
    r: int,
)
    requires
        is_thread(before.claims, t),
        changes_one(before, after, t, id, change.0, change.1, change.2),
    ensures
        after.total(r) == before.total(r) + (if r == id {
            change.0 + change.1 - before.free(id) - before.has(t, id)
        } else {
            0
        }),
{
    let middle = replaced(before, after, t);
    lemma_replaced_has_same_counts(before, after, t, id, change.0, change.1, change.2);
    same_counts_same_total(middle, after, r);
    lemma_sum_after_update(before.claims, t, Some(after.claims[t]->0), r);
    assert(is_thread(after.claims, t));
    assert(after.has(t, r) == held(middle.claims, t, r));
    assert(after.free(r) == middle.free(r));
}

/// The later of two changes of one lock by one thread counts. Books with the same
/// counts may stand between them. The changes hold the new counts: free, held,
/// waited for.
pub proof fn later_change_counts(
    before: Books,
    first: Books,
    same: Books,
    after: Books,
    t: int,
    id: int,
    earlier: (int, int, int),
    later: (int, int, int),
)
    requires
        changes_one(before, first, t, id, earlier.0, earlier.1, earlier.2),
        same_counts(first, same),
        changes_one(same, after, t, id, later.0, later.1, later.2),
    ensures
        changes_one(before, after, t, id, later.0, later.1, later.2),
{
    assert forall|i: int| #[trigger] is_thread(after.claims, i) <==> is_thread(
        before.claims,
        i,
    ) by {
        assert(is_thread(same.claims, i) <==> is_thread(first.claims, i));
    }
    assert forall|r: int| #[trigger] after.free(r) == (if r == id {
        later.0
    } else {
        before.free(r)
    }) by {
        assert(same.free(r) == first.free(r));
    }
    assert forall|i: int, r: int| is_thread(before.claims, i) implies #[trigger] after.has(i, r)
        == (if i == t && r == id {
        later.1
    } else {
        before.has(i, r)
    }) by {
        assert(is_thread(first.claims, i) && is_thread(same.claims, i));
        assert(same.has(i, r) == first.has(i, r));
    }
    assert forall|i: int, r: int| is_thread(before.claims, i) implies #[trigger] after.waits(i, r)
        == (if i == t && r == id {
        later.2
    } else {
        before.waits(i, r)
    }) by {
        assert(is_thread(first.claims, i) && is_thread(same.claims, i));
        assert(same.waits(i, r) == first.waits(i, r));
    }
}

/// The books are read from the counts: what is free from the free units, and what a
/// thread holds and waits for from its claim.
pub proof fn books_are_the_counts(books: Books, t: int, id: int)
    requires
        0 <= t < books.claims.len(),
    ensures
        books.free(id) == amount(books.available, id),
        books.claims[t] is None ==> books.has(t, id) == 0 && books.waits(t, id) == 0,
        books.claims[t] is Some ==> books.has(t, id) == amount(
            (books.claims[t]->0).allocation,
            id,
        ) && books.waits(t, id) == amount((books.claims[t]->0).need, id),
{
}

/// All units of a lock are those that are free, and what every thread holds.
pub proof fn total_counts_every_thread(books: Books, claim: Option<Claim>, id: int)
    ensures
        (Books { claims: Seq::empty(), ..books }).total(id) == amount(books.available, id),
        (Books { claims: books.claims.push(claim), ..books }).total(id) == books.total(id) + (
        match claim {
            Some(claim) => amount(claim.allocation, id),
            None => 0,
        }),
{
    assert(books.claims.push(claim).drop_last() =~= books.claims);
}

} // verus!
