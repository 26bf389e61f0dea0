//! The safety check behind deadlock detection: whether every thread of a
//! process can still run to completion, one after another, each returning what
//! it holds before the next one starts.

use vstd::prelude::*;
#[allow(unused_imports)]
use crate::resource::{amount, grow, grown, grown_keeps_amounts};

verus! {

/// What the check knows of one thread: the resources it holds and those it
/// still waits for, one count per resource id.
#[verifier::ext_equal]
pub struct Claim {
    pub allocation: Seq<usize>,
    pub need: Seq<usize>,
}

/// The claims behind a vector of (allocation, need) pairs.
pub open spec fn claims_of(states: Seq<Option<(Vec<usize>, Vec<usize>)>>) -> Seq<Option<Claim>> {
    states.map_values(
        |state: Option<(Vec<usize>, Vec<usize>)>|
            match state {
                Some(pair) => Some(Claim { allocation: pair.0@, need: pair.1@ }),
                None => None,
            },
    )
}

/// Slot `i` holds a thread.
pub open spec fn is_thread(claims: Seq<Option<Claim>>, i: int) -> bool {
    0 <= i < claims.len() && claims[i] is Some
}

/// How much of resource `id` the thread in slot `i` holds.
pub open spec fn held(claims: Seq<Option<Claim>>, i: int, id: int) -> int {
    match claims[i] {
        Some(claim) => amount(claim.allocation, id),
        None => 0,
    }
}

/// How much of resource `id` the thread in slot `i` waits for.
pub open spec fn wanted(claims: Seq<Option<Claim>>, i: int, id: int) -> int {
    match claims[i] {
        Some(claim) => amount(claim.need, id),
        None => 0,
    }
}

/// How much of resource `id` the threads in `done` hold together.
pub open spec fn released(claims: Seq<Option<Claim>>, done: Seq<int>, id: int) -> int
    decreases done.len(),
{
    if done.len() == 0 {
        0
    } else {
        released(claims, done.drop_last(), id) + held(claims, done.last(), id)
    }
}

/// Once the threads in `done` have returned what they held, all that thread `i`
/// waits for is there.
pub open spec fn can_finish(
    available: Seq<usize>,
    claims: Seq<Option<Claim>>,
    done: Seq<int>,
    i: int,
) -> bool {
    forall|id: int|
        0 <= id ==> #[trigger] wanted(claims, i, id) <= amount(available, id) + released(
            claims,
            done,
            id,
        )
}

/// The threads in `order` are different, and can finish one after another.
pub open spec fn is_partial_order(
    available: Seq<usize>,
    claims: Seq<Option<Claim>>,
    order: Seq<int>,
) -> bool {
    &&& order.no_duplicates()
    &&& forall|k: int| 0 <= k < order.len() ==> is_thread(claims, #[trigger] order[k])
    &&& forall|k: int|
        0 <= k < order.len() ==> can_finish(available, claims, order.take(k), #[trigger] order[k])
}

/// All threads can finish one after another in this order.
pub open spec fn is_completion_order(
    available: Seq<usize>,
    claims: Seq<Option<Claim>>,
    order: Seq<int>,
) -> bool {
    &&& is_partial_order(available, claims, order)
    &&& forall|i: int| #[trigger] is_thread(claims, i) ==> order.contains(i)
}

/// No deadlock: there is an order in which all threads can finish.
pub open spec fn is_safe(available: Seq<usize>, claims: Seq<Option<Claim>>) -> bool {
    exists|order: Seq<int>| is_completion_order(available, claims, order)
}

proof fn lemma_held_nonnegative(claims: Seq<Option<Claim>>, done: Seq<int>, id: int)
    ensures
        released(claims, done, id) >= 0,
    decreases done.len(),
{
    if done.len() > 0 {
        lemma_held_nonnegative(claims, done.drop_last(), id);
    }
}

proof fn lemma_released_remove(claims: Seq<Option<Claim>>, done: Seq<int>, p: int, id: int)
    requires
        0 <= p < done.len(),
    ensures
        released(claims, done, id) == released(claims, done.remove(p), id) + held(
            claims,
            done[p],
            id,
        ),
    decreases done.len(),
{
    if p == done.len() - 1 {
        assert(done.remove(p) =~= done.drop_last());
    } else {
        lemma_released_remove(claims, done.drop_last(), p, id);
        assert(done.remove(p).drop_last() =~= done.drop_last().remove(p));
        assert(done.remove(p).last() == done.last());
    }
}

/// A larger set of finished threads has released at least as much.
proof fn lemma_released_subset(
    claims: Seq<Option<Claim>>,
    few: Seq<int>,
    many: Seq<int>,
    id: int,
)
    requires
        few.no_duplicates(),
        many.no_duplicates(),
        forall|k: int| 0 <= k < few.len() ==> many.contains(#[trigger] few[k]),
    ensures
        released(claims, few, id) <= released(claims, many, id),
    decreases few.len(),
{
    if few.len() == 0 {
        lemma_held_nonnegative(claims, many, id);
    } else {
        let x = few.last();
        let rest = few.drop_last();
        assert(many.contains(few[few.len() - 1]));
        let p = many.index_of(x);
        let others = many.remove(p);
        assert forall|k: int| 0 <= k < rest.len() implies others.contains(#[trigger] rest[k]) by {
            assert(rest[k] == few[k]);
            let q = many.index_of(few[k]);
            assert(many[q] == few[k] && many[p] == x && few[k] != x);
            if q < p {
                assert(others[q] == few[k]);
            } else {
                assert(others[q - 1] == few[k]);
            }
        }
        lemma_released_subset(claims, rest, others, id);
        lemma_released_remove(claims, many, p, id);
    }
}

proof fn lemma_bounded_indices(done: Seq<int>, n: int)
    requires
        0 <= n,
        done.no_duplicates(),
        forall|k: int| 0 <= k < done.len() ==> 0 <= #[trigger] done[k] < n,
    ensures
        done.len() <= n,
{
    let range = vstd::set_lib::set_int_range(0, n);
    done.unique_seq_to_set();
    vstd::set_lib::lemma_int_range(0, n);
    vstd::set_lib::lemma_len_subset(done.to_set(), range);
}

/// If some thread is left and none of those left can finish, the state is unsafe.
proof fn lemma_stuck_is_unsafe(
    available: Seq<usize>,
    claims: Seq<Option<Claim>>,
    done: Seq<int>,
    left: int,
)
    requires
        done.no_duplicates(),
        is_thread(claims, left),
        !done.contains(left),
        forall|i: int|
            #[trigger] is_thread(claims, i) && !done.contains(i) ==> !can_finish(
                available,
                claims,
                done,
                i,
            ),
    ensures
        !is_safe(available, claims),
{
    if is_safe(available, claims) {
        let order = choose|order: Seq<int>| is_completion_order(available, claims, order);
        lemma_first_outside(order, done, left);
        let k = choose|k: int|
            0 <= k < order.len() && !done.contains(#[trigger] order[k]) && forall|m: int|
                0 <= m < k ==> done.contains(#[trigger] order[m]);
        let before = order.take(k);
        assert(can_finish(available, claims, before, order[k]));
        assert forall|id: int| 0 <= id implies #[trigger] wanted(claims, order[k], id) <= amount(
            available,
            id,
        ) + released(claims, done, id) by {
            lemma_released_subset(claims, before, done, id);
        }
        assert(is_thread(claims, order[k]));
    }
}

/// The first entry of `order` that is not in `done`.
proof fn lemma_first_outside(order: Seq<int>, done: Seq<int>, x: int)
    requires
        order.contains(x),
        !done.contains(x),
    ensures
        exists|k: int|
            0 <= k < order.len() && !done.contains(#[trigger] order[k]) && forall|m: int|
                0 <= m < k ==> done.contains(#[trigger] order[m]),
    decreases order.len(),
{
    let p = order.index_of(x);
    if exists|m: int| 0 <= m < p && !done.contains(#[trigger] order[m]) {
        let m = choose|m: int| 0 <= m < p && !done.contains(#[trigger] order[m]);
        let front = order.take(p);
        assert(front[m] == order[m]);
        lemma_first_outside(front, done, order[m]);
        let k = choose|k: int|
            0 <= k < front.len() && !done.contains(#[trigger] front[k]) && forall|m: int|
                0 <= m < k ==> done.contains(#[trigger] front[m]);
        assert(order[k] == front[k]);
        assert forall|m: int| 0 <= m < k implies done.contains(#[trigger] order[m]) by {
            assert(front[m] == order[m]);
        }
    } else {
        assert(!done.contains(order[p]));
    }
}

/// Safety depends only on the counts: with the same counts for every thread and
/// every resource, a state is as safe as another.
pub proof fn lemma_same_amounts_same_safety(
    available: Seq<usize>,
    claims: Seq<Option<Claim>>,
    other_available: Seq<usize>,
    others: Seq<Option<Claim>>,
)
    requires
        claims.len() == others.len(),
        forall|id: int| #[trigger] amount(available, id) == amount(other_available, id),
        forall|i: int|
            0 <= i < claims.len() ==> (#[trigger] claims[i] is Some <==> others[i] is Some),
        forall|i: int, id: int|
            0 <= i < claims.len() ==> #[trigger] held(others, i, id) == held(claims, i, id),
        forall|i: int, id: int|
            0 <= i < claims.len() ==> #[trigger] wanted(others, i, id) == wanted(claims, i, id),
    ensures
        is_safe(available, claims) == is_safe(other_available, others),
{
    if is_safe(available, claims) {
        let order = choose|order: Seq<int>| is_completion_order(available, claims, order);
        lemma_easier_claims_same_order(available, claims, other_available, others, order);
    }
    if is_safe(other_available, others) {
        let order = choose|order: Seq<int>| is_completion_order(other_available, others, order);
        assert forall|i: int| 0 <= i < others.len() implies (#[trigger] others[i] is Some
            <==> claims[i] is Some) by {
            assert(claims[i] is Some <==> others[i] is Some);
        }
        assert forall|i: int, id: int| 0 <= i < others.len() implies #[trigger] held(claims, i, id)
            >= held(others, i, id) by {
            assert(held(others, i, id) == held(claims, i, id));
        }
        assert forall|i: int, id: int|
            0 <= i < others.len() implies #[trigger] wanted(claims, i, id) <= wanted(
            others,
            i,
            id,
        ) by {
            assert(wanted(others, i, id) == wanted(claims, i, id));
        }
        lemma_easier_claims_same_order(other_available, others, available, claims, order);
    }
}

/// Where more is available, every thread holds more and none waits for more,
/// the same order still works.
proof fn lemma_easier_claims_same_order(
    available: Seq<usize>,
    claims: Seq<Option<Claim>>,
    more: Seq<usize>,
    easier: Seq<Option<Claim>>,
    order: Seq<int>,
)
    requires
        is_completion_order(available, claims, order),
        claims.len() == easier.len(),
        forall|id: int| #[trigger] amount(available, id) <= amount(more, id),
        forall|i: int|
            0 <= i < claims.len() ==> (#[trigger] claims[i] is Some <==> easier[i] is Some),
        forall|i: int, id: int|
            0 <= i < claims.len() ==> #[trigger] held(easier, i, id) >= held(claims, i, id),
        forall|i: int, id: int|
            0 <= i < claims.len() ==> #[trigger] wanted(easier, i, id) <= wanted(claims, i, id),
    ensures
        is_completion_order(more, easier, order),
{
    assert forall|k: int| 0 <= k < order.len() implies is_thread(easier, #[trigger] order[k]) by {
        assert(is_thread(claims, order[k]));
        assert(claims[order[k]] is Some);
    }
    assert forall|i: int| #[trigger] is_thread(easier, i) implies order.contains(i) by {
        assert(claims[i] is Some);
        assert(is_thread(claims, i));
    }
    assert forall|k: int| 0 <= k < order.len() implies can_finish(
        more,
        easier,
        order.take(k),
        #[trigger] order[k],
    ) by {
        assert(is_thread(claims, order[k]));
        assert(can_finish(available, claims, order.take(k), order[k]));
        assert forall|id: int| 0 <= id implies #[trigger] wanted(easier, order[k], id) <= amount(
            more,
            id,
        ) + released(easier, order.take(k), id) by {
            lemma_released_grows(claims, easier, order.take(k), id);
            assert(wanted(claims, order[k], id) <= amount(available, id) + released(
                claims,
                order.take(k),
                id,
            ));
            assert(amount(available, id) <= amount(more, id));
        }
    }
}

proof fn lemma_released_grows(
    claims: Seq<Option<Claim>>,
    easier: Seq<Option<Claim>>,
    done: Seq<int>,
    id: int,
)
    requires
        forall|k: int|
            0 <= k < done.len() ==> held(easier, #[trigger] done[k], id) >= held(
                claims,
                done[k],
                id,
            ),
    ensures
        released(easier, done, id) >= released(claims, done, id),
    decreases done.len(),
{
    if done.len() > 0 {
        assert forall|k: int| 0 <= k < done.drop_last().len() implies held(
            easier,
            #[trigger] done.drop_last()[k],
            id,
        ) >= held(claims, done.drop_last()[k], id) by {
            assert(done.drop_last()[k] == done[k]);
        }
        lemma_released_grows(claims, easier, done.drop_last(), id);
        assert(done.last() == done[done.len() - 1]);
    }
}

proof fn lemma_released_front(claims: Seq<Option<Claim>>, t: int, done: Seq<int>, id: int)
    ensures
        released(claims, seq![t] + done, id) == held(claims, t, id) + released(claims, done, id),
{
    let all = seq![t] + done;
    lemma_released_remove(claims, all, 0, id);
    assert(all.remove(0) =~= done);
}

proof fn lemma_released_same(
    claims: Seq<Option<Claim>>,
    others: Seq<Option<Claim>>,
    done: Seq<int>,
    id: int,
)
    requires
        forall|k: int|
            0 <= k < done.len() ==> held(others, #[trigger] done[k], id) == held(
                claims,
                done[k],
                id,
            ),
    ensures
        released(others, done, id) == released(claims, done, id),
{
    lemma_released_grows(claims, others, done, id);
    lemma_released_grows(others, claims, done, id);
}

/// The claims with the claim of thread `t` replaced.
pub open spec fn with_claim(claims: Seq<Option<Claim>>, t: int, claim: Claim) -> Seq<
    Option<Claim>,
> {
    claims.update(t, Some(claim))
}

/// A thread that can finish at once may go first: if it then returns at least
/// what it held and what was available before, a safe state stays safe,
/// whatever else has changed in its claim.
pub proof fn ready_thread_keeps_state_safe(
    available: Seq<usize>,
    claims: Seq<Option<Claim>>,
    t: int,
    available_after: Seq<usize>,
    claim: Claim,
)
    requires
        is_safe(available, claims),
        is_thread(claims, t),
        forall|id: int|
            0 <= id ==> amount(claim.need, id) <= #[trigger] amount(available_after, id),
        forall|id: int|
            0 <= id ==> #[trigger] amount(available_after, id) + amount(claim.allocation, id)
                >= amount(available, id) + held(claims, t, id),
    ensures
        is_safe(available_after, with_claim(claims, t, claim)),
{
    let after = with_claim(claims, t, claim);
    let order = choose|order: Seq<int>| is_completion_order(available, claims, order);
    assert(order.contains(t));
    let p = order.index_of(t);
    let rest = order.remove(p);
    let next = seq![t] + rest;
    assert forall|k: int| 0 <= k < rest.len() implies {
        let q = if k < p {
            k
        } else {
            k + 1
        };
        #[trigger] rest[k] == order[q] && rest[k] != t
    } by {}
    assert(next.no_duplicates()) by {
        assert forall|a: int, b: int| 0 <= a < b < next.len() implies next[a] != next[b] by {
            if a > 0 {
                assert(next[a] == rest[a - 1] && next[b] == rest[b - 1]);
            } else {
                assert(next[b] == rest[b - 1]);
            }
        }
    }
    assert forall|k: int| 0 <= k < next.len() implies is_thread(after, #[trigger] next[k]) by {
        if k > 0 {
            assert(next[k] == rest[k - 1]);
            let q = if k - 1 < p {
                k - 1
            } else {
                k
            };
            assert(is_thread(claims, order[q]));
        }
    }
    assert forall|i: int| #[trigger] is_thread(after, i) implies next.contains(i) by {
        if i == t {
            assert(next[0] == t);
        } else {
            assert(is_thread(claims, i));
            let q = order.index_of(i);
            assert(order[q] == i && q != p);
            if q < p {
                assert(next[q + 1] == i);
            } else {
                assert(next[q] == i);
            }
        }
    }
    assert forall|k: int| 0 <= k < next.len() implies can_finish(
        available_after,
        after,
        next.take(k),
        #[trigger] next[k],
    ) by {
        if k == 0 {
            assert(next.take(0) =~= Seq::<int>::empty());
            assert forall|id: int| 0 <= id implies #[trigger] wanted(after, t, id) <= amount(
                available_after,
                id,
            ) + released(after, next.take(0), id) by {
                assert(amount(claim.need, id) <= amount(available_after, id));
            }
        } else {
            let x = rest[k - 1];
            let q = if k - 1 < p {
                k - 1
            } else {
                k
            };
            let others = rest.take(k - 1);
            assert(next.take(k) =~= seq![t] + others);
            assert(can_finish(available, claims, order.take(q), order[q]));
            assert forall|id: int| 0 <= id implies #[trigger] wanted(after, x, id) <= amount(
                available_after,
                id,
            ) + released(after, next.take(k), id) by {
                lemma_released_front(after, t, others, id);
                assert forall|m: int| 0 <= m < others.len() implies held(
                    after,
                    #[trigger] others[m],
                    id,
                ) == held(claims, others[m], id) by {
                    assert(others[m] == rest[m]);
                }
                lemma_released_same(claims, after, others, id);
                assert(wanted(claims, x, id) <= amount(available, id) + released(
                    claims,
                    order.take(q),
                    id,
                ));
                assert(amount(available_after, id) + amount(claim.allocation, id) >= amount(
                    available,
                    id,
                ) + held(claims, t, id));
                if q > p {
                    lemma_released_remove(claims, order.take(q), p, id);
                    assert(order.take(q).remove(p) =~= others);
                } else {
                    assert(order.take(q) =~= others);
                }
            }
        }
    }
    assert(is_completion_order(available_after, after, next));
}

/// A thread that waits for no more than before, or than is free, and holds less
/// only by what became free, leaves a safe state safe. Where the free count is
/// the largest one, any wait can be met, so that a unit may get lost there.
pub proof fn returned_units_keep_state_safe(
    available: Seq<usize>,
    claims: Seq<Option<Claim>>,
    t: int,
    available_after: Seq<usize>,
    claim: Claim,
)
    requires
        is_safe(available, claims),
        is_thread(claims, t),
        forall|id: int| 0 <= id ==> amount(available, id) <= #[trigger] amount(available_after, id),
        forall|id: int|
            0 <= id ==> #[trigger] amount(claim.need, id) <= wanted(claims, t, id) || amount(
                claim.need,
                id,
            ) <= amount(available_after, id),
        forall|id: int|
            0 <= id ==> #[trigger] amount(available_after, id) + amount(claim.allocation, id)
                >= amount(available, id) + held(claims, t, id) || amount(available_after, id)
                == usize::MAX,
    ensures
        is_safe(available_after, with_claim(claims, t, claim)),
{
    let after = with_claim(claims, t, claim);
    let order = choose|order: Seq<int>| is_completion_order(available, claims, order);
    assert forall|k: int| 0 <= k < order.len() implies is_thread(after, #[trigger] order[k]) by {
        assert(is_thread(claims, order[k]));
    }
    assert forall|i: int| #[trigger] is_thread(after, i) implies order.contains(i) by {
        assert(is_thread(claims, i));
    }
    assert forall|k: int| 0 <= k < order.len() implies can_finish(
        available_after,
        after,
        order.take(k),
        #[trigger] order[k],
    ) by {
        let done = order.take(k);
        assert(can_finish(available, claims, done, order[k]));
        assert forall|id: int| 0 <= id implies #[trigger] wanted(after, order[k], id) <= amount(
            available_after,
            id,
        ) + released(after, done, id) by {
            assert(wanted(claims, order[k], id) <= amount(available, id) + released(
                claims,
                done,
                id,
            ));
            assert(amount(available, id) <= amount(available_after, id));
            assert(amount(claim.need, id) <= wanted(claims, t, id) || amount(claim.need, id)
                <= amount(available_after, id));
            lemma_held_nonnegative(after, done, id);
            if done.contains(t) {
                let p = done.index_of(t);
                lemma_released_remove(claims, done, p, id);
                lemma_released_remove(after, done, p, id);
                let others = done.remove(p);
                assert forall|m: int| 0 <= m < others.len() implies held(
                    after,
                    #[trigger] others[m],
                    id,
                ) == held(claims, others[m], id) by {
                    let q = if m < p {
                        m
                    } else {
                        m + 1
                    };
                    assert(others[m] == order[q] && order[p] == t);
                }
                lemma_released_same(claims, after, others, id);
            } else {
                assert forall|m: int| 0 <= m < done.len() implies held(
                    after,
                    #[trigger] done[m],
                    id,
                ) == held(claims, done[m], id) by {
                    assert(done.contains(done[m]));
                }
                lemma_released_same(claims, after, done, id);
            }
        }
    }
    assert(is_completion_order(available_after, after, order));
}

/// Where no less is available, no thread holds less and none waits for more, a
/// safe state stays safe.
pub proof fn easier_claims_keep_state_safe(
    available: Seq<usize>,
    claims: Seq<Option<Claim>>,
    more: Seq<usize>,
    easier: Seq<Option<Claim>>,
)
    requires
        is_safe(available, claims),
        claims.len() == easier.len(),
        forall|id: int| #[trigger] amount(available, id) <= amount(more, id),
        forall|i: int|
            0 <= i < claims.len() ==> (#[trigger] claims[i] is Some <==> easier[i] is Some),
        forall|i: int, id: int|
            0 <= i < claims.len() ==> #[trigger] held(easier, i, id) >= held(claims, i, id),
        forall|i: int, id: int|
            0 <= i < claims.len() ==> #[trigger] wanted(easier, i, id) <= wanted(claims, i, id),
    ensures
        is_safe(more, easier),
{
    let order = choose|order: Seq<int>| is_completion_order(available, claims, order);
    lemma_easier_claims_same_order(available, claims, more, easier, order);
}

/// With more available, a safe state stays safe.
pub proof fn more_available_keeps_state_safe(
    available: Seq<usize>,
    more: Seq<usize>,
    claims: Seq<Option<Claim>>,
)
    requires
        is_safe(available, claims),
        forall|id: int| #[trigger] amount(available, id) <= amount(more, id),
    ensures
        is_safe(more, claims),
{
    easier_claims_keep_state_safe(available, claims, more, claims);
}

/// `place` moves the threads of `claims` one for one to those of `moved`.
spec fn is_move(
    claims: Seq<Option<Claim>>,
    moved: Seq<Option<Claim>>,
    place: spec_fn(int) -> int,
) -> bool {
    &&& forall|i: int|
        #[trigger] is_thread(claims, i) ==> is_thread(moved, place(i)) && moved[place(i)]
            == claims[i]
    &&& forall|i: int, j: int| #[trigger]
        is_thread(claims, i) && #[trigger] is_thread(claims, j) && i != j ==> place(i) != place(j)
    &&& forall|j: int| #[trigger]
        is_thread(moved, j) ==> exists|i: int| #[trigger] is_thread(claims, i) && place(i) == j
}

proof fn lemma_released_moved(
    claims: Seq<Option<Claim>>,
    moved: Seq<Option<Claim>>,
    place: spec_fn(int) -> int,
    done: Seq<int>,
    id: int,
)
    requires
        is_move(claims, moved, place),
        forall|k: int| 0 <= k < done.len() ==> is_thread(claims, #[trigger] done[k]),
    ensures
        released(moved, done.map_values(place), id) == released(claims, done, id),
    decreases done.len(),
{
    if done.len() > 0 {
        let rest = done.drop_last();
        assert(done.map_values(place).drop_last() =~= rest.map_values(place));
        assert(is_thread(claims, done[done.len() - 1]));
        lemma_released_moved(claims, moved, place, rest, id);
    }
}

proof fn lemma_move_keeps_state_safe(
    available: Seq<usize>,
    claims: Seq<Option<Claim>>,
    moved: Seq<Option<Claim>>,
    place: spec_fn(int) -> int,
)
    requires
        is_safe(available, claims),
        is_move(claims, moved, place),
    ensures
        is_safe(available, moved),
{
    let order = choose|order: Seq<int>| is_completion_order(available, claims, order);
    let next = order.map_values(place);
    assert forall|a: int, b: int| 0 <= a < b < next.len() implies next[a] != next[b] by {
        assert(is_thread(claims, order[a]) && is_thread(claims, order[b]));
    }
    assert forall|k: int| 0 <= k < next.len() implies is_thread(moved, #[trigger] next[k]) by {
        assert(is_thread(claims, order[k]));
    }
    assert forall|j: int| #[trigger] is_thread(moved, j) implies next.contains(j) by {
        let i = choose|i: int| #[trigger] is_thread(claims, i) && place(i) == j;
        assert(next[order.index_of(i)] == j);
    }
    assert forall|k: int| 0 <= k < next.len() implies can_finish(
        available,
        moved,
        next.take(k),
        #[trigger] next[k],
    ) by {
        assert(is_thread(claims, order[k]));
        assert(can_finish(available, claims, order.take(k), order[k]));
        assert(next.take(k) =~= order.take(k).map_values(place));
        assert forall|id: int| 0 <= id implies #[trigger] wanted(moved, next[k], id) <= amount(
            available,
            id,
        ) + released(moved, next.take(k), id) by {
            lemma_released_moved(claims, moved, place, order.take(k), id);
            assert(wanted(claims, order[k], id) <= amount(available, id) + released(
                claims,
                order.take(k),
                id,
            ));
        }
    }
    assert(is_completion_order(available, moved, next));
}

/// It does not matter in which slots the threads are: where slot `i` was moved to
/// slot `place[i]`, and all other slots are empty, a state is as safe as before.
/// So slots may change places, and empty ones may be added.
pub proof fn moved_slots_same_safety(
    available: Seq<usize>,
    claims: Seq<Option<Claim>>,
    moved: Seq<Option<Claim>>,
    place: Seq<int>,
)
    requires
        place.len() == claims.len(),
        place.no_duplicates(),
        forall|i: int|
            0 <= i < place.len() ==> 0 <= #[trigger] place[i] < moved.len() && moved[place[i]]
                == claims[i],
        forall|j: int| #[trigger] is_thread(moved, j) ==> place.contains(j),
    ensures
        is_safe(available, moved) == is_safe(available, claims),
{
    let there = |i: int| place[i];
    let back = |j: int| place.index_of(j);
    assert forall|j: int| #[trigger] is_thread(moved, j) implies {
        &&& is_thread(claims, back(j))
        &&& there(back(j)) == j
    } by {
        assert(place[place.index_of(j)] == j);
    }
    assert forall|i: int| #[trigger] is_thread(claims, i) implies {
        &&& is_thread(moved, there(i))
        &&& back(there(i)) == i
    } by {
        assert(place[place.index_of(place[i])] == place[i]);
    }
    if is_safe(available, claims) {
        lemma_move_keeps_state_safe(available, claims, moved, there);
    }
    if is_safe(available, moved) {
        lemma_move_keeps_state_safe(available, moved, claims, back);
    }
}

/// Empty slots behind the others do not matter.
pub proof fn empty_slots_same_safety(available: Seq<usize>, claims: Seq<Option<Claim>>, count: nat)
    ensures
        is_safe(available, claims + Seq::new(count, |i: int| None)) == is_safe(available, claims),
{
    let place = Seq::new(claims.len(), |i: int| i);
    let moved = claims + Seq::new(count, |i: int| None);
    assert forall|j: int| #[trigger] is_thread(moved, j) implies place.contains(j) by {
        assert(place[j] == j);
    }
    moved_slots_same_safety(available, claims, moved, place);
}

/// If a thread waits for more than all the others and the free units can give,
/// the state is not safe.
pub proof fn unmeetable_wait_is_unsafe(
    available: Seq<usize>,
    claims: Seq<Option<Claim>>,
    t: int,
    id: int,
)
    requires
        is_thread(claims, t),
        0 <= id,
        wanted(claims, t, id) > amount(available, id),
        forall|i: int| is_thread(claims, i) && i != t ==> #[trigger] held(claims, i, id) == 0,
    ensures
        !is_safe(available, claims),
{
    if is_safe(available, claims) {
        let order = choose|order: Seq<int>| is_completion_order(available, claims, order);
        assert(order.contains(t));
        let p = order.index_of(t);
        assert(can_finish(available, claims, order.take(p), order[p]));
        assert(wanted(claims, t, id) <= amount(available, id) + released(
            claims,
            order.take(p),
            id,
        ));
        assert forall|k: int| 0 <= k < order.take(p).len() implies held(
            claims,
            #[trigger] order.take(p)[k],
            id,
        ) == 0 by {
            assert(order.take(p)[k] == order[k] && order[k] != order[p]);
            assert(is_thread(claims, order[k]));
        }
        lemma_nothing_released(claims, order.take(p), id);
    }
}

proof fn lemma_nothing_released(claims: Seq<Option<Claim>>, done: Seq<int>, id: int)
    requires
        forall|k: int| 0 <= k < done.len() ==> held(claims, #[trigger] done[k], id) == 0,
    ensures
        released(claims, done, id) == 0,
    decreases done.len(),
{
    if done.len() > 0 {
        assert(held(claims, done[done.len() - 1], id) == 0);
        assert forall|k: int| 0 <= k < done.drop_last().len() implies held(
            claims,
            #[trigger] done.drop_last()[k],
            id,
        ) == 0 by {
            assert(done.drop_last()[k] == done[k]);
        }
        lemma_nothing_released(claims, done.drop_last(), id);
    }
}

/// Threads that wait for nothing are not deadlocked.
pub proof fn no_wait_is_safe(available: Seq<usize>, claims: Seq<Option<Claim>>)
    requires
        forall|i: int, id: int| is_thread(claims, i) ==> #[trigger] wanted(claims, i, id) == 0,
    ensures
        is_safe(available, claims),
{
    let order = lemma_thread_list(claims, claims.len() as int);
    assert forall|k: int| 0 <= k < order.len() implies can_finish(
        available,
        claims,
        order.take(k),
        #[trigger] order[k],
    ) by {
        assert forall|id: int| 0 <= id implies #[trigger] wanted(claims, order[k], id) <= amount(
            available,
            id,
        ) + released(claims, order.take(k), id) by {
            assert(is_thread(claims, order[k]));
            lemma_held_nonnegative(claims, order.take(k), id);
        }
    }
    assert(is_completion_order(available, claims, order));
}

proof fn lemma_thread_list(claims: Seq<Option<Claim>>, n: int) -> (order: Seq<int>)
    requires
        0 <= n <= claims.len(),
    ensures
        order.no_duplicates(),
        forall|k: int| 0 <= k < order.len() ==> is_thread(claims, #[trigger] order[k]) && order[k]
            < n,
        forall|i: int| i < n && #[trigger] is_thread(claims, i) ==> order.contains(i),
    decreases n,
{
    if n == 0 {
        Seq::empty()
    } else {
        let front = lemma_thread_list(claims, n - 1);
        if claims[n - 1] is Some {
            let order = front.push(n - 1);
            assert forall|i: int| i < n && #[trigger] is_thread(claims, i) implies order.contains(
                i,
            ) by {
                if i < n - 1 {
                    assert(order[front.index_of(i)] == i);
                } else {
                    assert(order[front.len() as int] == i);
                }
            }
            order
        } else {
            front
        }
    }
}

/// How much of resource `id` all threads hold together.
pub open spec fn held_by_all(claims: Seq<Option<Claim>>, id: int) -> int
    decreases claims.len(),
{
    if claims.len() == 0 {
        0
    } else {
        held_by_all(claims.drop_last(), id) + held(claims, claims.len() - 1, id)
    }
}

/// Where every thread holds the same, all together do.
pub proof fn lemma_same_held_same_sum(
    claims: Seq<Option<Claim>>,
    others: Seq<Option<Claim>>,
    id: int,
)
    requires
        claims.len() == others.len(),
        forall|i: int|
            0 <= i < claims.len() ==> #[trigger] held(others, i, id) == held(claims, i, id),
    ensures
        held_by_all(others, id) == held_by_all(claims, id),
    decreases claims.len(),
{
    if claims.len() > 0 {
        let last = claims.len() - 1;
        assert(held(others, last, id) == held(claims, last, id));
        assert forall|i: int| 0 <= i < last implies #[trigger] held(others.drop_last(), i, id)
            == held(claims.drop_last(), i, id) by {
            assert(held(others, i, id) == held(claims, i, id));
        }
        lemma_same_held_same_sum(claims.drop_last(), others.drop_last(), id);
    }
}

/// When one claim changes, the sum changes by as much.
pub proof fn lemma_sum_after_update(
    claims: Seq<Option<Claim>>,
    t: int,
    claim: Option<Claim>,
    id: int,
)
    requires
        0 <= t < claims.len(),
    ensures
        held_by_all(claims.update(t, claim), id) == held_by_all(claims, id) - held(claims, t, id)
            + held(claims.update(t, claim), t, id),
    decreases claims.len(),
{
    let after = claims.update(t, claim);
    if t == claims.len() - 1 {
        assert(after.drop_last() =~= claims.drop_last());
    } else {
        assert(after.drop_last() =~= claims.drop_last().update(t, claim));
        lemma_sum_after_update(claims.drop_last(), t, claim, id);
    }
}

/// The working state of the check after the threads in `done` have finished:
/// `work` is what is available then, and `finish` marks the slots with nothing
/// left to do.
spec fn check_state(
    available: Seq<usize>,
    claims: Seq<Option<Claim>>,
    done: Seq<int>,
    work: Seq<usize>,
    finish: Seq<bool>,
) -> bool {
    &&& is_partial_order(available, claims, done)
    &&& finish.len() == claims.len()
    &&& forall|i: int|
        0 <= i < claims.len() ==> (#[trigger] finish[i] <==> !is_thread(claims, i)
            || done.contains(i))
    &&& forall|id: int|
        0 <= id < work.len() ==> #[trigger] work[id] == (if amount(available, id) + released(
            claims,
            done,
            id,
        ) > usize::MAX {
            usize::MAX as int
        } else {
            amount(available, id) + released(claims, done, id)
        })
}

/// The allocations and needs of the check, all grown to `len` entries.
spec fn check_rows(
    claims: Seq<Option<Claim>>,
    allocations: Seq<Vec<usize>>,
    needs: Seq<Vec<usize>>,
    len: int,
) -> bool {
    &&& allocations.len() <= claims.len()
    &&& needs.len() == allocations.len()
    &&& forall|i: int|
        0 <= i < allocations.len() ==> (#[trigger] allocations[i])@.len() == len && forall|id: int|
            0 <= id < len ==> #[trigger] allocations[i]@[id] == held(claims, i, id)
    &&& forall|i: int|
        0 <= i < needs.len() ==> (#[trigger] needs[i])@.len() == len && forall|id: int|
            0 <= id < len ==> #[trigger] needs[i]@[id] == wanted(claims, i, id)
}

/// Every resource that the first `count` claims mention has an id below `len`.
spec fn mentions_below(claims: Seq<Option<Claim>>, count: int, len: int) -> bool {
    forall|i: int|
        0 <= i < count ==> match #[trigger] claims[i] {
            Some(claim) => claim.allocation.len() <= len && claim.need.len() <= len,
            None => true,
        }
}

/// Letting one more thread finish keeps the working state right.
proof fn lemma_finish_one(
    available: Seq<usize>,
    claims: Seq<Option<Claim>>,
    done: Seq<int>,
    work: Seq<usize>,
    finish: Seq<bool>,
    i: int,
    work_after: Seq<usize>,
)
    requires
        check_state(available, claims, done, work, finish),
        mentions_below(claims, claims.len() as int, work.len() as int),
        available.len() <= work.len(),
        0 <= i < claims.len(),
        !finish[i],
        forall|id: int| 0 <= id < work.len() ==> wanted(claims, i, id) <= #[trigger] work[id],
        work_after.len() == work.len(),
        forall|id: int|
            0 <= id < work.len() ==> #[trigger] work_after[id] == (if work[id] + held(claims, i, id)
                > usize::MAX {
                usize::MAX as int
            } else {
                work[id] + held(claims, i, id)
            }),
    ensures
        check_state(available, claims, done.push(i), work_after, finish.update(i, true)),
{
    let next = done.push(i);
    assert(next.drop_last() =~= done);
    assert(is_thread(claims, i) && !done.contains(i));
    assert forall|id: int| 0 <= id implies #[trigger] wanted(claims, i, id) <= amount(
        available,
        id,
    ) + released(claims, done, id) by {
        lemma_held_nonnegative(claims, done, id);
        if id < work.len() {
            assert(wanted(claims, i, id) <= work[id]);
        }
    }
    assert forall|k: int| 0 <= k < next.len() implies can_finish(
        available,
        claims,
        next.take(k),
        #[trigger] next[k],
    ) by {
        if k < done.len() {
            assert(next.take(k) =~= done.take(k));
            assert(next[k] == done[k]);
        } else {
            assert(next.take(k) =~= done);
        }
    }
    assert forall|k: int| 0 <= k < next.len() implies is_thread(claims, #[trigger] next[k]) by {
        if k < done.len() {
            assert(next[k] == done[k]);
        }
    }
    assert forall|k: int| 0 <= k < claims.len() implies (#[trigger] finish.update(i, true)[k]
        <==> !is_thread(claims, k) || next.contains(k)) by {
        if k == i {
            assert(next[done.len() as int] == i);
        } else {
            assert(finish[k] <==> !is_thread(claims, k) || done.contains(k));
            if done.contains(k) {
                assert(next[done.index_of(k)] == k);
            }
            if next.contains(k) {
                let m = next.index_of(k);
                assert(m < done.len() && done[m] == k);
            }
        }
    }
}

/// Whether a thread with this need can finish with what is in `work`.
fn fits(need: &Vec<usize>, work: &Vec<usize>) -> (fits: bool)
    requires
        need@.len() == work@.len(),
    ensures
        fits <==> forall|id: int| 0 <= id < need@.len() ==> #[trigger] need@[id] <= work@[id],
{
    let mut id: usize = 0;
    while id < need.len()
        invariant
            need@.len() == work@.len(),
            id <= need@.len(),
            forall|k: int| 0 <= k < id ==> #[trigger] need@[k] <= work@[k],
        decreases need@.len() - id,
    {
        if need[id] > work[id] {
            return false;
        }
        id = id + 1;
    }
    true
}

/// Adds the resources that a finished thread held to `work`. A count that
/// would overflow stays at the largest one.
fn give_back(work: &mut Vec<usize>, allocation: &Vec<usize>)
    requires
        old(work)@.len() == allocation@.len(),
    ensures
        final(work)@.len() == old(work)@.len(),
        forall|id: int|
            0 <= id < old(work)@.len() ==> #[trigger] final(work)@[id] == (if old(work)@[id]
                + allocation@[id] > usize::MAX {
                usize::MAX as int
            } else {
                old(work)@[id] + allocation@[id]
            }),
{
    let mut id: usize = 0;
    while id < work.len()
        invariant
            id <= work@.len(),
            work@.len() == old(work)@.len(),
            work@.len() == allocation@.len(),
            forall|k: int|
                0 <= k < id ==> #[trigger] work@[k] == (if old(work)@[k] + allocation@[k]
                    > usize::MAX {
                    usize::MAX as int
                } else {
                    old(work)@[k] + allocation@[k]
                }),
            forall|k: int| id <= k < work@.len() ==> #[trigger] work@[k] == old(work)@[k],
        decreases work@.len() - id,
    {
        let sum: usize = work[id].saturating_add(allocation[id]);
        work[id] = sum;
        id = id + 1;
    }
}

/// Whether the state is safe: whether there is an order in which all threads
/// can finish, when `available` is free and the threads hold and wait for what
/// `states` says. A slot without a thread takes no part.
pub fn is_state_safe(
    available: &[usize],
    states: Vec<Option<(Vec<usize>, Vec<usize>)>>,
) -> (safe: bool)
    ensures
        safe == is_safe(available@, claims_of(states@)),
{
    let ghost claims = claims_of(states@);
    let mut work: Vec<usize> = vstd::slice::slice_to_vec(available);
    let mut resource_len: usize = work.len();
    let mut i: usize = 0;
    while i < states.len()
        invariant
            i <= states@.len(),
            claims == claims_of(states@),
            available@.len() <= resource_len,
            mentions_below(claims, i as int, resource_len as int),
        decreases states@.len() - i,
    {
        if let Some(state) = &states[i] {
            if resource_len < state.0.len() {
                resource_len = state.0.len();
            }
            if resource_len < state.1.len() {
                resource_len = state.1.len();
            }
        }
        i = i + 1;
    }
    grow(&mut work, resource_len);

    let mut allocations: Vec<Vec<usize>> = Vec::with_capacity(states.len());
    let mut needs: Vec<Vec<usize>> = Vec::with_capacity(states.len());
    let mut finish: Vec<bool> = Vec::with_capacity(states.len());
    let mut i: usize = 0;
    while i < states.len()
        invariant
            i <= states@.len(),
            claims == claims_of(states@),
            mentions_below(claims, claims.len() as int, resource_len as int),
            allocations@.len() == i,
            finish@.len() == i,
            check_rows(claims, allocations@, needs@, resource_len as int),
            forall|k: int| 0 <= k < i ==> (#[trigger] finish@[k] <==> !is_thread(claims, k)),
        decreases states@.len() - i,
    {
        match &states[i] {
            Some(state) => {
                let mut allocation: Vec<usize> = state.0.clone();
                let mut need: Vec<usize> = state.1.clone();
                assert(allocation@ =~= state.0@);
                assert(need@ =~= state.1@);
                grow(&mut allocation, resource_len);
                grow(&mut need, resource_len);
                assert(claims[i as int] == Some(
                    Claim { allocation: state.0@, need: state.1@ },
                ));
                allocations.push(allocation);
                needs.push(need);
                finish.push(false);
            },
            None => {
                assert(claims[i as int] is None);
                allocations.push(vec![0; resource_len]);
                needs.push(vec![0; resource_len]);
                finish.push(true);
            },
        }
        i = i + 1;
    }

    let ghost mut done: Seq<int> = Seq::empty();
    let mut progressed: bool = true;
    while progressed
        invariant
            claims.len() == allocations@.len(),
            check_rows(claims, allocations@, needs@, resource_len as int),
            mentions_below(claims, claims.len() as int, resource_len as int),
            available@.len() <= resource_len,
            work@.len() == resource_len,
            check_state(available@, claims, done, work@, finish@),
            !progressed ==> forall|k: int|
                #[trigger] is_thread(claims, k) && !done.contains(k) ==> !can_finish(
                    available@,
                    claims,
                    done,
                    k,
                ),
        decreases claims.len() - done.len() + (if progressed { 1int } else { 0 }),
    {
        progressed = false;
        let ghost entry = done;
        let mut i: usize = 0;
        while i < allocations.len()
            invariant
                i <= claims.len(),
                claims.len() == allocations@.len(),
                check_rows(claims, allocations@, needs@, resource_len as int),
                mentions_below(claims, claims.len() as int, resource_len as int),
                available@.len() <= resource_len,
                work@.len() == resource_len,
                check_state(available@, claims, done, work@, finish@),
                done.len() >= entry.len(),
                progressed ==> done.len() > entry.len(),
                !progressed ==> forall|k: int|
                    k < i && #[trigger] is_thread(claims, k) && !done.contains(k)
                        ==> !can_finish(available@, claims, done, k),
            decreases allocations@.len() - i,
        {
            if !finish[i] {
                if fits(&needs[i], &work) {
                    let ghost before = work@;
                    let ghost unfinished = finish@;
                    give_back(&mut work, &allocations[i]);
                    finish[i] = true;
                    progressed = true;
                    proof {
                        assert forall|id: int| 0 <= id < before.len() implies wanted(
                            claims,
                            i as int,
                            id,
                        ) <= #[trigger] before[id] by {
                            assert(needs@[i as int]@[id] == wanted(claims, i as int, id));
                        }
                        lemma_finish_one(
                            available@,
                            claims,
                            done,
                            before,
                            unfinished,
                            i as int,
                            work@,
                        );
                        done = done.push(i as int);
                    }
                }
            }
            i = i + 1;
        }
        proof {
            lemma_bounded_indices(done, claims.len() as int);
        }
    }

    let mut i: usize = 0;
    while i < finish.len()
        invariant
            i <= finish@.len(),
            forall|k: int| 0 <= k < i ==> #[trigger] finish@[k],
            claims == claims_of(states@),
            check_state(available@, claims, done, work@, finish@),
            forall|k: int|
                #[trigger] is_thread(claims, k) && !done.contains(k) ==> !can_finish(
                    available@,
                    claims,
                    done,
                    k,
                ),
        decreases finish@.len() - i,
    {
        if !finish[i] {
            proof {
                lemma_stuck_is_unsafe(available@, claims, done, i as int);
            }
            return false;
        }
        i = i + 1;
    }
    proof {
        assert forall|k: int| #[trigger] is_thread(claims, k) implies done.contains(k) by {
            assert(finish@[k]);
        }
        assert(is_completion_order(available@, claims, done));
    }
    true
}

/// The claims behind (allocation, need) pairs, slot by slot.
pub proof fn claims_are_the_pairs(states: Seq<Option<(Vec<usize>, Vec<usize>)>>, i: int)
    requires
        0 <= i < states.len(),
    ensures
        claims_of(states).len() == states.len(),
        states[i] is None ==> claims_of(states)[i] is None,
        states[i] is Some ==> claims_of(states)[i] == Some(
            Claim { allocation: (states[i]->0).0@, need: (states[i]->0).1@ },
        ),
{
}

/// A state without threads is safe.
pub proof fn no_threads_are_safe(available: Seq<usize>, claims: Seq<Option<Claim>>)
    requires
        forall|i: int| 0 <= i < claims.len() ==> #[trigger] claims[i] is None,
    ensures
        is_safe(available, claims),
{
    assert(is_completion_order(available, claims, Seq::empty()));
}

/// A thread that holds nothing and waits for nothing does not matter.
proof fn lemma_idle_thread_is_no_thread(
    available: Seq<usize>,
    claims: Seq<Option<Claim>>,
    t: int,
)
    requires
        is_thread(claims, t),
        forall|id: int| #[trigger] held(claims, t, id) == 0,
        forall|id: int| #[trigger] wanted(claims, t, id) == 0,
    ensures
        is_safe(available, claims.update(t, None)) == is_safe(available, claims),
{
    let rest = claims.update(t, None);
    if is_safe(available, claims) {
        let order = choose|order: Seq<int>| is_completion_order(available, claims, order);
        let p = order.index_of(t);
        let next = order.remove(p);
        assert forall|k: int| 0 <= k < next.len() implies {
            &&& is_thread(rest, #[trigger] next[k])
            &&& can_finish(available, rest, next.take(k), next[k])
        } by {
            let q = if k < p {
                k
            } else {
                k + 1
            };
            assert(next[k] == order[q] && order[q] != order[p]);
            assert(is_thread(claims, order[q]));
            assert(can_finish(available, claims, order.take(q), order[q]));
            assert forall|id: int| 0 <= id implies #[trigger] wanted(rest, next[k], id) <= amount(
                available,
                id,
            ) + released(rest, next.take(k), id) by {
                assert(wanted(claims, order[q], id) <= amount(available, id) + released(
                    claims,
                    order.take(q),
                    id,
                ));
                if q > p {
                    lemma_released_remove(claims, order.take(q), p, id);
                    assert(order.take(q).remove(p) =~= next.take(k));
                    assert(held(claims, t, id) == 0);
                } else {
                    assert(order.take(q) =~= next.take(k));
                }
                assert forall|m: int| 0 <= m < next.take(k).len() implies held(
                    rest,
                    #[trigger] next.take(k)[m],
                    id,
                ) == held(claims, next.take(k)[m], id) by {
                    assert(next.take(k)[m] == next[m]);
                    assert(next[m] == order[if m < p {
                        m
                    } else {
                        m + 1
                    }]);
                }
                lemma_released_same(claims, rest, next.take(k), id);
            }
        }
        assert forall|i: int| #[trigger] is_thread(rest, i) implies next.contains(i) by {
            assert(is_thread(claims, i) && i != t);
            let q = order.index_of(i);
            assert(next[if q < p {
                q
            } else {
                q - 1
            }] == i);
        }
        assert(is_completion_order(available, rest, next));
    }
    if is_safe(available, rest) {
        let order = choose|order: Seq<int>| is_completion_order(available, rest, order);
        let next = order.push(t);
        assert forall|k: int| 0 <= k < order.len() implies #[trigger] order[k] != t by {
            assert(is_thread(rest, order[k]));
        }
        assert forall|k: int| 0 <= k < next.len() implies {
            &&& is_thread(claims, #[trigger] next[k])
            &&& can_finish(available, claims, next.take(k), next[k])
        } by {
            assert(next.take(k) =~= order.take(k));
            if k < order.len() {
                assert(next[k] == order[k]);
                assert(is_thread(rest, order[k]));
                assert(can_finish(available, rest, order.take(k), order[k]));
                assert forall|id: int| 0 <= id implies #[trigger] wanted(claims, next[k], id)
                    <= amount(available, id) + released(claims, next.take(k), id) by {
                    assert(wanted(rest, order[k], id) <= amount(available, id) + released(
                        rest,
                        order.take(k),
                        id,
                    ));
                    assert forall|m: int| 0 <= m < order.take(k).len() implies held(
                        rest,
                        #[trigger] order.take(k)[m],
                        id,
                    ) == held(claims, order.take(k)[m], id) by {
                        assert(order.take(k)[m] == order[m]);
                    }
                    lemma_released_same(claims, rest, order.take(k), id);
                }
            } else {
                assert forall|id: int| 0 <= id implies #[trigger] wanted(claims, next[k], id)
                    <= amount(available, id) + released(claims, next.take(k), id) by {
                    lemma_held_nonnegative(claims, next.take(k), id);
                }
            }
        }
        assert forall|i: int| #[trigger] is_thread(claims, i) implies next.contains(i) by {
            if i == t {
                assert(next[order.len() as int] == t);
            } else {
                assert(is_thread(rest, i));
                assert(next[order.index_of(i)] == i);
            }
        }
        assert(is_completion_order(available, claims, next));
    }
}

/// A thread all of whose waits can be met may run to its end: the state is as safe
/// as the one in which it is gone and what it held is free. A free count that
/// would be too large is the largest one.
///
/// Together with [`no_threads_are_safe`] and [`closed_waits_are_unsafe`] this tells
/// of every state whether it is safe, one thread after another.
pub proof fn finished_thread_may_leave(
    available: Seq<usize>,
    claims: Seq<Option<Claim>>,
    t: int,
    available_after: Seq<usize>,
)
    requires
        0 <= t < claims.len(),
        claims[t] is Some,
        forall|id: int| #[trigger] amount((claims[t]->0).need, id) <= amount(available, id),
        forall|id: int|
            #![trigger amount(available_after, id)]
            {
                let sum = amount(available, id) + amount((claims[t]->0).allocation, id);
                amount(available_after, id) == if sum <= usize::MAX {
                    sum
                } else {
                    usize::MAX as int
                }
            },
    ensures
        is_safe(available, claims) == is_safe(available_after, claims.update(t, None)),
{
    let claim = claims[t]->0;
    let idle = Claim { allocation: Seq::empty(), need: Seq::empty() };
    let rest = with_claim(claims, t, idle);
    assert(is_thread(claims, t) && is_thread(rest, t));
    if is_safe(available, claims) {
        assert forall|id: int| 0 <= id implies {
            &&& amount(available, id) <= #[trigger] amount(available_after, id)
            &&& amount(available_after, id) + amount(idle.allocation, id) >= amount(available, id)
                + held(claims, t, id) || amount(available_after, id) == usize::MAX
        } by {}
        returned_units_keep_state_safe(available, claims, t, available_after, idle);
    }
    if is_safe(available_after, rest) {
        assert forall|id: int| 0 <= id implies {
            &&& amount(claim.need, id) <= #[trigger] amount(available, id)
            &&& amount(available, id) + amount(claim.allocation, id) >= amount(available_after, id)
                + held(rest, t, id)
        } by {
            assert(amount(claim.need, id) <= amount(available, id));
            assert(amount(available_after, id) <= amount(available, id) + amount(
                claim.allocation,
                id,
            ));
        }
        ready_thread_keeps_state_safe(available_after, rest, t, available, claim);
        assert(with_claim(rest, t, claim) =~= claims);
    }
    lemma_idle_thread_is_no_thread(available_after, rest, t);
    assert(rest.update(t, None) =~= claims.update(t, None));
}

/// The first entry of `order` that is in `stuck`.
proof fn lemma_first_inside(order: Seq<int>, stuck: Set<int>, x: int)
    requires
        order.contains(x),
        stuck.contains(x),
    ensures
        exists|k: int|
            0 <= k < order.len() && stuck.contains(#[trigger] order[k]) && forall|m: int|
                0 <= m < k ==> !stuck.contains(#[trigger] order[m]),
    decreases order.len(),
{
    let p = order.index_of(x);
    if exists|m: int| 0 <= m < p && stuck.contains(#[trigger] order[m]) {
        let m = choose|m: int| 0 <= m < p && stuck.contains(#[trigger] order[m]);
        let front = order.take(p);
        assert(front[m] == order[m]);
        lemma_first_inside(front, stuck, order[m]);
        let k = choose|k: int|
            0 <= k < front.len() && stuck.contains(#[trigger] front[k]) && forall|m: int|
                0 <= m < k ==> !stuck.contains(#[trigger] front[m]);
        assert(order[k] == front[k]);
        assert forall|m: int| 0 <= m < k implies !stuck.contains(#[trigger] order[m]) by {
            assert(front[m] == order[m]);
        }
    } else {
        assert(stuck.contains(order[p]));
    }
}

/// Threads that wait for one another are deadlocked, however many they are: if each
/// thread `i` of a set waits for more of the lock `lock(i)` than is free, and no
/// thread outside the set holds any of it, the state is not safe.
pub proof fn closed_waits_are_unsafe(
    available: Seq<usize>,
    claims: Seq<Option<Claim>>,
    stuck: Set<int>,
    lock: spec_fn(int) -> int,
    first: int,
)
    requires
        stuck.contains(first),
        forall|i: int| #[trigger]
            stuck.contains(i) ==> {
                &&& 0 <= i < claims.len()
                &&& claims[i] is Some
                &&& amount((claims[i]->0).need, lock(i)) > amount(available, lock(i))
            },
        forall|i: int, j: int| #[trigger]
            stuck.contains(i) && 0 <= j < claims.len() && #[trigger] claims[j] is Some
                && !stuck.contains(j) ==> amount((claims[j]->0).allocation, lock(i)) == 0,
    ensures
        !is_safe(available, claims),
{
    if is_safe(available, claims) {
        let order = choose|order: Seq<int>| is_completion_order(available, claims, order);
        assert(is_thread(claims, first));
        lemma_first_inside(order, stuck, first);
        let k = choose|k: int|
            0 <= k < order.len() && stuck.contains(#[trigger] order[k]) && forall|m: int|
                0 <= m < k ==> !stuck.contains(#[trigger] order[m]);
        let id = lock(order[k]);
        let done = order.take(k);
        assert(can_finish(available, claims, done, order[k]));
        assert(0 <= id);
        assert(wanted(claims, order[k], id) <= amount(available, id) + released(
            claims,
            done,
            id,
        ));
        assert forall|m: int| 0 <= m < done.len() implies held(claims, #[trigger] done[m], id)
            == 0 by {
            assert(done[m] == order[m]);
            assert(is_thread(claims, order[m]));
            assert(claims[order[m]] is Some && !stuck.contains(order[m]));
        }
        lemma_nothing_released(claims, done, id);
    }
}

} // verus!
