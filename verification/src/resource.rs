//! Resource vectors: one count per mutex or semaphore id, grown on demand with
//! zeros. An id beyond the end of a vector has the count zero.

use vstd::prelude::*;

verus! {

/// The count that `counts` records for resource `id`.
pub open spec fn amount(counts: Seq<usize>, id: int) -> int {
    if 0 <= id < counts.len() {
        counts[id] as int
    } else {
        0
    }
}

/// `counts` grown with zeros to at least `len` entries.
pub open spec fn grown(counts: Seq<usize>, len: int) -> Seq<usize> {
    if counts.len() < len {
        Seq::new(len as nat, |id: int| amount(counts, id) as usize)
    } else {
        counts
    }
}

/// Growing a vector changes no count.
pub broadcast proof fn grown_keeps_amounts(counts: Seq<usize>, len: int, id: int)
    ensures
        #[trigger] amount(grown(counts, len), id) == amount(counts, id),
{
}

/// Grows `counts` with zeros to at least `len` entries.
pub(crate) fn grow(counts: &mut Vec<usize>, len: usize)
    ensures
        final(counts)@ == grown(old(counts)@, len as int),
{
    if counts.len() < len {
        counts.resize(len, 0);
        assert(forall|id: int|
            0 <= id < old(counts)@.len() ==> counts@[id] == counts@.subrange(
                0,
                old(counts)@.len() as int,
            )[id]);
        assert(counts@ =~= grown(old(counts)@, len as int));
    }
}

/// `counts` with the count for `id` set to `value`.
pub open spec fn set_count(counts: Seq<usize>, id: int, value: int) -> Seq<usize> {
    grown(counts, id + 1).update(id, value as usize)
}

/// Setting one count changes no other.
pub broadcast proof fn set_count_changes_one_amount(
    counts: Seq<usize>,
    id: int,
    value: int,
    other: int,
)
    requires
        0 <= id,
        0 <= value <= usize::MAX,
    ensures
        #[trigger] amount(set_count(counts, id, value), other) == (if other == id {
            value
        } else {
            amount(counts, other)
        }),
{
    grown_keeps_amounts(counts, id + 1, other);
}

/// One less, but not below zero.
pub open spec fn lowered(count: int) -> int {
    if count > 0 {
        count - 1
    } else {
        0
    }
}

/// Sets the count for `id`.
pub(crate) fn put_count(counts: &mut Vec<usize>, id: usize, value: usize)
    requires
        id < usize::MAX,
    ensures
        final(counts)@ == set_count(old(counts)@, id as int, value as int),
{
    grow(counts, id + 1);
    counts[id] = value;
}

/// Raises the count for `id` by one.
pub(crate) fn raise_count(counts: &mut Vec<usize>, id: usize)
    requires
        id < usize::MAX,
        amount(old(counts)@, id as int) < usize::MAX,
    ensures
        final(counts)@ == set_count(old(counts)@, id as int, amount(old(counts)@, id as int) + 1),
{
    grow(counts, id + 1);
    let count: usize = counts[id];
    counts[id] = count + 1;
}

/// Lowers the count for `id` by one, unless it is zero.
pub(crate) fn lower_count(counts: &mut Vec<usize>, id: usize)
    requires
        id < usize::MAX,
    ensures
        final(counts)@ == set_count(
            old(counts)@,
            id as int,
            lowered(amount(old(counts)@, id as int)),
        ),
{
    grow(counts, id + 1);
    let count: usize = counts[id];
    if count > 0 {
        counts[id] = count - 1;
    } else {
        assert(counts@ =~= counts@.update(id as int, 0));
    }
}

/// A count is the entry of the vector, and zero where it has none.
pub proof fn amount_is_the_entry(counts: Seq<usize>, id: int)
    ensures
        0 <= id < counts.len() ==> amount(counts, id) == counts[id],
        id < 0 || counts.len() <= id ==> amount(counts, id) == 0,
{
}

/// A vector that grows keeps its entries, and its new ones are zero; it never gets
/// shorter.
pub proof fn growing_appends_zeros(counts: Seq<usize>, len: int)
    ensures
        len <= counts.len() ==> grown(counts, len) == counts,
        counts.len() <= len ==> grown(counts, len).len() == len,
        counts.len() <= grown(counts, len).len(),
        forall|i: int| 0 <= i < counts.len() ==> #[trigger] grown(counts, len)[i] == counts[i],
        forall|i: int| counts.len() <= i < len ==> #[trigger] grown(counts, len)[i] == 0,
{
    if counts.len() == len {
        assert(grown(counts, len) =~= counts);
    }
}

/// Setting a count changes that entry alone; a vector that is too short is filled
/// up with zeros.
pub proof fn set_count_changes_one_entry(counts: Seq<usize>, id: int, value: int)
    requires
        0 <= id,
        0 <= value <= usize::MAX,
    ensures
        set_count(counts, id, value)[id] == value,
        id < counts.len() ==> set_count(counts, id, value).len() == counts.len(),
        counts.len() <= id ==> set_count(counts, id, value).len() == id + 1,
        forall|i: int|
            0 <= i < counts.len() && i != id ==> #[trigger] set_count(counts, id, value)[i]
                == counts[i],
        forall|i: int|
            counts.len() <= i < id ==> #[trigger] set_count(counts, id, value)[i] == 0,
{
}

/// A count that is lowered loses one, unless there is none to lose.
pub proof fn lowering_takes_one(count: int)
    ensures
        count > 0 ==> lowered(count) + 1 == count,
        count <= 0 ==> lowered(count) == 0,
{
}

} // verus!
