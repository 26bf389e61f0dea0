//! Tables whose entries are found by index, and whose free entries are used
//! again, the lowest one first.

use vstd::prelude::*;

verus! {

/// `id` is the lowest free entry, or the length of a table without a free entry.
pub open spec fn is_lowest_free<T>(table: Seq<Option<T>>, id: int) -> bool {
    &&& 0 <= id <= table.len()
    &&& forall|k: int| 0 <= k < id ==> #[trigger] table[k] is Some
    &&& id < table.len() ==> table[id] is None
}

/// The table with `entry` at index `id`, which is at most its length.
pub open spec fn with_entry<T>(table: Seq<Option<T>>, id: int, entry: Option<T>) -> Seq<Option<T>> {
    if id < table.len() {
        table.update(id, entry)
    } else {
        table.push(entry)
    }
}

/// The entry at index `id` is in use.
pub open spec fn has_entry<T>(table: Seq<Option<T>>, id: int) -> bool {
    0 <= id < table.len() && table[id] is Some
}

/// There is only one lowest free entry.
pub proof fn lowest_free_is_unique<T>(table: Seq<Option<T>>, a: int, b: int)
    requires
        is_lowest_free(table, a),
        is_lowest_free(table, b),
    ensures
        a == b,
{
    if a < b {
        assert(table[a] is Some);
    } else if b < a {
        assert(table[b] is Some);
    }
}

/// An entry that was put into the lowest free place is found there, and no other
/// entry changes.
pub proof fn new_entry_is_found<T>(table: Seq<Option<T>>, id: int, entry: T, other: int)
    requires
        is_lowest_free(table, id),
    ensures
        !has_entry(table, id),
        has_entry(with_entry(table, id, Some(entry)), id),
        with_entry(table, id, Some(entry))[id] == Some(entry),
        other != id ==> has_entry(with_entry(table, id, Some(entry)), other) == has_entry(
            table,
            other,
        ),
        other != id && has_entry(table, other) ==> with_entry(table, id, Some(entry))[other]
            == table[other],
{
}

/// An entry that is taken out again leaves the table as it was, except that the
/// place stays if the table had to grow. It is not found any more, and its place
/// is the next one used.
pub proof fn removed_entry_is_used_again<T>(table: Seq<Option<T>>, id: int, entry: T)
    requires
        is_lowest_free(table, id),
    ensures
        with_entry(table, id, Some(entry)).update(id, None) == with_entry(table, id, None),
        id < table.len() ==> with_entry(table, id, None) == table,
        !has_entry(with_entry(table, id, None), id),
        is_lowest_free(with_entry(table, id, None), id),
{
    assert(with_entry(table, id, Some(entry)).update(id, None) =~= with_entry(table, id, None));
    if id < table.len() {
        assert(with_entry(table, id, None) =~= table);
    }
}

/// Finds the lowest free entry.
pub(crate) fn lowest_free<T>(table: &Vec<Option<T>>) -> (id: usize)
    ensures
        is_lowest_free(table@, id as int),
{
    let mut id: usize = 0;
    while id < table.len()
        invariant
            id <= table@.len(),
            forall|k: int| 0 <= k < id ==> #[trigger] table@[k] is Some,
        decreases table@.len() - id,
    {
        if table[id].is_none() {
            return id;
        }
        id = id + 1;
    }
    id
}

/// Puts `entry` into the lowest free entry, or at the end.
pub(crate) fn put_lowest_free<T>(table: &mut Vec<Option<T>>, entry: Option<T>) -> (id: usize)
    ensures
        is_lowest_free(old(table)@, id as int),
        final(table)@ == with_entry(old(table)@, id as int, entry),
        id < final(table)@.len(),
{
    let id: usize = lowest_free(table);
    if id < table.len() {
        table[id] = entry;
    } else {
        table.push(entry);
    }
    id
}

/// What the lowest free entry is: all entries below it are in use, and it is free
/// itself, or the table ends there. Every table has one.
pub proof fn lowest_free_is_first_unused<T>(table: Seq<Option<T>>, id: int)
    ensures
        is_lowest_free(table, id) <==> {
            &&& 0 <= id <= table.len()
            &&& forall|k: int| 0 <= k < id ==> #[trigger] table[k] != None::<T>
            &&& id == table.len() || table[id] == None::<T>
        },
        exists|free: int| is_lowest_free(table, free),
    decreases table.len(),
{
    if table.len() == 0 {
        assert(is_lowest_free(table, 0));
    } else {
        let front = table.drop_last();
        lowest_free_is_first_unused(front, 0);
        let free = choose|free: int| is_lowest_free(front, free);
        assert forall|k: int| 0 <= k < free implies #[trigger] table[k] is Some by {
            assert(front[k] is Some);
        }
        if free < front.len() {
            assert(table[free] == front[free]);
            assert(is_lowest_free(table, free));
        } else if table.last() is Some {
            assert(is_lowest_free(table, free + 1));
        } else {
            assert(is_lowest_free(table, free));
        }
    }
    if is_lowest_free(table, id) {
        assert forall|k: int| 0 <= k < id implies #[trigger] table[k] != None::<T> by {
            assert(table[k] is Some);
        }
    }
    if forall|k: int| 0 <= k < id ==> #[trigger] table[k] != None::<T> {
        assert forall|k: int| 0 <= k < id implies #[trigger] table[k] is Some by {
            assert(table[k] != None::<T>);
        }
    }
}

/// Putting an entry into a table changes no other entry; at the end, the table
/// grows by one.
pub proof fn entry_changes_one_place<T>(table: Seq<Option<T>>, id: int, entry: Option<T>)
    requires
        0 <= id <= table.len(),
    ensures
        with_entry(table, id, entry)[id] == entry,
        id < table.len() ==> with_entry(table, id, entry).len() == table.len(),
        id == table.len() ==> with_entry(table, id, entry).len() == table.len() + 1,
        forall|k: int|
            0 <= k < table.len() && k != id ==> #[trigger] with_entry(table, id, entry)[k]
                == table[k],
{
}

/// An entry is in use if the table reaches that far and holds something there.
pub proof fn entry_in_use_is_not_empty<T>(table: Seq<Option<T>>, id: int)
    ensures
        has_entry(table, id) <==> 0 <= id < table.len() && table[id] != None::<T>,
{
}

} // verus!
