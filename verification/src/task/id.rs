//! Ids that are handed out and taken back.

use vstd::prelude::*;

verus! {

/// Hands out ids from zero up, those that came back first.
pub struct RecycleAllocator {
    current: usize,
    recycled: Vec<usize>,
}

/// The state of a [`RecycleAllocator`]: the ids below `next` were handed out,
/// those in `recycled` came back since, the latest one last.
#[verifier::ext_equal]
pub struct IdPool {
    pub next: int,
    pub recycled: Seq<usize>,
}

impl IdPool {
    /// No id was handed out yet.
    pub open spec fn fresh() -> IdPool {
        IdPool { next: 0, recycled: Seq::empty() }
    }

    /// The ids that came back were handed out before, and each came back once.
    pub open spec fn wf(self) -> bool {
        &&& 0 <= self.next <= usize::MAX
        &&& self.recycled.no_duplicates()
        &&& forall|k: int| 0 <= k < self.recycled.len() ==> #[trigger] self.recycled[k] < self.next
    }

    /// The id is in use.
    pub open spec fn in_use(self, id: usize) -> bool {
        id < self.next && !self.recycled.contains(id)
    }

    /// There is an id left to hand out.
    pub open spec fn has_free(self) -> bool {
        self.recycled.len() > 0 || self.next < usize::MAX
    }

    /// The id that is handed out next.
    pub open spec fn first_free(self) -> usize {
        if self.recycled.len() > 0 {
            self.recycled.last()
        } else {
            self.next as usize
        }
    }

    /// The pool after an id was handed out.
    pub open spec fn after_alloc(self) -> IdPool {
        if self.recycled.len() > 0 {
            IdPool { recycled: self.recycled.drop_last(), ..self }
        } else {
            IdPool { next: self.next + 1, ..self }
        }
    }

    /// The pool after `id` came back.
    pub open spec fn after_dealloc(self, id: usize) -> IdPool {
        IdPool { recycled: self.recycled.push(id), ..self }
    }
}

impl View for RecycleAllocator {
    type V = IdPool;

    closed spec fn view(&self) -> IdPool {
        IdPool { next: self.current as int, recycled: self.recycled@ }
    }
}

impl RecycleAllocator {
    /// An allocator that has handed out nothing.
    pub fn new() -> (allocator: RecycleAllocator)
        ensures
            allocator@ == IdPool::fresh(),
    {
        RecycleAllocator { current: 0, recycled: Vec::new() }
    }

    /// Hands out an id: the one that came back last, or else a new one.
    pub fn allocate(&mut self) -> (id: usize)
        requires
            old(self)@.has_free(),
        ensures
            id == old(self)@.first_free(),
            final(self)@ == old(self)@.after_alloc(),
    {
        if let Some(id) = self.recycled.pop() {
            id
        } else {
            self.current = self.current + 1;
            self.current - 1
        }
    }

    /// Takes an id back.
    pub fn deallocate(&mut self, id: usize)
        requires
            old(self)@.in_use(id),
        ensures
            final(self)@ == old(self)@.after_dealloc(id),
    {
        self.recycled.push(id);
    }
}

/// An id that is handed out was not in use before and is in use then; no other
/// id changes.
pub proof fn alloc_gives_unused_id(pool: IdPool, other: usize)
    requires
        pool.wf(),
        pool.has_free(),
    ensures
        pool.after_alloc().wf(),
        !pool.in_use(pool.first_free()),
        pool.after_alloc().in_use(pool.first_free()),
        other != pool.first_free() ==> pool.after_alloc().in_use(other) == pool.in_use(other),
{
    let id = pool.first_free();
    let rest = pool.after_alloc().recycled;
    if pool.recycled.len() > 0 {
        assert(pool.recycled[pool.recycled.len() - 1] == id);
        assert(pool.recycled.contains(id));
        assert forall|k: int| 0 <= k < rest.len() implies #[trigger] rest[k] == pool.recycled[k]
            && rest[k] != id by {}
        if other != id && pool.recycled.contains(other) {
            let k = pool.recycled.index_of(other);
            assert(rest[k] == other);
        }
    } else if pool.recycled.contains(id) {
        assert(false);
    }
}

/// An id that comes back is free again, and is the next one handed out.
pub proof fn dealloc_frees_id(pool: IdPool, id: usize, other: usize)
    requires
        pool.wf(),
        pool.in_use(id),
    ensures
        pool.after_dealloc(id).wf(),
        !pool.after_dealloc(id).in_use(id),
        other != id ==> pool.after_dealloc(id).in_use(other) == pool.in_use(other),
        pool.after_dealloc(id).first_free() == id,
        pool.after_dealloc(id).after_alloc() == pool,
{
    let back = pool.after_dealloc(id).recycled;
    assert(back[pool.recycled.len() as int] == id);
    assert(back.drop_last() =~= pool.recycled);
    if other != id {
        if pool.recycled.contains(other) {
            assert(back[pool.recycled.index_of(other)] == other);
        }
        if back.contains(other) {
            assert(pool.recycled[back.index_of(other)] == other);
        }
    }
}

/// An id is in use from when it was handed out until it comes back.
pub proof fn id_in_use_was_not_returned(pool: IdPool, id: usize)
    ensures
        pool.in_use(id) <==> id < pool.next && forall|k: int|
            0 <= k < pool.recycled.len() ==> #[trigger] pool.recycled[k] != id,
{
    if pool.recycled.contains(id) {
        assert(pool.recycled[pool.recycled.index_of(id)] == id);
    }
}

/// Ids count up from zero as long as none comes back.
pub proof fn ids_count_up(pool: IdPool)
    ensures
        IdPool::fresh().next == 0,
        IdPool::fresh().recycled.len() == 0,
        pool.recycled.len() == 0 && 0 <= pool.next <= usize::MAX ==> pool.first_free() == pool.next,
        pool.recycled.len() == 0 ==> pool.after_alloc().next == pool.next + 1
            && pool.after_alloc().recycled.len() == 0,
        pool.has_free() <==> pool.recycled.len() > 0 || pool.next < usize::MAX,
{
}

/// The id that came back last goes out first; the others keep their turn.
pub proof fn returned_ids_go_out_again(pool: IdPool, id: usize)
    ensures
        pool.after_dealloc(id).next == pool.next,
        pool.after_dealloc(id).recycled == pool.recycled.push(id),
        pool.recycled.len() > 0 ==> {
            &&& pool.first_free() == pool.recycled[pool.recycled.len() - 1]
            &&& pool.after_alloc().next == pool.next
            &&& pool.after_alloc().recycled.push(pool.first_free()) == pool.recycled
        },
{
    if pool.recycled.len() > 0 {
        assert(pool.after_alloc().recycled.push(pool.first_free()) =~= pool.recycled);
    }
}

/// In a well-formed pool every id that came back had been handed out, and came back
/// once.
pub proof fn pool_has_no_stray_ids(pool: IdPool)
    ensures
        pool.wf() <==> {
            &&& 0 <= pool.next <= usize::MAX
            &&& forall|k: int, m: int|
                0 <= k < m < pool.recycled.len() ==> #[trigger] pool.recycled[k]
                    != #[trigger] pool.recycled[m]
            &&& forall|k: int|
                0 <= k < pool.recycled.len() ==> #[trigger] pool.recycled[k] < pool.next
        },
{
}

} // verus!
