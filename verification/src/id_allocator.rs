//! Issues and recycles the identifiers of rows.
use vstd::prelude::*;

verus! {

/// The mathematical state of an [`IdAllocator`].
pub struct IdState {
    /// Every identifier below this number has been issued at least once.
    pub next: nat,
    /// The identifiers that were handed back, oldest first: the last one is
    /// the next to be issued.
    pub free: Seq<usize>,
}

impl IdState {
    /// The state of an allocator that has issued nothing.
    pub open spec fn empty() -> IdState {
        IdState { next: 0, free: Seq::empty() }
    }

    /// Every free identifier was issued before, and none is free twice.
    pub open spec fn inv(self) -> bool {
        &&& self.free.no_duplicates()
        &&& forall|k: int| 0 <= k < self.free.len() ==> (#[trigger] self.free[k]) < self.next
    }

    /// The identifier that the next call of `issue` returns: the one freed
    /// last, or the counter's value where none is free.
    pub open spec fn issued(self) -> nat {
        if self.free.len() > 0 {
            self.free.last() as nat
        } else {
            self.next
        }
    }

    /// The state after one call of `issue`.
    pub open spec fn after_issue(self) -> IdState {
        if self.free.len() > 0 {
            IdState { next: self.next, free: self.free.drop_last() }
        } else {
            IdState { next: self.next + 1, free: self.free }
        }
    }

    /// The state after `id` was handed back.
    pub open spec fn after_recycle(self, id: usize) -> IdState {
        IdState { next: self.next, free: self.free.push(id) }
    }

    /// Whether `issue` can represent its result: a free identifier is
    /// waiting, or the counter has not reached the largest `usize`.
    pub open spec fn can_issue(self) -> bool {
        self.free.len() > 0 || self.next < usize::MAX
    }
}

/// Hands out identifiers: a recycled one if any is waiting, most recently
/// recycled first, else the next value of a counter that only grows.
pub struct IdAllocator {
    next_id: usize,
    free: Vec<usize>,
}

impl View for IdAllocator {
    type V = IdState;

    closed spec fn view(&self) -> IdState {
        IdState { next: self.next_id as nat, free: self.free@ }
    }
}

impl IdAllocator {
    /// The allocator's invariant: see [`IdState::inv`].
    pub open spec fn wf(&self) -> bool {
        self@.inv()
    }

    /// An allocator that has issued nothing: its first identifier is 0.
    pub fn new() -> (allocator: IdAllocator)
        ensures
            allocator.wf(),
            allocator@ == IdState::empty(),
    {
        IdAllocator { next_id: 0, free: Vec::new() }
    }

    /// Issues an identifier: the one recycled last, or the counter's value,
    /// after which the counter moves on by one.
    pub fn issue(&mut self) -> (id: usize)
        requires
            old(self).wf(),
            old(self)@.can_issue(),
        ensures
            final(self).wf(),
            id == old(self)@.issued(),
            final(self)@ == old(self)@.after_issue(),
            id < final(self)@.next,
            !final(self)@.free.contains(id),
    {
        match self.free.pop() {
            Some(id) => {
                proof {
                    let before = old(self)@.free;
                    assert(self@.free =~= before.drop_last());
                    assert(before[before.len() - 1] == id);
                    assert forall|k: int| 0 <= k < self@.free.len() implies self@.free[k] != id by {
                        assert(before[k] == self@.free[k]);
                    }
                }
                id
            },
            None => {
                let id = self.next_id;
                self.next_id = self.next_id + 1;
                id
            },
        }
    }

    /// Hands `id` back for reuse. The caller vouches that `id` was issued
    /// and is no longer in use; that it is not already waiting is required.
    pub fn recycle(&mut self, id: usize)
        requires
            old(self).wf(),
            id < old(self)@.next,
            !old(self)@.free.contains(id),
        ensures
            final(self).wf(),
            final(self)@ == old(self)@.after_recycle(id),
    {
        self.free.push(id);
        proof {
            let before = old(self)@.free;
            assert forall|i: int, j: int|
                0 <= i < self@.free.len() && 0 <= j < self@.free.len() && i != j implies self@.free[i]
                != self@.free[j] by {
                if i < before.len() {
                    assert(before.contains(before[i]));
                }
                if j < before.len() {
                    assert(before.contains(before[j]));
                }
            }
        }
    }

    /// The number of identifiers waiting for reuse.
    pub fn free_count(&self) -> (count: usize)
        ensures
            count == self@.free.len(),
    {
        self.free.len()
    }

    /// The counter: no identifier at or above it has ever been issued.
    pub fn next_fresh(&self) -> (next: usize)
        ensures
            next == self@.next,
    {
        self.next_id
    }
}

} // verus!
