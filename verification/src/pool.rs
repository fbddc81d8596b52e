//! Fixed-capacity storage for one column.
use vstd::prelude::*;
use crate::error::TableError;

verus! {

/// A block of `capacity` slots that is allocated once and never grows.
///
/// Each slot remembers whether it holds a value, so a slot that was never
/// written cannot be read. The pool's view is the sequence of its slots.
pub struct Pool<T> {
    slots: Vec<Option<T>>,
}

impl<T> View for Pool<T> {
    type V = Seq<Option<T>>;

    closed spec fn view(&self) -> Seq<Option<T>> {
        self.slots@
    }
}

impl<T> Pool<T> {
    /// The number of slots.
    pub open spec fn spec_capacity(&self) -> nat {
        self@.len()
    }

    /// Whether slot `index` exists and holds a value.
    pub open spec fn holds(&self, index: int) -> bool {
        0 <= index < self@.len() && self@[index] is Some
    }

    /// A pool of `block_number` slots, none of which holds a value.
    pub fn new(block_number: usize) -> (pool: Pool<T>)
        ensures
            pool@.len() == block_number,
            forall|i: int| 0 <= i < block_number ==> pool@[i] is None,
    {
        let mut slots: Vec<Option<T>> = Vec::with_capacity(block_number);
        let mut filled: usize = 0;
        while filled < block_number
            invariant
                filled <= block_number,
                slots@.len() == filled,
                forall|i: int| 0 <= i < filled ==> slots@[i] is None,
            decreases block_number - filled,
        {
            slots.push(None);
            filled = filled + 1;
        }
        Pool { slots }
    }

    /// The number of slots.
    pub fn capacity(&self) -> (capacity: usize)
        ensures
            capacity == self@.len(),
    {
        self.slots.len()
    }

    /// Stores `data` in slot `index`, over whatever the slot held. An index
    /// beyond the pool is ignored: the pool stays as it was and `data` is
    /// dropped.
    pub fn write(&mut self, index: usize, data: T)
        ensures
            index < old(self)@.len() ==> final(self)@ == old(self)@.update(index as int, Some(data)),
            index >= old(self)@.len() ==> final(self)@ == old(self)@,
    {
        if index < self.slots.len() {
            self.slots[index] = Some(data);
        }
    }

    /// A mutable reference to the value in slot `index`. The slot must exist
    /// and hold a value; what is stored through the reference is what the
    /// slot holds afterwards, and no other slot changes.
    pub fn get(&mut self, index: usize) -> (value: &mut T)
        requires
            old(self).holds(index as int),
        ensures
            Some(*value) == old(self)@[index as int],
            final(self)@ == old(self)@.update(index as int, Some(*final(value))),
    {
        match &mut self.slots[index] {
            Some(value) => value,
            None => unreached(),
        }
    }

    /// A shared reference to the value in slot `index`. The slot must exist
    /// and hold a value.
    pub fn read(&self, index: usize) -> (value: &T)
        requires
            self.holds(index as int),
        ensures
            Some(*value) == self@[index as int],
    {
        match &self.slots[index] {
            Some(value) => value,
            None => unreached(),
        }
    }

    /// The value in slot `index`, or why there is none to hand out: the
    /// index lies beyond the pool, or the slot was never written.
    pub fn try_get(&self, index: usize) -> (found: Result<Option<&T>, TableError>)
        ensures
            index >= self@.len() ==> found == Err::<Option<&T>, TableError>(TableError::IndexOutOfBounds),
            index < self@.len() ==> found == Ok::<Option<&T>, TableError>(
                match self@[index as int] {
                    Some(value) => Some(&value),
                    None => None,
                },
            ),
    {
        if index < self.slots.len() {
            Ok(self.slots[index].as_ref())
        } else {
            Err(TableError::IndexOutOfBounds)
        }
    }

    /// Whether slot `index` exists and holds a value.
    pub fn is_written(&self, index: usize) -> (written: bool)
        ensures
            written == self.holds(index as int),
    {
        index < self.slots.len() && self.slots[index].is_some()
    }

    /// Takes the value out of slot `index`, which holds none afterwards. An
    /// index beyond the pool gives nothing and changes nothing.
    pub fn take(&mut self, index: usize) -> (taken: Option<T>)
        ensures
            index < old(self)@.len() ==> taken == old(self)@[index as int],
            index < old(self)@.len() ==> final(self)@ == old(self)@.update(index as int, None),
            index >= old(self)@.len() ==> taken.is_none() && final(self)@ == old(self)@,
    {
        if index < self.slots.len() {
            self.slots[index].take()
        } else {
            None
        }
    }
}

} // verus!
