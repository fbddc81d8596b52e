//! The fixed-capacity table: columns held in pools that are allocated once,
//! a deletion mark per row, and compaction by one forward pass that keeps
//! the surviving rows in their order.
use vstd::prelude::*;
use crate::compaction::{
    lemma_kept_len, lemma_picked_ids_fresh, lemma_room_for_one_more, lemma_stable_commit,
    lemma_stable_commit_nothing, survivors_below,
};
use crate::error::TableError;
use crate::id_allocator::IdAllocator;
use crate::model::{kept, picked_ascending, TableModel};
use crate::pool::Pool;

verus! {

/// A dense row store for at most `capacity` rows, where `capacity` is
/// chosen when the table is made.
///
/// Rows stand at the indices `0..len()` of every pool. A commit copies the
/// surviving rows forward over the removed ones, so the survivors keep
/// their order.
pub struct ArenaTable<T> {
    alloc: IdAllocator,
    length: usize,
    pending_count: usize,
    ids: Pool<usize>,
    marks: Pool<bool>,
    columns: Vec<Pool<T>>,
}

impl<T> View for ArenaTable<T> {
    type V = TableModel<T>;

    closed spec fn view(&self) -> TableModel<T> {
        TableModel {
            ids: Seq::new(self.length as nat, |i: int| self.ids@[i].unwrap()),
            columns: Seq::new(
                self.columns@.len(),
                |c: int| Seq::new(self.length as nat, |i: int| self.columns@[c]@[i].unwrap()),
            ),
            pending: Set::new(|i: int| 0 <= i < self.length && self.marks@[i] == Some(true)),
            alloc: self.alloc@,
        }
    }
}

/// Stores `row[c]` in slot `index` of column `c`, for every column.
fn write_row<T>(columns: &mut Vec<Pool<T>>, index: usize, row: Vec<T>)
    requires
        row@.len() == old(columns)@.len(),
        forall|c: int| 0 <= c < old(columns)@.len() ==> index < (#[trigger] old(columns)@[c])@.len(),
    ensures
        final(columns)@.len() == old(columns)@.len(),
        forall|c: int|
            0 <= c < old(columns)@.len() ==> (#[trigger] final(columns)@[c])@ == old(columns)@[c]@.update(
                index as int,
                Some(row@[c]),
            ),
{
    let ghost values = row@;
    let mut row = row;
    let mut c: usize = columns.len();
    while c > 0
        invariant
            c <= columns@.len(),
            columns@.len() == old(columns)@.len(),
            values.len() == columns@.len(),
            row@ == values.subrange(0, c as int),
            forall|k: int| 0 <= k < old(columns)@.len() ==> index < (#[trigger] old(columns)@[k])@.len(),
            forall|k: int| 0 <= k < c ==> (#[trigger] columns@[k]) == old(columns)@[k],
            forall|k: int|
                c <= k < columns@.len() ==> (#[trigger] columns@[k])@ == old(columns)@[k]@.update(
                    index as int,
                    Some(values[k]),
                ),
        decreases c,
    {
        c = c - 1;
        let value = row.pop().unwrap();
        columns[c].write(index, value);
        assert(row@ =~= values.subrange(0, c as int));
    }
}

/// Moves the value in slot `from` of every column to slot `to`.
fn move_row<T>(columns: &mut Vec<Pool<T>>, from: usize, to: usize)
    requires
        to < from,
        forall|c: int| 0 <= c < old(columns)@.len() ==> (#[trigger] old(columns)@[c]).holds(from as int),
    ensures
        final(columns)@.len() == old(columns)@.len(),
        forall|c: int|
            0 <= c < old(columns)@.len() ==> (#[trigger] final(columns)@[c])@ == old(columns)@[c]@.update(
                from as int,
                None,
            ).update(to as int, old(columns)@[c]@[from as int]),
{
    let mut c: usize = 0;
    while c < columns.len()
        invariant
            c <= columns@.len(),
            columns@.len() == old(columns)@.len(),
            to < from,
            forall|k: int| 0 <= k < old(columns)@.len() ==> (#[trigger] old(columns)@[k]).holds(from as int),
            forall|k: int| c <= k < columns@.len() ==> (#[trigger] columns@[k]) == old(columns)@[k],
            forall|k: int|
                0 <= k < c ==> (#[trigger] columns@[k])@ == old(columns)@[k]@.update(from as int, None).update(
                    to as int,
                    old(columns)@[k]@[from as int],
                ),
        decreases columns@.len() - c,
    {
        assert(columns@[c as int].holds(from as int));
        match columns[c].take(from) {
            Some(value) => {
                columns[c].write(to, value);
            },
            None => {},
        }
        c = c + 1;
    }
}

impl<T> ArenaTable<T> {
    /// The largest number of rows that the table can hold.
    pub closed spec fn spec_capacity(&self) -> nat {
        self.ids@.len()
    }

    /// The table's invariant: the model's invariant holds, every pool has
    /// the table's capacity, and the slots of the rows hold values.
    pub closed spec fn wf(&self) -> bool {
        &&& self@.inv()
        &&& self.alloc.wf()
        &&& self.length <= self.ids@.len()
        &&& self.marks@.len() == self.ids@.len()
        &&& self.pending_count == self@.pending.len()
        &&& forall|c: int|
            0 <= c < self.columns@.len() ==> (#[trigger] self.columns@[c])@.len() == self.ids@.len()
        &&& forall|i: int| 0 <= i < self.length ==> (#[trigger] self.ids@[i]) is Some
        &&& forall|i: int| 0 <= i < self.length ==> (#[trigger] self.marks@[i]) is Some
        &&& forall|c: int, i: int|
            0 <= c < self.columns@.len() && 0 <= i < self.length ==> (#[trigger] self.columns@[c]@[i]) is Some
    }

    /// A well-formed table satisfies the model's invariant and holds no
    /// more rows than its capacity.
    pub proof fn lemma_wf_inv(&self)
        requires
            self.wf(),
        ensures
            self@.inv(),
            self@.len() <= self.spec_capacity(),
    {
    }

    /// A table of `width` field columns for at most `capacity` rows,
    /// without rows. All storage is allocated here.
    pub fn new(width: usize, capacity: usize) -> (table: ArenaTable<T>)
        ensures
            table.wf(),
            table@ == TableModel::<T>::empty(width as nat),
            table.spec_capacity() == capacity,
    {
        let mut columns: Vec<Pool<T>> = Vec::new();
        let mut c: usize = 0;
        while c < width
            invariant
                c <= width,
                columns@.len() == c,
                forall|k: int| 0 <= k < c ==> (#[trigger] columns@[k])@.len() == capacity,
            decreases width - c,
        {
            columns.push(Pool::new(capacity));
            c = c + 1;
        }
        let table = ArenaTable {
            alloc: IdAllocator::new(),
            length: 0,
            pending_count: 0,
            ids: Pool::new(capacity),
            marks: Pool::new(capacity),
            columns,
        };
        proof {
            assert(table@.pending =~= Set::empty());
            assert(table@.ids =~= Seq::empty());
            assert forall|k: int| 0 <= k < width implies #[trigger] table@.columns[k] =~= Seq::<T>::empty() by {}
            assert(table@.columns =~= TableModel::<T>::empty(width as nat).columns);
        }
        table
    }

    /// The number of rows, those that wait for deletion included.
    pub fn len(&self) -> (len: usize)
        ensures
            len == self@.len(),
    {
        self.length
    }

    /// Whether the table has no rows.
    pub fn is_empty(&self) -> (empty: bool)
        ensures
            empty <==> self@.len() == 0,
    {
        self.length == 0
    }

    /// The number of field columns.
    pub fn width(&self) -> (width: usize)
        ensures
            width == self@.width(),
    {
        self.columns.len()
    }

    /// The largest number of rows that the table can hold.
    pub fn capacity(&self) -> (capacity: usize)
        ensures
            capacity == self.spec_capacity(),
    {
        self.ids.capacity()
    }

    /// The number of rows that wait for deletion.
    pub fn pending_count(&self) -> (count: usize)
        requires
            self.wf(),
        ensures
            count == self@.pending.len(),
    {
        self.pending_count
    }

    /// Appends a row with the field values `row`, one per column, and
    /// returns its identifier. A table that already holds as many rows as
    /// its capacity reports that and stays as it is; the row is dropped.
    pub fn insert(&mut self, row: Vec<T>) -> (outcome: Result<usize, TableError>)
        requires
            old(self).wf(),
            row@.len() == old(self)@.width(),
        ensures
            final(self).wf(),
            final(self).spec_capacity() == old(self).spec_capacity(),
            old(self)@.len() < old(self).spec_capacity() ==> outcome == Ok::<usize, TableError>(
                old(self)@.alloc.issued() as usize,
            ) && final(self)@ == old(self)@.insert(row@) && !old(self)@.is_live(
                old(self)@.alloc.issued() as usize,
            ),
            old(self)@.len() >= old(self).spec_capacity() ==> outcome == Err::<usize, TableError>(
                TableError::CapacityExceeded,
            ) && final(self)@ == old(self)@,
    {
        if self.length >= self.ids.capacity() {
            return Err(TableError::CapacityExceeded);
        }
        let ghost before = self@;
        let index = self.length;
        let id = self.alloc.issue();
        self.ids.write(index, id);
        self.marks.write(index, false);
        write_row(&mut self.columns, index, row);
        self.length = index + 1;
        proof {
            assert(self@.ids =~= before.ids.push(id));
            assert(self@.pending =~= before.pending);
            assert forall|c: int| 0 <= c < before.width() implies #[trigger] self@.columns[c]
                =~= before.columns[c].push(row@[c]) by {}
            assert(self@.columns =~= before.insert(row@).columns);
        }
        Ok(id)
    }

    /// Marks the row at `index` for deletion by the next commit. Marking a
    /// row twice is the same as marking it once; an index at which no row
    /// stands marks nothing.
    pub fn delete_by_index(&mut self, index: usize)
        requires
            old(self).wf(),
        ensures
            final(self).wf(),
            final(self).spec_capacity() == old(self).spec_capacity(),
            final(self)@ == old(self)@.delete_by_index(index as int),
    {
        if index < self.length && !*self.marks.read(index) {
            let ghost before = self@;
            proof {
                lemma_room_for_one_more(self@.pending, index as int, self.length as int);
            }
            self.marks.write(index, true);
            self.pending_count = self.pending_count + 1;
            proof {
                assert(self@.pending =~= before.pending.insert(index as int));
                assert(self@.ids =~= before.ids);
                assert(self@.columns =~= before.columns);
            }
        } else {
            proof {
                if index < self.length {
                    assert(self@.pending =~= self@.pending.insert(index as int));
                }
            }
        }
    }

    /// The identifier of the row at `index`.
    pub fn id_at(&self, index: usize) -> (id: usize)
        requires
            self.wf(),
            index < self@.len(),
        ensures
            id == self@.ids[index as int],
    {
        *self.ids.read(index)
    }

    /// Whether the row at `index` waits for deletion.
    pub fn is_pending(&self, index: usize) -> (pending: bool)
        requires
            self.wf(),
        ensures
            pending <==> self@.pending.contains(index as int),
    {
        index < self.length && *self.marks.read(index)
    }

    /// The value of field `column` in the row at `index`.
    pub fn get(&self, column: usize, index: usize) -> (value: &T)
        requires
            self.wf(),
            column < self@.width(),
            index < self@.len(),
        ensures
            *value == self@.columns[column as int][index as int],
    {
        assert(self.columns@[column as int]@[index as int] is Some);
        self.columns[column].read(index)
    }

    /// Replaces the value of field `column` in the row at `index`.
    pub fn set(&mut self, column: usize, index: usize, value: T)
        requires
            old(self).wf(),
            column < old(self)@.width(),
            index < old(self)@.len(),
        ensures
            final(self).wf(),
            final(self).spec_capacity() == old(self).spec_capacity(),
            final(self)@ == old(self)@.with_cell(column as int, index as int, value),
    {
        let ghost before = self@;
        assert(self.columns@[column as int]@.len() == self.ids@.len());
        self.columns[column].write(index, value);
        proof {
            let after = before.with_cell(column as int, index as int, value);
            assert(self@.pending =~= before.pending);
            assert(self@.ids =~= before.ids);
            assert forall|c: int| 0 <= c < before.width() implies #[trigger] self@.columns[c]
                =~= after.columns[c] by {}
            assert(self@.columns =~= after.columns);
        }
    }

    /// A mutable reference to field `column` of the row at `index`. What
    /// is stored through it is what the table holds there afterwards;
    /// nothing else changes.
    pub fn get_mut(&mut self, column: usize, index: usize) -> (value: &mut T)
        requires
            old(self).wf(),
            column < old(self)@.width(),
            index < old(self)@.len(),
        ensures
            *value == old(self)@.columns[column as int][index as int],
            final(self).wf(),
            final(self).spec_capacity() == old(self).spec_capacity(),
            final(self)@ == old(self)@.with_cell(column as int, index as int, *final(value)),
    {
        assert(self.columns@[column as int]@[index as int] is Some);
        proof {
            assert forall|after: Self|
                #![trigger after.wf()]
                #![trigger after.view()]
                #![trigger after.spec_capacity()]
                self.cell_changed(after, column as int, index as int) implies after.wf()
                && after.spec_capacity() == self.spec_capacity() && after@ == self@.with_cell(
                column as int,
                index as int,
                after.columns@[column as int]@[index as int].unwrap(),
            ) by {
                self.lemma_cell_changed(after, column as int, index as int);
            }
        }
        self.columns[column].get(index)
    }

    /// `after` is this table but for the value of one cell.
    spec fn cell_changed(&self, after: Self, column: int, index: int) -> bool {
        &&& after.alloc == self.alloc
        &&& after.length == self.length
        &&& after.pending_count == self.pending_count
        &&& after.ids == self.ids
        &&& after.marks == self.marks
        &&& after.columns@.len() == self.columns@.len()
        &&& forall|c: int|
            0 <= c < self.columns@.len() && c != column ==> #[trigger] after.columns@[c] == self.columns@[c]
        &&& after.columns@[column]@ == self.columns@[column]@.update(index, after.columns@[column]@[index])
        &&& after.columns@[column]@[index] is Some
    }

    /// A table that differs from a well-formed one in the value of one
    /// cell is well-formed, and its model differs in that cell alone.
    proof fn lemma_cell_changed(&self, after: Self, column: int, index: int)
        requires
            self.wf(),
            0 <= column < self@.width(),
            0 <= index < self@.len(),
            self.cell_changed(after, column, index),
        ensures
            after.wf(),
            after.spec_capacity() == self.spec_capacity(),
            after@ == self@.with_cell(column, index, after.columns@[column]@[index].unwrap()),
    {
        let expected = self@.with_cell(column, index, after.columns@[column]@[index].unwrap());
        assert(after@.pending =~= self@.pending);
        assert(after@.ids =~= self@.ids);
        assert forall|c: int| 0 <= c < self@.width() implies #[trigger] after@.columns[c]
            =~= expected.columns[c] by {
            if c != column {
                assert(after.columns@[c] == self.columns@[c]);
            }
        }
        assert(after@.columns =~= expected.columns);
        assert forall|c: int, i: int|
            0 <= c < after.columns@.len() && 0 <= i < after.length implies (
        #[trigger] after.columns@[c]@[i]) is Some by {
            if c != column {
                assert(after.columns@[c] == self.columns@[c]);
            }
            assert(self.columns@[c]@[i] is Some);
        }
        assert forall|c: int| 0 <= c < after.columns@.len() implies (#[trigger] after.columns@[c])@.len()
            == after.ids@.len() by {
            if c != column {
                assert(after.columns@[c] == self.columns@[c]);
            }
            assert(self.columns@[c]@.len() == self.ids@.len());
        }
    }

    /// The identifier of the latest row, the one at the highest index. A
    /// table without rows has none, which is reported.
    pub fn latest_id(&self) -> (latest: Result<usize, TableError>)
        requires
            self.wf(),
        ensures
            self@.len() == 0 ==> latest == Err::<usize, TableError>(TableError::EmptyCollectionAccess),
            self@.len() > 0 ==> latest == Ok::<usize, TableError>(self@.ids.last()),
    {
        if self.length == 0 {
            Err(TableError::EmptyCollectionAccess)
        } else {
            Ok(*self.ids.read(self.length - 1))
        }
    }

    /// Removes every row that waits for deletion and hands its identifier
    /// back to the allocator, lowest index first. The surviving rows move
    /// forward over the removed ones and keep their order. With nothing
    /// pending the table stays as it is.
    pub fn commit_delete(&mut self)
        requires
            old(self).wf(),
        ensures
            final(self).wf(),
            final(self).spec_capacity() == old(self).spec_capacity(),
            final(self)@ == old(self)@.stable_commit(),
    {
        let ghost pre = self@;
        if self.pending_count == 0 {
            proof {
                lemma_stable_commit_nothing(pre);
            }
            return ;
        }
        let length = self.length;
        let mut write: usize = 0;
        let mut read: usize = 0;
        while read < length
            invariant
                pre.inv(),
                pre.len() == length,
                pre.width() == self.columns@.len(),
                self.length == length,
                length <= self.ids@.len(),
                self.ids@.len() == old(self).ids@.len(),
                self.marks@.len() == self.ids@.len(),
                forall|c: int|
                    0 <= c < self.columns@.len() ==> (#[trigger] self.columns@[c])@.len() == self.ids@.len(),
                write <= read <= length,
                write == survivors_below(pre.pending, read as int),
                forall|j: int|
                    0 <= j < write ==> #[trigger] self.ids@[j] == Some(
                        kept(pre.ids, pre.pending, read as int)[j],
                    ),
                forall|j: int| read <= j < length ==> #[trigger] self.ids@[j] == Some(pre.ids[j]),
                forall|j: int| 0 <= j < write ==> #[trigger] self.marks@[j] == Some(false),
                forall|j: int|
                    read <= j < length ==> (#[trigger] self.marks@[j]) == Some(pre.pending.contains(j)),
                forall|c: int, j: int|
                    0 <= c < self.columns@.len() && 0 <= j < write ==> #[trigger] self.columns@[c]@[j]
                        == Some(kept(pre.columns[c], pre.pending, read as int)[j]),
                forall|c: int, j: int|
                    0 <= c < self.columns@.len() && read <= j < length
                        ==> #[trigger] self.columns@[c]@[j] == Some(pre.columns[c][j]),
                self.alloc.wf(),
                self.alloc@.next == pre.alloc.next,
                self.alloc@.free == pre.alloc.free + picked_ascending(pre.ids, pre.pending, read as int),
            decreases length - read,
        {
            let ghost ids_before = self.ids@;
            let ghost columns_before = self.columns@;
            if *self.marks.read(read) {
                let id = *self.ids.read(read);
                proof {
                    lemma_picked_ids_fresh(pre, read as int);
                    assert(pre.ids[read as int] == id);
                }
                self.alloc.recycle(id);
                proof {
                    let gone = picked_ascending(pre.ids, pre.pending, read as int);
                    assert((pre.alloc.free + gone).push(id) =~= pre.alloc.free + gone.push(id));
                }
            } else {
                proof {
                    lemma_kept_len(pre.ids, pre.pending, read as int);
                    assert forall|c: int| 0 <= c < self.columns@.len() implies kept(
                        pre.columns[c],
                        pre.pending,
                        read as int,
                    ).len() == write by {
                        lemma_kept_len(pre.columns[c], pre.pending, read as int);
                    }
                }
                if write < read {
                    let id = *self.ids.read(read);
                    self.ids.write(write, id);
                    self.marks.write(write, false);
                    assert forall|c: int| 0 <= c < self.columns@.len() implies (
                    #[trigger] self.columns@[c]).holds(read as int) by {
                        assert(self.columns@[c]@[read as int] == Some(pre.columns[c][read as int]));
                    }
                    move_row(&mut self.columns, read, write);
                }
                write = write + 1;
            }
            read = read + 1;
        }
        self.length = write;
        self.pending_count = 0;
        proof {
            lemma_stable_commit(pre);
            let post = pre.stable_commit();
            lemma_kept_len(pre.ids, pre.pending, length as int);
            assert(self@.ids =~= post.ids);
            assert forall|c: int| 0 <= c < pre.width() implies #[trigger] self@.columns[c]
                =~= post.columns[c] by {
                lemma_kept_len(pre.columns[c], pre.pending, length as int);
            }
            assert(self@.columns =~= post.columns);
            assert(self@.pending =~= Set::empty());
        }
    }
}

} // verus!
