//! The growable table: columns that grow on demand, a map from identifier
//! to index, and compaction by moving the last row into each hole.
use vstd::prelude::*;
use crate::error::TableError;
use crate::id_allocator::IdAllocator;
use crate::compaction::{
    lemma_commit_nothing, lemma_room_for_one_more, lemma_swap_done, lemma_swap_skip,
    lemma_swap_start, lemma_swap_step, swap_progress,
};
use crate::model::TableModel;

verus! {

/// A dense row store whose columns grow on demand.
///
/// Every row has an identifier that stays with it for as long as the row
/// lives, and an index that may change when a commit compacts the table.
/// The order of the rows after a commit that removed something is not
/// specified: the last row moves into the place of a removed one.
pub struct DenseTable<T> {
    alloc: IdAllocator,
    ids: Vec<usize>,
    marks: Vec<bool>,
    pending_count: usize,
    index_of_id: Vec<Option<usize>>,
    columns: Vec<Vec<T>>,
}

impl<T> View for DenseTable<T> {
    type V = TableModel<T>;

    closed spec fn view(&self) -> TableModel<T> {
        TableModel {
            ids: self.ids@,
            columns: Seq::new(self.columns@.len(), |c: int| self.columns@[c]@),
            pending: Set::new(|i: int| 0 <= i < self.marks@.len() && self.marks@[i]),
            alloc: self.alloc@,
        }
    }
}

/// Appends `row[c]` to column `c`, for every column.
fn push_row<T>(columns: &mut Vec<Vec<T>>, row: Vec<T>)
    requires
        row@.len() == old(columns)@.len(),
    ensures
        final(columns)@.len() == old(columns)@.len(),
        forall|c: int|
            0 <= c < old(columns)@.len() ==> (#[trigger] final(columns)@[c])@ == old(columns)@[c]@.push(
                row@[c],
            ),
{
    let ghost values = row@;
    let mut row = row;
    let mut c: usize = columns.len();
    while c > 0
        invariant
            c <= columns@.len(),
            columns@.len() == old(columns)@.len(),
            values.len() == columns@.len(),
            row@ == values.subrange(0, c as int),
            forall|k: int| 0 <= k < c ==> (#[trigger] columns@[k]) == old(columns)@[k],
            forall|k: int|
                c <= k < columns@.len() ==> (#[trigger] columns@[k])@ == old(columns)@[k]@.push(values[k]),
        decreases c,
    {
        c = c - 1;
        let value = row.pop().unwrap();
        columns[c].push(value);
        assert(row@ =~= values.subrange(0, c as int));
    }
}

/// Removes item `index` of every column by moving the column's last item
/// into its place.
fn swap_remove_row<T>(columns: &mut Vec<Vec<T>>, index: usize)
    requires
        forall|c: int| 0 <= c < old(columns)@.len() ==> index < (#[trigger] old(columns)@[c])@.len(),
    ensures
        final(columns)@.len() == old(columns)@.len(),
        forall|c: int|
            0 <= c < old(columns)@.len() ==> (#[trigger] final(columns)@[c])@ == old(columns)@[c]@.update(
                index as int,
                old(columns)@[c]@.last(),
            ).drop_last(),
{
    let mut c: usize = 0;
    while c < columns.len()
        invariant
            c <= columns@.len(),
            columns@.len() == old(columns)@.len(),
            forall|k: int| c <= k < columns@.len() ==> (#[trigger] columns@[k]) == old(columns)@[k],
            forall|k: int| 0 <= k < old(columns)@.len() ==> index < (#[trigger] old(columns)@[k])@.len(),
            forall|k: int|
                0 <= k < c ==> (#[trigger] columns@[k])@ == old(columns)@[k]@.update(
                    index as int,
                    old(columns)@[k]@.last(),
                ).drop_last(),
        decreases columns@.len() - c,
    {
        let _ = columns[c].swap_remove(index);
        c = c + 1;
    }
}

impl<T> DenseTable<T> {
    /// The table's invariant: the model's invariant holds, and the map from
    /// identifier to index names, for each identifier in use, the index of
    /// its row, and nothing for any other identifier.
    pub closed spec fn wf(&self) -> bool {
        &&& self@.inv()
        &&& self.alloc.wf()
        &&& self.marks@.len() == self.ids@.len()
        &&& self.pending_count == self@.pending.len()
        &&& self.index_of_id@.len() == self.alloc@.next
        &&& forall|i: int|
            0 <= i < self.ids@.len() ==> self.index_of_id@[(#[trigger] self.ids@[i]) as int] == Some(
                i as usize,
            )
        &&& forall|id: int|
            0 <= id < self.index_of_id@.len() ==> match #[trigger] self.index_of_id@[id] {
                Some(p) => p < self.ids@.len() && self.ids@[p as int] == id,
                None => true,
            }
    }

    /// A well-formed table satisfies the model's invariant.
    pub proof fn lemma_wf_inv(&self)
        requires
            self.wf(),
        ensures
            self@.inv(),
    {
    }

    /// A table of `width` field columns without rows.
    pub fn new(width: usize) -> (table: DenseTable<T>)
        ensures
            table.wf(),
            table@ == TableModel::<T>::empty(width as nat),
    {
        let mut columns: Vec<Vec<T>> = Vec::new();
        let mut c: usize = 0;
        while c < width
            invariant
                c <= width,
                columns@.len() == c,
                forall|k: int| 0 <= k < c ==> (#[trigger] columns@[k])@ == Seq::<T>::empty(),
            decreases width - c,
        {
            columns.push(Vec::new());
            c = c + 1;
        }
        let table = DenseTable {
            alloc: IdAllocator::new(),
            ids: Vec::new(),
            marks: Vec::new(),
            pending_count: 0,
            index_of_id: Vec::new(),
            columns,
        };
        proof {
            assert(table@.pending =~= Set::empty());
            assert(table@.columns =~= TableModel::<T>::empty(width as nat).columns);
        }
        table
    }

    /// The number of rows, those that wait for deletion included.
    pub fn len(&self) -> (len: usize)
        ensures
            len == self@.len(),
    {
        self.ids.len()
    }

    /// Whether the table has no rows.
    pub fn is_empty(&self) -> (empty: bool)
        ensures
            empty <==> self@.len() == 0,
    {
        self.ids.len() == 0
    }

    /// The number of field columns.
    pub fn width(&self) -> (width: usize)
        ensures
            width == self@.width(),
    {
        self.columns.len()
    }

    /// The number of rows that wait for deletion.
    pub fn pending_count(&self) -> (count: usize)
        requires
            self.wf(),
        ensures
            count == self@.pending.len(),
    {
        self.pending_count
    }

    /// Appends a row with the field values `row`, one per column, and
    /// returns its identifier: the one recycled last, or a fresh one where
    /// none waits. No row of the table, pending or not, has that identifier.
    pub fn insert(&mut self, row: Vec<T>) -> (id: usize)
        requires
            old(self).wf(),
            row@.len() == old(self)@.width(),
            old(self)@.len() < usize::MAX,
        ensures
            final(self).wf(),
            final(self)@ == old(self)@.insert(row@),
            id == old(self)@.alloc.issued(),
            !old(self)@.is_live(id),
    {
        let index = self.ids.len();
        let id = self.alloc.issue();
        self.ids.push(id);
        self.marks.push(false);
        if id < self.index_of_id.len() {
            self.index_of_id[id] = Some(index);
        } else {
            self.index_of_id.push(Some(index));
        }
        push_row(&mut self.columns, row);
        proof {
            assert(self@.pending =~= old(self)@.pending);
            assert(self@.columns =~= old(self)@.insert(row@).columns);
        }
        id
    }

    /// Marks the row at `index` for deletion by the next commit. Marking a
    /// row twice is the same as marking it once; an index at which no row
    /// stands marks nothing.
    pub fn delete_by_index(&mut self, index: usize)
        requires
            old(self).wf(),
        ensures
            final(self).wf(),
            final(self)@ == old(self)@.delete_by_index(index as int),
    {
        if index < self.ids.len() && !self.marks[index] {
            proof {
                lemma_room_for_one_more(self@.pending, index as int, self.ids@.len() as int);
            }
            self.marks[index] = true;
            self.pending_count = self.pending_count + 1;
            proof {
                assert(self@.pending =~= old(self)@.pending.insert(index as int));
                assert(self@.columns =~= old(self)@.columns);
            }
        } else {
            proof {
                if index < self.ids.len() {
                    assert(self@.pending =~= self@.pending.insert(index as int));
                }
            }
        }
    }

    /// Marks the row with identifier `id` for deletion by the next commit.
    /// An identifier that no row has, because it was never issued or its row
    /// is gone, marks nothing.
    pub fn delete_by_id(&mut self, id: usize)
        requires
            old(self).wf(),
        ensures
            final(self).wf(),
            final(self)@ == old(self)@.delete_by_id(id),
    {
        match self.index_of(id) {
            Some(index) => {
                self.delete_by_index(index);
            },
            None => {},
        }
    }

    /// The index of the row with identifier `id`, if the table has one.
    pub fn index_of(&self, id: usize) -> (found: Option<usize>)
        requires
            self.wf(),
        ensures
            match found {
                Some(index) => self@.is_live(id) && index == self@.ids.index_of(id) && index < self@.len()
                    && self@.ids[index as int] == id,
                None => !self@.is_live(id),
            },
    {
        if id < self.index_of_id.len() {
            match self.index_of_id[id] {
                Some(index) => {
                    proof {
                        assert(self.ids@[index as int] == id);
                        let chosen = self@.ids.index_of(id);
                        assert(0 <= chosen < self.ids@.len() && self.ids@[chosen] == id);
                    }
                    Some(index)
                },
                None => {
                    proof {
                        if self@.ids.contains(id) {
                            let i = choose|i: int| 0 <= i < self.ids@.len() && self.ids@[i] == id;
                            assert(self.index_of_id@[self.ids@[i] as int] == Some(i as usize));
                        }
                    }
                    None
                },
            }
        } else {
            proof {
                if self@.ids.contains(id) {
                    let i = choose|i: int| 0 <= i < self.ids@.len() && self.ids@[i] == id;
                    assert(self.ids@[i] < self.alloc@.next);
                }
            }
            None
        }
    }

    /// The identifier of the row at `index`.
    pub fn id_at(&self, index: usize) -> (id: usize)
        requires
            index < self@.len(),
        ensures
            id == self@.ids[index as int],
    {
        self.ids[index]
    }

    /// Whether the row at `index` waits for deletion.
    pub fn is_pending(&self, index: usize) -> (pending: bool)
        requires
            self.wf(),
        ensures
            pending <==> self@.pending.contains(index as int),
    {
        index < self.marks.len() && self.marks[index]
    }

    /// The value of field `column` in the row at `index`.
    pub fn get(&self, column: usize, index: usize) -> (value: &T)
        requires
            self.wf(),
            column < self@.width(),
            index < self@.len(),
        ensures
            *value == self@.columns[column as int][index as int],
    {
        assert(self@.columns[column as int].len() == self@.ids.len());
        &self.columns[column][index]
    }

    /// Replaces the value of field `column` in the row at `index`.
    pub fn set(&mut self, column: usize, index: usize, value: T)
        requires
            old(self).wf(),
            column < old(self)@.width(),
            index < old(self)@.len(),
        ensures
            final(self).wf(),
            final(self)@ == old(self)@.with_cell(column as int, index as int, value),
    {
        assert(self@.columns[column as int].len() == self@.ids.len());
        self.columns[column][index] = value;
        proof {
            assert(self@.pending =~= old(self)@.pending);
            assert(self@.columns =~= old(self)@.with_cell(column as int, index as int, value).columns);
        }
    }

    /// A mutable reference to field `column` of the row at `index`. What
    /// is stored through it is what the table holds there afterwards;
    /// nothing else changes.
    pub fn get_mut(&mut self, column: usize, index: usize) -> (value: &mut T)
        requires
            old(self).wf(),
            column < old(self)@.width(),
            index < old(self)@.len(),
        ensures
            *value == old(self)@.columns[column as int][index as int],
            final(self).wf(),
            final(self)@ == old(self)@.with_cell(column as int, index as int, *final(value)),
    {
        assert(self@.columns[column as int].len() == self@.ids.len());
        proof {
            assert forall|after: Self|
                #![trigger after.wf()]
                #![trigger after.view()]
                self.cell_changed(after, column as int, index as int) implies after.wf() && after@
                == self@.with_cell(
                column as int,
                index as int,
                after.columns@[column as int]@[index as int],
            ) by {
                self.lemma_cell_changed(after, column as int, index as int);
            }
        }
        &mut self.columns[column][index]
    }

    /// `after` is this table but for the value of one cell.
    spec fn cell_changed(&self, after: Self, column: int, index: int) -> bool {
        &&& after.alloc == self.alloc
        &&& after.ids == self.ids
        &&& after.marks == self.marks
        &&& after.pending_count == self.pending_count
        &&& after.index_of_id == self.index_of_id
        &&& after.columns@.len() == self.columns@.len()
        &&& forall|c: int|
            0 <= c < self.columns@.len() && c != column ==> #[trigger] after.columns@[c] == self.columns@[c]
        &&& after.columns@[column]@ == self.columns@[column]@.update(index, after.columns@[column]@[index])
    }

    /// A table that differs from a well-formed one in the value of one
    /// cell is well-formed, and its model differs in that cell alone.
    proof fn lemma_cell_changed(&self, after: Self, column: int, index: int)
        requires
            self.wf(),
            0 <= column < self@.width(),
            0 <= index < self@.len(),
            self.cell_changed(after, column, index),
        ensures
            after.wf(),
            after@ == self@.with_cell(column, index, after.columns@[column]@[index]),
    {
        let expected = self@.with_cell(column, index, after.columns@[column]@[index]);
        assert(after@.pending =~= self@.pending);
        assert forall|c: int| 0 <= c < self@.width() implies #[trigger] after@.columns[c]
            =~= expected.columns[c] by {
            if c != column {
                assert(after.columns@[c] == self.columns@[c]);
            }
        }
        assert(after@.columns =~= expected.columns);
    }

    /// The identifier of the latest row, the one at the highest index. A
    /// table without rows has none, which is reported.
    pub fn latest_id(&self) -> (latest: Result<usize, TableError>)
        ensures
            self@.len() == 0 ==> latest == Err::<usize, TableError>(TableError::EmptyCollectionAccess),
            self@.len() > 0 ==> latest == Ok::<usize, TableError>(self@.ids.last()),
    {
        let len = self.ids.len();
        if len == 0 {
            Err(TableError::EmptyCollectionAccess)
        } else {
            Ok(self.ids[len - 1])
        }
    }

    /// Removes the pending row at `index` at once: the last row moves into
    /// its place and its identifier goes back to the allocator.
    fn remove_row(&mut self, index: usize)
        requires
            old(self).wf(),
            index < old(self)@.len(),
            old(self)@.pending.contains(index as int),
            index == old(self)@.len() - 1 || !old(self)@.pending.contains(old(self)@.len() - 1),
        ensures
            final(self).wf(),
            final(self)@ == old(self)@.swap_remove(index as int),
    {
        let ghost before = self@;
        let id = self.ids.swap_remove(index);
        let _ = self.marks.swap_remove(index);
        self.pending_count = self.pending_count - 1;
        self.alloc.recycle(id);
        self.index_of_id[id] = None;
        assert forall|c: int| 0 <= c < self.columns@.len() implies index < (
        #[trigger] self.columns@[c])@.len() by {
            assert(before.columns[c].len() == before.ids.len());
        }
        swap_remove_row(&mut self.columns, index);
        if index < self.ids.len() {
            let moved = self.ids[index];
            self.index_of_id[moved] = Some(index);
        }
        proof {
            assert(self@.pending =~= before.pending.remove(index as int));
            assert(self@.pending =~= before.swap_remove(index as int).pending);
            assert(self@.columns =~= before.swap_remove(index as int).columns);
            assert forall|i: int| 0 <= i < self.ids@.len() implies !self.alloc@.free.contains(
                #[trigger] self.ids@[i],
            ) by {
                let x = self.ids@[i];
                if self.alloc@.free.contains(x) {
                    let p = choose|p: int| 0 <= p < self.alloc@.free.len() && self.alloc@.free[p] == x;
                    if p < before.alloc.free.len() {
                        assert(before.alloc.free[p] == x);
                        assert(before.alloc.free.contains(x));
                    }
                }
            }
        }
    }

    /// Removes every row that waits for deletion and hands its identifier
    /// back to the allocator. Pending rows are removed from the highest
    /// index down, each by moving the last row into its place, so the
    /// surviving rows keep their identifiers and field values but not
    /// their order. With nothing pending the table stays as it is.
    pub fn commit_delete(&mut self)
        requires
            old(self).wf(),
        ensures
            final(self).wf(),
            old(self)@.committed(final(self)@),
            final(self)@.alloc.free == old(self)@.alloc.free + old(self)@.recycled_descending(),
            old(self)@.pending.is_empty() ==> final(self)@ == old(self)@,
    {
        if self.pending_count == 0 {
            proof {
                lemma_commit_nothing(self@);
            }
            return ;
        }
        let mut index: usize = self.ids.len();
        proof {
            lemma_swap_start(self@);
        }
        while index > 0
            invariant
                self.wf(),
                swap_progress(old(self)@, self@, index as int),
            decreases index,
        {
            index = index - 1;
            if self.marks[index] {
                proof {
                    lemma_swap_step(old(self)@, self@, index as int);
                }
                self.remove_row(index);
            } else {
                proof {
                    lemma_swap_skip(old(self)@, self@, index as int);
                }
            }
        }
        proof {
            lemma_swap_done(old(self)@, self@);
        }
    }
}

} // verus!
