//! The mathematical model that the contracts of both tables speak of.
use vstd::prelude::*;
use crate::id_allocator::IdState;

verus! {

/// A table as a mathematical value: the identifier column, the field
/// columns, the indices that wait for deletion, and the allocator's state.
pub struct TableModel<T> {
    /// The identifier of each row, by index.
    pub ids: Seq<usize>,
    /// One sequence per field: `columns[c][i]` is field `c` of row `i`.
    pub columns: Seq<Seq<T>>,
    /// The indices of the rows that the next commit removes.
    pub pending: Set<int>,
    /// The state of the allocator that issues this table's identifiers.
    pub alloc: IdState,
}

/// The items of `s` whose index is below `n` and not in `dropped`, in order.
pub open spec fn kept<A>(s: Seq<A>, dropped: Set<int>, n: int) -> Seq<A>
    decreases n,
{
    if n <= 0 {
        Seq::empty()
    } else if dropped.contains(n - 1) {
        kept(s, dropped, n - 1)
    } else {
        kept(s, dropped, n - 1).push(s[n - 1])
    }
}

/// The items of `s` whose index is below `n` and in `chosen`, lowest index
/// first.
pub open spec fn picked_ascending<A>(s: Seq<A>, chosen: Set<int>, n: int) -> Seq<A>
    decreases n,
{
    if n <= 0 {
        Seq::empty()
    } else if chosen.contains(n - 1) {
        picked_ascending(s, chosen, n - 1).push(s[n - 1])
    } else {
        picked_ascending(s, chosen, n - 1)
    }
}

/// The items of `s` whose index is at least `from` and in `chosen`, highest
/// index first.
pub open spec fn picked_descending<A>(s: Seq<A>, chosen: Set<int>, from: int) -> Seq<A>
    decreases s.len() - from,
{
    if from >= s.len() {
        Seq::empty()
    } else if chosen.contains(from) {
        picked_descending(s, chosen, from + 1).push(s[from])
    } else {
        picked_descending(s, chosen, from + 1)
    }
}

impl<T> TableModel<T> {
    /// The number of rows.
    pub open spec fn len(self) -> nat {
        self.ids.len()
    }

    /// The number of field columns.
    pub open spec fn width(self) -> nat {
        self.columns.len()
    }

    /// The field values of the row at `index`, one per column.
    pub open spec fn row(self, index: int) -> Seq<T> {
        Seq::new(self.width(), |c: int| self.columns[c][index])
    }

    /// Whether a row with identifier `id` is in the table.
    pub open spec fn is_live(self, id: usize) -> bool {
        self.ids.contains(id)
    }

    /// What holds of every table after every operation: the columns are as
    /// long as the identifier column; no two rows share an identifier; no
    /// identifier is both in use and free; every identifier below the
    /// allocator's counter is in use or free; only rows that exist wait for
    /// deletion.
    pub open spec fn inv(self) -> bool {
        &&& forall|c: int| 0 <= c < self.columns.len() ==> (#[trigger] self.columns[c]).len() == self.ids.len()
        &&& self.ids.no_duplicates()
        &&& self.alloc.inv()
        &&& forall|i: int|
            0 <= i < self.ids.len() ==> (#[trigger] self.ids[i]) < self.alloc.next
                && !self.alloc.free.contains(self.ids[i])
        &&& self.alloc.next == self.ids.len() + self.alloc.free.len()
        &&& self.pending.finite()
        &&& forall|i: int| self.pending.contains(i) ==> 0 <= i < self.ids.len()
    }

    /// A table of `width` columns without rows, whose allocator has issued
    /// nothing.
    pub open spec fn empty(width: nat) -> Self {
        TableModel {
            ids: Seq::empty(),
            columns: Seq::new(width, |c: int| Seq::empty()),
            pending: Set::empty(),
            alloc: IdState::empty(),
        }
    }

    /// The table after a row with the field values `row` was appended under
    /// the identifier that the allocator issues.
    pub open spec fn insert(self, row: Seq<T>) -> Self {
        TableModel {
            ids: self.ids.push(self.alloc.issued() as usize),
            columns: Seq::new(self.width(), |c: int| self.columns[c].push(row[c])),
            pending: self.pending,
            alloc: self.alloc.after_issue(),
        }
    }

    /// The table after the row at `index` was marked for deletion. An index
    /// at which no row stands marks nothing.
    pub open spec fn delete_by_index(self, index: int) -> Self {
        if 0 <= index < self.len() {
            TableModel { pending: self.pending.insert(index), ..self }
        } else {
            self
        }
    }

    /// The table after the row with identifier `id` was marked for
    /// deletion. An identifier that no row has marks nothing.
    pub open spec fn delete_by_id(self, id: usize) -> Self {
        if self.is_live(id) {
            self.delete_by_index(self.ids.index_of(id))
        } else {
            self
        }
    }

    /// The table with `value` as field `column` of the row at `index`.
    pub open spec fn with_cell(self, column: int, index: int, value: T) -> Self {
        TableModel {
            columns: self.columns.update(column, self.columns[column].update(index, value)),
            ..self
        }
    }

    /// The table with `values` as its field column `column`.
    pub open spec fn with_column(self, column: int, values: Seq<T>) -> Self {
        TableModel { columns: self.columns.update(column, values), ..self }
    }

    /// The table after every row was marked for deletion whose index has a
    /// `true` in `decisions`. Entries beyond the last row mark nothing.
    pub open spec fn mark_all(self, decisions: Seq<bool>) -> Self {
        TableModel {
            pending: Set::new(
                |i: int|
                    self.pending.contains(i) || (0 <= i < self.len() && i < decisions.len()
                        && decisions[i]),
            ),
            ..self
        }
    }

    /// The table as a map from each row's identifier to its field values.
    pub open spec fn rows_by_id(self) -> Map<usize, Seq<T>> {
        Map::new(|id: usize| self.ids.contains(id), |id: usize| self.row(self.ids.index_of(id)))
    }

    /// The identifiers of the rows that wait for deletion.
    pub open spec fn pending_ids(self) -> Set<usize> {
        Set::new(|id: usize| self.ids.contains(id) && self.pending.contains(self.ids.index_of(id)))
    }

    /// The identifiers of the rows that wait for deletion, highest index
    /// first.
    pub open spec fn recycled_descending(self) -> Seq<usize> {
        picked_descending(self.ids, self.pending, 0)
    }

    /// The identifiers of the rows that wait for deletion, lowest index
    /// first.
    pub open spec fn recycled_ascending(self) -> Seq<usize> {
        picked_ascending(self.ids, self.pending, self.ids.len() as int)
    }

    /// What every commit owes, whatever its compaction policy: `post`
    /// satisfies the invariant and has as many rows fewer as indices were
    /// pending; it holds exactly the rows that were not pending, each under
    /// its identifier and with its field values; nothing is pending in it;
    /// the identifiers of the removed rows, and no others, have joined the
    /// free identifiers. The order of the surviving rows is left open.
    pub open spec fn committed(self, post: Self) -> bool {
        &&& post.inv()
        &&& post.width() == self.width()
        &&& post.len() == self.len() - self.pending.len()
        &&& post.pending =~= Set::empty()
        &&& post.rows_by_id() =~= self.rows_by_id().remove_keys(self.pending_ids())
        &&& post.alloc.next == self.alloc.next
        &&& post.alloc.free.len() == self.alloc.free.len() + self.pending.len()
        &&& post.alloc.free.subrange(0, self.alloc.free.len() as int) =~= self.alloc.free
        &&& forall|id: usize|
            post.alloc.free.contains(id) <==> self.alloc.free.contains(id) || self.pending_ids().contains(
                id,
            )
    }

    /// The table after the row at `index` was removed by moving the last
    /// row into its place, and its identifier was handed back.
    pub open spec fn swap_remove(self, index: int) -> Self {
        let last = self.len() - 1;
        TableModel {
            ids: self.ids.update(index, self.ids[last]).drop_last(),
            columns: Seq::new(
                self.width(),
                |c: int| self.columns[c].update(index, self.columns[c][last]).drop_last(),
            ),
            pending: Set::new(
                |j: int|
                    0 <= j < last && if j == index {
                        self.pending.contains(last)
                    } else {
                        self.pending.contains(j)
                    },
            ),
            alloc: self.alloc.after_recycle(self.ids[index]),
        }
    }

    /// The table after a commit that keeps the surviving rows in their
    /// order: every column loses its pending rows, nothing is pending
    /// afterwards, and the identifiers of the removed rows join the free
    /// ones, lowest index first.
    pub open spec fn stable_commit(self) -> Self {
        TableModel {
            ids: kept(self.ids, self.pending, self.len() as int),
            columns: Seq::new(
                self.width(),
                |c: int| kept(self.columns[c], self.pending, self.len() as int),
            ),
            pending: Set::empty(),
            alloc: IdState {
                next: self.alloc.next,
                free: self.alloc.free + self.recycled_ascending(),
            },
        }
    }
}

} // verus!
