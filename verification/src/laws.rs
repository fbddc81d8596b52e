//! What holds of every table, stated over the model and proved.
use vstd::prelude::*;
use crate::compaction::{
    lemma_commit_nothing, lemma_index_of_unique, lemma_stable_commit, lemma_stable_commit_nothing,
};
use crate::model::TableModel;

verus! {

/// No two rows of a table share an identifier.
pub proof fn lemma_ids_distinct<T>(m: TableModel<T>, i: int, j: int)
    requires
        m.inv(),
        0 <= i < m.len(),
        0 <= j < m.len(),
        i != j,
    ensures
        m.ids[i] != m.ids[j],
{
}

/// Every field column is as long as the identifier column: the table's
/// length is the length of each.
pub proof fn lemma_columns_lockstep<T>(m: TableModel<T>, column: int)
    requires
        m.inv(),
        0 <= column < m.width(),
    ensures
        m.columns[column].len() == m.ids.len(),
        m.ids.len() == m.len(),
{
}

/// A table without rows satisfies the invariant.
pub proof fn lemma_empty_inv<T>(width: nat)
    ensures
        TableModel::<T>::empty(width).inv(),
        TableModel::<T>::empty(width).len() == 0,
        TableModel::<T>::empty(width).width() == width,
{
}

/// An insert keeps the invariant, and the identifier that it issues is
/// that of no row in the table, whether the row waits for deletion or not:
/// an identifier is reissued only after the commit that removed its row.
/// The new row is the last one.
pub proof fn lemma_insert<T>(m: TableModel<T>, row: Seq<T>)
    requires
        m.inv(),
        m.alloc.can_issue(),
    ensures
        m.insert(row).inv(),
        m.insert(row).len() == m.len() + 1,
        m.insert(row).ids.last() == m.alloc.issued(),
        !m.is_live(m.alloc.issued() as usize),
        forall|i: int| 0 <= i < m.len() ==> m.insert(row).ids[i] == m.ids[i],
{
    let after = m.insert(row);
    let id = m.alloc.issued() as usize;
    if m.alloc.free.len() > 0 {
        let last = m.alloc.free.len() - 1;
        assert(m.alloc.free.contains(m.alloc.free[last]));
        assert forall|k: int| 0 <= k < after.alloc.free.len() implies after.alloc.free[k] != id by {
            assert(after.alloc.free[k] == m.alloc.free[k]);
        }
        assert forall|i: int| 0 <= i < m.ids.len() implies !after.alloc.free.contains(m.ids[i]) by {
            if after.alloc.free.contains(m.ids[i]) {
                let k = choose|k: int| 0 <= k < after.alloc.free.len() && after.alloc.free[k] == m.ids[i];
                assert(m.alloc.free[k] == m.ids[i]);
                assert(m.alloc.free.contains(m.ids[i]));
            }
        }
    }
    assert(!m.ids.contains(id)) by {
        if m.ids.contains(id) {
            let i = choose|i: int| 0 <= i < m.ids.len() && m.ids[i] == id;
            assert(m.ids[i] < m.alloc.next && !m.alloc.free.contains(m.ids[i]));
        }
    }
    assert forall|i: int, j: int|
        0 <= i < after.ids.len() && 0 <= j < after.ids.len() && i != j implies after.ids[i] != after.ids[j] by {
        if i < m.ids.len() {
            assert(m.ids.contains(m.ids[i]));
        }
        if j < m.ids.len() {
            assert(m.ids.contains(m.ids[j]));
        }
    }
}

/// Marking a row keeps the invariant and changes neither the rows nor the
/// free identifiers.
pub proof fn lemma_delete_by_index<T>(m: TableModel<T>, index: int)
    requires
        m.inv(),
    ensures
        m.delete_by_index(index).inv(),
        m.delete_by_index(index).ids == m.ids,
        m.delete_by_index(index).columns == m.columns,
        m.delete_by_index(index).alloc == m.alloc,
{
}

/// Marking a row twice is the same as marking it once.
pub proof fn lemma_delete_by_index_idempotent<T>(m: TableModel<T>, index: int)
    ensures
        m.delete_by_index(index).delete_by_index(index) == m.delete_by_index(index),
{
    if 0 <= index < m.len() {
        assert(m.pending.insert(index).insert(index) =~= m.pending.insert(index));
    }
}

/// Marking a row by its identifier marks the one row that has it, and a
/// table that has no such row stays as it is.
pub proof fn lemma_delete_by_id<T>(m: TableModel<T>, id: usize)
    requires
        m.inv(),
    ensures
        m.delete_by_id(id).inv(),
        !m.is_live(id) ==> m.delete_by_id(id) == m,
        forall|i: int|
            0 <= i < m.len() && m.ids[i] == id ==> m.delete_by_id(id) == m.delete_by_index(i),
        m.delete_by_id(id).delete_by_id(id) == m.delete_by_id(id),
{
    assert forall|i: int| 0 <= i < m.len() && m.ids[i] == id implies m.delete_by_id(id)
        == m.delete_by_index(i) by {
        lemma_index_of_unique(m.ids, i);
    }
    lemma_delete_by_index_idempotent(m, m.ids.index_of(id));
}

/// A commit with nothing pending changes nothing, under either policy:
/// the table is what a commit owes for itself, and the commit that keeps
/// the survivors in order returns it.
pub proof fn lemma_empty_commit<T>(m: TableModel<T>)
    requires
        m.inv(),
        m.pending.is_empty(),
    ensures
        m.committed(m),
        m.stable_commit() == m,
{
    assert(m.pending =~= Set::empty());
    lemma_commit_nothing(m);
    lemma_stable_commit_nothing(m);
}

/// With `k` rows pending, a commit leaves `k` rows fewer, under either
/// policy.
pub proof fn lemma_commit_count<T>(pre: TableModel<T>, post: TableModel<T>, k: nat)
    requires
        pre.inv(),
        pre.pending.len() == k,
        pre.committed(post) || post == pre.stable_commit(),
    ensures
        post.len() == pre.len() - k,
        k <= pre.len(),
{
    lemma_stable_commit(pre);
    let range = vstd::set_lib::set_int_range(0, pre.len() as int);
    vstd::set_lib::lemma_int_range(0, pre.len() as int);
    assert(pre.pending.subset_of(range));
    vstd::set_lib::lemma_len_subset(pre.pending, range);
}

/// The identifier of a pending row cannot be issued before the commit:
/// it is not free, and it is not the one that the next insert takes. After
/// the commit it is free and no row has it.
pub proof fn lemma_recycled_by_commit<T>(pre: TableModel<T>, post: TableModel<T>, index: int)
    requires
        pre.inv(),
        pre.committed(post),
        pre.pending.contains(index),
    ensures
        !pre.alloc.free.contains(pre.ids[index]),
        pre.alloc.issued() != pre.ids[index],
        post.alloc.free.contains(pre.ids[index]),
        !post.is_live(pre.ids[index]),
{
    let id = pre.ids[index];
    lemma_index_of_unique(pre.ids, index);
    assert(pre.ids.contains(id));
    assert(pre.pending_ids().contains(id));
    if pre.alloc.free.len() > 0 {
        assert(pre.alloc.free.contains(pre.alloc.free.last()));
    }
    if post.ids.contains(id) {
        let j = choose|j: int| 0 <= j < post.ids.len() && post.ids[j] == id;
        assert(!post.alloc.free.contains(post.ids[j]));
    }
}

/// A row that does not wait for deletion survives a commit with its
/// identifier and its field values.
pub proof fn lemma_survives_commit<T>(pre: TableModel<T>, post: TableModel<T>, index: int)
    requires
        pre.inv(),
        pre.committed(post),
        0 <= index < pre.len(),
        !pre.pending.contains(index),
    ensures
        post.is_live(pre.ids[index]),
        post.row(post.ids.index_of(pre.ids[index])) == pre.row(index),
{
    let id = pre.ids[index];
    lemma_index_of_unique(pre.ids, index);
    assert(pre.ids.contains(id));
    assert(!pre.pending_ids().contains(id));
    assert(pre.rows_by_id().remove_keys(pre.pending_ids()).dom().contains(id));
    assert(post.rows_by_id().dom().contains(id));
    assert(post.rows_by_id()[id] == pre.rows_by_id()[id]);
}

/// One operation on a table.
pub enum Step<T> {
    /// Append a row with these field values.
    Insert { row: Seq<T> },
    /// Mark the row at this index.
    DeleteByIndex { index: int },
    /// Mark the row with this identifier.
    DeleteById { id: usize },
    /// Remove the marked rows.
    Commit,
}

/// Whether `post` may be the table after the operation `s` on `pre`. An
/// insert appends the row, or is refused for want of room and leaves the
/// table as it was; a commit is any one that gives what a commit owes,
/// whatever the order in which it leaves the surviving rows.
pub open spec fn follows<T>(pre: TableModel<T>, s: Step<T>, post: TableModel<T>) -> bool {
    match s {
        Step::Insert { row } => (pre.alloc.can_issue() && post == pre.insert(row)) || post == pre,
        Step::DeleteByIndex { index } => post == pre.delete_by_index(index),
        Step::DeleteById { id } => post == pre.delete_by_id(id),
        Step::Commit => pre.committed(post),
    }
}

/// Whether `states` are the tables that a sequence of operations passes
/// through: the first is a table without rows, and each next one follows
/// from the one before by the operation that stands between them.
pub open spec fn history<T>(states: Seq<TableModel<T>>, steps: Seq<Step<T>>) -> bool {
    &&& states.len() == steps.len() + 1
    &&& states[0] == TableModel::<T>::empty(states[0].width())
    &&& forall|k: int| 0 <= k < steps.len() ==> follows(states[k], #[trigger] steps[k], states[k + 1])
}

/// After any sequence of inserts, deletions and commits on an empty table
/// the invariant holds: all columns have the table's length, no two rows
/// share an identifier, and no identifier in use is free.
pub proof fn lemma_history_inv<T>(states: Seq<TableModel<T>>, steps: Seq<Step<T>>, at: int)
    requires
        history(states, steps),
        0 <= at < states.len(),
    ensures
        states[at].inv(),
        states[at].ids.no_duplicates(),
        forall|c: int| 0 <= c < states[at].width() ==> (#[trigger] states[at].columns[c]).len() == states[at].len(),
    decreases at,
{
    if at == 0 {
        lemma_empty_inv::<T>(states[0].width());
    } else {
        lemma_history_inv(states, steps, at - 1);
        let before = states[at - 1];
        assert(follows(before, steps[at - 1], states[at]));
        match steps[at - 1] {
            Step::Insert { row } => {
                if before.alloc.can_issue() {
                    lemma_insert(before, row);
                }
            },
            Step::DeleteByIndex { index } => {
                lemma_delete_by_index(before, index);
            },
            Step::DeleteById { id } => {
                lemma_delete_by_id(before, id);
            },
            Step::Commit => {},
        }
    }
}

} // verus!
