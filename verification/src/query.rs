//! Scans: caller-supplied logic runs once per row, may ask for the row's
//! deletion, and the deletions take effect when the scan is over.
use vstd::prelude::*;
use crate::arena_table::ArenaTable;
use crate::table::DenseTable;

verus! {

/// Names row `index` in the statements about a scan. It holds of every
/// index: its use is that a statement made of all rows can be found for
/// one row by naming that row.
pub open spec fn visited(index: int) -> bool {
    true
}

impl<T> DenseTable<T> {
    /// Runs `visit` on the rows from index `start` up to, not including,
    /// `end`, in that order, and returns what it said of each: `true` asks
    /// for the row's deletion. `visit` is given the row's identifier, its
    /// index and the table. The table is not changed.
    pub fn decide_range<F: Fn(usize, usize, &DenseTable<T>) -> bool>(
        &self,
        start: usize,
        end: usize,
        visit: F,
    ) -> (decisions: Vec<bool>)
        requires
            start <= end <= self@.len(),
            forall|i: int|
                start <= i < end ==> call_requires(visit, (#[trigger] self@.ids[i], i as usize, self)),
        ensures
            decisions@.len() == end - start,
            forall|i: int|
                start <= i < end ==> call_ensures(
                    visit,
                    (self@.ids[i], i as usize, self),
                    #[trigger] decisions@[i - start],
                ),
    {
        let mut decisions: Vec<bool> = Vec::new();
        let mut index: usize = start;
        while index < end
            invariant
                start <= index <= end <= self@.len(),
                decisions@.len() == index - start,
                forall|i: int|
                    start <= i < end ==> call_requires(visit, (#[trigger] self@.ids[i], i as usize, self)),
                forall|i: int|
                    start <= i < index ==> call_ensures(
                        visit,
                        (self@.ids[i], i as usize, self),
                        #[trigger] decisions@[i - start],
                    ),
            decreases end - index,
        {
            let id = self.id_at(index);
            let decision = visit(id, index, self);
            decisions.push(decision);
            index = index + 1;
        }
        decisions
    }

    /// Marks for deletion every row whose index has a `true` in
    /// `decisions`. Entries beyond the last row mark nothing.
    pub fn mark_all(&mut self, decisions: &Vec<bool>)
        requires
            old(self).wf(),
        ensures
            final(self).wf(),
            final(self)@ == old(self)@.mark_all(decisions@),
    {
        let count = if decisions.len() < self.len() {
            decisions.len()
        } else {
            self.len()
        };
        let mut index: usize = 0;
        proof {
            assert(self@.pending =~= old(self)@.mark_all(decisions@.subrange(0, 0)).pending);
        }
        while index < count
            invariant
                self.wf(),
                index <= count,
                count <= decisions@.len(),
                count <= old(self)@.len(),
                count == decisions@.len() || count == old(self)@.len(),
                self@ == old(self)@.mark_all(decisions@.subrange(0, index as int)),
            decreases count - index,
        {
            let ghost before = self@;
            if decisions[index] {
                self.delete_by_index(index);
            }
            proof {
                assert(self@.pending =~= old(self)@.mark_all(
                    decisions@.subrange(0, index + 1),
                ).pending);
            }
            index = index + 1;
        }
        proof {
            assert(self@.pending =~= old(self)@.mark_all(decisions@).pending);
        }
    }

    /// The sequential read-only scan: runs `visit` on every row in the
    /// order of the indices, marks the rows of which it said `true`, and
    /// commits. Returns what `visit` said of each row, by the index that
    /// the row had during the scan.
    pub fn query<F: Fn(usize, usize, &DenseTable<T>) -> bool>(&mut self, visit: F) -> (decisions: Vec<
        bool,
    >)
        requires
            old(self).wf(),
            forall|i: int|
                0 <= i < old(self)@.len() ==> call_requires(
                    visit,
                    (#[trigger] old(self)@.ids[i], i as usize, &*old(self)),
                ),
        ensures
            final(self).wf(),
            decisions@.len() == old(self)@.len(),
            forall|i: int|
                0 <= i < old(self)@.len() ==> call_ensures(
                    visit,
                    (old(self)@.ids[i], i as usize, &*old(self)),
                    #[trigger] decisions@[i],
                ),
            old(self)@.mark_all(decisions@).committed(final(self)@),
            final(self)@.alloc.free == old(self)@.alloc.free + old(self)@.mark_all(
                decisions@,
            ).recycled_descending(),
    {
        let decisions = self.decide_range(0, self.len(), visit);
        proof {
            assert forall|i: int| 0 <= i < self@.len() implies call_ensures(
                visit,
                (self@.ids[i], i as usize, &*self),
                #[trigger] decisions@[i],
            ) by {
                assert(decisions@[i - 0] == decisions@[i]);
            }
        }
        self.mark_all(&decisions);
        self.commit_delete();
        decisions
    }

    /// Runs `visit` on every row in the order of the indices, handing it
    /// the row's identifier and a mutable reference to the row's field
    /// `column`, and returns what it said of each row: `true` asks for the
    /// row's deletion. Only the values of that column change: each is what
    /// `visit` left behind the reference.
    pub fn update_column<F: Fn(usize, &mut T) -> bool>(&mut self, column: usize, visit: F) -> (decisions:
        Vec<bool>)
        requires
            old(self).wf(),
            column < old(self)@.width(),
            forall|i: int, cell: &mut T|
                0 <= i < old(self)@.len() && *cell == old(self)@.columns[column as int][i]
                    ==> #[trigger] call_requires(visit, (old(self)@.ids[i], cell)),
        ensures
            final(self).wf(),
            decisions@.len() == old(self)@.len(),
            final(self)@.columns[column as int].len() == old(self)@.len(),
            final(self)@ == old(self)@.with_column(column as int, final(self)@.columns[column as int]),
            forall|i: int|
                #[trigger] visited(i) && 0 <= i < old(self)@.len() ==> exists|cell: &mut T|
                    *cell == old(self)@.columns[column as int][i]
                        && *final(cell) == final(self)@.columns[column as int][i]
                        && #[trigger] call_ensures(visit, (old(self)@.ids[i], cell), decisions@[i]),
    {
        let count = self.len();
        let mut decisions: Vec<bool> = Vec::new();
        let mut index: usize = 0;
        proof {
            old(self).lemma_wf_inv();
            assert(self@.columns =~= old(self)@.columns.update(
                column as int,
                self@.columns[column as int],
            ));
        }
        while index < count
            invariant
                self.wf(),
                index <= count,
                count == old(self)@.len(),
                column < old(self)@.width(),
                decisions@.len() == index,
                self@.columns[column as int].len() == count,
                self@ == old(self)@.with_column(column as int, self@.columns[column as int]),
                forall|i: int|
                    index <= i < count ==> self@.columns[column as int][i]
                        == old(self)@.columns[column as int][i],
                forall|i: int, cell: &mut T|
                    0 <= i < old(self)@.len() && *cell == old(self)@.columns[column as int][i]
                        ==> #[trigger] call_requires(visit, (old(self)@.ids[i], cell)),
                forall|i: int|
                    #[trigger] visited(i) && 0 <= i < index ==> exists|cell: &mut T|
                        *cell == old(self)@.columns[column as int][i] && *final(cell)
                            == self@.columns[column as int][i] && #[trigger] call_ensures(
                            visit,
                            (old(self)@.ids[i], cell),
                            decisions@[i],
                        ),
            decreases count - index,
        {
            let ghost before = self@;
            let ghost said = decisions@;
            let id = self.id_at(index);
            let cell = self.get_mut(column, index);
            let decision = visit(id, cell);
            decisions.push(decision);
            index = index + 1;
            proof {
                assert(self@.columns =~= old(self)@.columns.update(
                    column as int,
                    self@.columns[column as int],
                ));
                assert forall|i: int| #[trigger] visited(i) && 0 <= i < index implies exists|cell: &mut T|
                    *cell == old(self)@.columns[column as int][i] && *final(cell)
                        == self@.columns[column as int][i] && #[trigger] call_ensures(
                        visit,
                        (old(self)@.ids[i], cell),
                        decisions@[i],
                    ) by {
                    if i < index - 1 {
                        assert(self@.columns[column as int][i] == before.columns[column as int][i]);
                        assert(decisions@[i] == said[i]);
                    } else {
                        assert(decisions@[i] == decision);
                        assert(id == old(self)@.ids[i]);
                        assert(before.columns[column as int][i] == old(self)@.columns[column as int][i]);
                        assert(self@.columns[column as int][i] == *final(cell));
                        assert(exists|cell: &mut T|
                            *cell == before.columns[column as int][index - 1] && *final(cell)
                                == self@.columns[column as int][index - 1] && #[trigger] call_ensures(
                                visit,
                                (id, cell),
                                decision,
                            ));
                    }
                }
            }
        }
        decisions
    }

    /// The sequential updating scan: runs `visit` on every row in the
    /// order of the indices as [`DenseTable::update_column`] does, marks
    /// the rows of which it asked the deletion, and commits. Returns what
    /// `visit` said of each row, by the index that the row had during the
    /// scan. `values` below are the values of the column when the scan is
    /// over and the commit has not begun.
    pub fn query_mut<F: Fn(usize, &mut T) -> bool>(&mut self, column: usize, visit: F) -> (decisions: Vec<
        bool,
    >)
        requires
            old(self).wf(),
            column < old(self)@.width(),
            forall|i: int, cell: &mut T|
                0 <= i < old(self)@.len() && *cell == old(self)@.columns[column as int][i]
                    ==> #[trigger] call_requires(visit, (old(self)@.ids[i], cell)),
        ensures
            final(self).wf(),
            decisions@.len() == old(self)@.len(),
            exists|values: Seq<T>|
                {
                    &&& values.len() == old(self)@.len()
                    &&& forall|i: int|
                        #[trigger] visited(i) && 0 <= i < old(self)@.len() ==> exists|cell: &mut T|
                            *cell == old(self)@.columns[column as int][i] && *final(cell) == values[i]
                                && #[trigger] call_ensures(
                                visit,
                                (old(self)@.ids[i], cell),
                                decisions@[i],
                            )
                    &&& (#[trigger] old(self)@.with_column(column as int, values)).mark_all(
                        decisions@,
                    ).committed(final(self)@)
                    &&& final(self)@.alloc.free == old(self)@.alloc.free + old(self)@.with_column(
                        column as int,
                        values,
                    ).mark_all(decisions@).recycled_descending()
                },
    {
        let decisions = self.update_column(column, visit);
        let ghost values = self@.columns[column as int];
        let ghost scanned = self@;
        self.mark_all(&decisions);
        self.commit_delete();
        proof {
            assert(scanned == old(self)@.with_column(column as int, values));
        }
        decisions
    }
}

impl<T> ArenaTable<T> {
    /// Runs `visit` on the rows from index `start` up to, not including,
    /// `end`, in that order, and returns what it said of each: `true` asks
    /// for the row's deletion. `visit` is given the row's identifier, its
    /// index and the table. The table is not changed.
    pub fn decide_range<F: Fn(usize, usize, &ArenaTable<T>) -> bool>(
        &self,
        start: usize,
        end: usize,
        visit: F,
    ) -> (decisions: Vec<bool>)
        requires
            self.wf(),
            start <= end <= self@.len(),
            forall|i: int|
                start <= i < end ==> call_requires(visit, (#[trigger] self@.ids[i], i as usize, self)),
        ensures
            decisions@.len() == end - start,
            forall|i: int|
                start <= i < end ==> call_ensures(
                    visit,
                    (self@.ids[i], i as usize, self),
                    #[trigger] decisions@[i - start],
                ),
    {
        let mut decisions: Vec<bool> = Vec::new();
        let mut index: usize = start;
        while index < end
            invariant
                self.wf(),
                start <= index <= end <= self@.len(),
                decisions@.len() == index - start,
                forall|i: int|
                    start <= i < end ==> call_requires(visit, (#[trigger] self@.ids[i], i as usize, self)),
                forall|i: int|
                    start <= i < index ==> call_ensures(
                        visit,
                        (self@.ids[i], i as usize, self),
                        #[trigger] decisions@[i - start],
                    ),
            decreases end - index,
        {
            let id = self.id_at(index);
            let decision = visit(id, index, self);
            decisions.push(decision);
            index = index + 1;
        }
        decisions
    }

    /// Marks for deletion every row whose index has a `true` in
    /// `decisions`. Entries beyond the last row mark nothing.
    pub fn mark_all(&mut self, decisions: &Vec<bool>)
        requires
            old(self).wf(),
        ensures
            final(self).wf(),
            final(self).spec_capacity() == old(self).spec_capacity(),
            final(self)@ == old(self)@.mark_all(decisions@),
    {
        let count = if decisions.len() < self.len() {
            decisions.len()
        } else {
            self.len()
        };
        let mut index: usize = 0;
        proof {
            assert(self@.pending =~= old(self)@.mark_all(decisions@.subrange(0, 0)).pending);
        }
        while index < count
            invariant
                self.wf(),
                self.spec_capacity() == old(self).spec_capacity(),
                index <= count,
                count <= decisions@.len(),
                count <= old(self)@.len(),
                count == decisions@.len() || count == old(self)@.len(),
                self@ == old(self)@.mark_all(decisions@.subrange(0, index as int)),
            decreases count - index,
        {
            let ghost before = self@;
            if decisions[index] {
                self.delete_by_index(index);
            }
            proof {
                assert(self@.pending =~= old(self)@.mark_all(
                    decisions@.subrange(0, index + 1),
                ).pending);
            }
            index = index + 1;
        }
        proof {
            assert(self@.pending =~= old(self)@.mark_all(decisions@).pending);
        }
    }

    /// The sequential read-only scan: runs `visit` on every row in the
    /// order of the indices, marks the rows of which it said `true`, and
    /// commits. Returns what `visit` said of each row, by the index that
    /// the row had during the scan.
    pub fn query<F: Fn(usize, usize, &ArenaTable<T>) -> bool>(&mut self, visit: F) -> (decisions: Vec<
        bool,
    >)
        requires
            old(self).wf(),
            forall|i: int|
                0 <= i < old(self)@.len() ==> call_requires(
                    visit,
                    (#[trigger] old(self)@.ids[i], i as usize, &*old(self)),
                ),
        ensures
            final(self).wf(),
            decisions@.len() == old(self)@.len(),
            forall|i: int|
                0 <= i < old(self)@.len() ==> call_ensures(
                    visit,
                    (old(self)@.ids[i], i as usize, &*old(self)),
                    #[trigger] decisions@[i],
                ),
            final(self).spec_capacity() == old(self).spec_capacity(),
            final(self)@ == old(self)@.mark_all(decisions@).stable_commit(),
    {
        let decisions = self.decide_range(0, self.len(), visit);
        proof {
            assert forall|i: int| 0 <= i < self@.len() implies call_ensures(
                visit,
                (self@.ids[i], i as usize, &*self),
                #[trigger] decisions@[i],
            ) by {
                assert(decisions@[i - 0] == decisions@[i]);
            }
        }
        self.mark_all(&decisions);
        self.commit_delete();
        decisions
    }

    /// Runs `visit` on every row in the order of the indices, handing it
    /// the row's identifier and a mutable reference to the row's field
    /// `column`, and returns what it said of each row: `true` asks for the
    /// row's deletion. Only the values of that column change: each is what
    /// `visit` left behind the reference.
    pub fn update_column<F: Fn(usize, &mut T) -> bool>(&mut self, column: usize, visit: F) -> (decisions:
        Vec<bool>)
        requires
            old(self).wf(),
            column < old(self)@.width(),
            forall|i: int, cell: &mut T|
                0 <= i < old(self)@.len() && *cell == old(self)@.columns[column as int][i]
                    ==> #[trigger] call_requires(visit, (old(self)@.ids[i], cell)),
        ensures
            final(self).wf(),
            final(self).spec_capacity() == old(self).spec_capacity(),
            decisions@.len() == old(self)@.len(),
            final(self)@.columns[column as int].len() == old(self)@.len(),
            final(self)@ == old(self)@.with_column(column as int, final(self)@.columns[column as int]),
            forall|i: int|
                #[trigger] visited(i) && 0 <= i < old(self)@.len() ==> exists|cell: &mut T|
                    *cell == old(self)@.columns[column as int][i]
                        && *final(cell) == final(self)@.columns[column as int][i]
                        && #[trigger] call_ensures(visit, (old(self)@.ids[i], cell), decisions@[i]),
    {
        let count = self.len();
        let mut decisions: Vec<bool> = Vec::new();
        let mut index: usize = 0;
        proof {
            old(self).lemma_wf_inv();
            assert(self@.columns =~= old(self)@.columns.update(
                column as int,
                self@.columns[column as int],
            ));
        }
        while index < count
            invariant
                self.wf(),
                self.spec_capacity() == old(self).spec_capacity(),
                index <= count,
                count == old(self)@.len(),
                column < old(self)@.width(),
                decisions@.len() == index,
                self@.columns[column as int].len() == count,
                self@ == old(self)@.with_column(column as int, self@.columns[column as int]),
                forall|i: int|
                    index <= i < count ==> self@.columns[column as int][i]
                        == old(self)@.columns[column as int][i],
                forall|i: int, cell: &mut T|
                    0 <= i < old(self)@.len() && *cell == old(self)@.columns[column as int][i]
                        ==> #[trigger] call_requires(visit, (old(self)@.ids[i], cell)),
                forall|i: int|
                    #[trigger] visited(i) && 0 <= i < index ==> exists|cell: &mut T|
                        *cell == old(self)@.columns[column as int][i] && *final(cell)
                            == self@.columns[column as int][i] && #[trigger] call_ensures(
                            visit,
                            (old(self)@.ids[i], cell),
                            decisions@[i],
                        ),
            decreases count - index,
        {
            let ghost before = self@;
            let ghost said = decisions@;
            let id = self.id_at(index);
            let cell = self.get_mut(column, index);
            let decision = visit(id, cell);
            decisions.push(decision);
            index = index + 1;
            proof {
                assert(self@.columns =~= old(self)@.columns.update(
                    column as int,
                    self@.columns[column as int],
                ));
                assert forall|i: int| #[trigger] visited(i) && 0 <= i < index implies exists|cell: &mut T|
                    *cell == old(self)@.columns[column as int][i] && *final(cell)
                        == self@.columns[column as int][i] && #[trigger] call_ensures(
                        visit,
                        (old(self)@.ids[i], cell),
                        decisions@[i],
                    ) by {
                    if i < index - 1 {
                        assert(self@.columns[column as int][i] == before.columns[column as int][i]);
                        assert(decisions@[i] == said[i]);
                    } else {
                        assert(decisions@[i] == decision);
                        assert(id == old(self)@.ids[i]);
                        assert(before.columns[column as int][i] == old(self)@.columns[column as int][i]);
                        assert(self@.columns[column as int][i] == *final(cell));
                        assert(exists|cell: &mut T|
                            *cell == before.columns[column as int][index - 1] && *final(cell)
                                == self@.columns[column as int][index - 1] && #[trigger] call_ensures(
                                visit,
                                (id, cell),
                                decision,
                            ));
                    }
                }
            }
        }
        decisions
    }

    /// The sequential updating scan: runs `visit` on every row in the
    /// order of the indices as [`ArenaTable::update_column`] does, marks
    /// the rows of which it asked the deletion, and commits. Returns what
    /// `visit` said of each row, by the index that the row had during the
    /// scan. `values` below are the values of the column when the scan is
    /// over and the commit has not begun.
    pub fn query_mut<F: Fn(usize, &mut T) -> bool>(&mut self, column: usize, visit: F) -> (decisions: Vec<
        bool,
    >)
        requires
            old(self).wf(),
            column < old(self)@.width(),
            forall|i: int, cell: &mut T|
                0 <= i < old(self)@.len() && *cell == old(self)@.columns[column as int][i]
                    ==> #[trigger] call_requires(visit, (old(self)@.ids[i], cell)),
        ensures
            final(self).wf(),
            decisions@.len() == old(self)@.len(),
            exists|values: Seq<T>|
                {
                    &&& values.len() == old(self)@.len()
                    &&& forall|i: int|
                        #[trigger] visited(i) && 0 <= i < old(self)@.len() ==> exists|cell: &mut T|
                            *cell == old(self)@.columns[column as int][i] && *final(cell) == values[i]
                                && #[trigger] call_ensures(
                                visit,
                                (old(self)@.ids[i], cell),
                                decisions@[i],
                            )
                    &&& final(self)@ == (#[trigger] old(self)@.with_column(column as int, values)).mark_all(
                        decisions@,
                    ).stable_commit()
                },
            final(self).spec_capacity() == old(self).spec_capacity(),
    {
        let decisions = self.update_column(column, visit);
        let ghost values = self@.columns[column as int];
        let ghost scanned = self@;
        self.mark_all(&decisions);
        self.commit_delete();
        proof {
            assert(scanned == old(self)@.with_column(column as int, values));
        }
        decisions
    }
}

} // verus!
