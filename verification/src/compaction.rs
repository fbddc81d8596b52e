//! The reasoning behind commits: how removing rows one by one, or keeping
//! the survivors in one pass, arrives at what a commit owes.
use vstd::prelude::*;
use crate::id_allocator::IdState;
use crate::model::{kept, picked_ascending, picked_descending, TableModel};

verus! {

/// In a sequence without duplicates an item is found where it stands.
pub proof fn lemma_index_of_unique<A>(s: Seq<A>, p: int)
    requires
        s.no_duplicates(),
        0 <= p < s.len(),
    ensures
        s.index_of(s[p]) == p,
{
    let found = s.index_of(s[p]);
    assert(0 <= found < s.len() && s[found] == s[p]);
}

/// A finite set of indices below `len` that lacks one of them has fewer
/// than `len` members.
pub proof fn lemma_room_for_one_more(s: Set<int>, absent: int, len: int)
    requires
        s.finite(),
        forall|i: int| s.contains(i) ==> 0 <= i < len,
        0 <= absent < len,
        !s.contains(absent),
    ensures
        s.len() < len,
{
    let range = vstd::set_lib::set_int_range(0, len);
    vstd::set_lib::lemma_int_range(0, len);
    let bigger = s.insert(absent);
    assert(bigger.subset_of(range));
    vstd::set_lib::lemma_len_subset(bigger, range);
}

/// The members of `chosen` that are at least `from`.
pub open spec fn at_least(chosen: Set<int>, from: int) -> Set<int> {
    Set::new(|j: int| chosen.contains(j) && j >= from)
}

/// The members of `chosen` that are below `n`.
pub open spec fn below(chosen: Set<int>, n: int) -> Set<int> {
    Set::new(|j: int| chosen.contains(j) && j < n)
}

/// `picked_descending` has one item for each chosen index from `from` on.
pub proof fn lemma_picked_descending_len<A>(s: Seq<A>, chosen: Set<int>, from: int)
    requires
        chosen.finite(),
        forall|j: int| chosen.contains(j) ==> 0 <= j < s.len(),
        0 <= from,
    ensures
        at_least(chosen, from).finite(),
        picked_descending(s, chosen, from).len() == at_least(chosen, from).len(),
    decreases s.len() - from,
{
    assert(at_least(chosen, from).subset_of(chosen));
    vstd::set_lib::lemma_len_subset(at_least(chosen, from), chosen);
    if from >= s.len() {
        assert(at_least(chosen, from) =~= Set::empty());
    } else {
        lemma_picked_descending_len(s, chosen, from + 1);
        if chosen.contains(from) {
            assert(at_least(chosen, from) =~= at_least(chosen, from + 1).insert(from));
        } else {
            assert(at_least(chosen, from) =~= at_least(chosen, from + 1));
        }
    }
}

/// What `picked_descending` holds: the items at the chosen indices from
/// `from` on, and nothing else.
pub proof fn lemma_picked_descending_contains<A>(s: Seq<A>, chosen: Set<int>, from: int, x: A)
    requires
        0 <= from,
    ensures
        picked_descending(s, chosen, from).contains(x) <==> exists|k: int|
            from <= k < s.len() && chosen.contains(k) && s[k] == x,
    decreases s.len() - from,
{
    let here = picked_descending(s, chosen, from);
    if from >= s.len() {
        assert(here =~= Seq::empty());
    } else {
        let rest = picked_descending(s, chosen, from + 1);
        lemma_picked_descending_contains(s, chosen, from + 1, x);
        if chosen.contains(from) {
            assert(here == rest.push(s[from]));
            if here.contains(x) {
                let p = choose|p: int| 0 <= p < here.len() && here[p] == x;
                if p < rest.len() {
                    assert(rest[p] == x);
                    assert(rest.contains(x));
                    let k = choose|k: int| from + 1 <= k < s.len() && chosen.contains(k) && s[k] == x;
                    assert(from <= k < s.len() && chosen.contains(k) && s[k] == x);
                } else {
                    assert(from <= from < s.len() && chosen.contains(from) && s[from] == x);
                }
            }
            if exists|k: int| from <= k < s.len() && chosen.contains(k) && s[k] == x {
                let k = choose|k: int| from <= k < s.len() && chosen.contains(k) && s[k] == x;
                if k == from {
                    assert(here[rest.len() as int] == x);
                } else {
                    assert(from + 1 <= k < s.len() && chosen.contains(k) && s[k] == x);
                    let p = choose|p: int| 0 <= p < rest.len() && rest[p] == x;
                    assert(here[p] == x);
                }
            }
        } else {
            if here.contains(x) {
                let k = choose|k: int| from + 1 <= k < s.len() && chosen.contains(k) && s[k] == x;
                assert(from <= k < s.len() && chosen.contains(k) && s[k] == x);
            }
            if exists|k: int| from <= k < s.len() && chosen.contains(k) && s[k] == x {
                let k = choose|k: int| from <= k < s.len() && chosen.contains(k) && s[k] == x;
                assert(from + 1 <= k < s.len() && chosen.contains(k) && s[k] == x);
            }
        }
    }
}

/// The identifiers of the rows of `pre` that wait for deletion at an index
/// of at least `from`.
pub open spec fn pending_ids_from<T>(pre: TableModel<T>, from: int) -> Set<usize> {
    Set::new(
        |id: usize|
            pre.ids.contains(id) && pre.pending.contains(pre.ids.index_of(id)) && pre.ids.index_of(id)
                >= from,
    )
}

/// How far a commit that removes pending rows from the highest index down
/// has come when every pending row at index `from` or above is gone: the
/// rows below `from` are as they were, no row from `from` on is pending,
/// and the rows that are left are those of `pre` without the removed ones.
pub open spec fn swap_progress<T>(pre: TableModel<T>, cur: TableModel<T>, from: int) -> bool {
    &&& pre.inv()
    &&& cur.inv()
    &&& cur.width() == pre.width()
    &&& 0 <= from <= cur.len()
    &&& cur.len() == pre.len() - picked_descending(pre.ids, pre.pending, from).len()
    &&& forall|j: int| 0 <= j < from ==> cur.ids[j] == pre.ids[j]
    &&& forall|j: int| 0 <= j < from ==> (cur.pending.contains(j) <==> pre.pending.contains(j))
    &&& forall|j: int| from <= j ==> !cur.pending.contains(j)
    &&& cur.alloc == (IdState {
        next: pre.alloc.next,
        free: pre.alloc.free + picked_descending(pre.ids, pre.pending, from),
    })
    &&& cur.rows_by_id() =~= pre.rows_by_id().remove_keys(pending_ids_from(pre, from))
}

/// Before the first row is looked at, nothing has been removed.
pub proof fn lemma_swap_start<T>(pre: TableModel<T>)
    requires
        pre.inv(),
    ensures
        swap_progress(pre, pre, pre.len() as int),
{
    assert(picked_descending(pre.ids, pre.pending, pre.len() as int) =~= Seq::empty());
    assert(pre.alloc.free + Seq::<usize>::empty() =~= pre.alloc.free);
    assert(pending_ids_from(pre, pre.len() as int) =~= Set::empty()) by {
        assert forall|id: usize| !pending_ids_from(pre, pre.len() as int).contains(id) by {
            if pre.ids.contains(id) {
                let found = pre.ids.index_of(id);
                assert(0 <= found < pre.ids.len());
            }
        }
    }
    assert(pre.rows_by_id().remove_keys(Set::empty()) =~= pre.rows_by_id());
}

/// A row that does not wait for deletion is passed over.
pub proof fn lemma_swap_skip<T>(pre: TableModel<T>, cur: TableModel<T>, index: int)
    requires
        swap_progress(pre, cur, index + 1),
        0 <= index,
        !pre.pending.contains(index),
    ensures
        swap_progress(pre, cur, index),
{
    assert(pending_ids_from(pre, index) =~= pending_ids_from(pre, index + 1));
}

/// Removing one row by moving the last row into its place takes that
/// row, and no other, out of the map from identifier to field values.
pub proof fn lemma_swap_remove_rows<T>(m: TableModel<T>, index: int)
    requires
        m.inv(),
        0 <= index < m.len(),
    ensures
        m.swap_remove(index).ids.no_duplicates(),
        m.swap_remove(index).rows_by_id() =~= m.rows_by_id().remove(m.ids[index]),
{
    let after = m.swap_remove(index);
    let last = m.len() - 1;
    assert forall|id: usize| after.ids.contains(id) <==> (m.ids.contains(id) && id != m.ids[index]) by {
        if after.ids.contains(id) {
            let p = choose|p: int| 0 <= p < after.ids.len() && after.ids[p] == id;
            if p == index {
                assert(m.ids[last] == id);
            } else {
                assert(m.ids[p] == id);
            }
        }
        if m.ids.contains(id) && id != m.ids[index] {
            let p = choose|p: int| 0 <= p < m.ids.len() && m.ids[p] == id;
            if p == last {
                assert(after.ids[index] == id);
            } else {
                assert(after.ids[p] == id);
            }
        }
    }
    assert forall|id: usize| after.ids.contains(id) implies #[trigger] after.rows_by_id()[id]
        =~= m.rows_by_id()[id] by {
        let p = after.ids.index_of(id);
        assert(0 <= p < after.ids.len() && after.ids[p] == id);
        let q = if p == index {
            last
        } else {
            p
        };
        assert(m.ids[q] == id);
        lemma_index_of_unique(m.ids, q);
        assert(after.row(p) =~= m.row(q));
    }
    assert(after.rows_by_id() =~= m.rows_by_id().remove(m.ids[index]));
}

/// A row that waits for deletion is removed by moving the last row into
/// its place.
pub proof fn lemma_swap_step<T>(pre: TableModel<T>, cur: TableModel<T>, index: int)
    requires
        swap_progress(pre, cur, index + 1),
        0 <= index,
        pre.pending.contains(index),
    ensures
        index < cur.len(),
        cur.pending.contains(index),
        index == cur.len() - 1 || !cur.pending.contains(cur.len() - 1),
        cur.swap_remove(index).inv() ==> swap_progress(pre, cur.swap_remove(index), index),
{
    let after = cur.swap_remove(index);
    if after.inv() {
        let gone = picked_descending(pre.ids, pre.pending, index + 1);
        assert(picked_descending(pre.ids, pre.pending, index) == gone.push(pre.ids[index]));
        assert((pre.alloc.free + gone).push(pre.ids[index]) =~= pre.alloc.free + gone.push(
            pre.ids[index],
        ));
        lemma_swap_remove_rows(cur, index);
        lemma_index_of_unique(pre.ids, index);
        assert(pending_ids_from(pre, index) =~= pending_ids_from(pre, index + 1).insert(
            pre.ids[index],
        )) by {
            assert forall|id: usize|
                pending_ids_from(pre, index).contains(id) <==> pending_ids_from(pre, index + 1).insert(
                    pre.ids[index],
                ).contains(id) by {
                if pre.ids.contains(id) {
                    let found = pre.ids.index_of(id);
                    assert(0 <= found < pre.ids.len() && pre.ids[found] == id);
                }
            }
        }
        assert(after.rows_by_id() =~= pre.rows_by_id().remove_keys(pending_ids_from(pre, index)));
    }
}

/// When every row has been looked at, the commit is done.
pub proof fn lemma_swap_done<T>(pre: TableModel<T>, cur: TableModel<T>)
    requires
        swap_progress(pre, cur, 0),
    ensures
        pre.committed(cur),
        cur.alloc.free == pre.alloc.free + pre.recycled_descending(),
{
    let gone = picked_descending(pre.ids, pre.pending, 0);
    lemma_picked_descending_len(pre.ids, pre.pending, 0);
    assert(at_least(pre.pending, 0) =~= pre.pending);
    assert(cur.pending =~= Set::empty());
    assert(pending_ids_from(pre, 0) =~= pre.pending_ids()) by {
        assert forall|id: usize| pending_ids_from(pre, 0).contains(id) <==> pre.pending_ids().contains(
            id,
        ) by {
            if pre.ids.contains(id) {
                let found = pre.ids.index_of(id);
                assert(0 <= found < pre.ids.len() && pre.ids[found] == id);
            }
        }
    }
    assert(cur.alloc.free.subrange(0, pre.alloc.free.len() as int) =~= pre.alloc.free);
    assert forall|id: usize|
        cur.alloc.free.contains(id) <==> pre.alloc.free.contains(id) || pre.pending_ids().contains(
            id,
        ) by {
        lemma_picked_descending_contains(pre.ids, pre.pending, 0, id);
        lemma_contains_concat(pre.alloc.free, gone, id);
        if gone.contains(id) {
            let k = choose|k: int| 0 <= k < pre.ids.len() && pre.pending.contains(k) && pre.ids[k] == id;
            lemma_index_of_unique(pre.ids, k);
        }
        if pre.pending_ids().contains(id) {
            let found = pre.ids.index_of(id);
            assert(0 <= found < pre.ids.len() && pre.ids[found] == id);
        }
    }
}

/// What two sequences hold together is what either holds.
pub proof fn lemma_contains_concat<A>(a: Seq<A>, b: Seq<A>, x: A)
    ensures
        (a + b).contains(x) <==> a.contains(x) || b.contains(x),
{
    let both = a + b;
    if both.contains(x) {
        let p = choose|p: int| 0 <= p < both.len() && both[p] == x;
        if p < a.len() {
            assert(a[p] == x);
        } else {
            assert(b[p - a.len()] == x);
        }
    }
    if a.contains(x) {
        let p = choose|p: int| 0 <= p < a.len() && a[p] == x;
        assert(both[p] == x);
    }
    if b.contains(x) {
        let p = choose|p: int| 0 <= p < b.len() && b[p] == x;
        assert(both[a.len() + p] == x);
    }
}

/// With nothing pending a table is its own commit.
pub proof fn lemma_commit_nothing<T>(m: TableModel<T>)
    requires
        m.inv(),
        m.pending.len() == 0,
    ensures
        m.pending =~= Set::empty(),
        m.committed(m),
        m.recycled_descending() =~= Seq::empty(),
        m.alloc.free + m.recycled_descending() =~= m.alloc.free,
{
    lemma_swap_start(m);
    assert(m.pending =~= Set::empty());
    lemma_nothing_picked(m.ids, m.pending, 0);
    assert(swap_progress(m, m, 0)) by {
        assert(pending_ids_from(m, 0) =~= Set::empty());
        assert(m.rows_by_id().remove_keys(Set::empty()) =~= m.rows_by_id());
        assert(m.alloc.free + Seq::<usize>::empty() =~= m.alloc.free);
    }
    lemma_swap_done(m, m);
}

/// Where no index is chosen nothing is picked.
pub proof fn lemma_nothing_picked<A>(s: Seq<A>, chosen: Set<int>, from: int)
    requires
        forall|j: int| !chosen.contains(j),
        0 <= from,
    ensures
        picked_descending(s, chosen, from) =~= Seq::empty(),
    decreases s.len() - from,
{
    if from < s.len() {
        lemma_nothing_picked(s, chosen, from + 1);
    }
}

/// The number of indices below `n` that are not in `dropped`.
pub open spec fn survivors_below(dropped: Set<int>, n: int) -> nat
    decreases n,
{
    if n <= 0 {
        0
    } else if dropped.contains(n - 1) {
        survivors_below(dropped, n - 1)
    } else {
        survivors_below(dropped, n - 1) + 1
    }
}

/// `kept` has one item for each surviving index.
pub proof fn lemma_kept_len<A>(s: Seq<A>, dropped: Set<int>, n: int)
    ensures
        kept(s, dropped, n).len() == survivors_below(dropped, n),
    decreases n,
{
    if n > 0 {
        lemma_kept_len(s, dropped, n - 1);
    }
}

/// A surviving item stands in `kept` behind the survivors before it.
pub proof fn lemma_kept_at<A>(s: Seq<A>, dropped: Set<int>, n: int, k: int)
    requires
        0 <= k < n,
        !dropped.contains(k),
    ensures
        survivors_below(dropped, k) < survivors_below(dropped, n),
        kept(s, dropped, n)[survivors_below(dropped, k) as int] == s[k],
    decreases n,
{
    lemma_kept_len(s, dropped, n - 1);
    if k < n - 1 {
        lemma_kept_at(s, dropped, n - 1, k);
    }
}

/// Every place in `kept` is that of some surviving index.
pub proof fn lemma_kept_source(dropped: Set<int>, n: int, p: int) -> (k: int)
    requires
        0 <= p < survivors_below(dropped, n),
    ensures
        0 <= k < n,
        !dropped.contains(k),
        survivors_below(dropped, k) == p,
    decreases n,
{
    if dropped.contains(n - 1) {
        lemma_kept_source(dropped, n - 1, p)
    } else if p == survivors_below(dropped, n - 1) {
        n - 1
    } else {
        lemma_kept_source(dropped, n - 1, p)
    }
}

/// The survivors below `n` are the indices below `n` less the dropped ones.
pub proof fn lemma_survivors_count(dropped: Set<int>, n: int)
    requires
        dropped.finite(),
        forall|j: int| dropped.contains(j) ==> 0 <= j,
        0 <= n,
    ensures
        below(dropped, n).finite(),
        survivors_below(dropped, n) == n - below(dropped, n).len(),
    decreases n,
{
    assert(below(dropped, n).subset_of(dropped));
    vstd::set_lib::lemma_len_subset(below(dropped, n), dropped);
    if n == 0 {
        assert(below(dropped, n) =~= Set::empty());
    } else {
        lemma_survivors_count(dropped, n - 1);
        if dropped.contains(n - 1) {
            assert(below(dropped, n) =~= below(dropped, n - 1).insert(n - 1));
        } else {
            assert(below(dropped, n) =~= below(dropped, n - 1));
        }
    }
}

/// `picked_ascending` has one item for each chosen index below `n`.
pub proof fn lemma_picked_ascending_len<A>(s: Seq<A>, chosen: Set<int>, n: int)
    requires
        chosen.finite(),
        forall|j: int| chosen.contains(j) ==> 0 <= j,
        0 <= n,
    ensures
        below(chosen, n).finite(),
        picked_ascending(s, chosen, n).len() == below(chosen, n).len(),
    decreases n,
{
    assert(below(chosen, n).subset_of(chosen));
    vstd::set_lib::lemma_len_subset(below(chosen, n), chosen);
    if n == 0 {
        assert(below(chosen, n) =~= Set::empty());
    } else {
        lemma_picked_ascending_len(s, chosen, n - 1);
        if chosen.contains(n - 1) {
            assert(below(chosen, n) =~= below(chosen, n - 1).insert(n - 1));
        } else {
            assert(below(chosen, n) =~= below(chosen, n - 1));
        }
    }
}

/// What `picked_ascending` holds: the items at the chosen indices below
/// `n`, and nothing else.
pub proof fn lemma_picked_ascending_contains<A>(s: Seq<A>, chosen: Set<int>, n: int, x: A)
    ensures
        picked_ascending(s, chosen, n).contains(x) <==> exists|k: int|
            0 <= k < n && chosen.contains(k) && s[k] == x,
    decreases n,
{
    let here = picked_ascending(s, chosen, n);
    if n <= 0 {
        assert(here =~= Seq::empty());
    } else {
        let rest = picked_ascending(s, chosen, n - 1);
        lemma_picked_ascending_contains(s, chosen, n - 1, x);
        if chosen.contains(n - 1) {
            assert(here == rest.push(s[n - 1]));
            if here.contains(x) {
                let p = choose|p: int| 0 <= p < here.len() && here[p] == x;
                if p < rest.len() {
                    assert(rest[p] == x);
                    assert(rest.contains(x));
                    let k = choose|k: int| 0 <= k < n - 1 && chosen.contains(k) && s[k] == x;
                    assert(0 <= k < n && chosen.contains(k) && s[k] == x);
                } else {
                    assert(0 <= n - 1 < n && chosen.contains(n - 1) && s[n - 1] == x);
                }
            }
            if exists|k: int| 0 <= k < n && chosen.contains(k) && s[k] == x {
                let k = choose|k: int| 0 <= k < n && chosen.contains(k) && s[k] == x;
                if k == n - 1 {
                    assert(here[rest.len() as int] == x);
                } else {
                    assert(0 <= k < n - 1 && chosen.contains(k) && s[k] == x);
                    let p = choose|p: int| 0 <= p < rest.len() && rest[p] == x;
                    assert(here[p] == x);
                }
            }
        } else {
            if here.contains(x) {
                let k = choose|k: int| 0 <= k < n - 1 && chosen.contains(k) && s[k] == x;
                assert(0 <= k < n && chosen.contains(k) && s[k] == x);
            }
            if exists|k: int| 0 <= k < n && chosen.contains(k) && s[k] == x {
                let k = choose|k: int| 0 <= k < n && chosen.contains(k) && s[k] == x;
                assert(0 <= k < n - 1 && chosen.contains(k) && s[k] == x);
            }
        }
    }
}

/// The identifiers picked from the pending rows below `n` are distinct,
/// were issued, and are not free yet.
pub proof fn lemma_picked_ids_fresh<T>(pre: TableModel<T>, n: int)
    requires
        pre.inv(),
        0 <= n <= pre.len(),
    ensures
        (IdState {
            next: pre.alloc.next,
            free: pre.alloc.free + picked_ascending(pre.ids, pre.pending, n),
        }).inv(),
        forall|k: int|
            n <= k < pre.len() ==> !(pre.alloc.free + picked_ascending(pre.ids, pre.pending, n)).contains(
                #[trigger] pre.ids[k],
            ),
    decreases n,
{
    let here = picked_ascending(pre.ids, pre.pending, n);
    let free = pre.alloc.free + here;
    assert forall|k: int| n <= k < pre.len() implies !free.contains(#[trigger] pre.ids[k]) by {
        let x = pre.ids[k];
        lemma_contains_concat(pre.alloc.free, here, x);
        lemma_picked_ascending_contains(pre.ids, pre.pending, n, x);
    }
    if n == 0 {
        assert(free =~= pre.alloc.free);
    } else {
        lemma_picked_ids_fresh(pre, n - 1);
        let rest = picked_ascending(pre.ids, pre.pending, n - 1);
        if pre.pending.contains(n - 1) {
            let shorter = pre.alloc.free + rest;
            assert(free =~= shorter.push(pre.ids[n - 1]));
            assert(!shorter.contains(pre.ids[n - 1]));
            assert forall|i: int, j: int| 0 <= i < free.len() && 0 <= j < free.len() && i != j implies free[i]
                != free[j] by {
                if i < shorter.len() {
                    assert(shorter.contains(shorter[i]));
                }
                if j < shorter.len() {
                    assert(shorter.contains(shorter[j]));
                }
            }
            assert forall|k: int| 0 <= k < free.len() implies (#[trigger] free[k]) < pre.alloc.next by {
                if k < shorter.len() {
                    assert(free[k] == shorter[k]);
                }
            }
        }
    }
}

/// A commit that keeps the survivors in order leaves a table that
/// satisfies the invariant and is what a commit owes.
pub proof fn lemma_stable_commit<T>(pre: TableModel<T>)
    requires
        pre.inv(),
    ensures
        pre.stable_commit().inv(),
        pre.committed(pre.stable_commit()),
{
    let post = pre.stable_commit();
    let n = pre.len() as int;
    let gone = pre.recycled_ascending();
    lemma_survivors_count(pre.pending, n);
    assert(below(pre.pending, n) =~= pre.pending);
    lemma_picked_ascending_len(pre.ids, pre.pending, n);
    lemma_kept_len(pre.ids, pre.pending, n);
    lemma_picked_ids_fresh(pre, n);
    assert forall|c: int| 0 <= c < post.columns.len() implies (#[trigger] post.columns[c]).len()
        == post.ids.len() by {
        lemma_kept_len(pre.columns[c], pre.pending, n);
    }
    // Each place of the result holds the row of one surviving index.
    assert forall|p: int| 0 <= p < post.ids.len() implies exists|k: int|
        0 <= k < n && !pre.pending.contains(k) && survivors_below(pre.pending, k) == p
            && #[trigger] post.ids[p] == pre.ids[k] && post.row(p) =~= pre.row(k) by {
        let k = lemma_kept_source(pre.pending, n, p);
        lemma_kept_at(pre.ids, pre.pending, n, k);
        assert forall|c: int| 0 <= c < pre.width() implies post.columns[c][p] == pre.columns[c][k] by {
            lemma_kept_at(pre.columns[c], pre.pending, n, k);
        }
        assert(post.row(p) =~= pre.row(k));
    }
    assert forall|p: int, q: int|
        0 <= p < post.ids.len() && 0 <= q < post.ids.len() && p != q implies post.ids[p]
        != post.ids[q] by {
        let k = choose|k: int|
            0 <= k < n && !pre.pending.contains(k) && survivors_below(pre.pending, k) == p
                && post.ids[p] == pre.ids[k] && post.row(p) =~= pre.row(k);
        let l = choose|l: int|
            0 <= l < n && !pre.pending.contains(l) && survivors_below(pre.pending, l) == q
                && post.ids[q] == pre.ids[l] && post.row(q) =~= pre.row(l);
        assert(k != l);
    }
    assert forall|p: int| 0 <= p < post.ids.len() implies (#[trigger] post.ids[p]) < post.alloc.next
        && !post.alloc.free.contains(post.ids[p]) by {
        let k = choose|k: int|
            0 <= k < n && !pre.pending.contains(k) && survivors_below(pre.pending, k) == p
                && post.ids[p] == pre.ids[k] && post.row(p) =~= pre.row(k);
        let x = pre.ids[k];
        lemma_contains_concat(pre.alloc.free, gone, x);
        lemma_picked_ascending_contains(pre.ids, pre.pending, n, x);
        if gone.contains(x) {
            let j = choose|j: int| 0 <= j < n && pre.pending.contains(j) && pre.ids[j] == x;
            assert(j != k);
        }
    }
    assert(post.inv());
    assert forall|id: usize| post.ids.contains(id) <==> (pre.ids.contains(id) && !pre.pending_ids().contains(
        id,
    )) by {
        if post.ids.contains(id) {
            let p = choose|p: int| 0 <= p < post.ids.len() && post.ids[p] == id;
            let k = choose|k: int|
                0 <= k < n && !pre.pending.contains(k) && survivors_below(pre.pending, k) == p
                    && post.ids[p] == pre.ids[k] && post.row(p) =~= pre.row(k);
            lemma_index_of_unique(pre.ids, k);
        }
        if pre.ids.contains(id) && !pre.pending_ids().contains(id) {
            let k = pre.ids.index_of(id);
            assert(0 <= k < n && pre.ids[k] == id);
            lemma_kept_at(pre.ids, pre.pending, n, k);
            assert(post.ids[survivors_below(pre.pending, k) as int] == id);
        }
    }
    assert forall|id: usize| post.ids.contains(id) implies #[trigger] post.rows_by_id()[id]
        =~= pre.rows_by_id()[id] by {
        let p = post.ids.index_of(id);
        assert(0 <= p < post.ids.len() && post.ids[p] == id);
        let k = choose|k: int|
            0 <= k < n && !pre.pending.contains(k) && survivors_below(pre.pending, k) == p
                && post.ids[p] == pre.ids[k] && post.row(p) =~= pre.row(k);
        lemma_index_of_unique(pre.ids, k);
    }
    assert(post.rows_by_id() =~= pre.rows_by_id().remove_keys(pre.pending_ids()));
    assert(post.alloc.free.subrange(0, pre.alloc.free.len() as int) =~= pre.alloc.free);
    assert forall|id: usize|
        post.alloc.free.contains(id) <==> pre.alloc.free.contains(id) || pre.pending_ids().contains(
            id,
        ) by {
        lemma_picked_ascending_contains(pre.ids, pre.pending, n, id);
        lemma_contains_concat(pre.alloc.free, gone, id);
        if gone.contains(id) {
            let k = choose|k: int| 0 <= k < n && pre.pending.contains(k) && pre.ids[k] == id;
            lemma_index_of_unique(pre.ids, k);
        }
        if pre.pending_ids().contains(id) {
            let found = pre.ids.index_of(id);
            assert(0 <= found < pre.ids.len() && pre.ids[found] == id);
        }
    }
}

/// Where no index is dropped everything is kept.
pub proof fn lemma_all_kept<A>(s: Seq<A>, dropped: Set<int>, n: int)
    requires
        forall|j: int| !dropped.contains(j),
        0 <= n <= s.len(),
    ensures
        kept(s, dropped, n) =~= s.subrange(0, n),
        picked_ascending(s, dropped, n) =~= Seq::empty(),
    decreases n,
{
    if n > 0 {
        lemma_all_kept(s, dropped, n - 1);
    }
}

/// With nothing pending, a commit that keeps the survivors in order
/// changes nothing.
pub proof fn lemma_stable_commit_nothing<T>(m: TableModel<T>)
    requires
        m.inv(),
        m.pending.len() == 0,
    ensures
        m.stable_commit() == m,
{
    let post = m.stable_commit();
    let n = m.len() as int;
    assert(m.pending =~= Set::empty());
    lemma_all_kept(m.ids, m.pending, n);
    assert(post.ids =~= m.ids);
    assert forall|c: int| 0 <= c < m.width() implies #[trigger] post.columns[c] =~= m.columns[c] by {
        lemma_all_kept(m.columns[c], m.pending, n);
    }
    assert(post.columns =~= m.columns);
    assert(post.alloc.free =~= m.alloc.free);
}

} // verus!
