use dense_table::{ArenaTable, DenseTable};
use std::cell::Cell;

fn dense(values: &[i64]) -> DenseTable<i64> {
    let mut table: DenseTable<i64> = DenseTable::new(1);
    for v in values {
        table.insert(vec![*v]);
    }
    table
}

fn arena(values: &[i64]) -> ArenaTable<i64> {
    let mut table: ArenaTable<i64> = ArenaTable::new(1, values.len() + 2);
    for v in values {
        assert!(table.insert(vec![*v]).is_ok());
    }
    table
}

#[test]
fn query_visits_every_row_in_index_order() {
    let mut table = dense(&[10, 20, 30]);
    let seen: Cell<Vec<(usize, usize, i64)>> = Cell::new(Vec::new());
    let decisions = table.query(|id, index, t: &DenseTable<i64>| {
        let mut so_far = seen.take();
        so_far.push((id, index, *t.get(0, index)));
        seen.set(so_far);
        false
    });
    assert_eq!(decisions, vec![false, false, false]);
    assert_eq!(seen.take(), vec![(0, 0, 10), (1, 1, 20), (2, 2, 30)]);
    assert_eq!(table.len(), 3);
}

#[test]
fn query_commits_the_deletions_it_was_asked_for() {
    let mut table = dense(&[10, 25, 30, 45]);
    let decisions = table.query(|_, index, t: &DenseTable<i64>| *t.get(0, index) % 10 == 5);
    assert_eq!(decisions, vec![false, true, false, true]);
    assert_eq!(table.len(), 2);
    assert_eq!(table.pending_count(), 0);
    let mut left: Vec<(usize, i64)> = (0..table.len()).map(|i| (table.id_at(i), *table.get(0, i))).collect();
    left.sort();
    assert_eq!(left, vec![(0, 10), (2, 30)]);
}

#[test]
fn query_commits_rows_marked_before_the_scan() {
    let mut table = dense(&[1, 2, 3]);
    table.delete_by_id(2);
    let decisions = table.query(|id, _, _: &DenseTable<i64>| id == 0);
    assert_eq!(decisions, vec![true, false, false]);
    assert_eq!(table.len(), 1);
    assert_eq!(table.id_at(0), 1);
    assert_eq!(*table.get(0, 0), 2);
}

#[test]
fn query_sees_the_table_as_it_was_before_any_deletion() {
    let mut table = dense(&[1, 2, 3, 4]);
    let lengths: Cell<Vec<usize>> = Cell::new(Vec::new());
    table.query(|_, _, t: &DenseTable<i64>| {
        let mut so_far = lengths.take();
        so_far.push(t.len());
        lengths.set(so_far);
        true
    });
    assert_eq!(lengths.take(), vec![4, 4, 4, 4]);
    assert_eq!(table.len(), 0);
}

#[test]
fn decide_range_scans_one_chunk_and_changes_nothing() {
    let table = dense(&[5, 6, 7, 8, 9]);
    let decisions = table.decide_range(1, 4, |_, index, t: &DenseTable<i64>| *t.get(0, index) % 2 == 0);
    assert_eq!(decisions, vec![true, false, true]);
    assert_eq!(table.len(), 5);
    assert_eq!(table.pending_count(), 0);
    assert_eq!(table.decide_range(2, 2, |_, _, _: &DenseTable<i64>| true), Vec::<bool>::new());
}

#[test]
fn mark_all_marks_by_index_and_ignores_the_surplus() {
    let mut table = dense(&[1, 2, 3]);
    table.mark_all(&vec![false, true, false, true, true]);
    assert_eq!(table.pending_count(), 1);
    assert!(table.is_pending(1));
    let mut other = dense(&[1, 2, 3]);
    other.mark_all(&vec![true]);
    assert!(other.is_pending(0));
    assert!(!other.is_pending(1));
    assert!(!other.is_pending(2));
    other.mark_all(&vec![true, true]);
    assert_eq!(other.pending_count(), 2);
}

#[test]
fn update_column_keeps_what_the_logic_stores() {
    let mut table: DenseTable<i64> = DenseTable::new(2);
    table.insert(vec![1, 100]);
    table.insert(vec![2, 200]);
    table.insert(vec![3, 300]);
    let decisions = table.update_column(1, |id, v: &mut i64| {
        let was = *v;
        *v += id as i64;
        was == 200
    });
    assert_eq!(decisions, vec![false, true, false]);
    assert_eq!(table.len(), 3);
    assert_eq!(table.pending_count(), 0);
    assert_eq!(*table.get(1, 0), 100);
    assert_eq!(*table.get(1, 1), 201);
    assert_eq!(*table.get(1, 2), 302);
    assert_eq!(*table.get(0, 0), 1);
    assert_eq!(*table.get(0, 1), 2);
    assert_eq!(*table.get(0, 2), 3);
}

#[test]
fn query_mut_updates_then_commits() {
    let mut table = dense(&[3, 1, 2, 0]);
    let decisions = table.query_mut(0, |_, v: &mut i64| {
        *v -= 1;
        *v < 0
    });
    assert_eq!(decisions, vec![false, false, false, true]);
    assert_eq!(table.len(), 3);
    let mut left: Vec<(usize, i64)> = (0..table.len()).map(|i| (table.id_at(i), *table.get(0, i))).collect();
    left.sort();
    assert_eq!(left, vec![(0, 2), (1, 0), (2, 1)]);
    assert_eq!(table.insert(vec![7]), 3);
}

#[test]
fn arena_query_keeps_the_survivors_in_order() {
    let mut table = arena(&[10, 25, 30, 45, 50]);
    let decisions = table.query(|_, index, t: &ArenaTable<i64>| *t.get(0, index) % 10 == 5);
    assert_eq!(decisions, vec![false, true, false, true, false]);
    let ids: Vec<usize> = (0..table.len()).map(|i| table.id_at(i)).collect();
    let values: Vec<i64> = (0..table.len()).map(|i| *table.get(0, i)).collect();
    assert_eq!(ids, vec![0, 2, 4]);
    assert_eq!(values, vec![10, 30, 50]);
}

#[test]
fn arena_decide_range_and_mark_all() {
    let mut table = arena(&[5, 6, 7, 8]);
    let first = table.decide_range(0, 2, |_, index, t: &ArenaTable<i64>| *t.get(0, index) > 5);
    let second = table.decide_range(2, 4, |_, index, t: &ArenaTable<i64>| *t.get(0, index) > 7);
    assert_eq!(first, vec![false, true]);
    assert_eq!(second, vec![false, true]);
    let mut all = first;
    all.extend(second);
    table.mark_all(&all);
    assert_eq!(table.pending_count(), 2);
    assert_eq!(table.len(), 4);
    table.commit_delete();
    let values: Vec<i64> = (0..table.len()).map(|i| *table.get(0, i)).collect();
    assert_eq!(values, vec![5, 7]);
}

#[test]
fn arena_query_mut_updates_then_commits() {
    let mut table = arena(&[3, 1, 2, 0]);
    let decisions = table.query_mut(0, |id, v: &mut i64| {
        let was = *v;
        *v = was * 10 + id as i64;
        was == 1
    });
    assert_eq!(decisions, vec![false, true, false, false]);
    let ids: Vec<usize> = (0..table.len()).map(|i| table.id_at(i)).collect();
    let values: Vec<i64> = (0..table.len()).map(|i| *table.get(0, i)).collect();
    assert_eq!(ids, vec![0, 2, 3]);
    assert_eq!(values, vec![30, 22, 3]);
}

#[test]
fn arena_update_column_does_not_commit() {
    let mut table = arena(&[1, 2]);
    let decisions = table.update_column(0, |_, v: &mut i64| {
        *v = -*v;
        true
    });
    assert_eq!(decisions, vec![true, true]);
    assert_eq!(table.len(), 2);
    assert_eq!(table.pending_count(), 0);
    assert_eq!(*table.get(0, 0), -1);
    assert_eq!(*table.get(0, 1), -2);
}

#[test]
fn update_column_changes_owned_values_in_place() {
    let mut table: DenseTable<String> = DenseTable::new(1);
    table.insert(vec![String::from("a")]);
    table.insert(vec![String::from("b")]);
    let decisions = table.update_column(0, |id, text: &mut String| {
        text.push_str(&id.to_string());
        false
    });
    assert_eq!(decisions, vec![false, false]);
    assert_eq!(table.get(0, 0).as_str(), "a0");
    assert_eq!(table.get(0, 1).as_str(), "b1");
}
