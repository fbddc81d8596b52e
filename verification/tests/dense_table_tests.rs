use dense_table::{DenseTable, TableError};

fn scores(values: &[i64]) -> DenseTable<i64> {
    let mut table: DenseTable<i64> = DenseTable::new(1);
    for v in values {
        table.insert(vec![*v]);
    }
    table
}

fn live_ids(table: &DenseTable<i64>) -> Vec<usize> {
    let mut ids: Vec<usize> = (0..table.len()).map(|i| table.id_at(i)).collect();
    ids.sort();
    ids
}

fn sorted_column(table: &DenseTable<i64>, column: usize) -> Vec<i64> {
    let mut values: Vec<i64> = (0..table.len()).map(|i| *table.get(column, i)).collect();
    values.sort();
    values
}

#[test]
fn new_table_is_empty() {
    let table: DenseTable<i64> = DenseTable::new(3);
    assert_eq!(table.len(), 0);
    assert!(table.is_empty());
    assert_eq!(table.width(), 3);
    assert_eq!(table.pending_count(), 0);
}

#[test]
fn inserts_receive_consecutive_ids() {
    let mut table: DenseTable<i64> = DenseTable::new(1);
    assert_eq!(table.insert(vec![10]), 0);
    assert_eq!(table.insert(vec![20]), 1);
    assert_eq!(table.insert(vec![30]), 2);
    assert_eq!(table.len(), 3);
    assert_eq!(table.id_at(0), 0);
    assert_eq!(table.id_at(1), 1);
    assert_eq!(table.id_at(2), 2);
    assert_eq!(*table.get(0, 0), 10);
    assert_eq!(*table.get(0, 1), 20);
    assert_eq!(*table.get(0, 2), 30);
}

#[test]
fn delete_middle_row_and_commit() {
    let mut table = scores(&[10, 20, 30]);
    table.delete_by_index(1);
    assert_eq!(table.len(), 3);
    assert!(table.is_pending(1));
    table.commit_delete();
    assert_eq!(table.len(), 2);
    assert_eq!(live_ids(&table), vec![0, 2]);
    assert_eq!(sorted_column(&table, 0), vec![10, 30]);
    assert_eq!(table.pending_count(), 0);
    for i in 0..table.len() {
        let id = table.id_at(i);
        let expected = if id == 0 { 10 } else { 30 };
        assert_eq!(*table.get(0, i), expected);
        assert_eq!(table.index_of(id), Some(i));
    }
}

#[test]
fn recycled_id_is_reissued() {
    let mut table = scores(&[1, 2, 3]);
    table.delete_by_id(1);
    table.commit_delete();
    assert_eq!(table.len(), 2);
    assert_eq!(table.index_of(1), None);
    let id = table.insert(vec![4]);
    assert_eq!(id, 1);
    assert_eq!(table.len(), 3);
    assert_eq!(table.index_of(1), Some(2));
    assert_eq!(*table.get(0, 2), 4);
    assert_eq!(table.insert(vec![5]), 3);
}

#[test]
fn stale_id_is_a_silent_no_op() {
    let mut table = scores(&[1, 2, 3]);
    table.delete_by_id(1);
    table.commit_delete();
    assert_eq!(table.len(), 2);
    table.delete_by_id(1);
    assert_eq!(table.pending_count(), 0);
    table.commit_delete();
    assert_eq!(table.len(), 2);
    assert_eq!(live_ids(&table), vec![0, 2]);
}

#[test]
fn never_issued_id_is_a_silent_no_op() {
    let mut table = scores(&[1, 2]);
    table.delete_by_id(7);
    table.delete_by_id(usize::MAX);
    assert_eq!(table.pending_count(), 0);
    table.commit_delete();
    assert_eq!(table.len(), 2);
}

#[test]
fn pending_id_is_not_reissued_before_the_commit() {
    let mut table = scores(&[1, 2, 3]);
    table.delete_by_id(1);
    let id = table.insert(vec![4]);
    assert_eq!(id, 3);
    assert_eq!(live_ids(&table), vec![0, 1, 2, 3]);
    table.commit_delete();
    assert_eq!(live_ids(&table), vec![0, 2, 3]);
    assert_eq!(table.insert(vec![5]), 1);
}

#[test]
fn delete_by_index_twice_is_once() {
    let mut once = scores(&[10, 20, 30]);
    once.delete_by_index(2);
    let mut twice = scores(&[10, 20, 30]);
    twice.delete_by_index(2);
    twice.delete_by_index(2);
    assert_eq!(once.pending_count(), 1);
    assert_eq!(twice.pending_count(), 1);
    once.commit_delete();
    twice.commit_delete();
    assert_eq!(once.len(), 2);
    assert_eq!(twice.len(), 2);
    assert_eq!(live_ids(&once), live_ids(&twice));
    assert_eq!(sorted_column(&once, 0), sorted_column(&twice, 0));
}

#[test]
fn delete_by_index_beyond_the_rows_marks_nothing() {
    let mut table = scores(&[10, 20]);
    table.delete_by_index(2);
    table.delete_by_index(usize::MAX);
    assert_eq!(table.pending_count(), 0);
    assert!(!table.is_pending(2));
    table.insert(vec![30]);
    table.commit_delete();
    assert_eq!(table.len(), 3);
    assert_eq!(sorted_column(&table, 0), vec![10, 20, 30]);
}

#[test]
fn empty_commit_changes_nothing() {
    let mut table = scores(&[10, 20, 30]);
    table.commit_delete();
    assert_eq!(table.len(), 3);
    for i in 0..3 {
        assert_eq!(table.id_at(i), i);
        assert_eq!(*table.get(0, i), 10 * (i as i64 + 1));
    }
    assert_eq!(table.insert(vec![40]), 3);
}

#[test]
fn commit_on_an_empty_table() {
    let mut table: DenseTable<i64> = DenseTable::new(2);
    table.commit_delete();
    assert_eq!(table.len(), 0);
    assert_eq!(table.insert(vec![1, 2]), 0);
}

#[test]
fn commit_removes_exactly_the_pending_rows() {
    let mut table = scores(&[0, 10, 20, 30, 40, 50, 60]);
    table.delete_by_index(1);
    table.delete_by_index(4);
    table.delete_by_index(6);
    table.delete_by_index(4);
    assert_eq!(table.pending_count(), 3);
    table.commit_delete();
    assert_eq!(table.len(), 4);
    assert_eq!(live_ids(&table), vec![0, 2, 3, 5]);
    assert_eq!(sorted_column(&table, 0), vec![0, 20, 30, 50]);
    for i in 0..table.len() {
        assert_eq!(*table.get(0, i), 10 * table.id_at(i) as i64);
        assert!(!table.is_pending(i));
    }
}

#[test]
fn commit_of_every_row_empties_the_table() {
    let mut table = scores(&[1, 2, 3]);
    for i in 0..3 {
        table.delete_by_index(i);
    }
    table.commit_delete();
    assert_eq!(table.len(), 0);
    assert!(table.is_empty());
    assert_eq!(table.insert(vec![9]), 0);
    assert_eq!(table.insert(vec![9]), 1);
    assert_eq!(table.insert(vec![9]), 2);
    assert_eq!(table.insert(vec![9]), 3);
}

#[test]
fn ids_recycled_by_one_commit_return_lowest_index_first() {
    let mut table = scores(&[0, 10, 20, 30]);
    table.delete_by_index(2);
    table.delete_by_index(1);
    table.commit_delete();
    assert_eq!(table.insert(vec![1]), 1);
    assert_eq!(table.insert(vec![2]), 2);
    assert_eq!(table.insert(vec![3]), 4);
}

#[test]
fn ids_stay_unique_through_many_operations() {
    let mut table: DenseTable<i64> = DenseTable::new(1);
    let mut seed: u64 = 12345;
    for round in 0..200 {
        seed = seed.wrapping_mul(6364136223846793005).wrapping_add(1442695040888963407);
        let choice = (seed >> 33) % 4;
        if choice < 2 {
            let id = table.insert(vec![0]);
            let last = table.len() - 1;
            table.set(0, last, id as i64);
        } else if choice == 2 && table.len() > 0 {
            table.delete_by_index((seed >> 40) as usize % table.len());
        } else {
            table.commit_delete();
        }
        let ids = live_ids(&table);
        for pair in ids.windows(2) {
            assert!(pair[0] < pair[1], "round {}", round);
        }
        for i in 0..table.len() {
            assert_eq!(*table.get(0, i), table.id_at(i) as i64);
            assert_eq!(table.index_of(table.id_at(i)), Some(i));
        }
    }
}

#[test]
fn columns_stay_in_lockstep() {
    let mut table: DenseTable<i64> = DenseTable::new(3);
    for i in 0..6i64 {
        table.insert(vec![i, 10 * i, 100 * i]);
    }
    table.delete_by_index(0);
    table.delete_by_index(3);
    table.commit_delete();
    assert_eq!(table.len(), 4);
    for i in 0..table.len() {
        let a = *table.get(0, i);
        assert_eq!(table.id_at(i) as i64, a);
        assert_eq!(*table.get(1, i), 10 * a);
        assert_eq!(*table.get(2, i), 100 * a);
    }
}

#[test]
fn table_without_columns_keeps_ids_only() {
    let mut table: DenseTable<i64> = DenseTable::new(0);
    assert_eq!(table.insert(vec![]), 0);
    assert_eq!(table.insert(vec![]), 1);
    table.delete_by_index(0);
    table.commit_delete();
    assert_eq!(table.len(), 1);
    assert_eq!(table.id_at(0), 1);
    assert_eq!(table.width(), 0);
}

#[test]
fn set_and_get_mut_change_one_cell() {
    let mut table: DenseTable<i64> = DenseTable::new(2);
    table.insert(vec![1, 2]);
    table.insert(vec![3, 4]);
    table.set(1, 0, 20);
    *table.get_mut(0, 1) += 27;
    assert_eq!(*table.get(0, 0), 1);
    assert_eq!(*table.get(1, 0), 20);
    assert_eq!(*table.get(0, 1), 30);
    assert_eq!(*table.get(1, 1), 4);
    assert_eq!(table.id_at(0), 0);
    assert_eq!(table.id_at(1), 1);
}

#[test]
fn latest_id_of_an_empty_table_is_reported() {
    let mut table: DenseTable<i64> = DenseTable::new(1);
    assert_eq!(table.latest_id(), Err(TableError::EmptyCollectionAccess));
    table.insert(vec![5]);
    table.insert(vec![6]);
    assert_eq!(table.latest_id(), Ok(1));
    table.delete_by_index(0);
    table.commit_delete();
    assert_eq!(table.latest_id(), Ok(1));
    table.delete_by_index(0);
    table.commit_delete();
    assert_eq!(table.latest_id(), Err(TableError::EmptyCollectionAccess));
}

#[test]
fn rows_of_owned_values() {
    let mut table: DenseTable<String> = DenseTable::new(2);
    table.insert(vec![String::from("ada"), String::from("london")]);
    table.insert(vec![String::from("grace"), String::from("new york")]);
    table.insert(vec![String::from("edsger"), String::from("rotterdam")]);
    table.delete_by_id(0);
    table.commit_delete();
    assert_eq!(table.len(), 2);
    let at = table.index_of(2).unwrap();
    assert_eq!(table.get(0, at).as_str(), "edsger");
    assert_eq!(table.get(1, at).as_str(), "rotterdam");
    let at = table.index_of(1).unwrap();
    assert_eq!(table.get(0, at).as_str(), "grace");
    assert_eq!(table.get(1, at).as_str(), "new york");
}
