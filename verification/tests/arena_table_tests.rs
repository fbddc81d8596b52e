use dense_table::{ArenaTable, TableError};

fn arena_scores(capacity: usize, values: &[i64]) -> ArenaTable<i64> {
    let mut table: ArenaTable<i64> = ArenaTable::new(1, capacity);
    for v in values {
        assert!(table.insert(vec![*v]).is_ok());
    }
    table
}

fn ids_in_order(table: &ArenaTable<i64>) -> Vec<usize> {
    (0..table.len()).map(|i| table.id_at(i)).collect()
}

fn column_in_order(table: &ArenaTable<i64>, column: usize) -> Vec<i64> {
    (0..table.len()).map(|i| *table.get(column, i)).collect()
}

#[test]
fn new_arena_table_is_empty() {
    let table: ArenaTable<i64> = ArenaTable::new(2, 8);
    assert_eq!(table.len(), 0);
    assert!(table.is_empty());
    assert_eq!(table.width(), 2);
    assert_eq!(table.capacity(), 8);
    assert_eq!(table.pending_count(), 0);
}

#[test]
fn third_insert_into_capacity_two_is_capacity_exceeded() {
    let mut table: ArenaTable<i64> = ArenaTable::new(1, 2);
    assert_eq!(table.insert(vec![1]), Ok(0));
    assert_eq!(table.insert(vec![2]), Ok(1));
    assert_eq!(table.insert(vec![3]), Err(TableError::CapacityExceeded));
    assert_eq!(table.len(), 2);
    assert_eq!(ids_in_order(&table), vec![0, 1]);
    assert_eq!(column_in_order(&table, 0), vec![1, 2]);
    assert_eq!(table.capacity(), 2);
}

#[test]
fn arena_of_capacity_zero_takes_nothing() {
    let mut table: ArenaTable<i64> = ArenaTable::new(1, 0);
    assert_eq!(table.insert(vec![1]), Err(TableError::CapacityExceeded));
    assert_eq!(table.len(), 0);
}

#[test]
fn stable_commit_keeps_the_order() {
    let mut table = arena_scores(4, &[10, 20, 30]);
    assert_eq!(ids_in_order(&table), vec![0, 1, 2]);
    table.delete_by_index(1);
    table.commit_delete();
    assert_eq!(table.len(), 2);
    assert_eq!(ids_in_order(&table), vec![0, 2]);
    assert_eq!(column_in_order(&table, 0), vec![10, 30]);
    assert_eq!(table.pending_count(), 0);
    assert!(!table.is_pending(0));
    assert!(!table.is_pending(1));
}

#[test]
fn arena_commit_frees_room() {
    let mut table = arena_scores(2, &[1, 2]);
    assert_eq!(table.insert(vec![3]), Err(TableError::CapacityExceeded));
    table.delete_by_index(0);
    assert_eq!(table.insert(vec![3]), Err(TableError::CapacityExceeded));
    table.commit_delete();
    assert_eq!(table.len(), 1);
    assert_eq!(table.insert(vec![3]), Ok(0));
    assert_eq!(ids_in_order(&table), vec![1, 0]);
    assert_eq!(column_in_order(&table, 0), vec![2, 3]);
}

#[test]
fn arena_commit_removes_exactly_the_pending_rows() {
    let mut table = arena_scores(8, &[0, 10, 20, 30, 40, 50, 60]);
    table.delete_by_index(0);
    table.delete_by_index(3);
    table.delete_by_index(4);
    table.delete_by_index(3);
    assert_eq!(table.pending_count(), 3);
    table.commit_delete();
    assert_eq!(table.len(), 4);
    assert_eq!(ids_in_order(&table), vec![1, 2, 5, 6]);
    assert_eq!(column_in_order(&table, 0), vec![10, 20, 50, 60]);
}

#[test]
fn arena_ids_recycled_by_one_commit_return_highest_index_first() {
    let mut table = arena_scores(8, &[0, 10, 20, 30]);
    table.delete_by_index(2);
    table.delete_by_index(1);
    table.commit_delete();
    assert_eq!(table.insert(vec![1]), Ok(2));
    assert_eq!(table.insert(vec![2]), Ok(1));
    assert_eq!(table.insert(vec![3]), Ok(4));
    assert_eq!(ids_in_order(&table), vec![0, 3, 2, 1, 4]);
}

#[test]
fn arena_empty_commit_changes_nothing() {
    let mut table = arena_scores(4, &[10, 20, 30]);
    table.commit_delete();
    assert_eq!(table.len(), 3);
    assert_eq!(ids_in_order(&table), vec![0, 1, 2]);
    assert_eq!(column_in_order(&table, 0), vec![10, 20, 30]);
}

#[test]
fn arena_delete_by_index_twice_is_once() {
    let mut table = arena_scores(4, &[10, 20, 30]);
    table.delete_by_index(0);
    table.delete_by_index(0);
    assert_eq!(table.pending_count(), 1);
    table.commit_delete();
    assert_eq!(ids_in_order(&table), vec![1, 2]);
}

#[test]
fn arena_delete_by_index_beyond_the_rows_marks_nothing() {
    let mut table = arena_scores(4, &[10, 20]);
    table.delete_by_index(2);
    table.delete_by_index(3);
    table.delete_by_index(100);
    assert_eq!(table.pending_count(), 0);
    assert_eq!(table.insert(vec![30]), Ok(2));
    table.commit_delete();
    assert_eq!(column_in_order(&table, 0), vec![10, 20, 30]);
}

#[test]
fn arena_commit_of_every_row_empties_the_table() {
    let mut table = arena_scores(3, &[1, 2, 3]);
    for i in 0..3 {
        table.delete_by_index(i);
    }
    table.commit_delete();
    assert_eq!(table.len(), 0);
    assert_eq!(table.insert(vec![7]), Ok(2));
    assert_eq!(table.insert(vec![8]), Ok(1));
    assert_eq!(table.insert(vec![9]), Ok(0));
    assert_eq!(table.insert(vec![10]), Err(TableError::CapacityExceeded));
}

#[test]
fn arena_columns_stay_in_lockstep() {
    let mut table: ArenaTable<String> = ArenaTable::new(2, 5);
    for name in ["a", "b", "c", "d", "e"] {
        assert!(table.insert(vec![String::from(name), name.repeat(2)]).is_ok());
    }
    table.delete_by_index(1);
    table.delete_by_index(2);
    table.commit_delete();
    assert_eq!(table.len(), 3);
    let firsts: Vec<&str> = (0..3).map(|i| table.get(0, i).as_str()).collect();
    let seconds: Vec<&str> = (0..3).map(|i| table.get(1, i).as_str()).collect();
    assert_eq!(firsts, vec!["a", "d", "e"]);
    assert_eq!(seconds, vec!["aa", "dd", "ee"]);
    let ids: Vec<usize> = (0..3).map(|i| table.id_at(i)).collect();
    assert_eq!(ids, vec![0, 3, 4]);
}

#[test]
fn arena_set_and_get_mut_change_one_cell() {
    let mut table: ArenaTable<i64> = ArenaTable::new(2, 2);
    assert_eq!(table.insert(vec![1, 2]), Ok(0));
    assert_eq!(table.insert(vec![3, 4]), Ok(1));
    table.set(0, 1, 30);
    *table.get_mut(1, 0) *= 10;
    assert_eq!(column_in_order(&table, 0), vec![1, 30]);
    assert_eq!(column_in_order(&table, 1), vec![20, 4]);
}

#[test]
fn arena_latest_id_of_an_empty_table_is_reported() {
    let mut table: ArenaTable<i64> = ArenaTable::new(1, 2);
    assert_eq!(table.latest_id(), Err(TableError::EmptyCollectionAccess));
    assert_eq!(table.insert(vec![5]), Ok(0));
    assert_eq!(table.insert(vec![6]), Ok(1));
    assert_eq!(table.latest_id(), Ok(1));
}

#[test]
fn arena_ids_stay_unique_through_many_operations() {
    let mut table: ArenaTable<i64> = ArenaTable::new(1, 16);
    let mut seed: u64 = 987654321;
    for _ in 0..300 {
        seed = seed.wrapping_mul(6364136223846793005).wrapping_add(1442695040888963407);
        let choice = (seed >> 33) % 4;
        if choice < 2 {
            let before = table.len();
            match table.insert(vec![0]) {
                Ok(id) => {
                    assert!(before < 16);
                    table.set(0, before, id as i64);
                }
                Err(e) => {
                    assert_eq!(e, TableError::CapacityExceeded);
                    assert_eq!(before, 16);
                    assert_eq!(table.len(), 16);
                }
            }
        } else if choice == 2 && table.len() > 0 {
            table.delete_by_index((seed >> 40) as usize % table.len());
        } else {
            let expected = table.len() - table.pending_count();
            table.commit_delete();
            assert_eq!(table.len(), expected);
        }
        let mut ids = ids_in_order(&table);
        for i in 0..table.len() {
            assert_eq!(*table.get(0, i), table.id_at(i) as i64);
        }
        ids.sort();
        for pair in ids.windows(2) {
            assert!(pair[0] < pair[1]);
        }
    }
}
