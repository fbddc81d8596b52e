use dense_table::IdAllocator;

#[test]
fn fresh_allocator_counts_from_zero() {
    let mut ids = IdAllocator::new();
    assert_eq!(ids.next_fresh(), 0);
    assert_eq!(ids.free_count(), 0);
    assert_eq!(ids.issue(), 0);
    assert_eq!(ids.issue(), 1);
    assert_eq!(ids.issue(), 2);
    assert_eq!(ids.next_fresh(), 3);
}

#[test]
fn recycled_ids_come_back_last_in_first_out() {
    let mut ids = IdAllocator::new();
    for _ in 0..5 {
        ids.issue();
    }
    ids.recycle(1);
    ids.recycle(3);
    ids.recycle(0);
    assert_eq!(ids.free_count(), 3);
    assert_eq!(ids.issue(), 0);
    assert_eq!(ids.issue(), 3);
    assert_eq!(ids.issue(), 1);
    assert_eq!(ids.free_count(), 0);
    assert_eq!(ids.issue(), 5);
    assert_eq!(ids.next_fresh(), 6);
}

#[test]
fn recycling_does_not_move_the_counter() {
    let mut ids = IdAllocator::new();
    assert_eq!(ids.issue(), 0);
    ids.recycle(0);
    assert_eq!(ids.next_fresh(), 1);
    assert_eq!(ids.issue(), 0);
    assert_eq!(ids.next_fresh(), 1);
    assert_eq!(ids.issue(), 1);
}
