use dense_table::partition::partition;

#[test]
fn ten_rows_for_three_workers() {
    assert_eq!(partition(10, 3), vec![(0, 4), (4, 7), (7, 10)]);
}

#[test]
fn rows_divide_evenly() {
    assert_eq!(partition(8, 4), vec![(0, 2), (2, 4), (4, 6), (6, 8)]);
}

#[test]
fn no_more_chunks_than_rows() {
    assert_eq!(partition(2, 5), vec![(0, 1), (1, 2)]);
}

#[test]
fn no_rows_no_chunks() {
    assert_eq!(partition(0, 3), Vec::<(usize, usize)>::new());
    assert_eq!(partition(0, 0), Vec::<(usize, usize)>::new());
}

#[test]
fn no_worker_named_gives_one_chunk() {
    assert_eq!(partition(5, 0), vec![(0, 5)]);
}

#[test]
fn one_worker_takes_everything() {
    assert_eq!(partition(7, 1), vec![(0, 7)]);
}

#[test]
fn chunks_are_contiguous_and_cover_every_row_once() {
    for length in 0..40usize {
        for workers in 0..9usize {
            let chunks = partition(length, workers);
            let mut next = 0usize;
            let mut shortest = usize::MAX;
            let mut longest = 0usize;
            for (start, end) in chunks.iter() {
                assert_eq!(*start, next);
                assert!(start < end);
                shortest = shortest.min(end - start);
                longest = longest.max(end - start);
                next = *end;
            }
            assert_eq!(next, length);
            if length > 0 {
                assert!(longest - shortest <= 1);
                let expected = if workers == 0 { 1 } else { workers.min(length) };
                assert_eq!(chunks.len(), expected);
            }
        }
    }
}

#[test]
fn largest_length_does_not_overflow() {
    let chunks = partition(usize::MAX, 2);
    assert_eq!(chunks.len(), 2);
    assert_eq!(chunks[0], (0, usize::MAX / 2 + 1));
    assert_eq!(chunks[1], (usize::MAX / 2 + 1, usize::MAX));
}
