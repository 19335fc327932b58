use plasma::dispatch::strips;

#[test]
fn strips_cover_evenly() {
    // K dividing the height evenly: equal strips, no overlap, no gap.
    let parts = strips(12, 3);
    assert_eq!(parts, vec![(0, 4), (4, 4), (8, 4)]);
    let mut row = 0;
    for &(y_offset, y_height) in &parts {
        assert_eq!(y_offset, row);
        row += y_height;
    }
    assert_eq!(row, 12);
}

#[test]
fn remainder_rows_go_to_last_strip() {
    // 10 rows over 3 workers: the last strip absorbs the remainder row.
    let parts = strips(10, 3);
    assert_eq!(parts, vec![(0, 3), (3, 3), (6, 4)]);
}

#[test]
fn single_strip_is_the_whole_frame() {
    assert_eq!(strips(7, 1), vec![(0, 7)]);
}

#[test]
fn more_workers_than_rows() {
    // 2 rows over 5 workers: every strip but the last is empty, and the
    // last strip carries the whole frame.
    assert_eq!(strips(2, 5), vec![(0, 0), (0, 0), (0, 0), (0, 0), (0, 2)]);
}
