use launchcast::sessions::SessionScanner;

/// Scan a dump described record by record: `Some(t)` a record that
/// decodes with uptime `t`, `None` one that does not.
fn scan(records: &[Option<u32>], record_size: usize, sector_size: usize, data_len: usize) -> Vec<(usize, usize)> {
    let mut s = SessionScanner::new(record_size, sector_size);
    while let Some(offset) = s.next_offset(data_len) {
        s.feed(records[offset / record_size]);
    }
    s.finish()
}

#[test]
fn a_single_session_is_one_range() {
    let recs = [Some(1000), Some(1020), Some(1040), None];
    assert_eq!(scan(&recs, 4, 16, 16), vec![(0, 3)]);
}

#[test]
fn a_sector_gap_splits_sessions() {
    // Sector = 4 records. Session one fills sector 0 partly, then a blank
    // record skips to sector 1.
    let recs = [Some(1000), Some(1020), None, None, Some(5000), Some(5020), None, None];
    assert_eq!(scan(&recs, 1, 4, 8), vec![(0, 2), (2, 4)]);
}

#[test]
fn time_going_backward_splits_without_a_gap() {
    let recs = [Some(60000), Some(60020), Some(60040), Some(1000), Some(1020)];
    assert_eq!(scan(&recs, 1, 4, 5), vec![(0, 3), (3, 5)]);
}

#[test]
fn an_empty_dump_has_no_sessions() {
    let recs: [Option<u32>; 8] = [None; 8];
    assert_eq!(scan(&recs, 1, 4, 8), vec![]);
    assert_eq!(scan(&[], 1, 4, 0), vec![]);
}

#[test]
fn a_corrupted_record_ends_its_session() {
    let recs = [Some(1000), Some(1020), None, Some(1040), None, None, None, None];
    // The bad record at 2 skips to offset 4: the record at 3 is never read.
    assert_eq!(scan(&recs, 1, 4, 8), vec![(0, 2)]);
}

#[test]
fn equal_times_stay_in_one_session() {
    let recs = [Some(5), Some(5), Some(5)];
    assert_eq!(scan(&recs, 1, 4, 3), vec![(0, 3)]);
}
