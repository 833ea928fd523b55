use omnisearch::{
    duplicate_candidates, duplicate_params, group_duplicates, partial_collisions, rank_by_total,
    same_bytes, size_collisions, DuplicateFile, DuplicateGroup, DuplicateScan, FileRecord,
    ScanAction, ScanError, ScanPhase,
};

fn rec(name: &str, size: u64, modified: i64) -> FileRecord {
    FileRecord {
        name: name.to_string(),
        path: format!("C:\\v\\{}", name),
        extension: name.rsplit('.').next().unwrap_or("").to_string(),
        size,
        created_unix: 0,
        modified_unix: modified,
    }
}

/// Runs the whole pipeline on in-memory contents: candidates, size buckets,
/// partial fingerprints (the first eight bytes), full fingerprints (the bytes).
fn scan(records: &[(FileRecord, Vec<u8>)], min_size: u64, max_groups: usize, max_files: usize) -> Vec<DuplicateGroup> {
    let recs: Vec<FileRecord> = records.iter().map(|(r, _)| r.copied()).collect();
    let content = |f: &DuplicateFile| records.iter().find(|(r, _)| r.path == f.path).unwrap().1.clone();
    let cands = duplicate_candidates(&recs, min_size);
    let files = size_collisions(&cands);
    let partials: Vec<Vec<u8>> = files.iter().map(|f| content(f).into_iter().take(8).collect()).collect();
    let need = partial_collisions(&files, &partials);
    let keys: Vec<Option<Vec<u8>>> = files
        .iter()
        .zip(need.iter())
        .map(|(f, n)| if *n { Some(content(f)) } else { None })
        .collect();
    group_duplicates(&files, &keys, max_groups, max_files)
}

fn member_names(g: &DuplicateGroup) -> Vec<String> {
    g.files.iter().map(|f| f.name.clone()).collect()
}

#[test]
fn one_group_of_identical_pair() {
    let same = vec![7u8; 100];
    let mut other = vec![7u8; 100];
    other[99] = 8;
    let records = vec![
        (rec("a.txt", 100, 1), same.clone()),
        (rec("b.txt", 100, 2), same.clone()),
        (rec("c.txt", 100, 3), other),
        (rec("d.log", 100, 4), vec![9u8; 100]),
    ];
    let groups = scan(&records, 0, 200, 80);
    assert_eq!(groups.len(), 1);
    assert_eq!(groups[0].size, 100);
    assert_eq!(groups[0].file_count, 2);
    assert_eq!(groups[0].total_bytes, 200);
    // most recently modified first
    assert_eq!(member_names(&groups[0]), vec!["b.txt".to_string(), "a.txt".to_string()]);
}

#[test]
fn members_listed_by_recency() {
    let records = vec![
        (rec("old", 4, -50), vec![1u8; 4]),
        (rec("new", 4, 900), vec![1u8; 4]),
        (rec("mid", 4, 0), vec![1u8; 4]),
        (rec("mid2", 4, 0), vec![1u8; 4]),
    ];
    let groups = scan(&records, 0, 10, 3);
    assert_eq!(groups.len(), 1);
    assert_eq!(groups[0].file_count, 4);
    assert_eq!(member_names(&groups[0]), vec!["new".to_string(), "mid".to_string(), "mid2".to_string()]);
}

#[test]
fn groups_have_two_members_of_one_size() {
    let records = vec![
        (rec("a", 10, 0), vec![1u8; 10]),
        (rec("b", 10, 0), vec![1u8; 10]),
        (rec("c", 20, 0), vec![1u8; 20]),
        (rec("d", 20, 0), vec![1u8; 20]),
        (rec("e", 20, 0), vec![1u8; 20]),
        (rec("f", 30, 0), vec![1u8; 30]),
    ];
    let groups = scan(&records, 0, 200, 80);
    assert_eq!(groups.len(), 2);
    for g in &groups {
        assert!(g.file_count >= 2);
        assert!(g.files.iter().all(|f| f.size == g.size));
    }
    // ordered by total bytes: 3 x 20 before 2 x 10
    assert_eq!(groups[0].size, 20);
    assert_eq!(groups[0].total_bytes, 60);
    assert_eq!(groups[1].size, 10);
}

#[test]
fn same_size_different_content_apart() {
    let records = vec![
        (rec("a", 16, 0), vec![1u8; 16]),
        (rec("b", 16, 0), vec![2u8; 16]),
        (rec("c", 16, 0), vec![1u8; 16]),
    ];
    let groups = scan(&records, 0, 200, 80);
    assert_eq!(groups.len(), 1);
    assert_eq!(member_names(&groups[0]), vec!["a".to_string(), "c".to_string()]);
}

#[test]
fn same_prefix_different_tail_apart() {
    let mut tail = vec![1u8; 16];
    tail[15] = 2;
    let records = vec![(rec("a", 16, 0), vec![1u8; 16]), (rec("b", 16, 0), tail)];
    assert!(scan(&records, 0, 200, 80).is_empty());
}

#[test]
fn min_size_excludes_small_files() {
    let records = vec![
        (rec("a", 10, 0), vec![1u8; 10]),
        (rec("b", 10, 0), vec![1u8; 10]),
        (rec("c", 50, 0), vec![1u8; 50]),
        (rec("d", 50, 0), vec![1u8; 50]),
    ];
    let groups = scan(&records, 11, 200, 80);
    assert_eq!(groups.len(), 1);
    assert_eq!(groups[0].size, 50);
}

#[test]
fn truncation_of_groups_and_members() {
    let records = vec![
        (rec("a", 10, 0), vec![1u8; 10]),
        (rec("b", 10, 0), vec![1u8; 10]),
        (rec("c", 10, 0), vec![1u8; 10]),
        (rec("x", 5, 0), vec![3u8; 5]),
        (rec("y", 5, 0), vec![3u8; 5]),
    ];
    let groups = scan(&records, 0, 1, 2);
    assert_eq!(groups.len(), 1);
    assert_eq!(groups[0].file_count, 3);
    assert_eq!(groups[0].total_bytes, 30);
    assert_eq!(member_names(&groups[0]), vec!["a".to_string(), "b".to_string()]);
}

#[test]
fn size_buckets_drop_lonely_sizes() {
    let recs = vec![rec("a", 1, 0), rec("b", 2, 0), rec("c", 1, 0)];
    let cands = duplicate_candidates(&recs, 0);
    assert_eq!(cands.len(), 3);
    let shared = size_collisions(&cands);
    let names: Vec<String> = shared.iter().map(|f| f.name.clone()).collect();
    assert_eq!(names, vec!["a".to_string(), "c".to_string()]);
}

#[test]
fn partial_fingerprints_mark_collisions() {
    let recs = vec![rec("a", 4, 0), rec("b", 4, 0), rec("c", 4, 0)];
    let files = duplicate_candidates(&recs, 0);
    let partials = vec![vec![1u8], vec![2u8], vec![1u8]];
    assert_eq!(partial_collisions(&files, &partials), vec![true, false, true]);
}

#[test]
fn ranking_keeps_order_of_equal_totals() {
    assert_eq!(rank_by_total(&vec![5, 9, 5, 9, 1], 10), vec![1, 3, 0, 2, 4]);
    assert_eq!(rank_by_total(&vec![5, 9, 5], 2), vec![1, 0]);
    assert_eq!(rank_by_total(&vec![], 3), Vec::<usize>::new());
    assert!(same_bytes(&vec![1, 2], &vec![1, 2]));
    assert!(!same_bytes(&vec![1, 2], &vec![1]));
}

#[test]
fn total_bytes_saturates() {
    let files: Vec<DuplicateFile> = (0..2)
        .map(|i| DuplicateFile::from_record(&rec(&format!("f{}", i), u64::MAX, 0)))
        .collect();
    let keys = vec![Some(vec![1u8]), Some(vec![1u8])];
    let groups = group_duplicates(&files, &keys, 10, 10);
    assert_eq!(groups.len(), 1);
    assert_eq!(groups[0].total_bytes, u64::MAX);
    assert_eq!(groups[0].group_id, 0);
}

#[test]
fn parameters_are_clamped() {
    let p = duplicate_params(None, None, None);
    assert_eq!(p.min_size, 50 * 1024 * 1024);
    assert_eq!(p.max_groups, 200);
    assert_eq!(p.max_files_per_group, 80);
    let p = duplicate_params(Some(0), Some(0), Some(1));
    assert_eq!(p.min_size, 0);
    assert_eq!(p.max_groups, 1);
    assert_eq!(p.max_files_per_group, 2);
    let p = duplicate_params(None, Some(5000), Some(5000));
    assert_eq!(p.max_groups, 1000);
    assert_eq!(p.max_files_per_group, 400);
}

#[test]
fn scan_progress_and_completion() {
    let mut s = DuplicateScan::new();
    assert_eq!(s.begin(4), Ok(()));
    assert_eq!(s.begin(4), Err(ScanError::AlreadyRunning));
    s.file_scanned();
    let st = s.status();
    assert!(st.running);
    assert_eq!(st.scanned_files, 1);
    assert_eq!(st.progress_percent, 25);
    s.set_groups_found(1);
    s.finish(2);
    assert_eq!(s.phase, ScanPhase::Completed);
    let st = s.status();
    assert!(!st.running);
    assert!(!st.cancel_requested);
    assert_eq!(st.groups_found, 2);
}

#[test]
fn cancel_stops_scan_and_stays_visible() {
    let mut s = DuplicateScan::new();
    assert!(!s.request_cancel());
    s.begin(3).unwrap();
    assert!(s.should_continue());
    assert!(s.request_cancel());
    assert!(!s.should_continue());
    // the file in flight completes
    s.file_scanned();
    assert!(!s.should_continue());
    s.finish(0);
    assert_eq!(s.phase, ScanPhase::Cancelled);
    let st = s.status();
    assert!(!st.running);
    assert!(st.cancel_requested);
    assert_eq!(st.progress_percent, 33);
    s.begin(0).unwrap();
    assert!(!s.status().cancel_requested);
    assert_eq!(s.status().progress_percent, 0);
}

#[test]
fn cancelled_scan_groups_are_subset() {
    let files: Vec<DuplicateFile> = ["a", "b", "c", "d"]
        .iter()
        .map(|n| DuplicateFile::from_record(&rec(n, 8, 0)))
        .collect();
    let full = vec![Some(vec![1u8]), Some(vec![2u8]), Some(vec![1u8]), Some(vec![2u8])];
    let partial = vec![Some(vec![1u8]), Some(vec![2u8]), Some(vec![1u8]), None];
    let all = group_duplicates(&files, &full, 10, 10);
    let some = group_duplicates(&files, &partial, 10, 10);
    assert_eq!(all.len(), 2);
    assert_eq!(some.len(), 1);
    let names: Vec<String> = some[0].files.iter().map(|f| f.name.clone()).collect();
    assert!(all.iter().any(|g| {
        let n: Vec<String> = g.files.iter().map(|f| f.name.clone()).collect();
        names.iter().all(|x| n.contains(x))
    }));
}

#[test]
fn scan_steps_through_candidates() {
    let mut s = DuplicateScan::new();
    assert_eq!(s.next_action(), ScanAction::Idle);
    s.begin(2).unwrap();
    assert_eq!(s.next_action(), ScanAction::ScanFile(0));
    s.file_scanned();
    assert_eq!(s.next_action(), ScanAction::ScanFile(1));
    s.file_scanned();
    assert_eq!(s.next_action(), ScanAction::Finish);
    s.finish(0);
    assert_eq!(s.phase, ScanPhase::Completed);
    assert_eq!(s.status().scanned_files, 2);
    assert_eq!(s.status().progress_percent, 100);
}

#[test]
fn cancel_makes_next_action_finish() {
    let mut s = DuplicateScan::new();
    s.begin(5).unwrap();
    s.file_scanned();
    s.request_cancel();
    assert_eq!(s.next_action(), ScanAction::Finish);
    s.file_scanned();
    assert_eq!(s.next_action(), ScanAction::Finish);
    s.finish(1);
    assert_eq!(s.phase, ScanPhase::Cancelled);
    assert_eq!(s.status().groups_found, 1);
}
