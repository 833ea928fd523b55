use omnisearch::{
    contains_path, clamp_search_limit, contains_folded_bytes, eq_folded_bytes, matches_filter, parse_drive, search,
    FileRecord, IndexError, Indexer, IndexingState, SearchFilter,
};

fn rec(name: &str, ext: &str, size: u64, created: i64) -> FileRecord {
    FileRecord {
        name: name.to_string(),
        path: format!("C:\\data\\{}", name),
        extension: ext.to_string(),
        size,
        created_unix: created,
        modified_unix: created,
    }
}

fn ready_index(records: Vec<FileRecord>) -> Indexer {
    let mut ix = Indexer::new();
    assert!(ix.start_indexing("C").is_ok());
    for r in records {
        assert!(ix.push_record(r));
    }
    ix.finish_indexing();
    ix
}

fn names(v: &[FileRecord]) -> Vec<String> {
    v.iter().map(|r| r.name.clone()).collect()
}

#[test]
fn search_report_pdf_only() {
    let ix = ready_index(vec![rec("Report2023.pdf", "pdf", 10, 0), rec("report_draft.txt", "txt", 20, 0)]);
    let found = ix.search_files("report", Some("pdf"), None, None, None, None, None).unwrap();
    assert_eq!(names(&found), vec!["Report2023.pdf".to_string()]);
}

#[test]
fn query_matches_name_ignoring_case() {
    let ix = ready_index(vec![rec("Report2023.pdf", "pdf", 10, 0), rec("report_draft.txt", "txt", 20, 0), rec("notes.md", "md", 5, 0)]);
    let found = ix.search_files("REPORT", None, None, None, None, None, None).unwrap();
    assert_eq!(names(&found), vec!["Report2023.pdf".to_string(), "report_draft.txt".to_string()]);
}

#[test]
fn query_does_not_match_path() {
    let ix = ready_index(vec![rec("notes.md", "md", 5, 0)]);
    let found = ix.search_files("data", None, None, None, None, None, None).unwrap();
    assert!(found.is_empty());
}

#[test]
fn extension_must_match_whole() {
    let ix = ready_index(vec![rec("a.pdf", "pdf", 1, 0), rec("b.pdfx", "pdfx", 1, 0), rec("c.PDF", "PDF", 1, 0)]);
    let found = ix.search_files("", Some("pdf"), None, None, None, None, None).unwrap();
    assert_eq!(names(&found), vec!["a.pdf".to_string(), "c.PDF".to_string()]);
}

#[test]
fn inverted_size_bounds_give_empty_result() {
    let ix = ready_index(vec![rec("a.bin", "bin", 50, 0), rec("b.bin", "bin", 150, 0)]);
    let found = ix.search_files("", None, Some(200), Some(100), None, None, None);
    assert_eq!(found.unwrap().len(), 0);
}

#[test]
fn size_and_date_bounds_are_inclusive() {
    let ix = ready_index(vec![rec("a", "", 100, 10), rec("b", "", 200, 20), rec("c", "", 300, 30)]);
    let found = ix.search_files("", None, Some(100), Some(200), None, None, None).unwrap();
    assert_eq!(names(&found), vec!["a".to_string(), "b".to_string()]);
    let found = ix.search_files("", None, None, None, Some(20), Some(30), None).unwrap();
    assert_eq!(names(&found), vec!["b".to_string(), "c".to_string()]);
}

#[test]
fn limit_is_clamped() {
    assert_eq!(clamp_search_limit(0), 1);
    assert_eq!(clamp_search_limit(10_000), 5000);
    assert_eq!(clamp_search_limit(42), 42);
    let ix = ready_index(vec![rec("a", "", 1, 0), rec("b", "", 1, 0), rec("c", "", 1, 0)]);
    let found = ix.search_files("", None, None, None, None, None, Some(0)).unwrap();
    assert_eq!(names(&found), vec!["a".to_string()]);
    let found = ix.search_files("", None, None, None, None, None, Some(2)).unwrap();
    assert_eq!(found.len(), 2);
}

#[test]
fn result_never_exceeds_max_limit() {
    let mut records = Vec::new();
    for i in 0..5200u64 {
        records.push(rec(&format!("f{}", i), "", i, 0));
    }
    let ix = ready_index(records);
    let found = ix.search_files("", None, None, None, None, None, Some(u32::MAX)).unwrap();
    assert_eq!(found.len(), 5000);
}

#[test]
fn count_equals_unrestricted_search() {
    let ix = ready_index(vec![rec("a", "", 1, 0), rec("b", "", 2, 0), rec("c", "", 3, 0)]);
    let found = ix.search_files("", None, None, None, None, None, Some(5000)).unwrap();
    assert_eq!(ix.indexed_file_count(), found.len() as u64);
    assert_eq!(ix.indexed_file_count(), 3);
}

#[test]
fn search_before_first_build_is_not_ready() {
    let ix = Indexer::new();
    assert_eq!(ix.search_files("", None, None, None, None, None, None).err(), Some(IndexError::NotReady));
}

#[test]
fn start_rejects_malformed_drive() {
    let mut ix = Indexer::new();
    assert_eq!(ix.start_indexing("CD").err(), Some(IndexError::InvalidArgument));
    assert_eq!(ix.start_indexing("").err(), Some(IndexError::InvalidArgument));
    assert_eq!(ix.start_indexing("1:").err(), Some(IndexError::InvalidArgument));
    assert_eq!(ix.state, IndexingState::Idle);
    assert_eq!(parse_drive("d:\\"), Some(b'D'));
    assert_eq!(parse_drive("E:"), Some(b'E'));
}

#[test]
fn second_start_while_running_is_rejected() {
    let mut ix = Indexer::new();
    let status = ix.start_indexing("C").unwrap();
    assert!(status.indexing);
    assert!(!status.ready);
    assert_eq!(status.indexed_count, 0);
    assert_eq!(ix.start_indexing("D").err(), Some(IndexError::AlreadyRunning));
}

#[test]
fn count_grows_while_building() {
    let mut ix = Indexer::new();
    ix.start_indexing("C").unwrap();
    assert!(ix.push_record(rec("a", "", 1, 0)));
    assert!(ix.push_record(rec("b", "", 1, 0)));
    let st = ix.current_status();
    assert!(st.indexing);
    assert_eq!(st.indexed_count, 2);
    ix.finish_indexing();
    let st = ix.current_status();
    assert!(!st.indexing);
    assert!(st.ready);
    assert_eq!(st.indexed_count, 2);
    assert!(!ix.push_record(rec("c", "", 1, 0)));
}

#[test]
fn failed_rebuild_keeps_previous_index() {
    let mut ix = ready_index(vec![rec("old", "", 1, 0)]);
    ix.start_indexing("C").unwrap();
    assert!(ix.push_record(rec("new", "", 1, 0)));
    // the previous catalog answers searches while the rebuild runs
    let found = ix.search_files("", None, None, None, None, None, None).unwrap();
    assert_eq!(names(&found), vec!["old".to_string()]);
    ix.fail_indexing("volume read failed".to_string());
    let st = ix.current_status();
    assert!(!st.indexing);
    assert!(st.ready);
    assert_eq!(st.indexed_count, 1);
    assert_eq!(st.last_error, Some("volume read failed".to_string()));
    assert_eq!(ix.state, IndexingState::Failed);
    let found = ix.search_files("", None, None, None, None, None, None).unwrap();
    assert_eq!(names(&found), vec!["old".to_string()]);
}

#[test]
fn failed_first_build_is_not_ready() {
    let mut ix = Indexer::new();
    ix.start_indexing("C").unwrap();
    ix.fail_indexing("no access".to_string());
    assert!(!ix.is_index_ready());
    assert_eq!(ix.indexed_file_count(), 0);
    let st = ix.start_indexing("C").unwrap();
    assert_eq!(st.last_error, None);
}

#[test]
fn filter_helpers() {
    assert!(contains_folded_bytes(&b"Report2023".to_vec(), &b"PORT".to_vec()));
    assert!(contains_folded_bytes(&b"abc".to_vec(), &Vec::new()));
    assert!(!contains_folded_bytes(&b"ab".to_vec(), &b"abc".to_vec()));
    assert!(eq_folded_bytes(&b"PdF".to_vec(), &b"pdf".to_vec()));
    assert!(!eq_folded_bytes(&b"pdf".to_vec(), &b"pd".to_vec()));
    let f = SearchFilter {
        query: "dra".to_string(),
        extension: String::new(),
        min_size: 0,
        max_size: u64::MAX,
        min_created_unix: i64::MIN,
        max_created_unix: i64::MAX,
        limit: 10,
    };
    assert!(matches_filter(&rec("report_draft.txt", "txt", 1, 0), &f));
    let all = vec![rec("x", "", 1, 0), rec("Draft", "", 1, 0)];
    assert_eq!(names(&search(&all, &f)), vec!["Draft".to_string()]);
}

#[test]
fn empty_error_message_reads_as_none() {
    let mut ix = Indexer::new();
    ix.start_indexing("C").unwrap();
    ix.fail_indexing(String::new());
    assert_eq!(ix.last_error(), None);
    assert_eq!(ix.current_status().last_error, None);
}

#[test]
fn duplicate_path_is_refused() {
    let mut ix = Indexer::new();
    ix.start_indexing("C").unwrap();
    assert!(ix.push_record(rec("a", "", 1, 0)));
    assert!(!ix.push_record(rec("a", "", 2, 0)));
    assert_eq!(ix.indexed_file_count(), 1);
    assert!(contains_path(&ix.pending, &"C:\\data\\a".to_string()));
    ix.finish_indexing();
    let found = ix.search_files("", None, None, None, None, None, None).unwrap();
    assert_eq!(found.len(), 1);
    assert_eq!(found[0].size, 1);
}
