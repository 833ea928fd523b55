use omnisearch::{file_extension, join, make_record, resolve_catalog, RawEntry};

fn entry(frn: u64, parent: u64, name: &str, is_dir: bool, in_use: bool, size: u64) -> RawEntry {
    RawEntry {
        frn,
        parent,
        name: name.to_string(),
        is_dir,
        in_use,
        size,
        created_unix: 10,
        modified_unix: 20,
    }
}

#[test]
fn extensions() {
    assert_eq!(file_extension("Report2023.pdf"), "pdf");
    assert_eq!(file_extension("archive.tar.gz"), "gz");
    assert_eq!(file_extension("README"), "");
    assert_eq!(file_extension(".profile"), "");
    assert_eq!(file_extension("trailing."), "");
}

#[test]
fn joins_with_one_separator() {
    assert_eq!(join("C:\\", "a.txt"), "C:\\a.txt");
    assert_eq!(join("C:\\docs", "a.txt"), "C:\\docs\\a.txt");
    let r = make_record("C:\\docs", "a.TXT", 5, 1, 2);
    assert_eq!(r.path, "C:\\docs\\a.TXT");
    assert_eq!(r.extension, "TXT");
    assert_eq!(r.size, 5);
}

#[test]
fn catalog_paths_follow_parents() {
    let es = vec![
        entry(5, 5, ".", true, true, 0),
        entry(30, 20, "b.txt", false, true, 7),
        entry(20, 5, "docs", true, true, 0),
        entry(31, 20, "gone.txt", false, false, 9),
        entry(32, 99, "orphan.txt", false, true, 1),
        entry(33, 5, "top.bin", false, true, 3),
        entry(40, 41, "loop", true, true, 0),
        entry(41, 40, "loop2", true, true, 0),
        entry(42, 40, "lost.txt", false, true, 1),
    ];
    let records = resolve_catalog(&es, 5, "C:\\");
    let paths: Vec<String> = records.iter().map(|r| r.path.clone()).collect();
    assert_eq!(paths, vec!["C:\\docs\\b.txt".to_string(), "C:\\top.bin".to_string()]);
    assert_eq!(records[0].name, "b.txt");
    assert_eq!(records[0].extension, "txt");
    assert_eq!(records[0].size, 7);
    assert_eq!(records[0].created_unix, 10);
    assert_eq!(records[0].modified_unix, 20);
}
