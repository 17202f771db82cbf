use dupfinder::config::ScanConfig;
use dupfinder::fs_model::FsEntry;
use dupfinder::traverse::{Diagnostic, FileDatabase};

fn file(path: &str, content: &[u8]) -> FsEntry {
    FsEntry::File { path: path.to_string(), content: Ok(content.to_vec()) }
}

fn bad_file(path: &str, error: &str) -> FsEntry {
    FsEntry::File { path: path.to_string(), content: Err(error.to_string()) }
}

fn dir(path: &str, entries: Vec<FsEntry>) -> FsEntry {
    FsEntry::Dir { path: path.to_string(), listing: Ok(entries) }
}

fn bad_dir(path: &str, error: &str) -> FsEntry {
    FsEntry::Dir { path: path.to_string(), listing: Err(error.to_string()) }
}

fn config(recursive: bool, verbose: bool) -> ScanConfig {
    ScanConfig { verbose, recursive, path: Some("root".to_string()) }
}

fn hello_world_root() -> FsEntry {
    dir(
        "root",
        vec![
            file("root/a.txt", b"hello"),
            file("root/b.txt", b"hello"),
            file("root/c.txt", b"world"),
            file("root/empty.txt", b""),
            dir("root/sub", vec![file("root/sub/d.txt", b"hello")]),
        ],
    )
}

#[test]
fn hello_world_scan_nonrecursive() {
    let mut db = FileDatabase::new(config(false, false));
    let diags = db.scan(&hello_world_root());
    assert!(diags.is_empty());
    let report = db.check_duplicates().expect("one duplicate group expected");
    assert_eq!(report.len(), 1);
    let (fp, paths) = &report[0];
    assert_eq!(*fp, crc::crc16::checksum_usb(b"hello"));
    assert_eq!(paths, &vec!["root/a.txt".to_string(), "root/b.txt".to_string()]);
}

#[test]
fn hello_world_scan_recursive() {
    let mut db = FileDatabase::new(config(true, false));
    db.scan(&hello_world_root());
    let report = db.check_duplicates().expect("one duplicate group expected");
    assert_eq!(report.len(), 1);
    let (_, paths) = &report[0];
    assert_eq!(
        paths,
        &vec![
            "root/a.txt".to_string(),
            "root/b.txt".to_string(),
            "root/sub/d.txt".to_string()
        ]
    );
}

#[test]
fn empty_directory_reports_no_duplicates() {
    let mut db = FileDatabase::new(config(false, false));
    let diags = db.scan(&dir("root", vec![]));
    assert!(diags.is_empty());
    assert!(db.check_duplicates().is_none());
}

#[test]
fn unreadable_subdirectory_is_diagnosed_and_scan_completes() {
    let root = dir(
        "root",
        vec![
            bad_dir("root/locked", "permission denied"),
            file("root/x.txt", b"same"),
            file("root/y.txt", b"same"),
        ],
    );
    let mut db = FileDatabase::new(config(true, false));
    let diags = db.scan(&root);
    assert_eq!(
        diags,
        vec![Diagnostic::UnreadableDir(
            "root/locked".to_string(),
            "permission denied".to_string()
        )]
    );
    let report = db.check_duplicates().expect("the readable files still group");
    assert_eq!(report.len(), 1);
    assert_eq!(
        report[0].1,
        vec!["root/x.txt".to_string(), "root/y.txt".to_string()]
    );
}

#[test]
fn empty_files_never_group() {
    let root = dir(
        "root",
        vec![file("root/one.txt", b""), file("root/two.txt", b"")],
    );
    let mut db = FileDatabase::new(config(false, true));
    let diags = db.scan(&root);
    assert!(db.check_duplicates().is_none());
    assert_eq!(
        diags,
        vec![
            Diagnostic::ScanningDir("root".to_string()),
            Diagnostic::SkippedEmptyFile("root/one.txt".to_string()),
            Diagnostic::SkippedEmptyFile("root/two.txt".to_string()),
        ]
    );
}

#[test]
fn distinct_contents_report_no_duplicates() {
    let root = dir(
        "root",
        vec![
            file("root/a.txt", b"alpha"),
            file("root/b.txt", b"beta"),
            file("root/c.txt", b"gamma"),
        ],
    );
    let mut db = FileDatabase::new(config(false, false));
    db.scan(&root);
    assert!(db.check_duplicates().is_none());
}

#[test]
fn fingerprint_matches_reference_checksum() {
    let root = dir(
        "root",
        vec![file("root/p.bin", b"123456789"), file("root/q.bin", b"123456789")],
    );
    let mut db = FileDatabase::new(config(false, false));
    db.scan(&root);
    let report = db.check_duplicates().expect("duplicates expected");
    assert_eq!(report[0].0, 0xb4c8);
}

#[test]
fn entry_error_abandons_rest_of_directory() {
    let root = dir(
        "root",
        vec![
            file("root/first.txt", b"zz"),
            FsEntry::Unknown { error: "stale handle".to_string() },
            file("root/second.txt", b"zz"),
        ],
    );
    let mut db = FileDatabase::new(config(false, false));
    let diags = db.scan(&root);
    assert_eq!(diags, vec![Diagnostic::BadEntry("stale handle".to_string())]);
    assert!(db.check_duplicates().is_none());
}

#[test]
fn read_error_abandons_rest_of_directory() {
    let root = dir(
        "root",
        vec![
            bad_file("root/broken.txt", "io error"),
            file("root/late.txt", b"zz"),
            file("root/later.txt", b"zz"),
        ],
    );
    let mut db = FileDatabase::new(config(false, false));
    let diags = db.scan(&root);
    assert_eq!(
        diags,
        vec![Diagnostic::UnreadableFile(
            "root/broken.txt".to_string(),
            "io error".to_string()
        )]
    );
    assert!(db.check_duplicates().is_none());
}

#[test]
fn three_copies_form_one_group() {
    let root = dir(
        "root",
        vec![
            file("root/a", b"threepeat"),
            file("root/b", b"threepeat"),
            file("root/c", b"threepeat"),
        ],
    );
    let mut db = FileDatabase::new(config(false, false));
    db.scan(&root);
    let report = db.check_duplicates().expect("duplicates expected");
    assert_eq!(report.len(), 1);
    assert_eq!(report[0].1.len(), 3);
}

#[test]
fn two_runs_are_identical() {
    let mut db1 = FileDatabase::new(config(true, false));
    db1.scan(&hello_world_root());
    let mut db2 = FileDatabase::new(config(true, false));
    db2.scan(&hello_world_root());
    assert_eq!(db1.check_duplicates(), db2.check_duplicates());
}

#[test]
fn unreadable_root_yields_diagnostic_and_no_groups() {
    let mut db = FileDatabase::new(config(true, true));
    let diags = db.scan(&bad_dir("root", "not a directory"));
    assert_eq!(
        diags,
        vec![
            Diagnostic::ScanningDir("root".to_string()),
            Diagnostic::UnreadableDir("root".to_string(), "not a directory".to_string()),
        ]
    );
    assert!(db.check_duplicates().is_none());
}
