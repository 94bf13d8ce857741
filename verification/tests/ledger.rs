use photo_renamer::ledger::{
    get_sql_safe_filename, process_rebase, rebase_root, Ledger, LedgerError,
};

fn ledger_of(paths: &[&str]) -> Ledger {
    Ledger::from_entries(paths.iter().map(|p| p.to_string()).collect()).unwrap()
}

fn entries(ledger: &Ledger) -> Vec<String> {
    ledger.entries().clone()
}

#[test]
fn stored_form_uses_forward_slashes() {
    assert_eq!(get_sql_safe_filename("C:\\photos\\a.jpg"), "C:/photos/a.jpg");
    assert_eq!(get_sql_safe_filename("/data/photos/a.jpg"), "/data/photos/a.jpg");
    assert_eq!(get_sql_safe_filename(""), "");
}

#[test]
fn roots_end_in_a_separator() {
    assert_eq!(rebase_root("/data/photos"), "/data/photos/");
    assert_eq!(rebase_root("/data/photos/"), "/data/photos/");
    assert_eq!(rebase_root("C:\\photos"), "C:/photos/");
    assert_eq!(rebase_root("C:\\photos\\"), "C:/photos/");
    assert_eq!(rebase_root(""), "/");
}

#[test]
fn new_ledger_is_empty() {
    let ledger = Ledger::new();
    assert_eq!(ledger.len(), 0);
    assert!(!ledger.is_processed("/a.jpg"));
}

#[test]
fn marked_paths_are_processed() {
    let mut ledger = Ledger::new();
    assert_eq!(ledger.mark_processed("/data/a.jpg"), Ok(()));
    assert!(ledger.is_processed("/data/a.jpg"));
    assert!(ledger.is_processed("\\data\\a.jpg"));
    assert!(!ledger.is_processed("/data/b.jpg"));
    assert!(!ledger.is_processed("/data/A.jpg"));
    assert_eq!(ledger.len(), 1);
}

#[test]
fn a_path_is_recorded_once() {
    let mut ledger = Ledger::new();
    assert_eq!(ledger.mark_processed("C:\\a.jpg"), Ok(()));
    assert_eq!(ledger.mark_processed("C:/a.jpg"), Err(LedgerError::Duplicate));
    assert_eq!(entries(&ledger), vec!["C:/a.jpg".to_string()]);
}

#[test]
fn from_entries_refuses_duplicates() {
    let twice = vec!["/a".to_string(), "/b".to_string(), "/a".to_string()];
    assert_eq!(Ledger::from_entries(twice).err(), Some(LedgerError::Duplicate));
    let once = vec!["/a".to_string(), "/b".to_string()];
    assert_eq!(entries(&Ledger::from_entries(once).unwrap()), vec!["/a", "/b"]);
}

#[test]
fn rebase_leaves_sibling_directory_alone() {
    let mut ledger = ledger_of(&["/data/photos/a.jpg", "/data/photos2/b.jpg"]);
    assert_eq!(ledger.rebase("/data/photos", "/archive/photos", false), Ok(1));
    assert_eq!(entries(&ledger), vec!["/archive/photos/a.jpg", "/data/photos2/b.jpg"]);
}

#[test]
fn rebase_with_trailing_separators() {
    let mut ledger = ledger_of(&["/data/photos/a.jpg", "/data/photos/sub/b.jpg", "/other/c.jpg"]);
    assert_eq!(ledger.rebase("/data/photos/", "/archive", false), Ok(2));
    assert_eq!(entries(&ledger), vec!["/archive/a.jpg", "/archive/sub/b.jpg", "/other/c.jpg"]);
}

#[test]
fn rebase_replaces_only_the_leading_directory() {
    let mut ledger = ledger_of(&["/a/x/a/y.jpg", "/b/a/z.jpg"]);
    assert_eq!(ledger.rebase("/a", "/n", false), Ok(1));
    assert_eq!(entries(&ledger), vec!["/n/x/a/y.jpg", "/b/a/z.jpg"]);
}

#[test]
fn rebase_matches_exactly() {
    let mut ledger = ledger_of(&["/Data/a.jpg", "/data_/b.jpg", "/data%/c.jpg"]);
    assert_eq!(ledger.rebase("/data", "/n", false), Ok(0));
    assert_eq!(ledger.rebase("/data%", "/n", false), Ok(1));
    assert_eq!(entries(&ledger), vec!["/Data/a.jpg", "/data_/b.jpg", "/n/c.jpg"]);
}

#[test]
fn dry_run_rebase_only_counts() {
    let mut ledger = ledger_of(&["/data/photos/a.jpg", "/data/photos/b.jpg", "/x/c.jpg"]);
    assert_eq!(ledger.rebase("/data/photos", "/archive/photos", true), Ok(2));
    assert_eq!(entries(&ledger), vec!["/data/photos/a.jpg", "/data/photos/b.jpg", "/x/c.jpg"]);
}

#[test]
fn rebase_onto_a_recorded_path_is_refused() {
    let mut ledger = ledger_of(&["/a/x.jpg", "/b/x.jpg"]);
    assert_eq!(ledger.rebase("/a", "/b", false), Err(LedgerError::Duplicate));
    assert_eq!(entries(&ledger), vec!["/a/x.jpg", "/b/x.jpg"]);
    assert_eq!(ledger.rebase("/a", "/b", true), Ok(1));
    assert_eq!(entries(&ledger), vec!["/a/x.jpg", "/b/x.jpg"]);
}

#[test]
fn rebase_with_windows_roots() {
    let mut ledger = ledger_of(&["C:/photos/a.jpg"]);
    assert_eq!(ledger.rebase("C:\\photos", "D:\\archive\\", false), Ok(1));
    assert_eq!(entries(&ledger), vec!["D:/archive/a.jpg"]);
}

#[test]
fn process_rebase_reports_roots_and_rows() {
    let mut ledger = ledger_of(&["/data/photos/a.jpg", "/data/photos2/b.jpg"]);
    let summary = process_rebase(&mut ledger, "/data/photos", "/archive/photos", false).unwrap();
    assert_eq!(summary.source_root, "/data/photos/");
    assert_eq!(summary.dest_root, "/archive/photos/");
    assert_eq!(summary.rows, 1);
    assert_eq!(entries(&ledger), vec!["/archive/photos/a.jpg", "/data/photos2/b.jpg"]);
}

#[test]
fn process_rebase_in_test_mode_changes_nothing() {
    let mut ledger = ledger_of(&["/data/photos/a.jpg", "/data/photos2/b.jpg"]);
    let summary = process_rebase(&mut ledger, "/data/photos", "/archive/photos", true).unwrap();
    assert_eq!(summary.rows, 1);
    assert_eq!(entries(&ledger), vec!["/data/photos/a.jpg", "/data/photos2/b.jpg"]);
    let clash = process_rebase(&mut ledger, "/data/photos", "/data/photos", true).unwrap();
    assert_eq!(clash.rows, 1);
}

#[test]
fn process_rebase_passes_the_refusal_on() {
    let mut ledger = ledger_of(&["/a/x.jpg", "/b/x.jpg"]);
    assert_eq!(process_rebase(&mut ledger, "/a", "/b", false), Err(LedgerError::Duplicate));
    assert_eq!(entries(&ledger), vec!["/a/x.jpg", "/b/x.jpg"]);
}
