use circuitpython_deploy::ignore::IgnoreFilter;
use circuitpython_deploy::sync::{files_differ, has_changes, plan_sync, prune_plan, FileInfo};

fn file(path: &str, size: u64, modified: i128) -> FileInfo {
    FileInfo::new(path.to_string(), size, modified)
}

fn paths(v: &[FileInfo]) -> Vec<String> {
    v.iter().map(|f| f.path.clone()).collect()
}

#[test]
fn test_files_differ_nonexistent() {
    let source = file("source.txt", 7, 100);
    assert!(files_differ(&source, None));
}

#[test]
fn test_files_differ_same_content() {
    let source = file("source.txt", 7, 100);
    let dest = file("dest.txt", 7, 100);
    assert!(!files_differ(&source, Some(&dest)));
}

#[test]
fn test_files_differ_different_size() {
    let source = file("source.txt", 14, 100);
    let dest = file("dest.txt", 5, 100);
    assert!(files_differ(&source, Some(&dest)));
}

#[test]
fn test_files_differ_newer_source() {
    let dest = file("dest.txt", 7, 100);
    let source = file("source.txt", 7, 100 + 10_000_000);
    assert!(files_differ(&source, Some(&dest)));
}

#[test]
fn older_source_of_equal_size_is_unchanged() {
    assert!(!files_differ(&file("a", 3, 5), Some(&file("a", 3, 9))));
}

#[test]
fn plan_with_defaults_only() {
    let filter = IgnoreFilter::new("/p", None, None, None).unwrap();
    let sources = vec![
        file("code.py", 10, 1),
        file("boot_out.txt", 20, 1),
        file(".git/config", 30, 1),
        file("cache.pyc", 40, 1),
    ];
    let plan = plan_sync(&sources, &vec![], &filter, false);
    assert_eq!(paths(&plan), vec!["code.py", "boot_out.txt"]);
}

#[test]
fn incremental_plan_skips_unchanged_file() {
    let filter = IgnoreFilter::new("/p", None, None, None).unwrap();
    let sources = vec![file("a.py", 10, 100), file("b.py", 5, 100)];
    let dest = vec![file("a.py", 10, 200)];
    let plan = plan_sync(&sources, &dest, &filter, true);
    assert_eq!(paths(&plan), vec!["b.py"]);
    assert_eq!(has_changes(&sources, &dest, &filter), vec!["b.py".to_string()]);
    let full = plan_sync(&sources, &dest, &filter, false);
    assert_eq!(paths(&full), vec!["a.py", "b.py"]);
}

#[test]
fn second_sync_finds_nothing_to_copy() {
    let filter = IgnoreFilter::new("/p", Some("*.log"), None, None).unwrap();
    let sources = vec![file("a.py", 10, 100), file("x.log", 1, 100), file("lib/b.py", 5, 300)];
    let first = plan_sync(&sources, &vec![file("old.py", 1, 1)], &filter, false);
    let mut dest_after: Vec<FileInfo> = vec![file("old.py", 1, 1)];
    dest_after.extend(first.iter().cloned());
    let second = plan_sync(&sources, &dest_after, &filter, false);
    assert_eq!(paths(&first), paths(&second));
    for f in &first {
        let d = dest_after.iter().find(|d| d.path == f.path);
        assert!(!files_differ(f, d));
    }
    assert!(has_changes(&sources, &dest_after, &filter).is_empty());
}

#[test]
fn prune_removes_missing_and_excluded_files() {
    let filter = IgnoreFilter::new("/p", Some("*.log"), None, None).unwrap();
    let sources = vec![file("a.py", 1, 1), file("x.log", 1, 1)];
    let dest = vec![file("a.py", 1, 1), file("x.log", 1, 1), file("gone.py", 1, 1)];
    let removed = prune_plan(&sources, &dest, &filter);
    assert_eq!(paths(&removed), vec!["x.log", "gone.py"]);
}
