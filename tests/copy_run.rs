use circuitpython_deploy::error::CpdError;
use circuitpython_deploy::file_ops::{format_bytes, CopyResult, CopyRun, FileOperations, Step};

fn copied(files_copied: usize, files_failed: usize, bytes_copied: u64) -> CopyResult {
    CopyResult { files_copied, files_failed, bytes_copied, failed_files: Vec::new() }
}

#[test]
fn file_ops_test_format_bytes() {
    assert_eq!(format_bytes(0), "0 B");
    assert_eq!(format_bytes(512), "512 B");
    assert_eq!(format_bytes(1024), "1.0 KB");
    assert_eq!(format_bytes(1536), "1.5 KB");
    assert_eq!(format_bytes(1048576), "1.0 MB");
    assert_eq!(format_bytes(1073741824), "1.0 GB");
}

#[test]
fn format_bytes_rounds_like_f64() {
    assert_eq!(format_bytes(1023), "1023 B");
    assert_eq!(format_bytes(1280), "1.2 KB");
    assert_eq!(format_bytes(1331), "1.3 KB");
    assert_eq!(format_bytes(1048575), "1024.0 KB");
    assert_eq!(format_bytes(3 * 1073741824 + 536870912), "3.5 GB");
    assert_eq!(format_bytes(u64::MAX), "17179869184.0 GB");
    for b in [1u64, 1000, 1025, 5000, 123456789, 9007199254740993, 18014398509481983] {
        let mut size = b as f64;
        let mut unit = 0;
        let units = ["B", "KB", "MB", "GB"];
        while size >= 1024.0 && unit < 3 {
            size /= 1024.0;
            unit += 1;
        }
        let expected = if unit == 0 {
            format!("{} {}", b, units[unit])
        } else {
            format!("{:.1} {}", size, units[unit])
        };
        assert_eq!(format_bytes(b), expected);
    }
}

#[test]
fn summary_reports_counts_and_size() {
    assert_eq!(copied(3, 0, 1536).summary(), "Successfully copied 3 files (1.5 KB)");
    assert_eq!(copied(4, 1, 512).summary(), "Copied 4 files, 1 failed (512 B)");
    assert!(copied(4, 0, 0).is_success());
    assert!(!copied(4, 1, 0).is_success());
}

fn drive(run: &mut CopyRun, outcomes: &mut Vec<Result<u64, CpdError>>, paths: &[&str]) -> usize {
    let mut attempts = 0;
    loop {
        match run.next_step() {
            Step::Copy(i) => {
                attempts += 1;
                run.record(paths[i].to_string(), outcomes.remove(0));
            }
            Step::Preview(_) => {
                attempts += 1;
                run.preview();
            }
            Step::Done => return attempts,
        }
    }
}

#[test]
fn test_file_operations() {
    let _ops = FileOperations::new(false);
    let mut run = CopyRun::new(2, false);
    let mut outcomes = vec![Ok(13), Ok(7)];
    drive(&mut run, &mut outcomes, &["main.py", "lib/utils.py"]);
    let result = run.finish().unwrap();
    assert_eq!(result.files_copied, 2);
    assert_eq!(result.files_failed, 0);
    assert_eq!(result.bytes_copied, 20);
}

#[test]
fn test_dry_run_mode() {
    let mut run = CopyRun::new(1, true);
    assert_eq!(run.next_step(), Step::Preview(0));
    let mut outcomes = vec![];
    drive(&mut run, &mut outcomes, &["test.py"]);
    let result = run.finish().unwrap();
    assert_eq!(result.files_copied, 1);
    assert_eq!(result.files_failed, 0);
}

#[test]
fn test_backup_functionality() {
    let mut run = CopyRun::backup(2);
    let mut outcomes = vec![Ok(15), Ok(9)];
    drive(&mut run, &mut outcomes, &["existing.py", "old_lib/old.py"]);
    let result = run.finish().unwrap();
    assert_eq!(result.files_copied, 2);
    assert_eq!(result.bytes_copied, 24);
}

#[test]
fn one_recoverable_failure_among_five() {
    let paths = ["a.py", "b.py", "readonly.txt", "c.py", "d.py"];
    let mut outcomes = vec![
        Ok(1),
        Ok(1),
        Err(CpdError::PermissionDenied { path: "readonly.txt".to_string() }),
        Ok(1),
        Ok(1),
    ];
    let mut run = CopyRun::new(5, false);
    let attempts = drive(&mut run, &mut outcomes, &paths);
    assert_eq!(attempts, 5);
    let result = run.finish().unwrap();
    assert_eq!(result.files_failed, 1);
    assert_eq!(result.files_copied, 4);
    assert_eq!(result.failed_files.len(), 1);
    assert_eq!(result.failed_files[0].0, "readonly.txt");
}

#[test]
fn dry_run_counts_as_many_as_a_real_run() {
    let paths = ["a", "b", "c"];
    let mut dry = CopyRun::new(3, true);
    drive(&mut dry, &mut vec![], &paths);
    let mut real = CopyRun::new(3, false);
    drive(&mut real, &mut vec![Ok(1), Ok(2), Ok(3)], &paths);
    assert_eq!(dry.finish().unwrap().files_copied, real.finish().unwrap().files_copied);
}

#[test]
fn fatal_failure_stops_the_run() {
    let paths = ["a", "b", "c"];
    let mut outcomes = vec![Ok(1), Err(CpdError::InsufficientSpace), Ok(1)];
    let mut run = CopyRun::new(3, false);
    let attempts = drive(&mut run, &mut outcomes, &paths);
    assert_eq!(attempts, 2);
    assert_eq!(run.result().files_copied, 1);
    assert_eq!(run.result().files_failed, 1);
    assert!(matches!(run.finish(), Err(CpdError::InsufficientSpace)));
}

#[test]
fn any_backup_failure_is_fatal() {
    let paths = ["a", "b", "c"];
    let mut outcomes = vec![
        Ok(1),
        Err(CpdError::FileCopyFailed { from: "b".to_string(), to: "x/b".to_string() }),
        Ok(1),
    ];
    let mut run = CopyRun::backup(3);
    let attempts = drive(&mut run, &mut outcomes, &paths);
    assert_eq!(attempts, 2);
    match run.finish() {
        Err(CpdError::BackupFailed { path, cause }) => {
            assert_eq!(path, "b");
            assert!(matches!(*cause, CpdError::FileCopyFailed { .. }));
        }
        _ => panic!("expected a backup failure"),
    }
}

#[test]
fn bytes_saturate() {
    let mut run = CopyRun::new(2, false);
    drive(&mut run, &mut vec![Ok(u64::MAX), Ok(5)], &["a", "b"]);
    assert_eq!(run.finish().unwrap().bytes_copied, u64::MAX);
}

#[test]
fn recoverable_errors() {
    assert!(CpdError::PermissionDenied { path: "p".to_string() }.is_recoverable());
    assert!(CpdError::FileCopyFailed { from: "a".to_string(), to: "b".to_string() }.is_recoverable());
    assert!(!CpdError::InsufficientSpace.is_recoverable());
    assert!(!CpdError::InvalidIgnorePattern { pattern: "[".to_string() }.is_recoverable());
    assert!(!CpdError::Io { message: "gone".to_string() }.is_recoverable());
}

#[test]
fn cancelled_run_stops_between_files() {
    let mut run = CopyRun::new(3, false);
    assert_eq!(run.next_step(), Step::Copy(0));
    run.record("a".to_string(), Ok(4));
    run.cancel();
    assert_eq!(run.next_step(), Step::Done);
    assert_eq!(run.result().files_copied, 1);
    assert!(matches!(run.finish(), Err(CpdError::Cancelled)));
}
