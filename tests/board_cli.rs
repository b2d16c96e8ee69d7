use circuitpython_deploy::board::{BoardChoice, BoardDetector, BoardProbe, CircuitPythonBoard};
use circuitpython_deploy::cli::{Cli, PathState};
use circuitpython_deploy::error::CpdError;
use circuitpython_deploy::file_ops::format_bytes;

fn probe() -> BoardProbe {
    BoardProbe {
        exists: true,
        is_dir: true,
        volume_label: None,
        has_boot_out: false,
        boot_out_text: None,
        optional_found: 0,
        indicators_found: 0,
    }
}

fn cli(project_dir: Option<&str>) -> Cli {
    Cli {
        project_dir: project_dir.map(|s| s.to_string()),
        board_path: None,
        backup_dir: None,
        dry_run: false,
        verbose: false,
        force: false,
        assume_yes: false,
        list_boards: false,
        incremental: false,
    }
}

const FOUND_DIR: PathState = PathState { exists: true, is_dir: true };
const MISSING: PathState = PathState { exists: false, is_dir: false };
const FOUND_FILE: PathState = PathState { exists: true, is_dir: false };

#[test]
fn board_test_format_bytes() {
    assert_eq!(format_bytes(0), "0 B");
    assert_eq!(format_bytes(512), "512 B");
    assert_eq!(format_bytes(1024), "1.0 KB");
    assert_eq!(format_bytes(1536), "1.5 KB");
    assert_eq!(format_bytes(1048576), "1.0 MB");
}

#[test]
fn test_is_circuitpython_board() {
    let detector = BoardDetector::new(false);
    assert!(!detector.is_circuitpython_board(&probe()));
    let with_files = BoardProbe {
        has_boot_out: true,
        boot_out_text: Some("CircuitPython test".to_string()),
        optional_found: 1,
        ..probe()
    };
    assert!(detector.is_circuitpython_board(&with_files));
}

#[test]
fn test_board_detection() {
    let detector = BoardDetector::new(false);
    assert!(!detector.is_circuitpython_board(&probe()));
    let booted = BoardProbe {
        has_boot_out: true,
        boot_out_text: Some("Adafruit CircuitPython 8.2.0 on 2023-05-15; Test Board".to_string()),
        ..probe()
    };
    assert!(detector.is_circuitpython_board(&booted));
}

#[test]
fn test_error_handling() {
    let detector = BoardDetector::new(false);
    let missing = BoardProbe { exists: false, is_dir: false, ..probe() };
    assert!(!detector.is_circuitpython_board(&missing));
}

#[test]
fn board_label_and_text_are_case_folded() {
    let detector = BoardDetector::new(false);
    let labelled = BoardProbe { volume_label: Some("circuitpy".to_string()), ..probe() };
    assert!(detector.is_circuitpython_board(&labelled));
    let shouting = BoardProbe {
        has_boot_out: true,
        boot_out_text: Some("ADAFRUIT board".to_string()),
        ..probe()
    };
    assert!(detector.is_circuitpython_board(&shouting));
    let bare = BoardProbe { has_boot_out: true, boot_out_text: Some("hello".to_string()), ..probe() };
    assert!(!detector.is_circuitpython_board(&bare));
    let indicator = BoardProbe { indicators_found: 1, ..bare.clone() };
    assert!(detector.is_circuitpython_board(&indicator));
}

#[test]
fn board_display() {
    let board = CircuitPythonBoard::new(
        "/media/CIRCUITPY".to_string(),
        "sda1".to_string(),
        Some("CIRCUITPY".to_string()),
        1048576,
        524288,
    );
    assert_eq!(board.display_name(), "sda1 (CIRCUITPY)");
    assert_eq!(board.format_space(), "512.0 KB / 1.0 MB available");
    let manual = CircuitPythonBoard::new("/b".to_string(), "Manual".to_string(), None, 0, 0);
    assert_eq!(manual.display_name(), "Manual");
    assert_eq!(manual.format_space(), "0 B / 0 B available");
}

#[test]
fn board_choice() {
    let d = BoardDetector::new(false);
    assert!(matches!(d.resolve(0, false), Err(CpdError::BoardNotFound)));
    assert_eq!(d.resolve(1, true).unwrap(), BoardChoice::Use(0));
    assert!(matches!(d.resolve(2, true), Err(CpdError::MultipleBoardsFound)));
    assert_eq!(d.resolve(2, false).unwrap(), BoardChoice::Ask);
    assert_eq!(d.pick(3, Some(2)), Some(1));
    assert_eq!(d.pick(3, Some(0)), None);
    assert_eq!(d.pick(3, Some(4)), None);
    assert_eq!(d.pick(3, None), None);
}

#[test]
fn test_explicit_project_dir() {
    let c = cli(Some("/test/path"));
    assert_eq!(c.project_dir("/somewhere/else"), "/test/path");
}

#[test]
fn test_default_project_dir() {
    let c = cli(None);
    assert_eq!(c.project_dir("/current"), "/current");
}

#[test]
fn validate_reports_each_problem() {
    let c = cli(Some("/proj"));
    assert!(c.validate("/cwd", FOUND_DIR, MISSING, MISSING).is_ok());
    match c.validate("/cwd", MISSING, MISSING, MISSING) {
        Err(CpdError::Configuration { message }) => {
            assert_eq!(message, "Project directory does not exist: /proj")
        }
        _ => panic!("expected a configuration error"),
    }
    match c.validate("/cwd", FOUND_FILE, MISSING, MISSING) {
        Err(CpdError::Configuration { message }) => {
            assert_eq!(message, "Project path is not a directory: /proj")
        }
        _ => panic!("expected a configuration error"),
    }
    let with_board = Cli { board_path: Some("/media/B".to_string()), ..c.clone() };
    match with_board.validate("/cwd", FOUND_DIR, MISSING, MISSING) {
        Err(CpdError::InvalidBoardPath { path }) => assert_eq!(path, "/media/B"),
        _ => panic!("expected a board error"),
    }
    match with_board.validate("/cwd", FOUND_DIR, FOUND_FILE, MISSING) {
        Err(CpdError::InvalidBoardPath { path }) => assert_eq!(path, "/media/B is not a directory"),
        _ => panic!("expected a board error"),
    }
    let with_backup = Cli { backup_dir: Some("/bk".to_string()), ..c.clone() };
    match with_backup.validate("/cwd", FOUND_DIR, MISSING, FOUND_FILE) {
        Err(CpdError::Configuration { message }) => {
            assert_eq!(message, "Backup path exists but is not a directory: /bk")
        }
        _ => panic!("expected a configuration error"),
    }
    assert!(with_backup.validate("/cwd", FOUND_DIR, MISSING, MISSING).is_ok());
    let defaulted = cli(None);
    match defaulted.validate("/cwd", MISSING, MISSING, MISSING) {
        Err(CpdError::Configuration { message }) => {
            assert_eq!(message, "Project directory does not exist: /cwd")
        }
        _ => panic!("expected a configuration error"),
    }
}

#[test]
fn mount_table_gives_circuitpy_label() {
    let d = BoardDetector::new(false);
    let mounts = "/dev/sda1 / ext4 rw 0 0\n/dev/disk/by-label/CIRCUITPY /media/u/CIRCUITPY vfat rw 0 0\n";
    assert_eq!(d.get_unix_label_from_mounts(mounts, "/media/u/CIRCUITPY"), Some("CIRCUITPY".to_string()));
    assert_eq!(d.get_unix_label_from_mounts(mounts, "/media/u/CIRCUITPY/lib"), Some("CIRCUITPY".to_string()));
    assert_eq!(d.get_unix_label_from_mounts(mounts, "/media/u/CIRCUITPY2"), None);
    assert_eq!(d.get_unix_label_from_mounts(mounts, "/home/u"), None);
    assert_eq!(d.get_unix_label_from_mounts("", "/media/u/CIRCUITPY"), None);
}

#[test]
fn test_basic_deployment_logic() {
    let ignore_filter = circuitpython_deploy::ignore::IgnoreFilter::new(
        "/tmp/project",
        None,
        None,
        None,
    );
    assert!(ignore_filter.is_ok());
    let file_ops = circuitpython_deploy::file_ops::FileOperations::new(false);
    let detector = BoardDetector::new(false);
    drop(file_ops);
    drop(detector);
}
