use circuitpython_deploy::ignore::{create_simple_filter, verdict, IgnoreFilter, Layer, Pattern};
use circuitpython_deploy::error::CpdError;

const ROOT: &str = "/tmp/project";

fn at(name: &str) -> String {
    format!("{}/{}", ROOT, name)
}

#[test]
fn test_default_ignores() {
    let filter = IgnoreFilter::new(ROOT, None, None, None).unwrap();
    assert!(!filter.should_include(&at(".git"), false));
    assert!(!filter.should_include(&at("target"), false));
    assert!(filter.should_include(&at("main.py"), false));
    assert!(filter.should_include(&at("code.py"), false));
    assert!(!filter.should_include(&at("test.pyc"), false));
    assert!(!filter.should_include(&at("__pycache__"), false));
}

#[test]
fn test_custom_cpdignore() {
    let filter = IgnoreFilter::new(ROOT, Some("custom_ignore\n*.log\ntemp_*"), None, None).unwrap();
    assert!(!filter.should_include(&at("custom_ignore"), false));
    assert!(!filter.should_include(&at("debug.log"), false));
    assert!(!filter.should_include(&at("temp_file.txt"), false));
    assert!(filter.should_include(&at("main.py"), false));
}

#[test]
fn test_simple_filter() {
    let filter = create_simple_filter(&["*.txt", "temp"]).unwrap();
    assert!(!filter.should_include("readme.txt", false));
    assert!(!filter.should_include("temp", false));
    assert!(filter.should_include("main.py", false));
}

#[test]
fn test_cpdforce_functionality() {
    let filter = IgnoreFilter::new(
        ROOT,
        Some("*.env\nsecrets.txt"),
        None,
        Some("settings.env\nconfig.env"),
    )
    .unwrap();
    assert!(!filter.should_include(&at("test.env"), false));
    assert!(!filter.should_include(&at("secrets.txt"), false));
    assert!(filter.should_include(&at("settings.env"), false));
    assert!(filter.should_include(&at("config.env"), false));
    assert!(filter.should_include(&at("main.py"), false));
}

#[test]
fn test_cpdignore_filtering() {
    let filter = IgnoreFilter::new(ROOT, Some("tests/*\n*.test\n"), None, None).unwrap();
    assert!(filter.should_include(&at("code.py"), false));
    assert!(filter.should_include(&at("README.md"), false));
    assert!(filter.should_include(&at("lib/helper.py"), false));
    assert!(!filter.should_include(&at("tests/test_main.py"), false));
    assert!(!filter.should_include(&at(".cpdignore"), false));
}

#[test]
fn test_special_characters() {
    let filter = IgnoreFilter::new(ROOT, None, None, None).unwrap();
    assert!(filter.should_include(&at("file with spaces.py"), false));
    assert!(filter.should_include(&at("file-with-dashes.py"), false));
    assert!(filter.should_include(&at("file_with_underscores.py"), false));
}

#[test]
fn defaults_exclude_vcs_and_bytecode() {
    let filter = IgnoreFilter::new(ROOT, None, None, None).unwrap();
    assert!(filter.decide("code.py", false).included);
    assert!(filter.decide("boot_out.txt", false).included);
    assert!(!filter.decide(".git/config", false).included);
    assert!(!filter.decide("cache.pyc", false).included);
}

#[test]
fn project_ignore_excludes_logs() {
    let filter = IgnoreFilter::new(ROOT, Some("*.log"), None, None).unwrap();
    assert!(!filter.decide("a.log", false).included);
    assert!(filter.decide("a.py", false).included);
}

#[test]
fn force_layer_keeps_one_env_file() {
    let filter = IgnoreFilter::new(ROOT, Some("*.env"), None, Some("keep.env")).unwrap();
    let keep = filter.decide("keep.env", false);
    assert!(keep.included);
    assert!(keep.forced);
    let drop = filter.decide("drop.env", false);
    assert!(!drop.included);
    assert!(!drop.forced);
}

#[test]
fn unmatched_path_is_included_with_no_rule() {
    let filter = IgnoreFilter::new(ROOT, Some("*.log"), Some("build/"), Some("keep.env")).unwrap();
    let d = filter.decide("src/app.py", false);
    assert!(d.included);
    assert!(!d.forced);
    assert_eq!(d.rule, None);
}

#[test]
fn force_wins_over_later_exclusion() {
    let filter = IgnoreFilter::new(ROOT, Some("!keep.env"), Some("keep.env"), Some("keep.env")).unwrap();
    assert!(filter.decide("keep.env", false).included);
    let without_force = IgnoreFilter::new(ROOT, Some("!keep.env"), Some("keep.env"), None).unwrap();
    assert!(!without_force.decide("keep.env", false).included);
}

#[test]
fn last_matching_rule_decides() {
    let filter = IgnoreFilter::new(ROOT, Some("*.txt\n!notes.txt"), None, None).unwrap();
    assert!(filter.decide("notes.txt", false).included);
    assert!(!filter.decide("other.txt", false).included);
    let d = filter.decide("notes.txt", false);
    let rule = filter.rule(d.rule.unwrap());
    assert_eq!(rule.text, "!notes.txt");
    assert!(rule.negated);
    assert_eq!(rule.glob, "notes.txt");
    assert_eq!(rule.layer, Layer::Project);
}

#[test]
fn directory_rule_matches_directories_and_their_files() {
    let filter = IgnoreFilter::new(ROOT, Some("build/"), None, None).unwrap();
    assert!(!filter.decide("build", true).included);
    assert!(filter.decide("build", false).included);
    assert!(!filter.decide("build/out.bin", false).included);
}

#[test]
fn comments_and_blank_lines_are_skipped() {
    let filter = IgnoreFilter::new(ROOT, Some("# a comment\n\n   \n*.bak  \r\n"), None, None).unwrap();
    let patterns = filter.list_patterns();
    assert_eq!(patterns.len(), 22);
    assert_eq!(patterns[21], "*.bak");
    assert!(!filter.decide("x.bak", false).included);
}

#[test]
fn list_patterns_gives_every_layer_in_order() {
    let filter = IgnoreFilter::new(ROOT, Some("a"), Some("b"), Some("c")).unwrap();
    let patterns = filter.list_patterns();
    assert_eq!(patterns.len(), 24);
    assert_eq!(patterns[0], ".git");
    assert_eq!(patterns[20], "*~");
    assert_eq!(patterns[21], "a");
    assert_eq!(patterns[22], "b");
    assert_eq!(patterns[23], "c");
}

#[test]
fn invalid_glob_is_a_pattern_error() {
    let r = IgnoreFilter::new(ROOT, Some("ok.txt\na[z-a]"), None, None);
    match r {
        Err(CpdError::InvalidIgnorePattern { pattern }) => assert_eq!(pattern, "a[z-a]"),
        _ => panic!("expected a pattern error"),
    }
    assert!(create_simple_filter(&["[z-a]"]).is_err());
}

#[test]
fn path_outside_root_is_included() {
    let filter = IgnoreFilter::new(ROOT, Some("*"), None, None).unwrap();
    assert!(filter.should_include("/elsewhere/x.py", false));
    assert!(filter.should_include("/tmp/projectx/x.py", false));
    assert!(!filter.should_include("/tmp/project/x.py", false));
    assert!(!filter.should_include("x.py", false));
}

#[test]
fn filter_fn_is_the_inclusion_test() {
    let filter = IgnoreFilter::new(ROOT, Some("*.log"), None, None).unwrap();
    let keep = filter.filter_fn();
    assert!(keep(&at("a.py")));
    assert!(!keep(&at("a.log")));
    assert!(!keep("lib/x.log"));
}

fn rule(glob: &str, negated: bool) -> Pattern {
    Pattern {
        text: glob.to_string(),
        glob: glob.to_string(),
        negated,
        dir_only: false,
        layer: Layer::Project,
    }
}

#[test]
fn verdict_takes_the_last_matching_rule() {
    let rules = vec![rule("*.txt", false), rule("notes.txt", true), rule("n*", false)];
    let d = verdict(&rules, &vec![true, true, false], false);
    assert!(d.included);
    assert_eq!(d.rule, Some(1));
    let d = verdict(&rules, &vec![true, true, true], false);
    assert!(!d.included);
    assert_eq!(d.rule, Some(2));
    let d = verdict(&rules, &vec![false, false, false], false);
    assert!(d.included);
    assert_eq!(d.rule, None);
    let d = verdict(&rules, &vec![true, false, false], true);
    assert!(d.included);
    assert!(d.forced);
    assert_eq!(d.rule, Some(0));
}
