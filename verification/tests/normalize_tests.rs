use git_chai::status::normalize_line;
use git_chai::status::parse_status_lines;
use git_chai::types::ChangeType;
use git_chai::types::GitStatus;

#[test]
fn short_lines_are_skipped() {
    assert!(normalize_line("").is_none());
    assert!(normalize_line("M").is_none());
    assert!(normalize_line("M ").is_none());
}

#[test]
fn empty_paths_are_skipped() {
    assert!(normalize_line("M  ").is_none());
    assert!(normalize_line("M     ").is_none());
}

#[test]
fn a_line_parses_into_status_kind_and_path() {
    let c = normalize_line("M  src/a.rs").unwrap();
    assert_eq!(c.status, GitStatus::ModifiedStaged);
    assert_eq!(c.change_type, ChangeType::Modify);
    assert_eq!(c.filename, "src/a.rs");

    let c = normalize_line("?? newdir/").unwrap();
    assert_eq!(c.status, GitStatus::Untracked);
    assert_eq!(c.change_type, ChangeType::Add);
    assert_eq!(c.filename, "newdir/");
}

#[test]
fn unknown_codes_never_fail_and_mean_modify() {
    let c = normalize_line("XY strange.txt").unwrap();
    assert_eq!(c.status, GitStatus::Unknown("XY".to_string()));
    assert_eq!(c.change_type, ChangeType::Modify);
    assert_eq!(c.filename, "strange.txt");
}

#[test]
fn path_whitespace_is_trimmed() {
    let c = normalize_line("D    doc/old.md   ").unwrap();
    assert_eq!(c.status, GitStatus::DeletedStaged);
    assert_eq!(c.filename, "doc/old.md");
}

#[test]
fn a_listing_keeps_order_and_drops_bad_lines() {
    let lines = vec![
        "M  src/a.rs".to_string(),
        "x".to_string(),
        " D src/b.rs".to_string(),
        "?? newdir/".to_string(),
        "A  ".to_string(),
    ];
    let changes = parse_status_lines(&lines);
    assert_eq!(changes.len(), 3);
    assert_eq!(changes[0].filename, "src/a.rs");
    assert_eq!(changes[0].change_type, ChangeType::Modify);
    assert_eq!(changes[1].filename, "src/b.rs");
    assert_eq!(changes[1].change_type, ChangeType::Delete);
    assert_eq!(changes[2].filename, "newdir/");
    assert_eq!(changes[2].change_type, ChangeType::Add);
}
