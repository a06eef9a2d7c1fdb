use git_chai::grouping::BucketKind;
use git_chai::grouping::GroupKind;
use git_chai::grouping::group_changes_by_directory;
use git_chai::grouping::plan_directory_groups;
use git_chai::status::parse_status_lines;
use git_chai::types::ChangeType;

fn changes_of(lines: &[&str]) -> Vec<git_chai::status::GitChange> {
    let owned: Vec<String> = lines.iter().map(|l| l.to_string()).collect();
    parse_status_lines(&owned)
}

#[test]
fn untracked_directory_becomes_its_own_add_unit() {
    // one untracked directory entry yields one whole-directory Add unit
    let changes = changes_of(&["?? newdir/"]);
    let buckets = plan_directory_groups(&changes);
    assert_eq!(buckets.len(), 0);
    let groups = group_changes_by_directory(&changes, &vec![]);
    assert_eq!(groups.len(), 1);
    assert_eq!(groups[0].path, "newdir/");
    assert_eq!(groups[0].change_type, GroupKind::Directory(ChangeType::Add));
    assert_eq!(groups[0].files, vec!["newdir/".to_string()]);
    assert!(groups[0].file_change_types.is_none());
}

#[test]
fn fully_changed_uniform_directory_is_one_unit() {
    // both tracked files of src changed the same way; the lister counts 2
    let changes = changes_of(&["M  src/a.rs", "M  src/b.rs"]);
    let buckets = plan_directory_groups(&changes);
    assert_eq!(buckets.len(), 1);
    assert_eq!(buckets[0].dir, "src");
    assert_eq!(buckets[0].kind, BucketKind::Uniform(ChangeType::Modify));
    let groups = group_changes_by_directory(&changes, &vec![Some(2)]);
    assert_eq!(groups.len(), 1);
    assert_eq!(groups[0].path, "src");
    assert_eq!(groups[0].change_type, GroupKind::Directory(ChangeType::Modify));
    assert_eq!(groups[0].files, vec!["src/a.rs".to_string(), "src/b.rs".to_string()]);
    assert!(groups[0].file_change_types.is_none());
}

#[test]
fn mixed_kinds_in_one_directory_go_individual() {
    let changes = changes_of(&["M  src/a.rs", "D  src/b.rs"]);
    let buckets = plan_directory_groups(&changes);
    assert_eq!(buckets.len(), 1);
    assert_eq!(buckets[0].kind, BucketKind::Mixed);
    let groups = group_changes_by_directory(&changes, &vec![Some(2)]);
    assert_eq!(groups.len(), 1);
    assert_eq!(groups[0].path, ".");
    assert_eq!(groups[0].change_type, GroupKind::Individual);
    assert_eq!(groups[0].files, vec!["src/a.rs".to_string(), "src/b.rs".to_string()]);
    assert_eq!(
        groups[0].file_change_types,
        Some(vec![ChangeType::Modify, ChangeType::Delete])
    );
}

#[test]
fn failed_listing_degrades_to_individual_files() {
    // the directory lister failed for this bucket: both files keep their
    // own kinds in one individual unit
    let changes = changes_of(&["M  src/a.rs", "M  src/b.rs"]);
    let groups = group_changes_by_directory(&changes, &vec![None]);
    assert_eq!(groups.len(), 1);
    assert_eq!(groups[0].path, ".");
    assert_eq!(groups[0].change_type, GroupKind::Individual);
    assert_eq!(groups[0].files, vec!["src/a.rs".to_string(), "src/b.rs".to_string()]);
    assert_eq!(
        groups[0].file_change_types,
        Some(vec![ChangeType::Modify, ChangeType::Modify])
    );
}

#[test]
fn partially_changed_directory_goes_individual() {
    // src holds 3 tracked files but only 2 changed
    let changes = changes_of(&["M  src/a.rs", "M  src/b.rs"]);
    let groups = group_changes_by_directory(&changes, &vec![Some(3)]);
    assert_eq!(groups.len(), 1);
    assert_eq!(groups[0].change_type, GroupKind::Individual);
    assert_eq!(groups[0].path, ".");
}

#[test]
fn single_file_directory_behaves_like_any_uniform_directory() {
    let changes = changes_of(&["A  lone/only.rs"]);
    let groups = group_changes_by_directory(&changes, &vec![Some(1)]);
    assert_eq!(groups.len(), 1);
    assert_eq!(groups[0].path, "lone");
    assert_eq!(groups[0].change_type, GroupKind::Directory(ChangeType::Add));
}

#[test]
fn changing_one_kind_flips_a_uniform_directory_to_individual() {
    let uniform = changes_of(&["M  src/a.rs", "M  src/b.rs", "M  src/c.rs"]);
    let flipped = changes_of(&["M  src/a.rs", "D  src/b.rs", "M  src/c.rs"]);
    let one = group_changes_by_directory(&uniform, &vec![Some(3)]);
    let other = group_changes_by_directory(&flipped, &vec![Some(3)]);
    assert_eq!(one.len(), 1);
    assert_eq!(one[0].change_type, GroupKind::Directory(ChangeType::Modify));
    assert_eq!(other.len(), 1);
    assert_eq!(other[0].change_type, GroupKind::Individual);
}

#[test]
fn untracked_units_come_first_and_buckets_keep_first_seen_order() {
    let changes = changes_of(&[
        "M  src/a.rs",
        "?? newdir/",
        "D  doc/x.md",
        "M  src/b.rs",
    ]);
    let buckets = plan_directory_groups(&changes);
    assert_eq!(buckets.len(), 2);
    assert_eq!(buckets[0].dir, "src");
    assert_eq!(buckets[1].dir, "doc");
    let groups = group_changes_by_directory(&changes, &vec![Some(2), Some(1)]);
    assert_eq!(groups.len(), 3);
    assert_eq!(groups[0].path, "newdir/");
    assert_eq!(groups[1].path, "src");
    assert_eq!(groups[1].change_type, GroupKind::Directory(ChangeType::Modify));
    assert_eq!(groups[2].path, "doc");
    assert_eq!(groups[2].change_type, GroupKind::Directory(ChangeType::Delete));
}

#[test]
fn root_files_bucket_under_the_dot_sentinel() {
    let changes = changes_of(&["M  README.md"]);
    let buckets = plan_directory_groups(&changes);
    assert_eq!(buckets.len(), 1);
    assert_eq!(buckets[0].dir, ".");
    let groups = group_changes_by_directory(&changes, &vec![Some(1)]);
    assert_eq!(groups.len(), 1);
    assert_eq!(groups[0].path, ".");
    assert_eq!(groups[0].change_type, GroupKind::Directory(ChangeType::Modify));
}

#[test]
fn grouping_twice_gives_equal_units() {
    let changes = changes_of(&["M  src/a.rs", "D  src/b.rs", "?? newdir/", "A  doc/new.md"]);
    let listings = vec![Some(2), Some(4)];
    let once = group_changes_by_directory(&changes, &listings);
    let twice = group_changes_by_directory(&changes, &listings);
    assert_eq!(once.len(), twice.len());
    for (a, b) in once.iter().zip(twice.iter()) {
        assert_eq!(a.path, b.path);
        assert_eq!(a.change_type, b.change_type);
        assert_eq!(a.files, b.files);
        assert_eq!(a.file_change_types, b.file_change_types);
    }
}

#[test]
fn no_file_is_dropped_or_duplicated() {
    let changes = changes_of(&[
        "M  src/a.rs",
        "D  src/b.rs",
        "?? newdir/",
        "A  doc/new.md",
        "M  README.md",
    ]);
    // one listing answer per bucket: src, doc, "."
    let listings = vec![Some(2), None, Some(5)];
    let groups = group_changes_by_directory(&changes, &listings);
    let total: usize = groups.iter().map(|g| g.files.len()).sum();
    assert_eq!(total, changes.len());
}
