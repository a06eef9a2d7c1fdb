use git_chai::config::Config;
use git_chai::paths::base_name;
use git_chai::paths::ends_with_slash;
use git_chai::paths::parent_dir;
use git_chai::paths::trim_str;

#[test]
fn parent_of_a_root_file_is_the_dot_sentinel() {
    assert_eq!(parent_dir("a.rs"), ".");
    assert_eq!(parent_dir("README.md"), ".");
}

#[test]
fn parent_strips_the_last_component() {
    assert_eq!(parent_dir("src/a.rs"), "src");
    assert_eq!(parent_dir("src/sub/b.rs"), "src/sub");
    assert_eq!(parent_dir("dir/"), ".");
}

#[test]
fn base_name_takes_the_last_component() {
    assert_eq!(base_name("src"), "src");
    assert_eq!(base_name("src/sub"), "sub");
    assert_eq!(base_name("newdir/"), "newdir");
}

#[test]
fn base_name_defaults_for_paths_without_a_component() {
    assert_eq!(base_name(""), "directory");
    assert_eq!(base_name("."), "directory");
    assert_eq!(base_name(".."), "directory");
    assert_eq!(base_name("/"), "directory");
}

#[test]
fn trim_removes_whitespace_at_both_ends() {
    assert_eq!(trim_str("  a b  "), "a b");
    assert_eq!(trim_str("\t x \r\n"), "x");
    assert_eq!(trim_str("   "), "");
    assert_eq!(trim_str("plain"), "plain");
}

#[test]
fn separator_test_looks_at_the_last_character() {
    assert!(ends_with_slash("dir/"));
    assert!(!ends_with_slash("dir"));
    assert!(!ends_with_slash(""));
}

#[test]
fn default_config_matches_the_stock_settings() {
    let c = Config::default();
    assert_eq!(c.repo_path, ".");
    assert!(c.push_by_default);
    assert_eq!(c.commit_message_template, "{change_type}: {name}");
    assert_eq!(c.min_files_for_directory_commit, 2);
}
