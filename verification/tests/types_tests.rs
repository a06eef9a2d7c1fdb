use git_chai::types::ChangeType;
use git_chai::types::GitStatus;

#[test]
fn test_git_status_parsing() {
    assert_eq!(GitStatus::from_str("A ").unwrap(), GitStatus::AddedStaged);
    assert_eq!(GitStatus::from_str("M ").unwrap(), GitStatus::ModifiedStaged);
    assert_eq!(GitStatus::from_str("D ").unwrap(), GitStatus::DeletedStaged);
    assert_eq!(GitStatus::from_str(" A").unwrap(), GitStatus::AddedUnstaged);
    assert_eq!(GitStatus::from_str(" M").unwrap(), GitStatus::ModifiedUnstaged);
    assert_eq!(GitStatus::from_str(" D").unwrap(), GitStatus::DeletedUnstaged);
    assert_eq!(GitStatus::from_str("??").unwrap(), GitStatus::Untracked);
    assert_eq!(GitStatus::from_str("R ").unwrap(), GitStatus::Renamed);
    assert_eq!(GitStatus::from_str("C ").unwrap(), GitStatus::Copied);
    assert_eq!(GitStatus::from_str("U ").unwrap(), GitStatus::Unmerged);
    assert_eq!(GitStatus::from_str("! ").unwrap(), GitStatus::Ignored);

    // Test unknown status
    let unknown = GitStatus::from_str("X ").unwrap();
    match unknown {
        GitStatus::Unknown(s) => assert_eq!(s, "X "),
        _ => panic!("Expected Unknown variant"),
    }
}

#[test]
fn test_git_status_display() {
    assert_eq!(GitStatus::AddedStaged.to_string(), "A ");
    assert_eq!(GitStatus::ModifiedStaged.to_string(), "M ");
    assert_eq!(GitStatus::DeletedStaged.to_string(), "D ");
    assert_eq!(GitStatus::AddedUnstaged.to_string(), " A");
    assert_eq!(GitStatus::ModifiedUnstaged.to_string(), " M");
    assert_eq!(GitStatus::DeletedUnstaged.to_string(), " D");
    assert_eq!(GitStatus::Untracked.to_string(), "??");
    assert_eq!(GitStatus::Renamed.to_string(), "R ");
    assert_eq!(GitStatus::Copied.to_string(), "C ");
    assert_eq!(GitStatus::Unmerged.to_string(), "U ");
    assert_eq!(GitStatus::Ignored.to_string(), "! ");
    assert_eq!(GitStatus::Unknown("X ".to_string()).to_string(), "X ");
}

#[test]
fn test_change_type_from_git_status() {
    assert_eq!(ChangeType::from(GitStatus::AddedStaged), ChangeType::Add);
    assert_eq!(ChangeType::from(GitStatus::AddedUnstaged), ChangeType::Add);
    assert_eq!(ChangeType::from(GitStatus::Untracked), ChangeType::Add);
    assert_eq!(ChangeType::from(GitStatus::ModifiedStaged), ChangeType::Modify);
    assert_eq!(ChangeType::from(GitStatus::ModifiedUnstaged), ChangeType::Modify);
    assert_eq!(ChangeType::from(GitStatus::DeletedStaged), ChangeType::Delete);
    assert_eq!(ChangeType::from(GitStatus::DeletedUnstaged), ChangeType::Delete);
    assert_eq!(ChangeType::from(GitStatus::Renamed), ChangeType::Rename);
    assert_eq!(ChangeType::from(GitStatus::Copied), ChangeType::Copy);

    // Test fallbacks
    assert_eq!(ChangeType::from(GitStatus::Unmerged), ChangeType::Modify);
    assert_eq!(ChangeType::from(GitStatus::Ignored), ChangeType::Modify);
    assert_eq!(ChangeType::from(GitStatus::Unknown("".to_string())), ChangeType::Modify);
}

#[test]
fn test_change_type_display() {
    assert_eq!(ChangeType::Add.to_string(), "add");
    assert_eq!(ChangeType::Modify.to_string(), "mod");
    assert_eq!(ChangeType::Delete.to_string(), "del");
    assert_eq!(ChangeType::Rename.to_string(), "rename");
    assert_eq!(ChangeType::Copy.to_string(), "copy");
}

#[test]
fn change_kind_matches_from_impl() {
    assert_eq!(GitStatus::Untracked.change_kind(), ChangeType::Add);
    assert_eq!(GitStatus::ModifiedUnstaged.change_kind(), ChangeType::Modify);
    assert_eq!(
        GitStatus::Unknown("!!".to_string()).change_kind(),
        ChangeType::from(GitStatus::Unknown("!!".to_string()))
    );
}

#[test]
fn status_round_trips_through_code() {
    let codes = ["A ", "M ", "D ", " A", " M", " D", "??", "R ", "C ", "U ", "! ", "zz"];
    for code in codes {
        let parsed = GitStatus::from_str(code).unwrap();
        assert_eq!(parsed.to_string(), code);
    }
}
