use git_chai::grouping::ChangeGroup;
use git_chai::grouping::GroupKind;
use git_chai::orchestrate::CommitRun;
use git_chai::orchestrate::GitAction;
use git_chai::orchestrate::RunPhase;
use git_chai::orchestrate::StepTarget;
use git_chai::orchestrate::plan_commit_steps;
use git_chai::types::ChangeType;

fn dir_unit(path: &str, kind: ChangeType, files: &[&str]) -> ChangeGroup {
    ChangeGroup {
        path: path.to_string(),
        change_type: GroupKind::Directory(kind),
        files: files.iter().map(|f| f.to_string()).collect(),
        file_change_types: None,
    }
}

fn individual_unit(files: &[&str], kinds: &[ChangeType]) -> ChangeGroup {
    ChangeGroup {
        path: ".".to_string(),
        change_type: GroupKind::Individual,
        files: files.iter().map(|f| f.to_string()).collect(),
        file_change_types: Some(kinds.to_vec()),
    }
}

#[test]
fn directory_unit_plans_one_step_with_base_name_message() {
    let steps = plan_commit_steps(&vec![dir_unit(
        "src",
        ChangeType::Modify,
        &["src/a.rs", "src/b.rs"],
    )]);
    assert_eq!(steps.len(), 1);
    match &steps[0].target {
        StepTarget::Directory(p) => assert_eq!(p, "src"),
        _ => panic!("expected a directory target"),
    }
    assert_eq!(steps[0].message, "mod: src");
}

#[test]
fn untracked_directory_unit_message_uses_its_base_name() {
    let steps = plan_commit_steps(&vec![dir_unit("newdir/", ChangeType::Add, &["newdir/"])]);
    assert_eq!(steps.len(), 1);
    assert_eq!(steps[0].message, "add: newdir");
}

#[test]
fn root_directory_unit_message_says_directory() {
    let steps = plan_commit_steps(&vec![dir_unit(".", ChangeType::Delete, &["a.rs"])]);
    assert_eq!(steps.len(), 1);
    assert_eq!(steps[0].message, "del: directory");
}

#[test]
fn individual_unit_plans_one_step_per_file() {
    let steps = plan_commit_steps(&vec![individual_unit(
        &["src/a.rs", "src/b.rs"],
        &[ChangeType::Modify, ChangeType::Delete],
    )]);
    assert_eq!(steps.len(), 2);
    match &steps[0].target {
        StepTarget::File(p) => assert_eq!(p, "src/a.rs"),
        _ => panic!("expected a file target"),
    }
    assert_eq!(steps[0].message, "mod: src/a.rs");
    assert_eq!(steps[1].message, "del: src/b.rs");
}

#[test]
fn missing_per_file_kinds_fall_back_by_separator() {
    let mut unit = individual_unit(&["dir/", "plain.txt"], &[]);
    unit.file_change_types = None;
    let steps = plan_commit_steps(&vec![unit]);
    assert_eq!(steps[0].message, "add: dir/");
    assert_eq!(steps[1].message, "mod: plain.txt");

    // present but too short: same fallback for the files past its end
    let short = individual_unit(&["a.rs", "b/"], &[ChangeType::Delete]);
    let steps = plan_commit_steps(&vec![short]);
    assert_eq!(steps[0].message, "del: a.rs");
    assert_eq!(steps[1].message, "add: b/");
}

/// Drives a run to completion, failing the actions whose (zero-based)
/// step index is listed in `fail_stage`, and returns the trace of
/// actions performed.
fn drive(
    run: &mut CommitRun,
    fail_stage: &[usize],
    fail_commit: &[usize],
    push_ok: bool,
) -> Vec<String> {
    let mut trace = Vec::new();
    loop {
        let idx = run.idx;
        match run.next_action() {
            GitAction::StageDirectory(p) => {
                trace.push(format!("stage-dir {}", p));
                run.record_outcome(!fail_stage.contains(&idx));
            }
            GitAction::StageFile(p) => {
                trace.push(format!("stage-file {}", p));
                run.record_outcome(!fail_stage.contains(&idx));
            }
            GitAction::Commit(m) => {
                trace.push(format!("commit {}", m));
                run.record_outcome(!fail_commit.contains(&idx));
            }
            GitAction::Push => {
                trace.push("push".to_string());
                run.record_outcome(push_ok);
            }
            GitAction::Done => break,
        }
    }
    trace
}

#[test]
fn a_failed_stage_skips_only_that_unit() {
    // three units; staging the second fails; units 1 and 3 still commit
    let groups = vec![
        dir_unit("src", ChangeType::Modify, &["src/a.rs"]),
        dir_unit("doc", ChangeType::Add, &["doc/x.md"]),
        dir_unit("lib", ChangeType::Delete, &["lib/y.rs"]),
    ];
    let mut run = CommitRun::new(&groups, false, false);
    let trace = drive(&mut run, &[1], &[], true);
    let report = run.report();
    assert_eq!(report.committed, 2);
    assert_eq!(report.failed, 1);
    assert_eq!(report.pushed, None);
    assert_eq!(run.phase, RunPhase::Done);
    assert_eq!(
        trace,
        vec![
            "stage-dir src".to_string(),
            "commit mod: src".to_string(),
            "stage-dir doc".to_string(),
            "stage-dir lib".to_string(),
            "commit del: lib".to_string(),
        ]
    );
}

#[test]
fn a_failed_commit_is_isolated_too() {
    let groups = vec![individual_unit(
        &["a.rs", "b.rs", "c.rs"],
        &[ChangeType::Modify, ChangeType::Modify, ChangeType::Modify],
    )];
    let mut run = CommitRun::new(&groups, false, false);
    drive(&mut run, &[], &[1], true);
    let report = run.report();
    assert_eq!(report.committed, 2);
    assert_eq!(report.failed, 1);
}

#[test]
fn push_happens_once_after_all_units() {
    let groups = vec![dir_unit("src", ChangeType::Modify, &["src/a.rs"])];
    let mut run = CommitRun::new(&groups, false, true);
    let trace = drive(&mut run, &[], &[], true);
    assert_eq!(trace.last().unwrap(), "push");
    assert_eq!(trace.iter().filter(|a| a.as_str() == "push").count(), 1);
    assert_eq!(run.report().pushed, Some(true));
}

#[test]
fn push_failure_is_reported_but_commits_stand() {
    let groups = vec![dir_unit("src", ChangeType::Modify, &["src/a.rs"])];
    let mut run = CommitRun::new(&groups, false, true);
    drive(&mut run, &[], &[], false);
    let report = run.report();
    assert_eq!(report.committed, 1);
    assert_eq!(report.pushed, Some(false));
}

#[test]
fn dry_run_issues_no_action() {
    let groups = vec![
        dir_unit("src", ChangeType::Modify, &["src/a.rs"]),
        individual_unit(&["b.rs"], &[ChangeType::Delete]),
    ];
    let mut run = CommitRun::new(&groups, true, true);
    let trace = drive(&mut run, &[], &[], true);
    assert!(trace.is_empty());
    let report = run.report();
    assert!(report.dry_run);
    assert_eq!(report.committed, 0);
    assert_eq!(report.failed, 0);
    assert_eq!(report.pushed, None);
    // the plan is still available for reporting what would be done
    assert_eq!(run.steps.len(), 2);
}
