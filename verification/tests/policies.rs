use branch_sweep::git::{
    BranchManager, DeleteOutcome, DeleteRequest, DeletionRun, GitBranch, HeadRef, RawBranch,
    RepoSnapshot,
};

const DAY: i64 = 86_400;
const NOW: i64 = 1_700_000_000;

fn protected() -> Vec<String> {
    vec!["main".to_string(), "master".to_string(), "dev".to_string(), "develop".to_string()]
}

fn raw(name: &str, age_secs: i64, tip_is_head: bool, head_descends: Option<bool>) -> RawBranch {
    RawBranch { name: name.to_string(), tip_time: Some(NOW - age_secs), tip_is_head, head_descends }
}

fn branch(name: &str, age_secs: i64, is_merged: bool) -> GitBranch {
    GitBranch { name: name.to_string(), last_commit_time: NOW - age_secs, is_merged }
}

fn fixture() -> Vec<RawBranch> {
    vec![
        raw("main", 0, true, Some(false)),
        raw("feature-a", 5 * DAY, false, Some(true)),
        raw("feature-b", 45 * DAY, false, Some(false)),
    ]
}

fn snap(head_resolved: bool, branches: Vec<RawBranch>) -> RepoSnapshot {
    let head = HeadRef {
        shorthand: Some("main".to_string()),
        is_branch: true,
        has_commit: head_resolved,
    };
    RepoSnapshot { head: Some(head), branches }
}

fn plan_of(mut run: DeletionRun) -> Vec<(String, bool)> {
    let mut plan = Vec::new();
    while let Some(request) = run.next_request() {
        plan.push((request.name, request.force));
        run.record(DeleteOutcome::Deleted);
    }
    assert!(run.finished());
    plan
}

fn summary(branches: &[GitBranch]) -> Vec<(String, i64, bool)> {
    branches.iter().map(|b| (b.name.clone(), b.last_commit_time, b.is_merged)).collect()
}

#[test]
fn classification_lists_unprotected_branches_in_order() {
    let manager = BranchManager::new(&protected());
    let branches = manager.list_branches(&snap(true, fixture()));
    assert_eq!(
        summary(&branches),
        vec![
            ("feature-a".to_string(), NOW - 5 * DAY, true),
            ("feature-b".to_string(), NOW - 45 * DAY, false),
        ]
    );
}

#[test]
fn protected_branches_are_never_listed() {
    let manager = BranchManager::new(&protected());
    let raws = vec![
        raw("master", DAY, false, Some(true)),
        raw("dev", DAY, false, Some(true)),
        raw("develop", DAY, false, Some(false)),
        raw("main", DAY, true, None),
        raw("topic", DAY, false, Some(true)),
    ];
    let branches = manager.list_branches(&snap(true, raws));
    assert_eq!(summary(&branches), vec![("topic".to_string(), NOW - DAY, true)]);
    assert!(manager.is_protected(&"main".to_string()));
    assert!(!manager.is_protected(&"topic".to_string()));
    assert!(!manager.is_protected(&"mai".to_string()));
}

#[test]
fn protected_branches_are_never_planned_for_deletion() {
    let manager = BranchManager::new(&protected());
    let listed = vec![branch("main", 100 * DAY, true), branch("topic", 100 * DAY, true)];
    let none: Option<String> = None;
    let expect_soft = vec![("topic".to_string(), false)];
    let expect_forced = vec![("topic".to_string(), true)];
    assert_eq!(plan_of(manager.delete_merged_branches(&listed, &none)), expect_soft);
    assert_eq!(plan_of(manager.delete_stale_branches(&listed, &none, 30, NOW)), expect_forced);
    assert_eq!(plan_of(manager.delete_all_branches(&listed, &none)), expect_forced);
    assert_eq!(plan_of(manager.delete_selected_branches(&listed, &vec![0, 1])), expect_soft);
}

#[test]
fn merge_status_follows_the_ancestry_answer() {
    let manager = BranchManager::new(&protected());
    let raws = vec![
        raw("at-head", DAY, true, Some(false)),
        raw("behind-head", DAY, false, Some(true)),
        raw("diverged", DAY, false, Some(false)),
        raw("query-failed", DAY, false, None),
    ];
    let merged: Vec<bool> =
        manager.list_branches(&snap(true, raws)).iter().map(|b| b.is_merged).collect();
    assert_eq!(merged, vec![true, true, false, false]);
}

#[test]
fn nothing_is_merged_without_a_head() {
    let manager = BranchManager::new(&protected());
    let raws = || vec![raw("at-head", DAY, true, Some(true)), raw("behind", DAY, false, Some(true))];
    let branches = manager.list_branches(&snap(false, raws()));
    assert_eq!(branches.len(), 2);
    assert!(branches.iter().all(|b| !b.is_merged));
    let unborn = RepoSnapshot { head: None, branches: raws() };
    assert!(!manager.head_is_resolved(&unborn));
    assert!(manager.list_branches(&unborn).iter().all(|b| !b.is_merged));
    assert!(manager.list_branches(&snap(true, raws())).iter().all(|b| b.is_merged));
    assert!(!manager.is_branch_merged(&raws()[0], false));
    assert!(manager.is_branch_merged(&raws()[0], true));
}

#[test]
fn branch_without_a_tip_is_left_out() {
    let manager = BranchManager::new(&protected());
    let raws = vec![
        RawBranch { name: "broken".to_string(), tip_time: None, tip_is_head: false, head_descends: None },
        raw("fine", DAY, false, Some(false)),
    ];
    let branches = manager.list_branches(&snap(true, raws));
    assert_eq!(summary(&branches), vec![("fine".to_string(), NOW - DAY, false)]);
}

#[test]
fn commit_time_outside_the_calendar_is_left_out() {
    let manager = BranchManager::new(&[]);
    let at = |name: &str, t: i64| RawBranch {
        name: name.to_string(),
        tip_time: Some(t),
        tip_is_head: false,
        head_descends: Some(false),
    };
    let raws = vec![
        at("too-early", -8_334_601_228_801),
        at("earliest", -8_334_601_228_800),
        at("latest", 8_210_266_876_799),
        at("too-late", 8_210_266_876_800),
        at("i64-min", i64::MIN),
        at("i64-max", i64::MAX),
    ];
    let names: Vec<String> =
        manager.list_branches(&snap(true, raws)).into_iter().map(|b| b.name).collect();
    assert_eq!(names, vec!["earliest".to_string(), "latest".to_string()]);
}

#[test]
fn well_formedness_is_the_calendar_range() {
    let b = |t: i64| GitBranch { name: "x".to_string(), last_commit_time: t, is_merged: false };
    assert!(b(0).is_well_formed());
    assert!(b(-8_334_601_228_800).is_well_formed());
    assert!(!b(-8_334_601_228_801).is_well_formed());
    assert!(b(8_210_266_876_799).is_well_formed());
    assert!(!b(8_210_266_876_800).is_well_formed());
}

#[test]
fn classification_twice_gives_the_same_list() {
    let manager = BranchManager::new(&protected());
    let shown = snap(true, fixture());
    let first = manager.list_branches(&shown);
    let second = manager.list_branches(&shown);
    assert_eq!(summary(&first), summary(&second));
    assert_eq!(first.len(), 2);
}

#[test]
fn scenario_three_branches_threshold_thirty() {
    let manager = BranchManager::new(&protected());
    let branches = manager.list_branches(&snap(true, fixture()));
    let current = Some("main".to_string());
    assert_eq!(
        plan_of(manager.delete_stale_branches(&branches, &current, 30, NOW)),
        vec![("feature-b".to_string(), true)]
    );
    assert_eq!(
        plan_of(manager.delete_merged_branches(&branches, &current)),
        vec![("feature-a".to_string(), false)]
    );
    assert_eq!(
        plan_of(manager.delete_all_branches(&branches, &current)),
        vec![("feature-a".to_string(), true), ("feature-b".to_string(), true)]
    );
}

#[test]
fn explicit_choice_forces_only_unmerged_branches() {
    let manager = BranchManager::new(&protected());
    let branches = manager.list_branches(&snap(true, fixture()));
    assert_eq!(
        plan_of(manager.delete_selected_branches(&branches, &vec![0])),
        vec![("feature-a".to_string(), false)]
    );
    assert_eq!(
        plan_of(manager.delete_selected_branches(&branches, &vec![1])),
        vec![("feature-b".to_string(), true)]
    );
    assert_eq!(
        plan_of(manager.delete_selected_branches(&branches, &vec![1, 0])),
        vec![("feature-b".to_string(), true), ("feature-a".to_string(), false)]
    );
    assert_eq!(plan_of(manager.delete_selected_branches(&branches, &vec![])), vec![]);
}

#[test]
fn stale_threshold_is_strict_in_whole_days() {
    let manager = BranchManager::new(&protected());
    let none: Option<String> = None;
    let listed = vec![
        branch("exactly-30d", 30 * DAY, false),
        branch("30d-and-1s", 30 * DAY + 1, false),
        branch("1s-short-of-31d", 31 * DAY - 1, true),
        branch("exactly-31d", 31 * DAY, true),
        branch("fresh", 0, false),
        branch("ahead-of-now", -40 * DAY, false),
    ];
    assert_eq!(
        plan_of(manager.delete_stale_branches(&listed, &none, 30, NOW)),
        vec![("exactly-31d".to_string(), true)]
    );
    assert_eq!(
        plan_of(manager.delete_stale_branches(&listed, &none, 29, NOW)),
        vec![
            ("exactly-30d".to_string(), true),
            ("30d-and-1s".to_string(), true),
            ("1s-short-of-31d".to_string(), true),
            ("exactly-31d".to_string(), true),
        ]
    );
}

#[test]
fn checked_out_branch_is_listed_but_spared_by_bulk_policies() {
    let mut manager = BranchManager::new(&protected());
    let raws = vec![raw("work", 60 * DAY, true, None), raw("old", 60 * DAY, false, Some(true))];
    let branches = manager.list_branches(&snap(true, raws));
    assert_eq!(branches.len(), 2);
    let current = Some("work".to_string());
    let old_soft = vec![("old".to_string(), false)];
    let old_forced = vec![("old".to_string(), true)];
    assert_eq!(plan_of(manager.delete_merged_branches(&branches, &current)), old_soft);
    assert_eq!(plan_of(manager.delete_stale_branches(&branches, &current, 30, NOW)), old_forced);
    assert_eq!(plan_of(manager.delete_all_branches(&branches, &current)), old_forced);
    assert!(!manager.may_pick(&branches[0], &current));
    assert!(manager.may_pick(&branches[1], &current));
    assert_eq!(
        plan_of(manager.delete_selected_branches(&branches, &vec![0])),
        vec![("work".to_string(), false)]
    );
    manager.allow_current_branch(true);
    assert!(manager.may_pick(&branches[0], &current));
    assert_eq!(
        plan_of(manager.delete_all_branches(&branches, &current)),
        vec![("work".to_string(), true), ("old".to_string(), true)]
    );
    assert_eq!(
        plan_of(manager.delete_merged_branches(&branches, &current)),
        vec![("work".to_string(), false), ("old".to_string(), false)]
    );
}

#[test]
fn failed_deletion_does_not_stop_the_batch() {
    let plan = vec![
        DeleteRequest { name: "one".to_string(), force: false },
        DeleteRequest { name: "two".to_string(), force: true },
        DeleteRequest { name: "three".to_string(), force: false },
    ];
    let mut run = DeletionRun::new(plan);
    let mut attempted = Vec::new();
    while let Some(request) = run.next_request() {
        let outcome = if request.name == "two" {
            DeleteOutcome::Failed("locked".to_string())
        } else {
            DeleteOutcome::Deleted
        };
        attempted.push(request.name);
        assert!(!run.finished());
        run.record(outcome);
    }
    assert_eq!(attempted, vec!["one".to_string(), "two".to_string(), "three".to_string()]);
    assert!(run.finished());
    let report = run.into_report();
    assert_eq!(report.len(), 3);
    assert_eq!(report.entry(0).name, "one");
    assert!(report.entry(0).outcome.is_deleted());
    assert_eq!(report.entry(1).name, "two");
    assert!(matches!(&report.entry(1).outcome, DeleteOutcome::Failed(reason) if reason == "locked"));
    assert_eq!(report.entry(2).name, "three");
    assert!(report.entry(2).outcome.is_deleted());
    assert_eq!(report.deleted_names(), vec!["one".to_string(), "three".to_string()]);
}

#[test]
fn scripted_batch_reports_every_request() {
    let plan = vec![
        DeleteRequest { name: "one".to_string(), force: false },
        DeleteRequest { name: "two".to_string(), force: true },
        DeleteRequest { name: "three".to_string(), force: false },
    ];
    let outcomes = vec![
        DeleteOutcome::Deleted,
        DeleteOutcome::Failed("locked".to_string()),
        DeleteOutcome::Deleted,
    ];
    let report = DeletionRun::run_with_outcomes(plan, &outcomes);
    assert_eq!(report.len(), 3);
    assert!(report.entry(0).outcome.is_deleted());
    assert!(!report.entry(1).outcome.is_deleted());
    assert!(report.entry(2).outcome.is_deleted());
    assert_eq!(report.entry(1).name, "two");
    assert_eq!(report.deleted_names(), vec!["one".to_string(), "three".to_string()]);
}

#[test]
fn empty_batch_is_finished_at_once() {
    let run = DeletionRun::new(Vec::new());
    assert!(run.finished());
    assert!(run.next_request().is_none());
    let report = run.into_report();
    assert_eq!(report.len(), 0);
    assert!(report.deleted_names().is_empty());
}

#[test]
fn outcome_copy_keeps_the_reason() {
    let failed = DeleteOutcome::Failed("no such branch".to_string());
    assert!(matches!(failed.duplicate(), DeleteOutcome::Failed(reason) if reason == "no such branch"));
    assert!(DeleteOutcome::Deleted.duplicate().is_deleted());
}

#[test]
fn current_branch_is_the_head_of_a_branch_only() {
    let manager = BranchManager::new(&protected());
    let head = |shorthand: Option<&str>, is_branch: bool| RepoSnapshot {
        head: Some(HeadRef { shorthand: shorthand.map(String::from), is_branch, has_commit: true }),
        branches: Vec::new(),
    };
    assert_eq!(manager.get_current_branch(&head(Some("topic"), true)), Some("topic".to_string()));
    assert_eq!(manager.get_current_branch(&head(Some("HEAD"), false)), None);
    assert_eq!(manager.get_current_branch(&head(None, true)), None);
    let unborn = RepoSnapshot { head: None, branches: Vec::new() };
    assert_eq!(manager.get_current_branch(&unborn), None);
    assert!(manager.head_is_resolved(&head(Some("topic"), true)));
}

#[test]
fn scenario_with_the_head_read_from_the_snapshot() {
    let manager = BranchManager::new(&protected());
    let shown = snap(true, fixture());
    let current = manager.get_current_branch(&shown);
    assert_eq!(current, Some("main".to_string()));
    let branches = manager.list_branches(&shown);
    assert_eq!(
        plan_of(manager.delete_all_branches(&branches, &current)),
        vec![("feature-a".to_string(), true), ("feature-b".to_string(), true)]
    );
}

fn three(is_merged: bool) -> Vec<GitBranch> {
    vec![branch("b1", 40 * DAY, is_merged), branch("b2", 50 * DAY, is_merged), branch("b3", 60 * DAY, is_merged)]
}

/// Carries a batch out against a stand-in that refuses to remove `locked`,
/// and notes every request it was handed.
fn carry_out(mut run: DeletionRun, locked: &str) -> (Vec<(String, bool)>, Vec<(String, DeleteOutcome)>) {
    let mut calls = Vec::new();
    while let Some(request) = run.next_request() {
        let outcome = if request.name == locked {
            DeleteOutcome::Failed("cannot lock ref".to_string())
        } else {
            DeleteOutcome::Deleted
        };
        calls.push((request.name, request.force));
        run.record(outcome);
    }
    assert!(run.finished());
    let report = run.into_report();
    let mut entries = Vec::new();
    for i in 0..report.len() {
        entries.push((report.entry(i).name.clone(), report.entry(i).outcome.duplicate()));
    }
    (calls, entries)
}

fn assert_second_failed(entries: &[(String, DeleteOutcome)]) {
    assert_eq!(entries.len(), 3);
    assert_eq!(entries[0].0, "b1");
    assert!(entries[0].1.is_deleted());
    assert_eq!(entries[1].0, "b2");
    assert!(matches!(&entries[1].1, DeleteOutcome::Failed(reason) if reason == "cannot lock ref"));
    assert_eq!(entries[2].0, "b3");
    assert!(entries[2].1.is_deleted());
}

#[test]
fn merged_batch_keeps_going_after_a_failure() {
    let manager = BranchManager::new(&protected());
    let run = manager.delete_merged_branches(&three(true), &Some("main".to_string()));
    let (calls, entries) = carry_out(run, "b2");
    assert_eq!(
        calls,
        vec![("b1".to_string(), false), ("b2".to_string(), false), ("b3".to_string(), false)]
    );
    assert_second_failed(&entries);
}

#[test]
fn stale_batch_keeps_going_after_a_failure() {
    let manager = BranchManager::new(&protected());
    let run = manager.delete_stale_branches(&three(false), &Some("main".to_string()), 30, NOW);
    let (calls, entries) = carry_out(run, "b2");
    assert_eq!(
        calls,
        vec![("b1".to_string(), true), ("b2".to_string(), true), ("b3".to_string(), true)]
    );
    assert_second_failed(&entries);
}

#[test]
fn all_batch_keeps_going_after_a_failure() {
    let manager = BranchManager::new(&protected());
    let run = manager.delete_all_branches(&three(false), &Some("main".to_string()));
    let (calls, entries) = carry_out(run, "b2");
    assert_eq!(
        calls,
        vec![("b1".to_string(), true), ("b2".to_string(), true), ("b3".to_string(), true)]
    );
    assert_second_failed(&entries);
}

#[test]
fn all_batch_hands_out_the_third_request_after_the_failure() {
    let manager = BranchManager::new(&protected());
    let mut run = manager.delete_all_branches(&three(true), &None);
    let first = run.next_request().unwrap();
    assert_eq!((first.name.as_str(), first.force), ("b1", true));
    run.record(DeleteOutcome::Deleted);
    let second = run.next_request().unwrap();
    assert_eq!((second.name.as_str(), second.force), ("b2", true));
    run.record(DeleteOutcome::Failed("cannot lock ref".to_string()));
    assert!(!run.finished());
    let third = run.next_request().unwrap();
    assert_eq!((third.name.as_str(), third.force), ("b3", true));
    run.record(DeleteOutcome::Deleted);
    assert!(run.next_request().is_none());
    assert!(run.finished());
    assert_eq!(run.into_report().deleted_names(), vec!["b1".to_string(), "b3".to_string()]);
}

#[test]
fn tip_is_the_head_when_the_ids_are_the_same() {
    let manager = BranchManager::new(&protected());
    let head = Some(vec![1u8, 2, 3, 4]);
    let same = RawBranch::with_tip("same".to_string(), NOW, &vec![1, 2, 3, 4], &head, Some(false));
    assert!(same.tip_is_head);
    assert_eq!(same.tip_time, Some(NOW));
    assert_eq!(same.head_descends, Some(false));
    assert!(manager.is_branch_merged(&same, true));
    let other = RawBranch::with_tip("other".to_string(), NOW, &vec![1, 2, 3, 5], &head, Some(false));
    assert!(!other.tip_is_head);
    assert!(!manager.is_branch_merged(&other, true));
    let shorter = RawBranch::with_tip("shorter".to_string(), NOW, &vec![1, 2, 3], &head, None);
    assert!(!shorter.tip_is_head);
    let behind = RawBranch::with_tip("behind".to_string(), NOW, &vec![9], &head, Some(true));
    assert!(!behind.tip_is_head);
    assert!(manager.is_branch_merged(&behind, true));
    let no_head = RawBranch::with_tip("x".to_string(), NOW, &vec![1, 2, 3, 4], &None, None);
    assert!(!no_head.tip_is_head);
    let broken = RawBranch::without_tip("broken".to_string());
    assert_eq!(broken.name, "broken");
    assert_eq!(broken.tip_time, None);
    assert!(!broken.tip_is_head);
    assert_eq!(broken.head_descends, None);
}
