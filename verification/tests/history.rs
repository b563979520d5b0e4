use branch_sweep::git::{
    BranchManager, DeleteOutcome, DeletionReport, DeletionRun, GitFinder, HeadRef, RawBranch,
    RepoSnapshot,
};
use git2::{BranchType, Commit, Oid, Repository, Signature, Time};
use std::path::PathBuf;
use std::time::{SystemTime, UNIX_EPOCH};

const T0: i64 = 1_700_000_000;

fn fresh_repository(label: &str) -> Repository {
    let nanos = SystemTime::now().duration_since(UNIX_EPOCH).unwrap().as_nanos();
    let path = format!("/tmp/branch_sweep_{}_{}", label, nanos);
    Repository::init(path).unwrap()
}

fn commit_on(
    repo: &Repository,
    reference: &str,
    message: &str,
    parents: &[&Commit<'_>],
    secs: i64,
) -> Oid {
    let who = Signature::new("tester", "tester@example.com", &Time::new(secs, 0)).unwrap();
    let blob = repo.blob(message.as_bytes()).unwrap();
    let mut builder = repo.treebuilder(None).unwrap();
    builder.insert("note.txt", blob, 0o100644).unwrap();
    let tree = repo.find_tree(builder.write().unwrap()).unwrap();
    repo.commit(Some(reference), &who, &who, message, &tree, parents).unwrap()
}

fn read(repo: &Repository) -> RepoSnapshot {
    let head = repo.head().ok();
    let head_id = head.as_ref().and_then(|h| h.peel_to_commit().ok()).map(|c| c.id());
    let state = head.as_ref().map(|h| HeadRef {
        shorthand: h.shorthand().map(String::from),
        is_branch: h.is_branch(),
        has_commit: head_id.is_some(),
    });
    let mut branches = Vec::new();
    for (branch, _) in repo.branches(Some(BranchType::Local)).unwrap().flatten() {
        let name = branch.name().unwrap().unwrap().to_string();
        let head_bytes = head_id.map(|h| h.as_bytes().to_vec());
        branches.push(match branch.get().peel_to_commit() {
            Ok(tip) => RawBranch::with_tip(
                name,
                tip.time().seconds(),
                &tip.id().as_bytes().to_vec(),
                &head_bytes,
                head_id.and_then(|h| repo.graph_descendant_of(h, tip.id()).ok()),
            ),
            Err(_) => RawBranch::without_tip(name),
        });
    }
    RepoSnapshot { head: state, branches }
}

fn listed(repo: &Repository, protected: &[String]) -> Vec<(String, i64, bool)> {
    let manager = BranchManager::new(protected);
    let mut rows: Vec<(String, i64, bool)> = manager
        .list_branches(&read(repo))
        .into_iter()
        .map(|b| (b.name, b.last_commit_time, b.is_merged))
        .collect();
    rows.sort();
    rows
}

#[test]
fn merged_and_diverged_branches_of_a_real_history() {
    let repo = fresh_repository("history");
    let first = commit_on(&repo, "refs/heads/main", "first", &[], T0);
    repo.set_head("refs/heads/main").unwrap();
    let first = repo.find_commit(first).unwrap();
    let side = commit_on(&repo, "refs/heads/feature-a", "side work", &[&first], T0 + 10);
    let side = repo.find_commit(side).unwrap();
    commit_on(&repo, "refs/heads/feature-b", "other work", &[&first], T0 + 20);
    let merge = commit_on(&repo, "refs/heads/main", "merge feature-a", &[&first, &side], T0 + 30);
    repo.branch("at-head", &repo.find_commit(merge).unwrap(), false).unwrap();

    let protected = vec!["main".to_string()];
    assert_eq!(
        listed(&repo, &protected),
        vec![
            ("at-head".to_string(), T0 + 30, true),
            ("feature-a".to_string(), T0 + 10, true),
            ("feature-b".to_string(), T0 + 20, false),
        ]
    );
    let manager = BranchManager::new(&protected);
    assert_eq!(manager.get_current_branch(&read(&repo)), Some("main".to_string()));
    assert_eq!(listed(&repo, &protected), listed(&repo, &protected));
}

#[test]
fn detached_head_has_no_current_branch() {
    let repo = fresh_repository("detached");
    let first = commit_on(&repo, "refs/heads/main", "first", &[], T0);
    let second =
        commit_on(&repo, "refs/heads/main", "second", &[&repo.find_commit(first).unwrap()], T0 + 5);
    repo.branch("old", &repo.find_commit(first).unwrap(), false).unwrap();
    repo.set_head_detached(second).unwrap();

    let manager = BranchManager::new(&[]);
    let shown = read(&repo);
    assert_eq!(manager.get_current_branch(&shown), None);
    assert!(manager.head_is_resolved(&shown));
    assert_eq!(
        listed(&repo, &[]),
        vec![("main".to_string(), T0 + 5, true), ("old".to_string(), T0, true)]
    );
}

#[test]
fn repository_without_commits_lists_nothing() {
    let repo = fresh_repository("unborn");
    let manager = BranchManager::new(&[]);
    let shown = read(&repo);
    assert_eq!(manager.get_current_branch(&shown), None);
    assert!(!manager.head_is_resolved(&shown));
    assert!(manager.list_branches(&shown).is_empty());
}

fn carry_out(repo: &Repository, mut run: DeletionRun) -> DeletionReport {
    while let Some(request) = run.next_request() {
        let removed = repo
            .find_branch(&request.name, BranchType::Local)
            .and_then(|mut branch| branch.delete());
        run.record(match removed {
            Ok(()) => DeleteOutcome::Deleted,
            Err(e) => DeleteOutcome::Failed(e.to_string()),
        });
    }
    assert!(run.finished());
    run.into_report()
}

#[test]
fn batch_goes_on_after_a_branch_that_is_gone() {
    let repo = fresh_repository("batch");
    let first = commit_on(&repo, "refs/heads/main", "first", &[], T0);
    repo.set_head("refs/heads/main").unwrap();
    let first = repo.find_commit(first).unwrap();
    for name in ["a", "b", "c"] {
        repo.branch(name, &first, false).unwrap();
    }
    let manager = BranchManager::new(&["main".to_string()]);
    let shown = read(&repo);
    let mut branches = manager.list_branches(&shown);
    branches.sort_by(|x, y| x.name.cmp(&y.name));
    let run = manager.delete_all_branches(&branches, &manager.get_current_branch(&shown));

    repo.find_branch("b", BranchType::Local).unwrap().delete().unwrap();

    let report = carry_out(&repo, run);
    assert_eq!(report.len(), 3);
    assert_eq!(report.entry(0).name, "a");
    assert!(report.entry(0).outcome.is_deleted());
    assert_eq!(report.entry(1).name, "b");
    assert!(!report.entry(1).outcome.is_deleted());
    assert_eq!(report.entry(2).name, "c");
    assert!(report.entry(2).outcome.is_deleted());
    assert_eq!(report.deleted_names(), vec!["a".to_string(), "c".to_string()]);
    assert!(listed(&repo, &["main".to_string()]).is_empty());
    assert!(repo.find_branch("main", BranchType::Local).is_ok());
}

#[test]
fn directory_with_a_repository_is_recognised() {
    let repo = fresh_repository("finder");
    let root = repo.workdir().unwrap().to_path_buf();
    let finder = GitFinder::new(root.clone());
    assert!(finder.is_git_repo(&root));
    assert!(!finder.is_git_repo(&root.join(".git")));
    assert!(!finder.is_git_repo(&PathBuf::from("/tmp/branch_sweep_no_such_directory")));
}
