//! The choices that the menus offer, and how a picked line is read.

use crate::git::branch::{branches_view, indices_view, BranchView, GitBranch};
use crate::git::clock::{age_in_days, days_between, is_stale, valid_timestamp};
use vstd::prelude::*;

verus! {

/// What to delete.
#[derive(Debug)]
pub enum DeleteOption {
    MergedBranches,
    StaleBranches,
    AllBranches,
    SingleBranch,
}

/// Where to go next in the directory tree.
#[derive(Debug)]
pub enum DirectoryChoice {
    SelectDirectory(usize),
    ParentDirectory,
    RootDirectory,
    Exit,
}

/// The age in whole days beyond which a branch counts as stale.
pub const STALE_AFTER_DAYS: i64 = 30;

/// The number of fixed lines that the directory menu shows before the
/// sub-directories.
pub const FIXED_DIRECTORY_LINES: usize = 3;

/// The deletion menu, read: its first four lines are the four policies, in
/// the order of `DeleteOption`; the line after them, and no pick at all,
/// mean that nothing is deleted.
pub open spec fn delete_option_of(selection: Option<usize>) -> Option<DeleteOption> {
    match selection {
        Some(line) => if line == 0 {
            Some(DeleteOption::MergedBranches)
        } else if line == 1 {
            Some(DeleteOption::StaleBranches)
        } else if line == 2 {
            Some(DeleteOption::AllBranches)
        } else if line == 3 {
            Some(DeleteOption::SingleBranch)
        } else {
            None
        },
        None => None,
    }
}

/// The directory menu, read: parent, starting directory and exit come
/// first; line `3 + i` is the sub-directory of index `i`; no pick at all
/// means exit.
pub open spec fn directory_choice_of(selection: Option<usize>) -> DirectoryChoice {
    match selection {
        Some(line) => if line == 0 {
            DirectoryChoice::ParentDirectory
        } else if line == 1 {
            DirectoryChoice::RootDirectory
        } else if line == 2 {
            DirectoryChoice::Exit
        } else {
            DirectoryChoice::SelectDirectory((line - 3) as usize)
        },
        None => DirectoryChoice::Exit,
    }
}

/// Reads the line picked in the deletion menu.
pub fn delete_option_for(selection: Option<usize>) -> (option: Option<DeleteOption>)
    ensures
        option == delete_option_of(selection),
{
    match selection {
        Some(0) => Some(DeleteOption::MergedBranches),
        Some(1) => Some(DeleteOption::StaleBranches),
        Some(2) => Some(DeleteOption::AllBranches),
        Some(3) => Some(DeleteOption::SingleBranch),
        _ => None,
    }
}

/// Reads the line picked in the directory menu.
pub fn directory_choice_for(selection: Option<usize>) -> (choice: DirectoryChoice)
    ensures
        choice == directory_choice_of(selection),
{
    match selection {
        Some(0) => DirectoryChoice::ParentDirectory,
        Some(1) => DirectoryChoice::RootDirectory,
        Some(2) => DirectoryChoice::Exit,
        Some(line) => DirectoryChoice::SelectDirectory(line - FIXED_DIRECTORY_LINES),
        None => DirectoryChoice::Exit,
    }
}

/// Whether the overview lists `branch` among the merged branches.
pub fn shown_as_merged(branch: &GitBranch) -> (shown: bool)
    ensures
        shown == branch@.is_merged,
{
    branch.is_merged
}

/// Whether the overview, drawn at `now`, lists `branch` among the branches
/// that have gone without an update: an unmerged branch whose tip is more
/// than `STALE_AFTER_DAYS` whole days old.
pub fn shown_as_stale(branch: &GitBranch, now: i64) -> (shown: bool)
    requires
        valid_timestamp(now as int),
        branch.wf(),
    ensures
        shown == (!branch@.is_merged && age_in_days(now as int, branch@.last_commit_time) > 30),
{
    !branch.is_merged && days_between(now, branch.last_commit_time) > STALE_AFTER_DAYS
}

/// The positions `0`, `1`, ... below `n`, in order.
pub open spec fn positions(n: nat) -> Seq<int> {
    Seq::new(n, |i: int| i)
}

/// The test of the overview's first group: the branch at `i` is merged.
pub open spec fn merged_at(branches: Seq<BranchView>) -> spec_fn(int) -> bool {
    |i: int| 0 <= i < branches.len() && branches[i].is_merged
}

/// The test of the overview's second group, drawn at `now`: the branch at
/// `i` is not merged and its tip is more than thirty whole days old.
pub open spec fn stale_at(branches: Seq<BranchView>, now: int) -> spec_fn(int) -> bool {
    |i: int|
        0 <= i < branches.len() && !branches[i].is_merged && is_stale(
            now,
            branches[i].last_commit_time,
            30,
        )
}

/// One of the overview's two groups, with the moment at which the second
/// is drawn.
enum OverviewGroup {
    Merged,
    Stale { now: i64 },
}

impl OverviewGroup {
    /// The group's test on the positions of a list.
    spec fn test(self, branches: Seq<BranchView>) -> spec_fn(int) -> bool {
        match self {
            OverviewGroup::Merged => merged_at(branches),
            OverviewGroup::Stale { now } => stale_at(branches, now as int),
        }
    }

    /// The group can be drawn for `branch`: the second needs times that the
    /// calendar can hold.
    spec fn usable_on(self, branch: GitBranch) -> bool {
        match self {
            OverviewGroup::Merged => true,
            OverviewGroup::Stale { now } => valid_timestamp(now as int) && branch.wf(),
        }
    }
}

/// The positions of the branches of one group, in list order.
fn group_positions(which: OverviewGroup, branches: &Vec<GitBranch>) -> (group: Vec<usize>)
    requires
        forall|k: int| 0 <= k < branches@.len() ==> which.usable_on(#[trigger] branches@[k]),
    ensures
        indices_view(group@) == positions(branches@.len()).filter(
            which.test(branches_view(branches@)),
        ),
{
    let mut group: Vec<usize> = Vec::new();
    let ghost test = which.test(branches_view(branches@));
    let mut i: usize = 0;
    proof {
        reveal(Seq::filter);
        assert(positions(0) =~= Seq::empty());
        assert(indices_view(group@) =~= positions(0).filter(test));
    }
    while i < branches.len()
        invariant
            i <= branches@.len(),
            forall|k: int| 0 <= k < branches@.len() ==> which.usable_on(#[trigger] branches@[k]),
            test == which.test(branches_view(branches@)),
            indices_view(group@) == positions(i as nat).filter(test),
        decreases branches@.len() - i,
    {
        let ghost before = indices_view(group@);
        proof {
            reveal(Seq::filter);
            assert(positions((i + 1) as nat).drop_last() =~= positions(i as nat));
            assert(positions((i + 1) as nat).last() == i as int);
        }
        let shown: bool = match which {
            OverviewGroup::Merged => shown_as_merged(&branches[i]),
            OverviewGroup::Stale { now } => shown_as_stale(&branches[i], now),
        };
        if shown {
            group.push(i);
            assert(indices_view(group@) =~= before.push(i as int));
        }
        i += 1;
    }
    group
}

/// The positions of the branches that the overview lists as merged, in list
/// order.
pub fn merged_group(branches: &Vec<GitBranch>) -> (group: Vec<usize>)
    ensures
        indices_view(group@) == positions(branches@.len()).filter(
            merged_at(branches_view(branches@)),
        ),
{
    group_positions(OverviewGroup::Merged, branches)
}

/// The positions of the branches that the overview, drawn at `now`, lists
/// as gone without an update, in list order.
pub fn stale_group(branches: &Vec<GitBranch>, now: i64) -> (group: Vec<usize>)
    requires
        valid_timestamp(now as int),
        forall|k: int| 0 <= k < branches@.len() ==> (#[trigger] branches@[k]).wf(),
    ensures
        indices_view(group@) == positions(branches@.len()).filter(
            stale_at(branches_view(branches@), now as int),
        ),
{
    group_positions(OverviewGroup::Stale { now }, branches)
}

} // verus!
