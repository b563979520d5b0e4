//! Classification of local branches and the four deletion policies.

use crate::git::clock::{days_between, is_stale, timestamp_is_representable, valid_timestamp};
use crate::git::deletion::{
    report_of, requests_view, DeleteRequest, DeleteRequestView, DeletionRun, OutcomeView,
    ReportEntryView,
};
use vstd::prelude::*;

verus! {

/// A local branch as one classification pass saw it.
#[derive(Debug)]
pub struct GitBranch {
    /// The branch's name.
    pub name: String,
    /// When the commit at the branch's tip was made, in seconds since the
    /// UNIX epoch, UTC.
    pub last_commit_time: i64,
    /// Whether the tip is an ancestor of the head, or the head itself.
    pub is_merged: bool,
}

/// What a `GitBranch` says.
pub struct BranchView {
    pub name: Seq<char>,
    pub last_commit_time: int,
    pub is_merged: bool,
}

impl View for GitBranch {
    type V = BranchView;

    open spec fn view(&self) -> BranchView {
        BranchView {
            name: self.name@,
            last_commit_time: self.last_commit_time as int,
            is_merged: self.is_merged,
        }
    }
}

impl GitBranch {
    /// The commit time stands for a date that the calendar can hold.
    pub open spec fn wf(&self) -> bool {
        valid_timestamp(self.last_commit_time as int)
    }

    /// Tells whether the commit time stands for a date that the calendar can
    /// hold. Every branch that a classification pass lists does.
    pub fn is_well_formed(&self) -> (ok: bool)
        ensures
            ok == self.wf(),
    {
        timestamp_is_representable(self.last_commit_time)
    }
}

/// What the repository gave for one local branch, before classification.
#[derive(Debug)]
pub struct RawBranch {
    /// The branch's name.
    pub name: String,
    /// The time of the commit at the tip, in seconds since the UNIX epoch;
    /// `None` where the tip cannot be resolved to a commit.
    pub tip_time: Option<i64>,
    /// Whether the tip is the very commit that the head points to.
    pub tip_is_head: bool,
    /// The answer of the commit graph to "does the head descend from the
    /// tip?"; `None` where the query failed or was not made.
    pub head_descends: Option<bool>,
}

/// What a `RawBranch` says.
pub struct RawBranchView {
    pub name: Seq<char>,
    pub tip_time: Option<int>,
    pub tip_is_head: bool,
    pub head_descends: Option<bool>,
}

impl View for RawBranch {
    type V = RawBranchView;

    open spec fn view(&self) -> RawBranchView {
        RawBranchView {
            name: self.name@,
            tip_time: match self.tip_time {
                Some(t) => Some(t as int),
                None => None,
            },
            tip_is_head: self.tip_is_head,
            head_descends: self.head_descends,
        }
    }
}

/// Whether a tip with the id `tip` is the very commit that the head leads
/// to; never so where there is no head commit.
pub open spec fn is_head_commit(tip: Seq<u8>, head: Option<Vec<u8>>) -> bool {
    match head {
        Some(id) => id@ == tip,
        None => false,
    }
}

/// Whether two commit ids are the same, byte for byte.
fn same_id(a: &Vec<u8>, b: &Vec<u8>) -> (same: bool)
    ensures
        same == (a@ == b@),
{
    if a.len() != b.len() {
        return false;
    }
    let mut i: usize = 0;
    while i < a.len()
        invariant
            i <= a@.len(),
            a@.len() == b@.len(),
            forall|k: int| 0 <= k < i ==> a@[k] == b@[k],
        decreases a@.len() - i,
    {
        if a[i] != b[i] {
            return false;
        }
        i += 1;
    }
    assert(a@ =~= b@);
    true
}

impl RawBranch {
    /// The record of a branch whose tip is the commit with the id `tip_id`,
    /// made at `tip_time`, read while the head led to the commit `head_id`.
    /// The tip counts as the head exactly when the two ids are the same.
    pub fn with_tip(
        name: String,
        tip_time: i64,
        tip_id: &Vec<u8>,
        head_id: &Option<Vec<u8>>,
        head_descends: Option<bool>,
    ) -> (raw: RawBranch)
        ensures
            raw@ == (RawBranchView {
                name: name@,
                tip_time: Some(tip_time as int),
                tip_is_head: is_head_commit(tip_id@, *head_id),
                head_descends,
            }),
    {
        let tip_is_head = match head_id {
            Some(id) => same_id(id, tip_id),
            None => false,
        };
        RawBranch { name, tip_time: Some(tip_time), tip_is_head, head_descends }
    }

    /// The record of a branch whose tip cannot be resolved to a commit.
    pub fn without_tip(name: String) -> (raw: RawBranch)
        ensures
            raw@ == (RawBranchView {
                name: name@,
                tip_time: None,
                tip_is_head: false,
                head_descends: None,
            }),
    {
        RawBranch { name, tip_time: None, tip_is_head: false, head_descends: None }
    }
}

/// What the repository says of its head.
#[derive(Debug)]
pub struct HeadRef {
    /// The short name of what the head points to, where it has one.
    pub shorthand: Option<String>,
    /// Whether the head points to a local branch; a detached head does not.
    pub is_branch: bool,
    /// Whether the head leads to a commit.
    pub has_commit: bool,
}

/// One look at the repository: its head and its local branches. A snapshot
/// holds plain values and no tie to the repository.
#[derive(Debug)]
pub struct RepoSnapshot {
    /// The head; `None` where the repository has none to show, as before
    /// its first commit.
    pub head: Option<HeadRef>,
    /// The local branches, in the order in which they were read.
    pub branches: Vec<RawBranch>,
}

impl RepoSnapshot {
    /// The name of the branch that is checked out: the head's short name
    /// where the head points to a branch, nothing where it is detached or
    /// missing.
    pub open spec fn current_branch(&self) -> Option<Seq<char>> {
        match self.head {
            Some(head) => if head.is_branch {
                name_view(head.shorthand)
            } else {
                None
            },
            None => None,
        }
    }

    /// Whether there is a head commit to test ancestry against.
    pub open spec fn head_resolved(&self) -> bool {
        match self.head {
            Some(head) => head.has_commit,
            None => false,
        }
    }

    /// The list that one classification pass makes of this snapshot under
    /// the given protected set.
    pub open spec fn classified(&self, protected: Seq<Seq<char>>) -> Seq<BranchView> {
        classify(raws_view(self.branches@), protected, self.head_resolved())
    }
}

/// A list of names, as plain values.
pub open spec fn names_view(names: Seq<String>) -> Seq<Seq<char>> {
    names.map_values(|s: String| s@)
}

/// A list of classified branches, as plain values.
pub open spec fn branches_view(branches: Seq<GitBranch>) -> Seq<BranchView> {
    branches.map_values(|b: GitBranch| b@)
}

/// A list of raw branch records, as plain values.
pub open spec fn raws_view(raws: Seq<RawBranch>) -> Seq<RawBranchView> {
    raws.map_values(|r: RawBranch| r@)
}

/// The merge test: the tip is the head or an ancestor of it. It fails
/// closed: with no head, or no answer from the graph, a branch is not merged.
pub open spec fn merged_into_head(raw: RawBranchView, head_resolved: bool) -> bool {
    head_resolved && (raw.tip_is_head || raw.head_descends == Some(true))
}

/// What classification makes of one raw record: nothing for a protected
/// name, for a tip that cannot be resolved or for a commit time outside the
/// calendar; else the branch with its commit time and merge status.
pub open spec fn classify_one(
    raw: RawBranchView,
    protected: Seq<Seq<char>>,
    head_resolved: bool,
) -> Option<BranchView> {
    if protected.contains(raw.name) {
        None
    } else {
        match raw.tip_time {
            Some(t) => if valid_timestamp(t) {
                Some(
                    BranchView {
                        name: raw.name,
                        last_commit_time: t,
                        is_merged: merged_into_head(raw, head_resolved),
                    },
                )
            } else {
                None
            },
            None => None,
        }
    }
}

/// `classify_one` with the protected set and the head's state fixed.
pub open spec fn classifier(protected: Seq<Seq<char>>, head_resolved: bool) -> spec_fn(
    RawBranchView,
) -> Option<BranchView> {
    |raw: RawBranchView| classify_one(raw, protected, head_resolved)
}

/// The classified list of a snapshot: the records that classification
/// keeps, in the order of the snapshot.
pub open spec fn classify(
    raws: Seq<RawBranchView>,
    protected: Seq<Seq<char>>,
    head_resolved: bool,
) -> Seq<BranchView> {
    raws.filter_map(classifier(protected, head_resolved))
}

/// Whether a bulk policy may pick the branch at all: never a protected one,
/// and the branch that is checked out only where that was allowed.
pub open spec fn eligible(
    branch: BranchView,
    protected: Seq<Seq<char>>,
    current: Option<Seq<char>>,
    allow_current: bool,
) -> bool {
    !protected.contains(branch.name) && (allow_current || current != Some(branch.name))
}

/// The merged-only policy on one branch: a merged branch, removed without
/// force.
pub open spec fn merged_choice(
    protected: Seq<Seq<char>>,
    current: Option<Seq<char>>,
    allow_current: bool,
) -> spec_fn(BranchView) -> Option<DeleteRequestView> {
    |b: BranchView|
        if eligible(b, protected, current, allow_current) && b.is_merged {
            Some(DeleteRequestView { name: b.name, force: false })
        } else {
            None
        }
}

/// The stale-by-age policy on one branch: a branch older than `days` whole
/// days at `now`, merged or not, removed with force.
pub open spec fn stale_choice(
    protected: Seq<Seq<char>>,
    current: Option<Seq<char>>,
    allow_current: bool,
    days: int,
    now: int,
) -> spec_fn(BranchView) -> Option<DeleteRequestView> {
    |b: BranchView|
        if eligible(b, protected, current, allow_current) && is_stale(
            now,
            b.last_commit_time,
            days,
        ) {
            Some(DeleteRequestView { name: b.name, force: true })
        } else {
            None
        }
}

/// The all-branches policy on one branch: removed with force.
pub open spec fn all_choice(
    protected: Seq<Seq<char>>,
    current: Option<Seq<char>>,
    allow_current: bool,
) -> spec_fn(BranchView) -> Option<DeleteRequestView> {
    |b: BranchView|
        if eligible(b, protected, current, allow_current) {
            Some(DeleteRequestView { name: b.name, force: true })
        } else {
            None
        }
}

/// The explicit-set policy on one chosen index: the branch shown at that
/// index, removed with force exactly when it is not merged. A protected
/// branch is passed over.
pub open spec fn selected_choice(branches: Seq<BranchView>, protected: Seq<Seq<char>>) -> spec_fn(
    int,
) -> Option<DeleteRequestView> {
    |i: int|
        if 0 <= i < branches.len() && !protected.contains(branches[i].name) {
            Some(DeleteRequestView { name: branches[i].name, force: !branches[i].is_merged })
        } else {
            None
        }
}

/// The name of the checked-out branch, if there is one, as a plain value.
pub open spec fn name_view(name: Option<String>) -> Option<Seq<char>> {
    match name {
        Some(n) => Some(n@),
        None => None,
    }
}

/// The chosen indices, as plain values.
pub open spec fn indices_view(indices: Seq<usize>) -> Seq<int> {
    indices.map_values(|i: usize| i as int)
}

/// `plan` asks for every branch of the list, in list order and each with
/// the given force flag, and the report of the batch that ends with
/// `outcomes` has, for each branch, an entry with that branch's name and its
/// own outcome.
pub open spec fn covers_every_branch(
    branches: Seq<BranchView>,
    plan: Seq<DeleteRequestView>,
    force: bool,
    outcomes: Seq<OutcomeView>,
) -> bool {
    &&& plan.len() == branches.len()
    &&& report_of(plan, outcomes).len() == branches.len()
    &&& forall|i: int|
        0 <= i < branches.len() ==> {
            &&& (#[trigger] plan[i]) == (DeleteRequestView { name: branches[i].name, force })
            &&& report_of(plan, outcomes)[i] == (ReportEntryView {
                name: branches[i].name,
                outcome: outcomes[i],
            })
        }
}

/// No request of `plan` names a protected branch.
pub open spec fn spares_protected(plan: Seq<DeleteRequestView>, protected: Seq<Seq<char>>) -> bool {
    forall|k: int| 0 <= k < plan.len() ==> !protected.contains(#[trigger] plan[k].name)
}

/// A request that may be missing, as a plain value.
pub open spec fn request_view(request: Option<DeleteRequest>) -> Option<DeleteRequestView> {
    match request {
        Some(r) => Some(r@),
        None => None,
    }
}

/// One of the three bulk policies, with what it needs to decide.
enum BulkPolicy {
    Merged,
    Stale { days: i64, now: i64 },
    All,
}

impl BulkPolicy {
    /// What the policy asks for one branch.
    spec fn choice(
        self,
        protected: Seq<Seq<char>>,
        current: Option<Seq<char>>,
        allow_current: bool,
    ) -> spec_fn(BranchView) -> Option<DeleteRequestView> {
        match self {
            BulkPolicy::Merged => merged_choice(protected, current, allow_current),
            BulkPolicy::Stale { days, now } => stale_choice(
                protected,
                current,
                allow_current,
                days as int,
                now as int,
            ),
            BulkPolicy::All => all_choice(protected, current, allow_current),
        }
    }

    /// The policy can decide on `branch`: the stale-by-age policy needs
    /// times that the calendar can hold.
    spec fn usable_on(self, branch: GitBranch) -> bool {
        match self {
            BulkPolicy::Stale { days, now } => valid_timestamp(now as int) && branch.wf(),
            _ => true,
        }
    }

    /// Whatever the policy, its plan holds no protected branch.
    proof fn lemma_choice_spares_protected(
        self,
        branches: Seq<BranchView>,
        protected: Seq<Seq<char>>,
        current: Option<Seq<char>>,
        allow_current: bool,
    )
        ensures
            spares_protected(
                branches.filter_map(self.choice(protected, current, allow_current)),
                protected,
            ),
    {
        match self {
            BulkPolicy::Stale { days, now } => lemma_policies_spare_protected(
                branches,
                Seq::empty(),
                protected,
                current,
                allow_current,
                days as int,
                now as int,
            ),
            _ => lemma_policies_spare_protected(
                branches,
                Seq::empty(),
                protected,
                current,
                allow_current,
                0,
                0,
            ),
        }
    }
}

/// One step of a pass over `s`: the elements kept among the first `i + 1`
/// are those kept among the first `i`, and after them what `f` makes of the
/// element at `i`, if anything.
proof fn lemma_filter_map_next<A, B>(s: Seq<A>, f: spec_fn(A) -> Option<B>, i: int)
    requires
        0 <= i < s.len(),
    ensures
        s.take(i + 1).filter_map(f) == match f(s[i]) {
            Some(made) => s.take(i).filter_map(f).push(made),
            None => s.take(i).filter_map(f),
        },
{
    assert(s.take(i + 1).drop_last() =~= s.take(i));
    assert(s.take(i + 1).last() == s[i]);
    match f(s[i]) {
        Some(made) => {
            assert(s.take(i).filter_map(f) + seq![made] =~= s.take(i).filter_map(f).push(made));
        },
        None => {},
    }
}

/// The protected set and the rule on the checked-out branch, fixed for one
/// run.
pub struct BranchManager {
    protected_branches: Vec<String>,
    allow_current: bool,
}

impl BranchManager {
    /// The names that are never listed and never removed.
    pub closed spec fn protected(&self) -> Seq<Seq<char>> {
        names_view(self.protected_branches@)
    }

    /// Whether the bulk policies may pick the branch that is checked out.
    pub closed spec fn allows_current(&self) -> bool {
        self.allow_current
    }

    /// A manager that protects the given names. The bulk policies leave the
    /// checked-out branch alone until `allow_current_branch` says otherwise.
    pub fn new(protected_branches: &[String]) -> (manager: BranchManager)
        ensures
            manager.protected() == names_view(protected_branches@),
            !manager.allows_current(),
    {
        let mut names: Vec<String> = Vec::new();
        let mut i: usize = 0;
        while i < protected_branches.len()
            invariant
                i <= protected_branches@.len(),
                names@ == protected_branches@.take(i as int),
            decreases protected_branches@.len() - i,
        {
            names.push(protected_branches[i].clone());
            assert(names@ =~= protected_branches@.take(i + 1));
            i += 1;
        }
        assert(names@ =~= protected_branches@);
        BranchManager { protected_branches: names, allow_current: false }
    }

    /// Sets whether the bulk policies may pick the checked-out branch.
    pub fn allow_current_branch(&mut self, allow: bool)
        ensures
            final(self).protected() == old(self).protected(),
            final(self).allows_current() == allow,
    {
        self.allow_current = allow;
    }

    /// Whether `branch_name` is in the protected set.
    pub fn is_protected(&self, branch_name: &String) -> (yes: bool)
        ensures
            yes == self.protected().contains(branch_name@),
    {
        let mut i: usize = 0;
        while i < self.protected_branches.len()
            invariant
                i <= self.protected_branches@.len(),
                forall|j: int| 0 <= j < i ==> self.protected()[j] != branch_name@,
            decreases self.protected_branches@.len() - i,
        {
            if self.protected_branches[i] == *branch_name {
                assert(self.protected()[i as int] == branch_name@);
                return true;
            }
            i += 1;
        }
        false
    }

    /// The merge test on one raw record.
    pub fn is_branch_merged(&self, raw: &RawBranch, head_resolved: bool) -> (merged: bool)
        ensures
            merged == merged_into_head(raw@, head_resolved),
    {
        if !head_resolved {
            false
        } else if raw.tip_is_head {
            true
        } else {
            match raw.head_descends {
                Some(answer) => answer,
                None => false,
            }
        }
    }

    /// The name of the branch that is checked out in `snapshot`, or `None`
    /// where the head is detached or missing.
    pub fn get_current_branch(&self, snapshot: &RepoSnapshot) -> (name: Option<String>)
        ensures
            name_view(name) == snapshot.current_branch(),
    {
        match &snapshot.head {
            Some(head) => if head.is_branch {
                match &head.shorthand {
                    Some(short) => Some(short.clone()),
                    None => None,
                }
            } else {
                None
            },
            None => None,
        }
    }

    /// Whether `snapshot` has a head commit to test ancestry against.
    pub fn head_is_resolved(&self, snapshot: &RepoSnapshot) -> (resolved: bool)
        ensures
            resolved == snapshot.head_resolved(),
    {
        match &snapshot.head {
            Some(head) => head.has_commit,
            None => false,
        }
    }

    /// One classification pass over a snapshot. Protected branches and
    /// branches without a usable tip are left out; the others come in the
    /// order of the snapshot, the checked-out branch among them, each with
    /// its merge status against the snapshot's head.
    pub fn list_branches(&self, snapshot: &RepoSnapshot) -> (branches: Vec<GitBranch>)
        ensures
            branches_view(branches@) == snapshot.classified(self.protected()),
            forall|k: int| 0 <= k < branches@.len() ==> (#[trigger] branches@[k]).wf(),
            forall|k: int|
                0 <= k < branches@.len() ==> !self.protected().contains(
                    (#[trigger] branches@[k]).name@,
                ),
    {
        let raws = &snapshot.branches;
        let head_resolved = self.head_is_resolved(snapshot);
        let mut branches: Vec<GitBranch> = Vec::new();
        let ghost f = classifier(self.protected(), head_resolved);
        let ghost all = raws_view(raws@);
        let mut i: usize = 0;
        assert(branches_view(branches@) =~= all.take(0).filter_map(f));
        while i < raws.len()
            invariant
                i <= raws@.len(),
                all == raws_view(raws@),
                f == classifier(self.protected(), head_resolved),
                branches_view(branches@) == all.take(i as int).filter_map(f),
                forall|k: int| 0 <= k < branches@.len() ==> (#[trigger] branches@[k]).wf(),
                forall|k: int|
                    0 <= k < branches@.len() ==> !self.protected().contains(
                        (#[trigger] branches@[k]).name@,
                    ),
            decreases raws@.len() - i,
        {
            let raw = &raws[i];
            let ghost before = branches_view(branches@);
            proof {
                lemma_filter_map_next(all, f, i as int);
            }
            if !self.is_protected(&raw.name) {
                match raw.tip_time {
                    Some(t) => {
                        if timestamp_is_representable(t) {
                            let is_merged = self.is_branch_merged(raw, head_resolved);
                            let branch = GitBranch {
                                name: raw.name.clone(),
                                last_commit_time: t,
                                is_merged,
                            };
                            branches.push(branch);
                            assert(branches_view(branches@) =~= before.push(branch@));
                        }
                    },
                    None => {},
                }
            }
            i += 1;
        }
        assert(all.take(i as int) =~= all);
        branches
    }

    /// Whether a bulk policy may pick `branch` while `current` is checked
    /// out.
    pub fn may_pick(&self, branch: &GitBranch, current: &Option<String>) -> (ok: bool)
        ensures
            ok == eligible(branch@, self.protected(), name_view(*current), self.allows_current()),
    {
        if self.is_protected(&branch.name) {
            false
        } else if self.allow_current {
            true
        } else {
            match current {
                Some(name) => !(*name == branch.name),
                None => true,
            }
        }
    }

    /// What `policy` asks for `branch`: a request, or nothing.
    fn decide(&self, policy: &BulkPolicy, branch: &GitBranch, current: &Option<String>) -> (request:
        Option<DeleteRequest>)
        requires
            policy.usable_on(*branch),
        ensures
            request_view(request) == policy.choice(
                self.protected(),
                name_view(*current),
                self.allows_current(),
            )(branch@),
    {
        if !self.may_pick(branch, current) {
            return None;
        }
        let force: bool = match policy {
            BulkPolicy::Merged => {
                if !branch.is_merged {
                    return None;
                }
                false
            },
            BulkPolicy::Stale { days, now } => {
                if !(days_between(*now, branch.last_commit_time) > *days) {
                    return None;
                }
                true
            },
            BulkPolicy::All => true,
        };
        Some(DeleteRequest { name: branch.name.clone(), force })
    }

    /// Starts a batch with what `policy` asks for the branches of the list,
    /// in list order.
    fn start_batch(&self, policy: BulkPolicy, branches: &Vec<GitBranch>, current: &Option<String>) -> (run:
        DeletionRun)
        requires
            forall|k: int| 0 <= k < branches@.len() ==> policy.usable_on(#[trigger] branches@[k]),
        ensures
            run.wf(),
            run.plan() == branches_view(branches@).filter_map(
                policy.choice(self.protected(), name_view(*current), self.allows_current()),
            ),
            run.outcomes() == Seq::<OutcomeView>::empty(),
            spares_protected(run.plan(), self.protected()),
    {
        let mut plan: Vec<DeleteRequest> = Vec::new();
        let ghost f = policy.choice(self.protected(), name_view(*current), self.allows_current());
        let ghost all = branches_view(branches@);
        let mut i: usize = 0;
        assert(requests_view(plan@) =~= all.take(0).filter_map(f));
        while i < branches.len()
            invariant
                i <= branches@.len(),
                all == branches_view(branches@),
                f == policy.choice(self.protected(), name_view(*current), self.allows_current()),
                requests_view(plan@) == all.take(i as int).filter_map(f),
                forall|k: int|
                    0 <= k < branches@.len() ==> policy.usable_on(#[trigger] branches@[k]),
            decreases branches@.len() - i,
        {
            let ghost before = requests_view(plan@);
            proof {
                lemma_filter_map_next(all, f, i as int);
            }
            match self.decide(&policy, &branches[i], current) {
                Some(request) => {
                    plan.push(request);
                    assert(requests_view(plan@) =~= before.push(request@));
                },
                None => {},
            }
            i += 1;
        }
        proof {
            assert(all.take(i as int) =~= all);
            policy.lemma_choice_spares_protected(
                all,
                self.protected(),
                name_view(*current),
                self.allows_current(),
            );
        }
        DeletionRun::new(plan)
    }

    /// Starts a batch under the merged-only policy: every merged branch that
    /// may be picked, in list order, each removed without force.
    pub fn delete_merged_branches(&self, branches: &Vec<GitBranch>, current: &Option<String>) -> (run:
        DeletionRun)
        ensures
            run.wf(),
            run.plan() == branches_view(branches@).filter_map(
                merged_choice(self.protected(), name_view(*current), self.allows_current()),
            ),
            run.outcomes() == Seq::<OutcomeView>::empty(),
            spares_protected(run.plan(), self.protected()),
    {
        self.start_batch(BulkPolicy::Merged, branches, current)
    }

    /// Starts a batch under the stale-by-age policy as of `now`, the moment
    /// that the caller read from its clock: every branch that may be picked
    /// and whose tip is older than `days` whole days, in list order, each
    /// removed with force. A branch of exactly `days` days stays.
    pub fn delete_stale_branches(
        &self,
        branches: &Vec<GitBranch>,
        current: &Option<String>,
        days: i64,
        now: i64,
    ) -> (run: DeletionRun)
        requires
            valid_timestamp(now as int),
            forall|k: int| 0 <= k < branches@.len() ==> (#[trigger] branches@[k]).wf(),
        ensures
            run.wf(),
            run.plan() == branches_view(branches@).filter_map(
                stale_choice(
                    self.protected(),
                    name_view(*current),
                    self.allows_current(),
                    days as int,
                    now as int,
                ),
            ),
            run.outcomes() == Seq::<OutcomeView>::empty(),
            spares_protected(run.plan(), self.protected()),
    {
        self.start_batch(BulkPolicy::Stale { days, now }, branches, current)
    }

    /// Starts a batch under the all-branches policy: every branch that may
    /// be picked, in list order, each removed with force.
    pub fn delete_all_branches(&self, branches: &Vec<GitBranch>, current: &Option<String>) -> (run:
        DeletionRun)
        ensures
            run.wf(),
            run.plan() == branches_view(branches@).filter_map(
                all_choice(self.protected(), name_view(*current), self.allows_current()),
            ),
            run.outcomes() == Seq::<OutcomeView>::empty(),
            spares_protected(run.plan(), self.protected()),
    {
        self.start_batch(BulkPolicy::All, branches, current)
    }

    /// Starts a batch under the explicit-set policy: the branches at the
    /// chosen indices of the list that was shown, in the order chosen. A
    /// merged branch is removed without force, an unmerged one with force; a
    /// protected one is passed over. The checked-out branch may be chosen.
    pub fn delete_selected_branches(&self, branches: &Vec<GitBranch>, indices: &Vec<usize>) -> (run:
        DeletionRun)
        requires
            forall|k: int| 0 <= k < indices@.len() ==> (#[trigger] indices@[k]) < branches@.len(),
        ensures
            run.wf(),
            run.plan() == indices_view(indices@).filter_map(
                selected_choice(branches_view(branches@), self.protected()),
            ),
            run.outcomes() == Seq::<OutcomeView>::empty(),
            spares_protected(run.plan(), self.protected()),
    {
        let mut plan: Vec<DeleteRequest> = Vec::new();
        let ghost f = selected_choice(branches_view(branches@), self.protected());
        let ghost all = indices_view(indices@);
        let mut i: usize = 0;
        assert(requests_view(plan@) =~= all.take(0).filter_map(f));
        while i < indices.len()
            invariant
                i <= indices@.len(),
                all == indices_view(indices@),
                f == selected_choice(branches_view(branches@), self.protected()),
                requests_view(plan@) == all.take(i as int).filter_map(f),
                forall|k: int|
                    0 <= k < indices@.len() ==> (#[trigger] indices@[k]) < branches@.len(),
            decreases indices@.len() - i,
        {
            let index: usize = indices[i];
            let branch = &branches[index];
            let ghost before = requests_view(plan@);
            proof {
                lemma_filter_map_next(all, f, i as int);
                assert(branches_view(branches@)[index as int] == branch@);
            }
            if !self.is_protected(&branch.name) {
                let request = DeleteRequest { name: branch.name.clone(), force: !branch.is_merged };
                plan.push(request);
                assert(requests_view(plan@) =~= before.push(request@));
            }
            i += 1;
        }
        proof {
            assert(all.take(i as int) =~= all);
            lemma_policies_spare_protected(
                branches_view(branches@),
                all,
                self.protected(),
                None,
                true,
                0,
                0,
            );
        }
        DeletionRun::new(plan)
    }
}

/// An element is in `s.filter_map(f)` exactly when `f` makes it of some
/// element of `s`.
pub proof fn lemma_filter_map_members<A, B>(s: Seq<A>, f: spec_fn(A) -> Option<B>, elt: B)
    ensures
        s.filter_map(f).contains(elt) <==> exists|t: A| #[trigger] s.contains(t) && f(t) == Some(elt),
    decreases s.len(),
{
    if s.filter_map(f).contains(elt) {
        s.lemma_filter_map_contains(f, elt);
    }
    if exists|t: A| #[trigger] s.contains(t) && f(t) == Some(elt) {
        let t = choose|t: A| #[trigger] s.contains(t) && f(t) == Some(elt);
        let j = choose|j: int| 0 <= j < s.len() && s[j] == t;
        let rest = s.drop_last();
        if j == s.len() - 1 {
            let made = rest.filter_map(f) + seq![elt];
            assert(s.filter_map(f) == made);
            assert(made[made.len() - 1] == elt);
        } else {
            assert(rest[j] == t);
            assert(rest.contains(t));
            lemma_filter_map_members(rest, f, elt);
            let k = choose|k: int| 0 <= k < rest.filter_map(f).len() && rest.filter_map(f)[k] == elt;
            match f(s.last()) {
                Some(other) => {
                    assert((rest.filter_map(f) + seq![other])[k] == elt);
                },
                None => {},
            }
        }
    }
}

/// No protected branch is ever in a classified list, whatever the snapshot
/// holds.
pub proof fn lemma_classified_never_protected(
    raws: Seq<RawBranchView>,
    protected: Seq<Seq<char>>,
    head_resolved: bool,
)
    ensures
        forall|k: int|
            0 <= k < classify(raws, protected, head_resolved).len() ==> !protected.contains(
                (#[trigger] classify(raws, protected, head_resolved)[k]).name,
            ),
{
    let listed = classify(raws, protected, head_resolved);
    assert forall|k: int| 0 <= k < listed.len() implies !protected.contains(
        (#[trigger] listed[k]).name,
    ) by {
        assert(listed.contains(listed[k]));
        raws.lemma_filter_map_contains(classifier(protected, head_resolved), listed[k]);
    }
}

/// A branch is listed as merged only where there is a head and the commit
/// graph said, for a record of that name, that the tip is the head or an
/// ancestor of it. A failed query never makes a branch merged.
pub proof fn lemma_merged_only_by_ancestry(
    raws: Seq<RawBranchView>,
    protected: Seq<Seq<char>>,
    head_resolved: bool,
    k: int,
)
    requires
        0 <= k < classify(raws, protected, head_resolved).len(),
    ensures
        classify(raws, protected, head_resolved)[k].is_merged <==> head_resolved && exists|j: int|
            0 <= j < raws.len() && classify_one(#[trigger] raws[j], protected, head_resolved)
                == Some(classify(raws, protected, head_resolved)[k]) && (raws[j].tip_is_head
                || raws[j].head_descends == Some(true)),
        exists|j: int|
            0 <= j < raws.len() && classify_one(#[trigger] raws[j], protected, head_resolved)
                == Some(classify(raws, protected, head_resolved)[k]),
{
    let listed = classify(raws, protected, head_resolved);
    assert(listed.contains(listed[k]));
    raws.lemma_filter_map_contains(classifier(protected, head_resolved), listed[k]);
    let t = choose|t: RawBranchView| #[trigger]
        raws.contains(t) && classifier(protected, head_resolved)(t) == Some(listed[k]);
    let j = choose|j: int| 0 <= j < raws.len() && raws[j] == t;
    assert(classify_one(raws[j], protected, head_resolved) == Some(listed[k]));
}

/// Classification depends on the snapshot alone: two passes over snapshots
/// that hold the same records, in whatever order, list the same branches
/// with the same merge status.
pub proof fn lemma_classification_repeatable(
    first: Seq<RawBranchView>,
    second: Seq<RawBranchView>,
    protected: Seq<Seq<char>>,
    head_resolved: bool,
)
    requires
        forall|r: RawBranchView| first.contains(r) <==> second.contains(r),
    ensures
        first == second ==> classify(first, protected, head_resolved) == classify(
            second,
            protected,
            head_resolved,
        ),
        forall|b: BranchView|
            classify(first, protected, head_resolved).contains(b) <==> classify(
                second,
                protected,
                head_resolved,
            ).contains(b),
{
    let f = classifier(protected, head_resolved);
    assert forall|b: BranchView|
        classify(first, protected, head_resolved).contains(b) <==> classify(
            second,
            protected,
            head_resolved,
        ).contains(b) by {
        lemma_filter_map_members(first, f, b);
        lemma_filter_map_members(second, f, b);
        if exists|t: RawBranchView| #[trigger] first.contains(t) && f(t) == Some(b) {
            let t = choose|t: RawBranchView| #[trigger] first.contains(t) && f(t) == Some(b);
            assert(second.contains(t));
        }
        if exists|t: RawBranchView| #[trigger] second.contains(t) && f(t) == Some(b) {
            let t = choose|t: RawBranchView| #[trigger] second.contains(t) && f(t) == Some(b);
            assert(first.contains(t));
        }
    }
}

/// No policy ever asks for the removal of a protected branch, whatever list
/// it is given: not the three bulk policies, and not an explicit choice.
pub proof fn lemma_policies_spare_protected(
    branches: Seq<BranchView>,
    indices: Seq<int>,
    protected: Seq<Seq<char>>,
    current: Option<Seq<char>>,
    allow_current: bool,
    days: int,
    now: int,
)
    ensures
        spares_protected(
            branches.filter_map(merged_choice(protected, current, allow_current)),
            protected,
        ),
        spares_protected(
            branches.filter_map(stale_choice(protected, current, allow_current, days, now)),
            protected,
        ),
        spares_protected(branches.filter_map(all_choice(protected, current, allow_current)), protected),
        spares_protected(indices.filter_map(selected_choice(branches, protected)), protected),
{
    let merged = branches.filter_map(merged_choice(protected, current, allow_current));
    assert forall|k: int| 0 <= k < merged.len() implies !protected.contains(
        #[trigger] merged[k].name,
    ) by {
        assert(merged.contains(merged[k]));
        branches.lemma_filter_map_contains(
            merged_choice(protected, current, allow_current),
            merged[k],
        );
    }
    let stale = branches.filter_map(stale_choice(protected, current, allow_current, days, now));
    assert forall|k: int| 0 <= k < stale.len() implies !protected.contains(
        #[trigger] stale[k].name,
    ) by {
        assert(stale.contains(stale[k]));
        branches.lemma_filter_map_contains(
            stale_choice(protected, current, allow_current, days, now),
            stale[k],
        );
    }
    let all = branches.filter_map(all_choice(protected, current, allow_current));
    assert forall|k: int| 0 <= k < all.len() implies !protected.contains(#[trigger] all[k].name) by {
        assert(all.contains(all[k]));
        branches.lemma_filter_map_contains(all_choice(protected, current, allow_current), all[k]);
    }
    let chosen = indices.filter_map(selected_choice(branches, protected));
    assert forall|k: int| 0 <= k < chosen.len() implies !protected.contains(
        #[trigger] chosen[k].name,
    ) by {
        assert(chosen.contains(chosen[k]));
        indices.lemma_filter_map_contains(selected_choice(branches, protected), chosen[k]);
    }
}

/// What each policy picks from a classified list, branch by branch: the
/// merged-only policy the merged branches, the stale-by-age policy the
/// branches older than the threshold, the all-branches policy every one;
/// each only among the branches that may be picked.
pub proof fn lemma_policy_members(
    branches: Seq<BranchView>,
    protected: Seq<Seq<char>>,
    current: Option<Seq<char>>,
    allow_current: bool,
    days: int,
    now: int,
    request: DeleteRequestView,
)
    ensures
        branches.filter_map(merged_choice(protected, current, allow_current)).contains(request)
            <==> !request.force && exists|b: BranchView| #[trigger]
            branches.contains(b) && b.name == request.name && b.is_merged && eligible(
                b,
                protected,
                current,
                allow_current,
            ),
        branches.filter_map(stale_choice(protected, current, allow_current, days, now)).contains(
            request,
        ) <==> request.force && exists|b: BranchView| #[trigger]
            branches.contains(b) && b.name == request.name && is_stale(
                now,
                b.last_commit_time,
                days,
            ) && eligible(b, protected, current, allow_current),
        branches.filter_map(all_choice(protected, current, allow_current)).contains(request)
            <==> request.force && exists|b: BranchView| #[trigger]
            branches.contains(b) && b.name == request.name && eligible(
                b,
                protected,
                current,
                allow_current,
            ),
{
    let m = merged_choice(protected, current, allow_current);
    lemma_filter_map_members(branches, m, request);
    if exists|t: BranchView| #[trigger] branches.contains(t) && m(t) == Some(request) {
        let t = choose|t: BranchView| #[trigger] branches.contains(t) && m(t) == Some(request);
        assert(branches.contains(t) && t.name == request.name && t.is_merged);
    }
    if !request.force && exists|b: BranchView| #[trigger]
        branches.contains(b) && b.name == request.name && b.is_merged && eligible(
            b,
            protected,
            current,
            allow_current,
        ) {
        let b = choose|b: BranchView| #[trigger]
            branches.contains(b) && b.name == request.name && b.is_merged && eligible(
                b,
                protected,
                current,
                allow_current,
            );
        assert(branches.contains(b) && m(b) == Some(request));
    }
    let s = stale_choice(protected, current, allow_current, days, now);
    lemma_filter_map_members(branches, s, request);
    if exists|t: BranchView| #[trigger] branches.contains(t) && s(t) == Some(request) {
        let t = choose|t: BranchView| #[trigger] branches.contains(t) && s(t) == Some(request);
        assert(branches.contains(t) && t.name == request.name && is_stale(
            now,
            t.last_commit_time,
            days,
        ));
    }
    if request.force && exists|b: BranchView| #[trigger]
        branches.contains(b) && b.name == request.name && is_stale(now, b.last_commit_time, days)
            && eligible(b, protected, current, allow_current) {
        let b = choose|b: BranchView| #[trigger]
            branches.contains(b) && b.name == request.name && is_stale(
                now,
                b.last_commit_time,
                days,
            ) && eligible(b, protected, current, allow_current);
        assert(branches.contains(b) && s(b) == Some(request));
    }
    let a = all_choice(protected, current, allow_current);
    lemma_filter_map_members(branches, a, request);
    if exists|t: BranchView| #[trigger] branches.contains(t) && a(t) == Some(request) {
        let t = choose|t: BranchView| #[trigger] branches.contains(t) && a(t) == Some(request);
        assert(branches.contains(t) && t.name == request.name);
    }
    if request.force && exists|b: BranchView| #[trigger]
        branches.contains(b) && b.name == request.name && eligible(
            b,
            protected,
            current,
            allow_current,
        ) {
        let b = choose|b: BranchView| #[trigger]
            branches.contains(b) && b.name == request.name && eligible(
                b,
                protected,
                current,
                allow_current,
            );
        assert(branches.contains(b) && a(b) == Some(request));
    }
}

/// Where `f` makes something of every element of `s`, nothing is left out:
/// `s.filter_map(f)` is as long as `s` and holds, at each place, what `f`
/// makes of the element at that place.
pub proof fn lemma_filter_map_keeps_all<A, B>(s: Seq<A>, f: spec_fn(A) -> Option<B>)
    requires
        forall|i: int| 0 <= i < s.len() ==> f(#[trigger] s[i]).is_some(),
    ensures
        s.filter_map(f).len() == s.len(),
        forall|i: int| 0 <= i < s.len() ==> Some(#[trigger] s.filter_map(f)[i]) == f(s[i]),
    decreases s.len(),
{
    if s.len() > 0 {
        let rest = s.drop_last();
        assert forall|i: int| 0 <= i < rest.len() implies f(#[trigger] rest[i]).is_some() by {
            assert(rest[i] == s[i]);
        }
        lemma_filter_map_keeps_all(rest, f);
        let made = f(s.last()).unwrap();
        assert(s.filter_map(f) == rest.filter_map(f) + seq![made]);
        assert forall|i: int| 0 <= i < s.len() implies Some(#[trigger] s.filter_map(f)[i]) == f(
            s[i],
        ) by {
            if i < rest.len() {
                assert(rest[i] == s[i]);
                assert(s.filter_map(f)[i] == rest.filter_map(f)[i]);
            }
        }
    }
}

/// A bulk batch is never cut short. Take a list of branches that the
/// policies may pick, and any outcomes, one for each branch:
/// the all-branches policy plans every branch, in list order and with
/// force; so does the stale-by-age policy where every branch is stale at
/// `now`; the merged-only policy plans every branch without force where
/// every branch is merged. The report of the finished batch then has one
/// entry for each branch, in list order, with that branch's own outcome: a
/// failure is kept with its reason and stops nothing after it.
pub proof fn lemma_bulk_batch_covers_every_pick(
    branches: Seq<BranchView>,
    protected: Seq<Seq<char>>,
    current: Option<Seq<char>>,
    allow_current: bool,
    days: int,
    now: int,
    outcomes: Seq<OutcomeView>,
)
    requires
        outcomes.len() == branches.len(),
        forall|i: int|
            0 <= i < branches.len() ==> eligible(
                #[trigger] branches[i],
                protected,
                current,
                allow_current,
            ),
    ensures
        covers_every_branch(
            branches,
            branches.filter_map(all_choice(protected, current, allow_current)),
            true,
            outcomes,
        ),
        (forall|i: int|
            0 <= i < branches.len() ==> is_stale(now, (#[trigger] branches[i]).last_commit_time, days))
            ==> covers_every_branch(
            branches,
            branches.filter_map(stale_choice(protected, current, allow_current, days, now)),
            true,
            outcomes,
        ),
        (forall|i: int| 0 <= i < branches.len() ==> (#[trigger] branches[i]).is_merged)
            ==> covers_every_branch(
            branches,
            branches.filter_map(merged_choice(protected, current, allow_current)),
            false,
            outcomes,
        ),
{
    lemma_filter_map_keeps_all(branches, all_choice(protected, current, allow_current));
    if forall|i: int|
        0 <= i < branches.len() ==> is_stale(now, (#[trigger] branches[i]).last_commit_time, days) {
        lemma_filter_map_keeps_all(
            branches,
            stale_choice(protected, current, allow_current, days, now),
        );
    }
    if forall|i: int| 0 <= i < branches.len() ==> (#[trigger] branches[i]).is_merged {
        lemma_filter_map_keeps_all(branches, merged_choice(protected, current, allow_current));
    }
}

} // verus!
