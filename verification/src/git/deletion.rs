//! The record of one deletion batch.
//!
//! A batch is a plan of requests, attempted in order. The caller removes one
//! branch at a time and reports the outcome; a failed removal is recorded and
//! the batch goes on with the next request.

use vstd::prelude::*;

verus! {

/// One branch to remove, and whether removal is forced.
pub struct DeleteRequest {
    pub name: String,
    pub force: bool,
}

/// What a `DeleteRequest` says.
pub struct DeleteRequestView {
    pub name: Seq<char>,
    pub force: bool,
}

impl View for DeleteRequest {
    type V = DeleteRequestView;

    open spec fn view(&self) -> DeleteRequestView {
        DeleteRequestView { name: self.name@, force: self.force }
    }
}

/// How the removal of one branch ended.
pub enum DeleteOutcome {
    Deleted,
    Failed(String),
}

/// What a `DeleteOutcome` says.
pub enum OutcomeView {
    Deleted,
    Failed(Seq<char>),
}

impl View for DeleteOutcome {
    type V = OutcomeView;

    open spec fn view(&self) -> OutcomeView {
        match self {
            DeleteOutcome::Deleted => OutcomeView::Deleted,
            DeleteOutcome::Failed(reason) => OutcomeView::Failed(reason@),
        }
    }
}

impl DeleteOutcome {
    /// Whether the branch was removed.
    pub fn is_deleted(&self) -> (yes: bool)
        ensures
            yes == (self@ == OutcomeView::Deleted),
    {
        match self {
            DeleteOutcome::Deleted => true,
            DeleteOutcome::Failed(_) => false,
        }
    }

    /// A copy of this outcome.
    pub fn duplicate(&self) -> (copy: DeleteOutcome)
        ensures
            copy@ == self@,
    {
        match self {
            DeleteOutcome::Deleted => DeleteOutcome::Deleted,
            DeleteOutcome::Failed(reason) => DeleteOutcome::Failed(reason.clone()),
        }
    }
}

/// One line of a report: a branch and how its removal ended.
pub struct ReportEntry {
    pub name: String,
    pub outcome: DeleteOutcome,
}

/// What a `ReportEntry` says.
pub struct ReportEntryView {
    pub name: Seq<char>,
    pub outcome: OutcomeView,
}

impl View for ReportEntry {
    type V = ReportEntryView;

    open spec fn view(&self) -> ReportEntryView {
        ReportEntryView { name: self.name@, outcome: self.outcome@ }
    }
}

/// The requests of a plan, as plain values.
pub open spec fn requests_view(plan: Seq<DeleteRequest>) -> Seq<DeleteRequestView> {
    plan.map_values(|r: DeleteRequest| r@)
}

/// The entries of a report, as plain values.
pub open spec fn entries_view(entries: Seq<ReportEntry>) -> Seq<ReportEntryView> {
    entries.map_values(|e: ReportEntry| e@)
}

/// The outcomes of a batch, as plain values.
pub open spec fn outcomes_view(outcomes: Seq<DeleteOutcome>) -> Seq<OutcomeView> {
    outcomes.map_values(|o: DeleteOutcome| o@)
}

/// The report that a batch over `plan` ends with when its removals end as
/// `outcomes` say: one entry for each request, in the order of the plan.
pub open spec fn report_of(plan: Seq<DeleteRequestView>, outcomes: Seq<OutcomeView>) -> Seq<
    ReportEntryView,
>
    recommends
        outcomes.len() <= plan.len(),
{
    Seq::new(outcomes.len(), |i: int| ReportEntryView { name: plan[i].name, outcome: outcomes[i] })
}

/// The names in `entries` whose removal succeeded, in order.
pub open spec fn deleted_names_of(entries: Seq<ReportEntryView>) -> Seq<Seq<char>>
    decreases entries.len(),
{
    if entries.len() == 0 {
        Seq::empty()
    } else if entries.last().outcome == OutcomeView::Deleted {
        deleted_names_of(entries.drop_last()).push(entries.last().name)
    } else {
        deleted_names_of(entries.drop_last())
    }
}

/// The outcome of every attempted removal, in the order of the attempts.
pub struct DeletionReport {
    entries: Vec<ReportEntry>,
}

impl View for DeletionReport {
    type V = Seq<ReportEntryView>;

    closed spec fn view(&self) -> Seq<ReportEntryView> {
        entries_view(self.entries@)
    }
}

impl DeletionReport {
    /// The number of branches that were attempted.
    pub fn len(&self) -> (n: usize)
        ensures
            n == self@.len(),
    {
        self.entries.len()
    }

    /// The entry of the attempt of index `i`.
    pub fn entry(&self, i: usize) -> (e: &ReportEntry)
        requires
            i < self@.len(),
        ensures
            e@ == self@[i as int],
    {
        &self.entries[i]
    }

    /// The names of the branches that were removed, in the order of the
    /// attempts.
    pub fn deleted_names(&self) -> (names: Vec<String>)
        ensures
            names@.map_values(|s: String| s@) == deleted_names_of(self@),
    {
        let mut names: Vec<String> = Vec::new();
        let mut i: usize = 0;
        assert(self@.take(0) =~= Seq::empty());
        assert(names@.map_values(|s: String| s@) =~= Seq::empty());
        while i < self.entries.len()
            invariant
                i <= self.entries.len(),
                names@.map_values(|s: String| s@) == deleted_names_of(self@.take(i as int)),
            decreases self.entries.len() - i,
        {
            let ghost before = names@.map_values(|s: String| s@);
            assert(self@.take(i + 1).drop_last() =~= self@.take(i as int));
            assert(self@.take(i + 1).last() == self.entries@[i as int]@);
            if self.entries[i].outcome.is_deleted() {
                names.push(self.entries[i].name.clone());
                assert(names@.map_values(|s: String| s@) =~= before.push(self.entries@[i as int].name@));
            }
            i += 1;
        }
        assert(self@.take(i as int) =~= self@);
        names
    }
}

/// A deletion batch in progress: the plan, and what has been recorded of the
/// attempts made so far.
pub struct DeletionRun {
    plan: Vec<DeleteRequest>,
    entries: Vec<ReportEntry>,
}

impl DeletionRun {
    /// The plan of the batch.
    pub closed spec fn plan(&self) -> Seq<DeleteRequestView> {
        requests_view(self.plan@)
    }

    /// The outcomes recorded so far, in the order of the attempts.
    pub closed spec fn outcomes(&self) -> Seq<OutcomeView> {
        self.entries@.map_values(|e: ReportEntry| e.outcome@)
    }

    /// The entries recorded so far.
    pub closed spec fn recorded(&self) -> Seq<ReportEntryView> {
        entries_view(self.entries@)
    }

    /// The attempts follow the plan: no more outcomes than requests, and the
    /// entries recorded are those of the plan's first requests.
    pub closed spec fn wf(&self) -> bool {
        &&& self.entries@.len() <= self.plan@.len()
        &&& self.recorded() == report_of(self.plan(), self.outcomes())
    }

    /// Every request of the plan has been attempted.
    pub open spec fn is_complete(&self) -> bool {
        self.outcomes().len() == self.plan().len()
    }

    /// At every moment of a batch in good order the attempts follow the
    /// plan: there are no more outcomes than requests, and the entries
    /// recorded are those of the plan's first requests, each with its own
    /// outcome.
    pub proof fn lemma_attempts_follow_plan(&self)
        requires
            self.wf(),
        ensures
            self.outcomes().len() <= self.plan().len(),
            self.recorded() == report_of(self.plan(), self.outcomes()),
    {
    }

    /// Starts a batch over `plan`, with nothing attempted yet.
    pub fn new(plan: Vec<DeleteRequest>) -> (run: DeletionRun)
        ensures
            run.wf(),
            run.plan() == requests_view(plan@),
            run.outcomes() == Seq::<OutcomeView>::empty(),
    {
        let run = DeletionRun { plan, entries: Vec::new() };
        assert(run.outcomes() =~= Seq::<OutcomeView>::empty());
        assert(run.recorded() =~= report_of(run.plan(), run.outcomes()));
        run
    }

    /// Whether every request has been attempted.
    pub fn finished(&self) -> (done: bool)
        requires
            self.wf(),
        ensures
            done == self.is_complete(),
    {
        self.entries.len() == self.plan.len()
    }

    /// The request to attempt next: the first of the plan that has no
    /// outcome yet, or `None` once all have one.
    pub fn next_request(&self) -> (next: Option<DeleteRequest>)
        requires
            self.wf(),
        ensures
            self.is_complete() <==> next.is_none(),
            next.is_some() ==> next.unwrap()@ == self.plan()[self.outcomes().len() as int],
    {
        let k: usize = self.entries.len();
        if k < self.plan.len() {
            let request = &self.plan[k];
            Some(DeleteRequest { name: request.name.clone(), force: request.force })
        } else {
            None
        }
    }

    /// Records how the attempt of the next request ended. A failure is
    /// recorded like a success, and the batch goes on.
    pub fn record(&mut self, outcome: DeleteOutcome)
        requires
            old(self).wf(),
            !old(self).is_complete(),
        ensures
            final(self).wf(),
            final(self).plan() == old(self).plan(),
            final(self).outcomes() == old(self).outcomes().push(outcome@),
    {
        let k: usize = self.entries.len();
        let name = self.plan[k].name.clone();
        let ghost before = self.entries@;
        let ghost earlier = self.recorded();
        assert(self.plan()[k as int].name == name@);
        self.entries.push(ReportEntry { name, outcome });
        proof {
            assert(self.outcomes() =~= before.map_values(|e: ReportEntry| e.outcome@).push(
                outcome@,
            ));
            assert forall|i: int| 0 <= i < self.recorded().len() implies self.recorded()[i]
                == report_of(self.plan(), self.outcomes())[i] by {
                if i < k {
                    assert(self.recorded()[i] == earlier[i]);
                }
            }
            assert(self.recorded() =~= report_of(self.plan(), self.outcomes()));
        }
    }

    /// Ends a complete batch and hands out its report: one entry for each
    /// request of the plan, in order, whatever failed on the way.
    pub fn into_report(self) -> (report: DeletionReport)
        requires
            self.wf(),
            self.is_complete(),
        ensures
            report@ == report_of(self.plan(), self.outcomes()),
            report@.len() == self.plan().len(),
    {
        DeletionReport { entries: self.entries }
    }

    /// Runs a whole batch over `plan` in which the removals end as
    /// `outcomes` say, the first outcome for the first request. Every request
    /// is attempted: the report has an entry for each, failed or not.
    pub fn run_with_outcomes(plan: Vec<DeleteRequest>, outcomes: &Vec<DeleteOutcome>) -> (report:
        DeletionReport)
        requires
            outcomes@.len() == plan@.len(),
        ensures
            report@ == report_of(requests_view(plan@), outcomes_view(outcomes@)),
            report@.len() == plan@.len(),
    {
        let mut run = DeletionRun::new(plan);
        let mut i: usize = 0;
        while i < outcomes.len()
            invariant
                i <= outcomes@.len(),
                outcomes@.len() == run.plan().len(),
                run.wf(),
                run.plan() == requests_view(plan@),
                run.outcomes() == outcomes_view(outcomes@).take(i as int),
            decreases outcomes@.len() - i,
        {
            let outcome = outcomes[i].duplicate();
            run.record(outcome);
            assert(run.outcomes() =~= outcomes_view(outcomes@).take(i + 1));
            i += 1;
        }
        assert(run.outcomes() =~= outcomes_view(outcomes@));
        run.into_report()
    }
}

/// A batch is never cut short: whatever the outcomes, the report of a
/// finished batch has one entry for each request of the plan, in the plan's
/// order, and the entry of a request holds that request's own outcome. A
/// failure changes no other entry.
pub proof fn lemma_report_covers_plan(plan: Seq<DeleteRequestView>, outcomes: Seq<OutcomeView>)
    requires
        outcomes.len() == plan.len(),
    ensures
        report_of(plan, outcomes).len() == plan.len(),
        forall|i: int|
            0 <= i < plan.len() ==> (#[trigger] report_of(plan, outcomes)[i]).name == plan[i].name
                && report_of(plan, outcomes)[i].outcome == outcomes[i],
{
}

/// The names handed out as removed are those of the entries that succeeded:
/// a name is among them exactly when some entry has it with the outcome
/// `Deleted`.
pub proof fn lemma_deleted_names_members(entries: Seq<ReportEntryView>, name: Seq<char>)
    ensures
        deleted_names_of(entries).contains(name) <==> exists|i: int|
            0 <= i < entries.len() && (#[trigger] entries[i]).name == name && entries[i].outcome
                == OutcomeView::Deleted,
    decreases entries.len(),
{
    if entries.len() > 0 {
        let rest = entries.drop_last();
        let last = entries.last();
        lemma_deleted_names_members(rest, name);
        let names = deleted_names_of(entries);
        let earlier = deleted_names_of(rest);
        if names.contains(name) {
            let k = choose|k: int| 0 <= k < names.len() && names[k] == name;
            if last.outcome == OutcomeView::Deleted && k == earlier.len() {
                assert(entries[entries.len() - 1].name == name);
            } else {
                assert(earlier[k] == name);
                assert(earlier.contains(name));
                let i = choose|i: int|
                    0 <= i < rest.len() && (#[trigger] rest[i]).name == name && rest[i].outcome
                        == OutcomeView::Deleted;
                assert(entries[i] == rest[i]);
            }
        }
        if exists|i: int|
            0 <= i < entries.len() && (#[trigger] entries[i]).name == name && entries[i].outcome
                == OutcomeView::Deleted {
            let i = choose|i: int|
                0 <= i < entries.len() && (#[trigger] entries[i]).name == name
                    && entries[i].outcome == OutcomeView::Deleted;
            if i == entries.len() - 1 {
                assert(names == earlier.push(name));
                assert(names[names.len() - 1] == name);
            } else {
                assert(rest[i] == entries[i]);
                assert(earlier.contains(name));
                let k = choose|k: int| 0 <= k < earlier.len() && earlier[k] == name;
                assert(names[k] == name);
            }
        }
    }
}

} // verus!
