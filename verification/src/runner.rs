//! The batch runner: one operation, applied to each target of a batch, with
//! a bound on the attempts made on each.

use crate::cache::as_map;
use crate::cache::distinct_targets;
use crate::cache::EntryView;
use crate::cache::has_target;
use crate::cache::index_of;
use crate::cache::lemma_recorded_map;
use crate::cache::ProgressCache;
use crate::cache::recorded;
use crate::cache::recorded_all;
use crate::cache::succeeded_in;
use crate::outcome::attempt_view;
use crate::outcome::OperationError;
use crate::outcome::OperationErrorView;
use crate::outcome::Outcome;
use crate::outcome::OutcomeView;
use crate::resolve::distinct;
use crate::text::strings_view;
use vstd::prelude::*;

verus! {

/// The capability that a batch applies to each of its targets: build and
/// submit one transaction for one target, and wait until it is confirmed.
///
/// An attempt ends with the signature of the confirmed transaction, or with
/// the target and the reason of the failure. Nothing is assumed of what an
/// implementation returns: the runner is proved for every result.
pub trait Operation {
    /// What every attempt of a run shares: the client, the credential, and
    /// whatever else the operation needs.
    type Context;

    /// Makes one attempt on `target`.
    fn execute(&self, context: &Self::Context, target: &str) -> Result<String, OperationError>;
}

/// The end of one attempt: the signature, or the failure.
pub type Attempt = Result<Seq<char>, OperationErrorView>;

/// How the work on one target ended.
#[derive(Debug, PartialEq, Eq)]
pub struct TargetReport {
    pub target: String,
    pub outcome: Outcome,
    /// The attempts that were made.
    pub attempts: u8,
    /// The signature of the confirmed transaction, where there is one.
    pub signature: Option<String>,
}

/// What a `TargetReport` stands for.
pub struct ReportView {
    pub target: Seq<char>,
    pub outcome: OutcomeView,
    pub attempts: u8,
    pub signature: Option<Seq<char>>,
}

impl View for TargetReport {
    type V = ReportView;

    open spec fn view(&self) -> ReportView {
        ReportView {
            target: self.target@,
            outcome: self.outcome@,
            attempts: self.attempts,
            signature: match self.signature {
                Some(s) => Some(s@),
                None => None,
            },
        }
    }
}

/// What to do after an attempt.
#[derive(Debug, PartialEq, Eq)]
pub enum Step {
    /// Make another attempt.
    Retry,
    /// Stop: the work on the target has ended.
    Done(TargetReport),
}

/// What a `Step` stands for.
pub enum StepView {
    Retry,
    Done(ReportView),
}

impl View for Step {
    type V = StepView;

    open spec fn view(&self) -> StepView {
        match self {
            Step::Retry => StepView::Retry,
            Step::Done(report) => StepView::Done(report@),
        }
    }
}

/// The reason recorded for a target on which no attempt was allowed.
pub open spec fn no_attempt_text() -> Seq<char> {
    "No attempt was allowed"@
}

/// What to do after attempt number `attempt` on `target` ended with
/// `result`, where `budget` attempts are allowed: stop on success; stop as
/// failed, with the reason of this attempt, once the budget is used up;
/// else try again.
pub open spec fn after_attempt_spec(
    target: Seq<char>,
    attempt: u8,
    budget: u8,
    result: Attempt,
) -> StepView {
    match result {
        Ok(signature) => StepView::Done(
            ReportView {
                target,
                outcome: OutcomeView::Succeeded,
                attempts: attempt,
                signature: Some(signature),
            },
        ),
        Err(e) => if attempt < budget {
            StepView::Retry
        } else {
            StepView::Done(
                ReportView {
                    target,
                    outcome: OutcomeView::Failed(e.reason),
                    attempts: attempt,
                    signature: None,
                },
            )
        },
    }
}

/// Whether `trace` can be the results of the attempts made on one target,
/// in order, where `budget` attempts are allowed: no attempt follows a
/// success, none exceeds the budget, and only a success ends them early.
pub open spec fn is_run(trace: Seq<Attempt>, budget: u8) -> bool {
    &&& trace.len() <= budget
    &&& forall|i: int| 0 <= i < trace.len() - 1 ==> (#[trigger] trace[i]) is Err
    &&& trace.len() < budget ==> trace.len() > 0 && trace.last() is Ok
}

/// How the work on `target` ended, where the attempts made on it had the
/// results `trace`.
pub open spec fn settled(target: Seq<char>, trace: Seq<Attempt>) -> ReportView {
    if trace.len() == 0 {
        ReportView {
            target,
            outcome: OutcomeView::Failed(no_attempt_text()),
            attempts: 0,
            signature: None,
        }
    } else {
        match trace.last() {
            Ok(signature) => ReportView {
                target,
                outcome: OutcomeView::Succeeded,
                attempts: trace.len() as u8,
                signature: Some(signature),
            },
            Err(e) => ReportView {
                target,
                outcome: OutcomeView::Failed(e.reason),
                attempts: trace.len() as u8,
                signature: None,
            },
        }
    }
}

/// The cache entry that a report is recorded as.
pub open spec fn entry_of(report: ReportView) -> EntryView {
    EntryView { target: report.target, outcome: report.outcome, attempts: report.attempts }
}

/// Whether `after` can be the cache once `target` was worked on, starting
/// from `before`: a target marked as succeeded is left alone; any other is
/// attempted, and how that ended is recorded.
pub open spec fn worked(
    before: Seq<EntryView>,
    target: Seq<char>,
    budget: u8,
    after: Seq<EntryView>,
) -> bool {
    if succeeded_in(before, target) {
        after == before
    } else {
        exists|trace: Seq<Attempt>| #[trigger]
            is_run(trace, budget) && after == recorded(before, entry_of(settled(target, trace)))
    }
}

/// What the runner sees of the results of attempts.
pub open spec fn results_view(results: Seq<Result<String, OperationError>>) -> Seq<Attempt> {
    Seq::new(results.len(), |i: int| attempt_view(results[i]))
}

/// Whether each of `results` is a result that the operation gave, or could
/// have given, for an attempt on `target` in `context`.
pub open spec fn given_by<O: Operation>(
    op: &O,
    context: &O::Context,
    target: &str,
    results: Seq<Result<String, OperationError>>,
) -> bool {
    forall|i: int|
        0 <= i < results.len() ==> call_ensures(
            O::execute,
            (op, context, target),
            #[trigger] results[i],
        )
}

/// Whether `after` can be the cache once `op` worked on `target`, starting
/// from `before`: a target marked as succeeded is left alone; on any other
/// the operation is called, and how the run of its results ended is recorded.
pub open spec fn worked_by<O: Operation>(
    op: &O,
    context: &O::Context,
    before: Seq<EntryView>,
    target: Seq<char>,
    budget: u8,
    after: Seq<EntryView>,
) -> bool {
    if succeeded_in(before, target) {
        after == before
    } else {
        exists|name: &str, results: Seq<Result<String, OperationError>>| #[trigger]
            given_by(op, context, name, results) && name@ == target && is_run(
                results_view(results),
                budget,
            ) && after == recorded(
                before,
                entry_of(settled(target, results_view(results))),
            )
    }
}

/// Whether `states` can be the caches of a batch that `op` worked on: the
/// one before the first target, and the one after each target in turn.
pub open spec fn is_batch_by<O: Operation>(
    op: &O,
    context: &O::Context,
    states: Seq<Seq<EntryView>>,
    targets: Seq<Seq<char>>,
    budget: u8,
) -> bool {
    &&& states.len() == targets.len() + 1
    &&& forall|i: int|
        0 <= i < targets.len() ==> worked_by(
            op,
            context,
            states[i],
            #[trigger] targets[i],
            budget,
            states[i + 1],
        )
}

/// Whether `after` can be the cache once `op` ran the batch of `targets`,
/// starting from `before`.
pub open spec fn batch_ran_by<O: Operation>(
    op: &O,
    context: &O::Context,
    before: Seq<EntryView>,
    targets: Seq<Seq<char>>,
    budget: u8,
    after: Seq<EntryView>,
) -> bool {
    exists|states: Seq<Seq<EntryView>>| #[trigger]
        is_batch_by(op, context, states, targets, budget) && states[0] == before
            && states.last() == after
}

/// Whether `e` can be what is recorded for `target` once it was worked on.
pub open spec fn is_report(target: Seq<char>, budget: u8, e: EntryView) -> bool {
    exists|trace: Seq<Attempt>| #[trigger]
        is_run(trace, budget) && e == entry_of(settled(target, trace))
}

/// Whether `reports` can be what is recorded for `targets`, one for each, in
/// their order.
pub open spec fn are_reports(targets: Seq<Seq<char>>, budget: u8, reports: Seq<EntryView>) -> bool {
    &&& reports.len() == targets.len()
    &&& forall|i: int|
        0 <= i < targets.len() ==> is_report(#[trigger] targets[i], budget, reports[i])
}

/// Whether `states` can be the caches of a batch: the one before the first
/// target, and the one after each target in turn.
pub open spec fn is_batch(
    states: Seq<Seq<EntryView>>,
    targets: Seq<Seq<char>>,
    budget: u8,
) -> bool {
    &&& states.len() == targets.len() + 1
    &&& forall|i: int|
        0 <= i < targets.len() ==> worked(states[i], #[trigger] targets[i], budget, states[i + 1])
}

/// Whether `after` can be the cache once the batch of `targets` was run,
/// starting from `before`.
pub open spec fn batch_ran(
    before: Seq<EntryView>,
    targets: Seq<Seq<char>>,
    budget: u8,
    after: Seq<EntryView>,
) -> bool {
    exists|states: Seq<Seq<EntryView>>| #[trigger]
        is_batch(states, targets, budget) && states[0] == before && states.last() == after
}

/// One target that ended as failed, with the reason of its last attempt.
#[derive(Debug, PartialEq, Eq)]
pub struct Failure {
    pub target: String,
    pub reason: String,
}

/// What a `Failure` stands for.
pub struct FailureView {
    pub target: Seq<char>,
    pub reason: Seq<char>,
}

impl View for Failure {
    type V = FailureView;

    open spec fn view(&self) -> FailureView {
        FailureView { target: self.target@, reason: self.reason@ }
    }
}

/// The outcome of a batch: how many targets succeeded, how many failed, and
/// which failed, with their reasons.
#[derive(Debug, PartialEq, Eq)]
pub struct BatchSummary {
    pub succeeded: usize,
    pub failed: usize,
    pub failures: Vec<Failure>,
}

/// What a `BatchSummary` stands for.
pub struct SummaryView {
    pub succeeded: nat,
    pub failures: Seq<FailureView>,
}

impl View for BatchSummary {
    type V = SummaryView;

    open spec fn view(&self) -> SummaryView {
        SummaryView {
            succeeded: self.succeeded as nat,
            failures: Seq::new(self.failures@.len(), |i: int| self.failures@[i]@),
        }
    }
}

impl BatchSummary {
    /// Whether no target of the batch ended as failed.
    pub fn all_succeeded(&self) -> (b: bool)
        ensures
            b == (self@.failures.len() == 0),
    {
        self.failures.len() == 0
    }
}

/// The summary with one more target counted: as succeeded or as failed,
/// as the cache has it; a target that the cache does not hold is not counted.
pub open spec fn counted(
    summary: SummaryView,
    es: Seq<EntryView>,
    target: Seq<char>,
) -> SummaryView {
    if !has_target(es, target) {
        summary
    } else {
        match es[index_of(es, target)].outcome {
            OutcomeView::Succeeded => SummaryView { succeeded: summary.succeeded + 1, ..summary },
            OutcomeView::Failed(reason) => SummaryView {
                failures: summary.failures.push(FailureView { target, reason }),
                ..summary
            },
        }
    }
}

/// The summary of a batch: of its targets, in order, those that the cache
/// holds as succeeded are counted, and those that it holds as failed are
/// listed with their reasons.
pub open spec fn summary_of(es: Seq<EntryView>, targets: Seq<Seq<char>>) -> SummaryView
    decreases targets.len(),
{
    if targets.len() == 0 {
        SummaryView { succeeded: 0, failures: Seq::empty() }
    } else {
        counted(summary_of(es, targets.drop_last()), es, targets.last())
    }
}

/// The targets of a batch that are still to be attempted: those that the
/// cache does not mark as succeeded, in the order of the batch.
pub open spec fn unfinished(es: Seq<EntryView>, targets: Seq<Seq<char>>) -> Seq<Seq<char>>
    decreases targets.len(),
{
    if targets.len() == 0 {
        Seq::empty()
    } else if succeeded_in(es, targets.last()) {
        unfinished(es, targets.drop_last())
    } else {
        unfinished(es, targets.drop_last()).push(targets.last())
    }
}

/// Decides what follows attempt number `attempt` on `target`, which ended
/// with `result`, where `budget` attempts are allowed.
pub fn after_attempt(
    target: &str,
    attempt: u8,
    budget: u8,
    result: Result<String, OperationError>,
) -> (step: Step)
    ensures
        step@ == after_attempt_spec(target@, attempt, budget, attempt_view(result)),
{
    match result {
        Ok(signature) => Step::Done(
            TargetReport {
                target: target.to_owned(),
                outcome: Outcome::Succeeded,
                attempts: attempt,
                signature: Some(signature),
            },
        ),
        Err(e) => if attempt < budget {
            Step::Retry
        } else {
            Step::Done(
                TargetReport {
                    target: target.to_owned(),
                    outcome: Outcome::Failed(e.reason),
                    attempts: attempt,
                    signature: None,
                },
            )
        },
    }
}

/// Works on one target: calls the operation until an attempt succeeds or
/// `budget` of them have failed.
///
/// The report is that of the run of results that the operation gave: the
/// attempts made are counted, the last result decides the outcome, and a
/// failure carries the reason of the last attempt. With a budget of 0 the
/// operation is not called and the target is reported as failed.
pub fn run_target<O: Operation>(op: &O, context: &O::Context, target: &str, budget: u8) -> (report:
    TargetReport)
    ensures
        exists|results: Seq<Result<String, OperationError>>| #[trigger]
            given_by(op, context, target, results) && is_run(results_view(results), budget)
                && report@ == settled(target@, results_view(results)),
{
    let ghost mut results: Seq<Result<String, OperationError>> = Seq::empty();
    if budget == 0 {
        let report = TargetReport {
            target: target.to_owned(),
            outcome: Outcome::Failed("No attempt was allowed".to_owned()),
            attempts: 0,
            signature: None,
        };
        assert(given_by(op, context, target, results));
        assert(results_view(results) =~= Seq::<Attempt>::empty());
        return report;
    }
    let mut attempt: u8 = 0;
    loop
        invariant
            attempt < budget,
            results.len() == attempt,
            given_by(op, context, target, results),
            forall|i: int| 0 <= i < results.len() ==> (#[trigger] results[i]) is Err,
        decreases budget - attempt,
    {
        attempt += 1;
        let result = op.execute(context, target);
        proof {
            results = results.push(result);
        }
        match after_attempt(target, attempt, budget, result) {
            Step::Done(report) => {
                assert(given_by(op, context, target, results));
                assert(is_run(results_view(results), budget));
                return report;
            },
            Step::Retry => {},
        }
    }
}

/// The targets of a batch that are still to be attempted: those that the
/// cache does not mark as succeeded.
pub fn to_attempt(cache: &ProgressCache, targets: &Vec<String>) -> (remaining: Vec<String>)
    ensures
        strings_view(remaining@) == unfinished(cache@, strings_view(targets@)),
{
    let mut remaining: Vec<String> = Vec::new();
    let mut i: usize = 0;
    let ghost all = strings_view(targets@);
    while i < targets.len()
        invariant
            i <= targets@.len(),
            all == strings_view(targets@),
            strings_view(remaining@) == unfinished(cache@, all.take(i as int)),
        decreases targets@.len() - i,
    {
        proof {
            assert(all.take(i + 1).drop_last() =~= all.take(i as int));
        }
        if !cache.is_succeeded(targets[i].as_str()) {
            remaining.push(targets[i].clone());
        }
        i += 1;
    }
    assert(all.take(i as int) =~= all);
    remaining
}

/// Records how the work on a target ended.
pub fn record_report(cache: &mut ProgressCache, report: TargetReport)
    ensures
        final(cache)@ == recorded(old(cache)@, entry_of(report@)),
{
    let TargetReport { target, outcome, attempts, signature: _ } = report;
    cache.record(target.as_str(), outcome, attempts);
}

/// The summary of a batch, as the cache has it after the run.
pub fn summarize(cache: &ProgressCache, targets: &Vec<String>) -> (summary: BatchSummary)
    ensures
        summary@ == summary_of(cache@, strings_view(targets@)),
        summary.failed == summary.failures@.len(),
        summary.succeeded + summary.failed <= targets@.len(),
{
    let mut summary = BatchSummary { succeeded: 0, failed: 0, failures: Vec::new() };
    let mut i: usize = 0;
    let ghost all = strings_view(targets@);
    assert(summary@.failures =~= Seq::<FailureView>::empty());
    while i < targets.len()
        invariant
            i <= targets@.len(),
            all == strings_view(targets@),
            summary@ == summary_of(cache@, all.take(i as int)),
            summary.failed == summary.failures@.len(),
            summary.succeeded + summary.failed <= i,
        decreases targets@.len() - i,
    {
        proof {
            assert(all.take(i + 1).drop_last() =~= all.take(i as int));
        }
        let ghost before = summary@;
        match cache.get(targets[i].as_str()) {
            None => {},
            Some(entry) => match &entry.outcome {
                Outcome::Succeeded => {
                    summary.succeeded += 1;
                },
                Outcome::Failed(reason) => {
                    summary.failures.push(
                        Failure { target: targets[i].clone(), reason: reason.clone() },
                    );
                    summary.failed += 1;
                    assert(summary@.failures =~= before.failures.push(
                        FailureView { target: targets@[i as int]@, reason: reason@ },
                    ));
                },
            },
        }
        i += 1;
    }
    assert(all.take(i as int) =~= all);
    summary
}

/// Runs a batch: works on each target in turn, records how it ended, and
/// sums up.
///
/// A target that the cache marks as succeeded is not attempted again. A
/// target that fails all its attempts is recorded as failed, and the batch
/// goes on with the next. The targets are meant to be distinct, as target
/// resolution gives them; one that is listed again is worked on again unless
/// it has succeeded by then, and is counted again.
pub fn run<O: Operation>(
    op: &O,
    context: &O::Context,
    targets: &Vec<String>,
    budget: u8,
    cache: &mut ProgressCache,
) -> (summary: BatchSummary)
    ensures
        batch_ran_by(op, context, old(cache)@, strings_view(targets@), budget, final(cache)@),
        batch_ran(old(cache)@, strings_view(targets@), budget, final(cache)@),
        summary@ == summary_of(final(cache)@, strings_view(targets@)),
        summary.failed == summary.failures@.len(),
{
    let ghost all = strings_view(targets@);
    let ghost mut states: Seq<Seq<EntryView>> = seq![cache@];
    let mut i: usize = 0;
    while i < targets.len()
        invariant
            i <= targets@.len(),
            all == strings_view(targets@),
            states.len() == i + 1,
            states[0] == old(cache)@,
            states.last() == cache@,
            forall|k: int|
                0 <= k < i ==> worked_by(
                    op,
                    context,
                    states[k],
                    #[trigger] all[k],
                    budget,
                    states[k + 1],
                ),
        decreases targets@.len() - i,
    {
        let target = targets[i].as_str();
        if !cache.is_succeeded(target) {
            let report = run_target(op, context, target, budget);
            record_report(cache, report);
        }
        proof {
            states = states.push(cache@);
        }
        i += 1;
    }
    proof {
        assert(is_batch_by(op, context, states, all, budget));
        lemma_batch_by_is_a_batch(op, context, old(cache)@, all, budget, cache@);
    }
    summarize(cache, targets)
}

/// A batch that an operation ran is a batch: all that is proved of batches
/// holds of it, whatever the operation.
pub proof fn lemma_batch_by_is_a_batch<O: Operation>(
    op: &O,
    context: &O::Context,
    before: Seq<EntryView>,
    targets: Seq<Seq<char>>,
    budget: u8,
    after: Seq<EntryView>,
)
    requires
        batch_ran_by(op, context, before, targets, budget, after),
    ensures
        batch_ran(before, targets, budget, after),
{
    let states = choose|states: Seq<Seq<EntryView>>| #[trigger]
        is_batch_by(op, context, states, targets, budget) && states[0] == before
            && states.last() == after;
    assert forall|i: int| 0 <= i < targets.len() implies worked(
        states[i],
        #[trigger] targets[i],
        budget,
        states[i + 1],
    ) by {
        assert(worked_by(op, context, states[i], targets[i], budget, states[i + 1]));
        if !succeeded_in(states[i], targets[i]) {
            let (name, results) = choose|
                name: &str,
                results: Seq<Result<String, OperationError>>,
            | #[trigger]
                given_by(op, context, name, results) && name@ == targets[i] && is_run(
                    results_view(results),
                    budget,
                ) && states[i + 1] == recorded(
                    states[i],
                    entry_of(settled(targets[i], results_view(results))),
                );
            assert(is_run(results_view(results), budget));
        }
    }
    assert(is_batch(states, targets, budget));
}

/// A target on which every allowed attempt failed is reported as failed,
/// with as many attempts as the budget allows and the reason of the last.
pub proof fn lemma_exhausted_budget(target: Seq<char>, trace: Seq<Attempt>, budget: u8)
    requires
        is_run(trace, budget),
        forall|i: int| 0 <= i < trace.len() ==> (#[trigger] trace[i]) is Err,
    ensures
        settled(target, trace).attempts == budget,
        settled(target, trace).outcome is Failed,
        settled(target, trace).target == target,
        budget > 0 ==> settled(target, trace).outcome == OutcomeView::Failed(
            trace.last()->Err_0.reason,
        ),
{
}

/// A target on which every allowed attempt fails ends up in the cache as
/// failed, with as many attempts as the budget allows, and in the summary of
/// every batch that it is a target of.
pub proof fn lemma_failed_target_is_recorded(
    before: Seq<EntryView>,
    targets: Seq<Seq<char>>,
    i: int,
    trace: Seq<Attempt>,
    budget: u8,
)
    requires
        distinct_targets(before),
        0 <= i < targets.len(),
        is_run(trace, budget),
        forall|k: int| 0 <= k < trace.len() ==> (#[trigger] trace[k]) is Err,
    ensures
        ({
            let after = recorded(before, entry_of(settled(targets[i], trace)));
            &&& has_target(after, targets[i])
            &&& as_map(after)[targets[i]].attempts == budget
            &&& as_map(after)[targets[i]].outcome is Failed
            &&& exists|reason: Seq<char>|
                summary_of(after, targets).failures.contains(
                    FailureView { target: targets[i], reason },
                )
        }),
{
    let target = targets[i];
    let e = entry_of(settled(target, trace));
    let after = recorded(before, e);
    lemma_recorded_map(before, e);
    assert(as_map(after).dom().contains(target));
    let reason = e.outcome->Failed_0;
    lemma_failed_is_listed(after, targets, i, reason);
}

/// A target whose attempt succeeds is reported as succeeded, with the number
/// of that attempt, which is the last.
pub proof fn lemma_success_ends_run(target: Seq<char>, trace: Seq<Attempt>, budget: u8)
    requires
        is_run(trace, budget),
        exists|i: int| 0 <= i < trace.len() && (#[trigger] trace[i]) is Ok,
    ensures
        trace.last() is Ok,
        settled(target, trace).outcome is Succeeded,
        settled(target, trace).attempts == trace.len(),
        1 <= trace.len() <= budget,
{
}

/// What working on one target does to the cache: the target is in it
/// afterwards, no other target comes or goes, no other entry changes, and a
/// target that was marked as succeeded keeps its entry.
pub proof fn lemma_worked(
    before: Seq<EntryView>,
    target: Seq<char>,
    budget: u8,
    after: Seq<EntryView>,
)
    requires
        distinct_targets(before),
        worked(before, target, budget, after),
    ensures
        distinct_targets(after),
        as_map(after).dom() == as_map(before).dom().insert(target),
        forall|t: Seq<char>|
            t != target && has_target(before, t) ==> #[trigger] as_map(after)[t] == as_map(
                before,
            )[t],
        succeeded_in(before, target) ==> after == before,
        after.len() == before.len() + (if has_target(before, target) {
            0int
        } else {
            1int
        }),
{
    if !succeeded_in(before, target) {
        let trace = choose|trace: Seq<Attempt>| #[trigger]
            is_run(trace, budget) && after == recorded(before, entry_of(settled(target, trace)));
        lemma_recorded_map(before, entry_of(settled(target, trace)));
    }
}

/// What the first `k` targets of a batch do to the cache.
pub proof fn lemma_batch_prefix(
    states: Seq<Seq<EntryView>>,
    targets: Seq<Seq<char>>,
    budget: u8,
    k: int,
)
    requires
        is_batch(states, targets, budget),
        distinct_targets(states[0]),
        0 <= k <= targets.len(),
    ensures
        distinct_targets(states[k]),
        as_map(states[k]).dom() == as_map(states[0]).dom().union(targets.take(k).to_set()),
        forall|t: Seq<char>| #[trigger]
            succeeded_in(states[0], t) ==> succeeded_in(states[k], t) && as_map(states[k])[t]
                == as_map(states[0])[t],
        forall|t: Seq<char>|
            has_target(states[0], t) && !(#[trigger] targets.take(k).contains(t)) ==> as_map(
                states[k],
            )[t] == as_map(states[0])[t],
        states[k].len() >= states[0].len(),
        distinct(targets) && states[0].len() == 0 ==> states[k].len() == k,
        (forall|i: int| 0 <= i < k ==> succeeded_in(states[0], #[trigger] targets[i]))
            ==> states[k] == states[0],
    decreases k,
{
    if k > 0 {
        let j = k - 1;
        lemma_batch_prefix(states, targets, budget, j);
        let target = targets[j];
        lemma_worked(states[j], target, budget, states[k]);
        assert forall|t: Seq<char>| targets.take(k).contains(t) <==> (targets.take(j).contains(t)
            || t == target) by {
            if t == target {
                assert(targets.take(k)[j] == t);
            }
        }
        assert forall|t: Seq<char>| #[trigger] succeeded_in(states[0], t) implies succeeded_in(
            states[k],
            t,
        ) && as_map(states[k])[t] == as_map(states[0])[t] by {
            if t != target {
                assert(as_map(states[k]).dom().contains(t));
            }
        }
        if distinct(targets) && states[0].len() == 0 {
            assert(!has_target(states[j], target)) by {
                if has_target(states[j], target) {
                    assert(as_map(states[j]).dom().contains(target));
                }
            }
        }
    }
}

/// A target is still to be attempted exactly when it is a target of the
/// batch and the cache does not mark it as succeeded.
pub proof fn lemma_unfinished(es: Seq<EntryView>, targets: Seq<Seq<char>>, target: Seq<char>)
    ensures
        unfinished(es, targets).contains(target) <==> targets.contains(target) && !succeeded_in(
            es,
            target,
        ),
    decreases targets.len(),
{
    if targets.len() > 0 {
        let init = targets.drop_last();
        let remaining = unfinished(es, targets);
        lemma_unfinished(es, init, target);
        if targets.contains(target) && !succeeded_in(es, target) {
            let i = choose|i: int| 0 <= i < targets.len() && targets[i] == target;
            if i < init.len() {
                assert(init[i] == target);
                let k = choose|k: int|
                    0 <= k < unfinished(es, init).len() && unfinished(es, init)[k] == target;
                assert(remaining[k] == target);
            } else {
                assert(remaining[unfinished(es, init).len() as int] == target);
            }
        }
    }
}

/// Idempotent resume: a batch leaves alone every target that the cache
/// marked as succeeded when it started. The target is still marked as
/// succeeded afterwards, with the entry it had.
pub proof fn lemma_succeeded_is_kept(
    before: Seq<EntryView>,
    targets: Seq<Seq<char>>,
    budget: u8,
    after: Seq<EntryView>,
    target: Seq<char>,
)
    requires
        distinct_targets(before),
        batch_ran(before, targets, budget, after),
        succeeded_in(before, target),
    ensures
        succeeded_in(after, target),
        as_map(after)[target] == as_map(before)[target],
{
    let states = choose|states: Seq<Seq<EntryView>>| #[trigger]
        is_batch(states, targets, budget) && states[0] == before && states.last() == after;
    lemma_batch_prefix(states, targets, budget, targets.len() as int);
}

/// Idempotent resume: a batch of targets that the cache marks as succeeded,
/// all of them, attempts nothing and leaves the cache as it is.
pub proof fn lemma_rerun_changes_nothing(
    before: Seq<EntryView>,
    targets: Seq<Seq<char>>,
    budget: u8,
    after: Seq<EntryView>,
)
    requires
        distinct_targets(before),
        batch_ran(before, targets, budget, after),
        forall|i: int| 0 <= i < targets.len() ==> succeeded_in(before, #[trigger] targets[i]),
    ensures
        after == before,
{
    let states = choose|states: Seq<Seq<EntryView>>| #[trigger]
        is_batch(states, targets, budget) && states[0] == before && states.last() == after;
    lemma_batch_prefix(states, targets, budget, targets.len() as int);
}

/// No update is lost: after a batch the cache holds the targets it held
/// before and those of the batch, and no others; the entries of targets
/// that are not of the batch are as they were.
pub proof fn lemma_batch_covers(
    before: Seq<EntryView>,
    targets: Seq<Seq<char>>,
    budget: u8,
    after: Seq<EntryView>,
)
    requires
        distinct_targets(before),
        batch_ran(before, targets, budget, after),
    ensures
        distinct_targets(after),
        as_map(after).dom() == as_map(before).dom().union(targets.to_set()),
        forall|t: Seq<char>|
            has_target(before, t) && !(#[trigger] targets.contains(t)) ==> as_map(after)[t]
                == as_map(before)[t],
        distinct(targets) && before.len() == 0 ==> after.len() == targets.len(),
{
    let states = choose|states: Seq<Seq<EntryView>>| #[trigger]
        is_batch(states, targets, budget) && states[0] == before && states.last() == after;
    lemma_batch_prefix(states, targets, budget, targets.len() as int);
    assert(targets.take(targets.len() as int) =~= targets);
}

/// Planning first and working then is a batch: where the targets that were
/// still to be attempted when the batch started are worked on, each once, and
/// what is reported of them is recorded, the cache is one that running the
/// batch target by target can leave. With `lemma_recorded_all` of the cache,
/// this holds of the mapping whatever the order in which the reports come in.
pub proof fn lemma_planned_work_is_a_batch(
    before: Seq<EntryView>,
    targets: Seq<Seq<char>>,
    budget: u8,
    reports: Seq<EntryView>,
)
    requires
        distinct_targets(before),
        distinct(targets),
        are_reports(unfinished(before, targets), budget, reports),
    ensures
        batch_ran(before, targets, budget, recorded_all(before, reports)),
    decreases targets.len(),
{
    if targets.len() == 0 {
        assert(is_batch(seq![before], targets, budget));
        assert(seq![before][0] == before);
    } else {
        let init = targets.drop_last();
        let last = targets.last();
        let earlier = if succeeded_in(before, last) {
            reports
        } else {
            reports.drop_last()
        };
        assert(are_reports(unfinished(before, init), budget, earlier)) by {
            assert forall|i: int| 0 <= i < unfinished(before, init).len() implies is_report(
                #[trigger] unfinished(before, init)[i],
                budget,
                earlier[i],
            ) by {
                assert(unfinished(before, targets)[i] == unfinished(before, init)[i]);
                assert(earlier[i] == reports[i]);
            }
        }
        assert(distinct(init)) by {
            assert forall|i: int, j: int| 0 <= i < j < init.len() implies init[i] != init[j] by {
                assert(init[i] == targets[i] && init[j] == targets[j]);
            }
        }
        lemma_planned_work_is_a_batch(before, init, budget, earlier);
        let middle = recorded_all(before, earlier);
        let after = recorded_all(before, reports);
        let states = choose|states: Seq<Seq<EntryView>>| #[trigger]
            is_batch(states, init, budget) && states[0] == before && states.last() == middle;
        lemma_batch_covers(before, init, budget, middle);
        assert(!init.contains(last)) by {
            if init.contains(last) {
                let i = choose|i: int| 0 <= i < init.len() && init[i] == last;
                assert(targets[i] == targets[targets.len() - 1]);
            }
        }
        assert(worked(middle, last, budget, after)) by {
            if succeeded_in(before, last) {
                lemma_succeeded_is_kept(before, init, budget, middle, last);
            } else {
                let n = unfinished(before, init).len() as int;
                assert(unfinished(before, targets)[n] == last);
                assert(is_report(unfinished(before, targets)[n], budget, reports[n]));
                assert(reports.drop_last() == earlier && reports.last() == reports[n]);
                if has_target(before, last) {
                    assert(as_map(middle)[last] == as_map(before)[last]);
                    assert(as_map(middle).dom().contains(last));
                } else {
                    assert(!as_map(middle).dom().contains(last)) by {
                        assert(!init.to_set().contains(last));
                    }
                }
                assert(!succeeded_in(middle, last));
            }
        }
        let longer = states.push(after);
        assert(is_batch(longer, targets, budget)) by {
            assert forall|i: int| 0 <= i < targets.len() implies worked(
                longer[i],
                #[trigger] targets[i],
                budget,
                longer[i + 1],
            ) by {
                if i < init.len() {
                    assert(targets[i] == init[i]);
                    assert(worked(states[i], init[i], budget, states[i + 1]));
                }
            }
        }
        assert(longer[0] == before && longer.last() == after);
    }
}

/// A target of the batch that the cache holds as failed is listed in the
/// summary, with the reason that the cache holds.
pub proof fn lemma_failed_is_listed(
    es: Seq<EntryView>,
    targets: Seq<Seq<char>>,
    i: int,
    reason: Seq<char>,
)
    requires
        0 <= i < targets.len(),
        has_target(es, targets[i]),
        es[index_of(es, targets[i])].outcome == OutcomeView::Failed(reason),
    ensures
        summary_of(es, targets).failures.contains(FailureView { target: targets[i], reason }),
    decreases targets.len(),
{
    let init = targets.drop_last();
    let before = summary_of(es, init);
    let after = summary_of(es, targets);
    let wanted = FailureView { target: targets[i], reason };
    if i < targets.len() - 1 {
        lemma_failed_is_listed(es, init, i, reason);
        let k = choose|k: int| 0 <= k < before.failures.len() && before.failures[k] == wanted;
        assert(after.failures[k] == wanted);
    } else {
        assert(after.failures[before.failures.len() as int] == wanted);
    }
}

/// The summary counts every target of the batch that the cache holds, once:
/// as succeeded or as failed.
pub proof fn lemma_summary_counts(es: Seq<EntryView>, targets: Seq<Seq<char>>)
    requires
        forall|i: int| 0 <= i < targets.len() ==> has_target(es, #[trigger] targets[i]),
    ensures
        summary_of(es, targets).succeeded + summary_of(es, targets).failures.len()
            == targets.len(),
    decreases targets.len(),
{
    if targets.len() > 0 {
        let init = targets.drop_last();
        lemma_summary_counts(es, init);
    }
}

/// After a batch every target of it is counted in the summary, as succeeded
/// or as failed.
pub proof fn lemma_batch_is_summed_up(
    before: Seq<EntryView>,
    targets: Seq<Seq<char>>,
    budget: u8,
    after: Seq<EntryView>,
)
    requires
        distinct_targets(before),
        batch_ran(before, targets, budget, after),
    ensures
        summary_of(after, targets).succeeded + summary_of(after, targets).failures.len()
            == targets.len(),
{
    lemma_batch_covers(before, targets, budget, after);
    assert forall|i: int| 0 <= i < targets.len() implies has_target(
        after,
        #[trigger] targets[i],
    ) by {
        assert(targets.to_set().contains(targets[i]));
        assert(as_map(after).dom().contains(targets[i]));
    }
    lemma_summary_counts(after, targets);
}

} // verus!
