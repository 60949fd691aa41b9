use primary_sale::cache::{CacheEntry, ProgressCache};
use primary_sale::codec::{decode, encode};
use primary_sale::outcome::{OperationError, Outcome};
use primary_sale::resolve::{parse_target_list, resolve};
use primary_sale::runner::{
    after_attempt, record_report, run, run_target, summarize, to_attempt, BatchSummary, Failure,
    Operation, Step, TargetReport,
};
use std::cell::RefCell;
use std::collections::HashMap;

/// An operation that fails a set number of times on each target, then succeeds.
struct Scripted {
    failures: HashMap<String, u32>,
    calls: RefCell<Vec<String>>,
}

impl Scripted {
    fn new(failures: &[(&str, u32)]) -> Scripted {
        Scripted {
            failures: failures.iter().map(|(t, n)| (t.to_string(), *n)).collect(),
            calls: RefCell::new(Vec::new()),
        }
    }

    fn calls_on(&self, target: &str) -> usize {
        self.calls.borrow().iter().filter(|t| t.as_str() == target).count()
    }
}

impl Operation for Scripted {
    type Context = String;

    fn execute(&self, context: &String, target: &str) -> Result<String, OperationError> {
        self.calls.borrow_mut().push(target.to_string());
        let made = self.calls_on(target) as u32;
        let failing = self.failures.get(target).copied().unwrap_or(0);
        if made <= failing {
            Err(OperationError::new(target, &format!("{} failure {}", context, made)))
        } else {
            Ok(format!("sig-{}-{}", target, made))
        }
    }
}

fn strings(items: &[&str]) -> Vec<String> {
    items.iter().map(|s| s.to_string()).collect()
}

fn failed(reason: &str) -> Outcome {
    Outcome::Failed(reason.to_string())
}

fn context() -> String {
    "net".to_string()
}

#[test]
fn success_after_two_failures_takes_three_attempts() {
    let op = Scripted::new(&[("mintA", 2)]);
    let mut cache = ProgressCache::new();
    let summary = run(&op, &context(), &strings(&["mintA"]), 3, &mut cache);
    assert_eq!(
        cache.get("mintA"),
        Some(&CacheEntry { target: "mintA".to_string(), outcome: Outcome::Succeeded, attempts: 3 })
    );
    assert_eq!(op.calls_on("mintA"), 3);
    assert_eq!(summary, BatchSummary { succeeded: 1, failed: 0, failures: Vec::new() });
}

#[test]
fn exhausted_budget_is_recorded_as_failed() {
    let op = Scripted::new(&[("mintA", 100)]);
    let mut cache = ProgressCache::new();
    let summary = run(&op, &context(), &strings(&["mintA"]), 3, &mut cache);
    assert_eq!(
        cache.get("mintA"),
        Some(&CacheEntry { target: "mintA".to_string(), outcome: failed("net failure 3"), attempts: 3 })
    );
    assert_eq!(op.calls_on("mintA"), 3);
    assert_eq!(
        summary,
        BatchSummary {
            succeeded: 0,
            failed: 1,
            failures: vec![Failure { target: "mintA".to_string(), reason: "net failure 3".to_string() }],
        }
    );
}

#[test]
fn failed_target_does_not_stop_the_batch() {
    let op = Scripted::new(&[("bad", 100), ("slow", 1)]);
    let mut cache = ProgressCache::new();
    let targets = strings(&["good", "bad", "slow", "fine"]);
    let summary = run(&op, &context(), &targets, 2, &mut cache);
    assert_eq!(summary.succeeded, 3);
    assert_eq!(summary.failed, 1);
    assert_eq!(summary.failures, vec![Failure { target: "bad".to_string(), reason: "net failure 2".to_string() }]);
    assert_eq!(cache.len(), 4);
    assert_eq!(cache.get("good").unwrap().attempts, 1);
    assert_eq!(cache.get("bad").unwrap().attempts, 2);
    assert_eq!(cache.get("slow").unwrap().attempts, 2);
    assert!(cache.is_succeeded("slow"));
    assert_eq!(*op.calls.borrow(), strings(&["good", "bad", "bad", "slow", "slow", "fine"]));
}

#[test]
fn rerun_does_not_attempt_what_succeeded() {
    let targets = strings(&["a", "b", "c"]);
    let first = Scripted::new(&[("b", 100)]);
    let mut cache = ProgressCache::new();
    run(&first, &context(), &targets, 2, &mut cache);
    let file = encode(&cache);

    let mut resumed = decode(&file).unwrap();
    let second = Scripted::new(&[]);
    let summary = run(&second, &context(), &targets, 2, &mut resumed);
    assert_eq!(second.calls_on("a"), 0);
    assert_eq!(second.calls_on("c"), 0);
    assert_eq!(second.calls_on("b"), 1);
    assert_eq!(summary, BatchSummary { succeeded: 3, failed: 0, failures: Vec::new() });
    assert_eq!(resumed.get("a"), cache.get("a"));
    assert_eq!(resumed.get("c"), cache.get("c"));

    let third = Scripted::new(&[("a", 100), ("b", 100), ("c", 100)]);
    let before = encode(&resumed);
    let again = run(&third, &context(), &targets, 2, &mut resumed);
    assert!(third.calls.borrow().is_empty());
    assert_eq!(encode(&resumed), before);
    assert_eq!(again.succeeded, 3);
}

#[test]
fn retry_only_rerun_from_the_cache() {
    let first = Scripted::new(&[("b", 100), ("d", 100)]);
    let mut cache = ProgressCache::new();
    run(&first, &context(), &strings(&["a", "b", "c", "d"]), 1, &mut cache);
    let targets = resolve(None, Some(&cache)).unwrap();
    assert_eq!(targets, strings(&["b", "d"]));
    let second = Scripted::new(&[("d", 100)]);
    let summary = run(&second, &context(), &targets, 3, &mut cache);
    assert_eq!(summary.succeeded, 1);
    assert_eq!(summary.failures, vec![Failure { target: "d".to_string(), reason: "net failure 3".to_string() }]);
    assert_eq!(*second.calls.borrow(), strings(&["b", "d", "d", "d"]));
    assert_eq!(cache.len(), 4);
    assert_eq!(resolve(None, Some(&cache)).unwrap(), strings(&["d"]));
}

#[test]
fn every_target_of_a_batch_has_an_entry() {
    let names: Vec<String> = (0..40).map(|i| format!("mint{}", i)).collect();
    let failing: Vec<(&str, u32)> =
        names.iter().enumerate().filter(|(i, _)| i % 3 == 0).map(|(_, n)| (n.as_str(), 100)).collect();
    let op = Scripted::new(&failing);
    let mut cache = ProgressCache::new();
    let summary = run(&op, &context(), &names, 2, &mut cache);
    assert_eq!(cache.len(), 40);
    assert_eq!(summary.succeeded + summary.failed, 40);
    assert_eq!(summary.failed, 14);
    assert_eq!(decode(&encode(&cache)).unwrap().len(), 40);
}

#[test]
fn batch_keeps_the_entries_of_other_targets() {
    let mut cache = ProgressCache::new();
    cache.record("old", failed("long ago"), 9);
    let op = Scripted::new(&[]);
    run(&op, &context(), &strings(&["new"]), 1, &mut cache);
    assert_eq!(
        cache.entries(),
        &vec![
            CacheEntry { target: "old".to_string(), outcome: failed("long ago"), attempts: 9 },
            CacheEntry { target: "new".to_string(), outcome: Outcome::Succeeded, attempts: 1 },
        ]
    );
}

#[test]
fn duplicate_line_is_worked_on_once() {
    let targets = parse_target_list("mintA\nmintB\nmintA");
    let op = Scripted::new(&[("mintA", 100)]);
    let mut cache = ProgressCache::new();
    let summary = run(&op, &context(), &targets, 2, &mut cache);
    assert_eq!(op.calls_on("mintA"), 2);
    assert_eq!(op.calls_on("mintB"), 1);
    assert_eq!(cache.len(), 2);
    assert_eq!(summary.succeeded, 1);
    assert_eq!(summary.failed, 1);
}

#[test]
fn empty_batch_does_nothing() {
    let op = Scripted::new(&[]);
    let mut cache = ProgressCache::new();
    let summary = run(&op, &context(), &Vec::new(), 3, &mut cache);
    assert_eq!(summary, BatchSummary { succeeded: 0, failed: 0, failures: Vec::new() });
    assert!(cache.is_empty());
    assert!(op.calls.borrow().is_empty());
}

#[test]
fn budget_of_zero_attempts_nothing() {
    let op = Scripted::new(&[]);
    let report = run_target(&op, &context(), "mintA", 0);
    assert_eq!(
        report,
        TargetReport {
            target: "mintA".to_string(),
            outcome: failed("No attempt was allowed"),
            attempts: 0,
            signature: None,
        }
    );
    assert!(op.calls.borrow().is_empty());
}

#[test]
fn run_target_stops_on_the_first_success() {
    let op = Scripted::new(&[("mintA", 1)]);
    let report = run_target(&op, &context(), "mintA", 200);
    assert_eq!(
        report,
        TargetReport {
            target: "mintA".to_string(),
            outcome: Outcome::Succeeded,
            attempts: 2,
            signature: Some("sig-mintA-2".to_string()),
        }
    );
    assert_eq!(op.calls_on("mintA"), 2);
}

#[test]
fn run_target_uses_the_whole_budget() {
    let op = Scripted::new(&[("mintA", 1000)]);
    let report = run_target(&op, &context(), "mintA", 255);
    assert_eq!(report.attempts, 255);
    assert_eq!(report.outcome, failed("net failure 255"));
    assert_eq!(report.signature, None);
    assert_eq!(op.calls_on("mintA"), 255);
}

/// An operation that blames another target for its failures.
struct Misattributing;

impl Operation for Misattributing {
    type Context = ();

    fn execute(&self, _context: &(), _target: &str) -> Result<String, OperationError> {
        Err(OperationError::new("someone else", "refused"))
    }
}

#[test]
fn failure_is_recorded_for_the_target_that_was_attempted() {
    let mut cache = ProgressCache::new();
    let summary = run(&Misattributing, &(), &strings(&["mintA"]), 1, &mut cache);
    assert_eq!(cache.len(), 1);
    assert_eq!(cache.get("mintA").unwrap().outcome, failed("refused"));
    assert!(cache.get("someone else").is_none());
    assert_eq!(summary.failures[0].target, "mintA");
}

#[test]
fn after_attempt_stops_on_success() {
    let step = after_attempt("mintA", 1, 3, Ok("sig".to_string()));
    assert_eq!(
        step,
        Step::Done(TargetReport {
            target: "mintA".to_string(),
            outcome: Outcome::Succeeded,
            attempts: 1,
            signature: Some("sig".to_string()),
        })
    );
}

#[test]
fn after_attempt_retries_within_the_budget() {
    assert_eq!(after_attempt("mintA", 1, 3, Err(OperationError::new("mintA", "timeout"))), Step::Retry);
    assert_eq!(after_attempt("mintA", 2, 3, Err(OperationError::new("mintA", "timeout"))), Step::Retry);
}

#[test]
fn after_attempt_gives_up_at_the_budget() {
    let step = after_attempt("mintA", 3, 3, Err(OperationError::new("mintA", "timeout")));
    assert_eq!(
        step,
        Step::Done(TargetReport {
            target: "mintA".to_string(),
            outcome: failed("timeout"),
            attempts: 3,
            signature: None,
        })
    );
    let late = after_attempt("mintA", 5, 3, Err(OperationError::new("mintA", "timeout")));
    assert_eq!(
        late,
        Step::Done(TargetReport {
            target: "mintA".to_string(),
            outcome: failed("timeout"),
            attempts: 5,
            signature: None,
        })
    );
}

#[test]
fn summary_follows_the_order_of_the_targets() {
    let mut cache = ProgressCache::new();
    cache.record("a", failed("first"), 1);
    cache.record("b", Outcome::Succeeded, 1);
    cache.record("c", failed("third"), 2);
    cache.record("d", Outcome::Succeeded, 1);
    let summary = summarize(&cache, &strings(&["c", "b", "a", "unknown"]));
    assert_eq!(
        summary,
        BatchSummary {
            succeeded: 1,
            failed: 2,
            failures: vec![
                Failure { target: "c".to_string(), reason: "third".to_string() },
                Failure { target: "a".to_string(), reason: "first".to_string() },
            ],
        }
    );
}

#[test]
fn to_attempt_leaves_out_what_succeeded() {
    let mut cache = ProgressCache::new();
    cache.record("a", Outcome::Succeeded, 1);
    cache.record("b", failed("x"), 3);
    assert_eq!(to_attempt(&cache, &strings(&["c", "a", "b"])), strings(&["c", "b"]));
    assert_eq!(to_attempt(&cache, &strings(&["a"])), Vec::<String>::new());
    assert_eq!(to_attempt(&ProgressCache::new(), &strings(&["a", "b"])), strings(&["a", "b"]));
}

#[test]
fn record_report_records_outcome_and_attempts() {
    let mut cache = ProgressCache::new();
    record_report(
        &mut cache,
        TargetReport {
            target: "a".to_string(),
            outcome: Outcome::Succeeded,
            attempts: 2,
            signature: Some("sig".to_string()),
        },
    );
    assert_eq!(
        cache.entries(),
        &vec![CacheEntry { target: "a".to_string(), outcome: Outcome::Succeeded, attempts: 2 }]
    );
}

#[test]
fn working_in_any_order_gives_the_same_entries() {
    let targets = strings(&["a", "b", "c", "d"]);
    let op = Scripted::new(&[("b", 100), ("c", 1)]);
    let mut in_order = ProgressCache::new();
    run(&op, &context(), &targets, 2, &mut in_order);

    let other = Scripted::new(&[("b", 100), ("c", 1)]);
    let mut shuffled = ProgressCache::new();
    for target in ["d", "b", "a", "c"] {
        let report = run_target(&other, &context(), target, 2);
        record_report(&mut shuffled, report);
    }
    assert_eq!(shuffled.len(), 4);
    for target in &targets {
        assert_eq!(shuffled.get(target), in_order.get(target));
    }
    assert_eq!(summarize(&shuffled, &targets), summarize(&in_order, &targets));
}

#[test]
fn summary_tells_full_success() {
    let mut cache = ProgressCache::new();
    cache.record("a", Outcome::Succeeded, 1);
    assert!(summarize(&cache, &strings(&["a"])).all_succeeded());
    cache.record("b", failed("x"), 1);
    assert!(!summarize(&cache, &strings(&["a", "b"])).all_succeeded());
    assert!(summarize(&cache, &strings(&["a"])).all_succeeded());
}

#[test]
fn target_listed_again_is_worked_on_again_unless_it_succeeded() {
    let failing = Scripted::new(&[("a", 100)]);
    let mut cache = ProgressCache::new();
    let summary = run(&failing, &context(), &strings(&["a", "a"]), 2, &mut cache);
    assert_eq!(failing.calls_on("a"), 4);
    assert_eq!(cache.len(), 1);
    assert_eq!(cache.get("a").unwrap().attempts, 2);
    assert_eq!(summary.failed, 2);

    let fine = Scripted::new(&[]);
    let mut other = ProgressCache::new();
    let summary = run(&fine, &context(), &strings(&["b", "b"]), 2, &mut other);
    assert_eq!(fine.calls_on("b"), 1);
    assert_eq!(other.len(), 1);
    assert_eq!(summary.succeeded, 2);
}
