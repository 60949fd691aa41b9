//! The progress cache: for each target that was worked on, how the work
//! ended and how many attempts it took.
//!
//! The cache keeps its entries in the order in which their targets were first
//! recorded, and never holds two entries for one target.

use crate::outcome::Outcome;
use crate::outcome::OutcomeView;
use crate::text::same_text;
use crate::text::strings_view;
use vstd::prelude::*;

verus! {

/// What the cache holds for one target.
#[derive(Debug, PartialEq, Eq)]
pub struct CacheEntry {
    pub target: String,
    pub outcome: Outcome,
    pub attempts: u8,
}

/// What a `CacheEntry` stands for.
pub struct EntryView {
    pub target: Seq<char>,
    pub outcome: OutcomeView,
    pub attempts: u8,
}

impl View for CacheEntry {
    type V = EntryView;

    open spec fn view(&self) -> EntryView {
        EntryView { target: self.target@, outcome: self.outcome@, attempts: self.attempts }
    }
}

impl CacheEntry {
    /// A copy of this entry.
    pub fn duplicate(&self) -> (copy: CacheEntry)
        ensures
            copy@ == self@,
    {
        CacheEntry {
            target: self.target.clone(),
            outcome: self.outcome.duplicate(),
            attempts: self.attempts,
        }
    }
}

/// What a vector of entries stands for.
pub open spec fn entries_view(entries: Seq<CacheEntry>) -> Seq<EntryView> {
    Seq::new(entries.len(), |i: int| entries[i]@)
}

/// No two entries are for the same target.
pub open spec fn distinct_targets(es: Seq<EntryView>) -> bool {
    forall|i: int, j: int|
        0 <= i < j < es.len() ==> (#[trigger] es[i]).target != (#[trigger] es[j]).target
}

/// Whether some entry is for `target`.
pub open spec fn has_target(es: Seq<EntryView>, target: Seq<char>) -> bool {
    exists|i: int| 0 <= i < es.len() && (#[trigger] es[i]).target == target
}

/// The place of an entry for `target`, where there is one.
pub open spec fn index_of(es: Seq<EntryView>, target: Seq<char>) -> int {
    choose|i: int| 0 <= i < es.len() && (#[trigger] es[i]).target == target
}

/// Whether `target` is marked as succeeded.
pub open spec fn succeeded_in(es: Seq<EntryView>, target: Seq<char>) -> bool {
    has_target(es, target) && es[index_of(es, target)].outcome is Succeeded
}

/// The entries after `e` was recorded: `e` takes the place of the entry for
/// its target, or comes last where there was none.
pub open spec fn recorded(es: Seq<EntryView>, e: EntryView) -> Seq<EntryView> {
    if has_target(es, e.target) {
        es.update(index_of(es, e.target), e)
    } else {
        es.push(e)
    }
}

/// The entries as a mapping from target to entry.
pub open spec fn as_map(es: Seq<EntryView>) -> Map<Seq<char>, EntryView> {
    Map::new(|t: Seq<char>| has_target(es, t), |t: Seq<char>| es[index_of(es, t)])
}

/// The targets that are not marked as succeeded, in the order of their entries.
pub open spec fn pending_targets(es: Seq<EntryView>) -> Seq<Seq<char>>
    decreases es.len(),
{
    if es.len() == 0 {
        Seq::empty()
    } else if es.last().outcome is Succeeded {
        pending_targets(es.drop_last())
    } else {
        pending_targets(es.drop_last()).push(es.last().target)
    }
}

/// The entries after each of `reports` was recorded, in their order.
pub open spec fn recorded_all(es: Seq<EntryView>, reports: Seq<EntryView>) -> Seq<EntryView>
    decreases reports.len(),
{
    if reports.len() == 0 {
        es
    } else {
        recorded(recorded_all(es, reports.drop_last()), reports.last())
    }
}

/// In a cache without repeated targets, an entry's target is found at the
/// entry's own place.
pub proof fn lemma_index_of(es: Seq<EntryView>, i: int)
    requires
        distinct_targets(es),
        0 <= i < es.len(),
    ensures
        has_target(es, es[i].target),
        index_of(es, es[i].target) == i,
{
}

/// Recording keeps the targets distinct.
pub proof fn lemma_recorded_distinct(es: Seq<EntryView>, e: EntryView)
    requires
        distinct_targets(es),
    ensures
        distinct_targets(recorded(es, e)),
{
}

/// Recording is an insertion into the mapping: the recorded target maps to
/// the new entry, and every other target maps to what it mapped to before.
pub proof fn lemma_recorded_map(es: Seq<EntryView>, e: EntryView)
    requires
        distinct_targets(es),
    ensures
        as_map(recorded(es, e)) == as_map(es).insert(e.target, e),
{
    let after = recorded(es, e);
    assert forall|t: Seq<char>| has_target(after, t) <==> (t == e.target || has_target(es, t)) by {
        if t == e.target {
            if has_target(es, e.target) {
                assert(after[index_of(es, e.target)].target == t);
            } else {
                assert(after[es.len() as int].target == t);
            }
        } else if has_target(es, t) {
            let i = index_of(es, t);
            assert(after[i].target == t);
        }
    }
}

/// No update is lost, whatever the order: after the reports on distinct
/// targets were recorded, the cache holds each report, and for every other
/// target what it held before. The mapping on the right does not depend on
/// the order of the reports.
pub proof fn lemma_recorded_all(es: Seq<EntryView>, reports: Seq<EntryView>)
    requires
        distinct_targets(es),
        distinct_targets(reports),
    ensures
        distinct_targets(recorded_all(es, reports)),
        as_map(recorded_all(es, reports)) == as_map(es).union_prefer_right(as_map(reports)),
        es.len() == 0 ==> recorded_all(es, reports).len() == reports.len(),
    decreases reports.len(),
{
    if reports.len() > 0 {
        let init = reports.drop_last();
        let last = reports.last();
        lemma_recorded_all(es, init);
        let before = recorded_all(es, init);
        lemma_recorded_map(before, last);
        assert(recorded(init, last) =~= reports);
        if es.len() == 0 {
            assert(!has_target(before, last.target)) by {
                assert(!as_map(before).dom().contains(last.target));
            }
        }
    }
}

/// A target is pending exactly when the cache has an entry for it that is
/// not marked as succeeded.
pub proof fn lemma_pending_targets(es: Seq<EntryView>, target: Seq<char>)
    ensures
        pending_targets(es).contains(target) <==> exists|i: int|
            0 <= i < es.len() && (#[trigger] es[i]).target == target && !(es[i].outcome
                is Succeeded),
    decreases es.len(),
{
    if es.len() > 0 {
        let init = es.drop_last();
        lemma_pending_targets(init, target);
        let last = es.len() - 1;
        if exists|i: int|
            0 <= i < es.len() && (#[trigger] es[i]).target == target && !(es[i].outcome
                is Succeeded) {
            let i = choose|i: int|
                0 <= i < es.len() && (#[trigger] es[i]).target == target && !(es[i].outcome
                    is Succeeded);
            if i < last {
                assert(init[i] == es[i]);
                let k = choose|k: int|
                    0 <= k < pending_targets(init).len() && pending_targets(init)[k] == target;
                if !(es.last().outcome is Succeeded) {
                    assert(pending_targets(es)[k] == target);
                }
            } else {
                assert(pending_targets(es)[pending_targets(init).len() as int] == target);
            }
        }
    }
}

/// The progress of a batch: one entry for each target that was worked on.
pub struct ProgressCache {
    entries: Vec<CacheEntry>,
}

impl View for ProgressCache {
    type V = Seq<EntryView>;

    closed spec fn view(&self) -> Seq<EntryView> {
        entries_view(self.entries@)
    }
}

impl ProgressCache {
    #[verifier::type_invariant]
    spec fn well_formed(&self) -> bool {
        distinct_targets(entries_view(self.entries@))
    }

    /// A cache without entries.
    pub fn new() -> (cache: ProgressCache)
        ensures
            cache@ == Seq::<EntryView>::empty(),
    {
        let cache = ProgressCache { entries: Vec::new() };
        cache
    }

    /// The number of entries. No two of them are for the same target.
    pub fn len(&self) -> (n: usize)
        ensures
            n == self@.len(),
            distinct_targets(self@),
    {
        proof {
            use_type_invariant(self);
        }
        self.entries.len()
    }

    /// Whether the cache has no entries.
    pub fn is_empty(&self) -> (b: bool)
        ensures
            b == (self@.len() == 0),
    {
        self.entries.len() == 0
    }

    /// The entries, in the order in which their targets were first recorded.
    pub fn entries(&self) -> (entries: &Vec<CacheEntry>)
        ensures
            entries_view(entries@) == self@,
            distinct_targets(self@),
    {
        proof {
            use_type_invariant(self);
        }
        &self.entries
    }

    /// The place of the entry for `target`, if there is one.
    pub fn find(&self, target: &str) -> (r: Option<usize>)
        ensures
            distinct_targets(self@),
            r is Some <==> has_target(self@, target@),
            r matches Some(i) ==> i == index_of(self@, target@) && i < self@.len(),
    {
        proof {
            use_type_invariant(self);
        }
        let mut i: usize = 0;
        while i < self.entries.len()
            invariant
                i <= self.entries@.len(),
                self@ == entries_view(self.entries@),
                distinct_targets(self@),
                forall|k: int| 0 <= k < i ==> (#[trigger] self@[k]).target != target@,
            decreases self.entries@.len() - i,
        {
            if same_text(self.entries[i].target.as_str(), target) {
                proof {
                    lemma_index_of(self@, i as int);
                }
                return Some(i);
            }
            i += 1;
        }
        None
    }

    /// The entry for `target`, if there is one.
    pub fn get(&self, target: &str) -> (r: Option<&CacheEntry>)
        ensures
            r is Some <==> as_map(self@).contains_key(target@),
            r matches Some(e) ==> e@ == as_map(self@)[target@],
            distinct_targets(self@),
    {
        match self.find(target) {
            Some(i) => Some(&self.entries[i]),
            None => None,
        }
    }

    /// Whether `target` is marked as succeeded.
    pub fn is_succeeded(&self, target: &str) -> (b: bool)
        ensures
            b == succeeded_in(self@, target@),
    {
        match self.find(target) {
            Some(i) => self.entries[i].outcome.is_succeeded(),
            None => false,
        }
    }

    /// Records how the work on `target` ended, in place of what was recorded
    /// for it before.
    pub fn record(&mut self, target: &str, outcome: Outcome, attempts: u8)
        ensures
            final(self)@ == recorded(
                old(self)@,
                EntryView { target: target@, outcome: outcome@, attempts },
            ),
            distinct_targets(final(self)@),
    {
        let ghost e = EntryView { target: target@, outcome: outcome@, attempts };
        let found = self.find(target);
        let entry = CacheEntry { target: target.to_owned(), outcome, attempts };
        let mut entries: Vec<CacheEntry> = Vec::new();
        core::mem::swap(&mut self.entries, &mut entries);
        match found {
            Some(i) => {
                entries.set(i, entry);
            },
            None => {
                entries.push(entry);
            },
        }
        assert(entries_view(entries@) =~= recorded(old(self)@, e));
        self.entries = entries;
    }

    /// The targets that are not marked as succeeded, in the order of their
    /// entries.
    pub fn pending(&self) -> (targets: Vec<String>)
        ensures
            strings_view(targets@) == pending_targets(self@),
            distinct_targets(self@),
    {
        proof {
            use_type_invariant(self);
        }
        let mut targets: Vec<String> = Vec::new();
        let mut i: usize = 0;
        while i < self.entries.len()
            invariant
                i <= self.entries@.len(),
                self@ == entries_view(self.entries@),
                strings_view(targets@) == pending_targets(self@.take(i as int)),
            decreases self.entries@.len() - i,
        {
            proof {
                assert(self@.take(i + 1).drop_last() =~= self@.take(i as int));
            }
            if !self.entries[i].outcome.is_succeeded() {
                targets.push(self.entries[i].target.clone());
            }
            i += 1;
        }
        assert(self@.take(i as int) =~= self@);
        targets
    }
}

} // verus!
