//! The end of a run: documents that are gone.
//!
//! A document is deleted only where a run has evidence that it is gone. What the ingestor
//! reported gone is confirmed. What it did not come across is presumed gone, but only if the
//! run looked everywhere and saw at least one of the source's documents; and never for a
//! feed, whose entries age out of its window without being gone.

use super::pipeline;
use super::pipeline::{PipelineCallback, RunView};
use super::records;
use super::records::FetchMetadata;
use super::source;
use super::source::{DeletionPolicy, ProgressEvent, SourceSpec};
use crate::text;
use vstd::prelude::*;

verus! {

/// Whether an ingestor looked everywhere.
#[derive(Debug, Clone, PartialEq, Eq)]
pub enum Enumeration {
    Complete,
    /// Something could not be looked at.
    Incomplete { reason: String },
}

/// Why documents that were not seen are not taken for gone.
#[derive(Debug, Clone, PartialEq, Eq)]
pub enum SweepSuppression {
    /// The run did not look everywhere.
    IncompleteEnumeration(String),
    /// The run saw none of the documents that the source owns.
    ZeroSeen,
}

/// [`Enumeration`] as a mathematical value: the reason, where it is incomplete.
pub open spec fn enumeration_view(e: Enumeration) -> Option<Seq<char>> {
    match e {
        Enumeration::Complete => None,
        Enumeration::Incomplete { reason } => Some(reason@),
    }
}

/// [`SweepSuppression`] as a mathematical value.
pub enum SuppressionView {
    IncompleteEnumeration(Seq<char>),
    ZeroSeen,
}

impl View for SweepSuppression {
    type V = SuppressionView;

    open spec fn view(&self) -> SuppressionView {
        match *self {
            SweepSuppression::IncompleteEnumeration(r) => SuppressionView::IncompleteEnumeration(r@),
            SweepSuppression::ZeroSeen => SuppressionView::ZeroSeen,
        }
    }
}

impl SweepSuppression {
    /// The reason in words.
    pub fn reason(&self) -> (r: &str)
        ensures
            r@ == (match self@ {
                SuppressionView::IncompleteEnumeration(reason) => reason,
                SuppressionView::ZeroSeen =>
                    "this run observed none of the documents this source owns"@,
            }),
    {
        match self {
            SweepSuppression::IncompleteEnumeration(reason) => reason.as_str(),
            SweepSuppression::ZeroSeen =>
                "this run observed none of the documents this source owns",
        }
    }
}

/// What is to be done about documents that were not seen.
pub enum SweepPlan {
    /// Nothing.
    Nothing,
    /// Nothing, for this reason.
    Suppressed(SweepSuppression),
    /// Delete the documents with these URIs.
    Delete(Vec<String>),
    /// Ask for entries of the feed that were not checked for a while.
    ProbeFeed { refresh_interval_secs: Option<u64> },
}

/// [`SweepPlan`] as a mathematical value.
pub enum PlanView {
    Nothing,
    Suppressed(SuppressionView),
    Delete(Set<Seq<char>>),
    ProbeFeed { refresh_interval_secs: Option<u64> },
}

impl View for SweepPlan {
    type V = PlanView;

    open spec fn view(&self) -> PlanView {
        match *self {
            SweepPlan::Nothing => PlanView::Nothing,
            SweepPlan::Suppressed(s) => PlanView::Suppressed(s@),
            SweepPlan::Delete(v) => PlanView::Delete(text::views(v@).to_set()),
            SweepPlan::ProbeFeed { refresh_interval_secs } => PlanView::ProbeFeed {
                refresh_interval_secs,
            },
        }
    }
}

impl RunView {
    /// Whether the document belongs to this run's source.
    pub open spec fn owns(self, uri: Seq<char>) -> bool {
        self.index.contains_key(uri) && self.index[uri].source_id == self.source.id
    }

    /// The documents of this run's source.
    pub open spec fn owned(self) -> Set<Seq<char>> {
        Set::new(|u: Seq<char>| self.owns(u))
    }

    /// The documents of this run's source that were reported gone.
    pub open spec fn confirmed(self) -> Set<Seq<char>> {
        Set::new(|u: Seq<char>| self.gone.contains(u) && self.owns(u))
    }

    /// The documents of this run's source that did not come up at all.
    pub open spec fn absent(self) -> Set<Seq<char>> {
        Set::new(
            |u: Seq<char>| self.owns(u) && !self.seen.contains(u) && !self.gone.contains(u),
        )
    }

    /// Whether one of the source's documents was seen.
    pub open spec fn saw_its_own(self) -> bool {
        exists|u: Seq<char>| self.owns(u) && #[trigger] self.seen.contains(u)
    }

    /// Why absence is no evidence, where it is none.
    pub open spec fn suppression(self, incomplete: Option<Seq<char>>) -> Option<SuppressionView> {
        match incomplete {
            Some(reason) => Some(SuppressionView::IncompleteEnumeration(reason)),
            None => if (exists|u: Seq<char>| #[trigger] self.owns(u)) && !self.saw_its_own() {
                Some(SuppressionView::ZeroSeen)
            } else {
                None
            },
        }
    }

    /// So many more documents that a pruning run would delete.
    pub open spec fn with_prunable(self, n: int) -> RunView {
        RunView {
            result: records::ResultView {
                docs_prunable: records::bumped(self.result.docs_prunable, n),
                ..self.result
            },
            ..self
        }
    }

    /// What is to be done about documents that were not seen.
    pub open spec fn sweep(
        self,
        deletion: DeletionPolicy,
        incomplete: Option<Seq<char>>,
    ) -> PlanView {
        match self.source.spec {
            source::SpecView::Feed { refresh_interval_secs, .. } => if deletion
                == DeletionPolicy::Retain {
                PlanView::Nothing
            } else {
                match incomplete {
                    Some(reason) => PlanView::Suppressed(
                        SuppressionView::IncompleteEnumeration(reason),
                    ),
                    None => PlanView::ProbeFeed { refresh_interval_secs },
                }
            },
            _ => match self.suppression(incomplete) {
                Some(s) => PlanView::Suppressed(s),
                None => if deletion == DeletionPolicy::Retain {
                    PlanView::Nothing
                } else {
                    PlanView::Delete(self.absent())
                },
            },
        }
    }

    /// Whether documents that were not seen are counted and kept.
    pub open spec fn counts_absent(
        self,
        deletion: DeletionPolicy,
        incomplete: Option<Seq<char>>,
    ) -> bool {
        !(self.source.spec is Feed) && self.suppression(incomplete) is None && deletion
            == DeletionPolicy::Retain
    }
}

/// A list without repetition has as many items as the set of them.
proof fn lemma_distinct_len(s: Seq<Seq<char>>)
    requires
        s.no_duplicates(),
    ensures
        s.to_set().len() == s.len(),
{
    s.unique_seq_to_set();
}

/// One more item in a list without repetition.
proof fn lemma_distinct_push(s: Seq<Seq<char>>, all: Seq<Seq<char>>, i: int)
    requires
        all.no_duplicates(),
        0 <= i < all.len(),
        s.no_duplicates(),
        forall|u: Seq<char>| s.contains(u) ==> all.take(i).contains(u),
    ensures
        s.push(all[i]).no_duplicates(),
{
    assert(!s.contains(all[i])) by {
        if all.take(i).contains(all[i]) {
            let j = choose|j: int| 0 <= j < i && all.take(i)[j] == all[i];
            assert(all[j] == all[i]);
        }
    }
    let t = s.push(all[i]);
    assert forall|a: int, b: int| 0 <= a < t.len() && 0 <= b < t.len() && a != b implies t[a] != t[b] by {
        if a == s.len() {
            assert(s.contains(s[b]));
        } else if b == s.len() {
            assert(s.contains(s[a]));
        }
    }
}

/// What is in a list of so many items and one more.
proof fn lemma_take_contains(all: Seq<Seq<char>>, i: int, u: Seq<char>)
    requires
        0 <= i < all.len(),
    ensures
        all.take(i + 1).contains(u) <==> all.take(i).contains(u) || u == all[i],
{
    let (s, t) = (all.take(i), all.take(i + 1));
    if t.contains(u) {
        let j = choose|j: int| 0 <= j < t.len() && t[j] == u;
        if j < i {
            assert(s[j] == u);
        }
    }
    if s.contains(u) {
        let j = choose|j: int| 0 <= j < s.len() && s[j] == u;
        assert(t[j] == u);
    }
    assert(t[i] == all[i]);
}

proof fn lemma_push_contains(s: Seq<Seq<char>>, x: Seq<char>, u: Seq<char>)
    ensures
        s.push(x).contains(u) <==> s.contains(u) || u == x,
{
    let t = s.push(x);
    if t.contains(u) {
        let j = choose|j: int| 0 <= j < t.len() && t[j] == u;
        if j < s.len() {
            assert(s[j] == u);
        }
    }
    if s.contains(u) {
        let j = choose|j: int| 0 <= j < s.len() && s[j] == u;
        assert(t[j] == u);
    }
    assert(t[s.len() as int] == x);
}

impl PipelineCallback {
    /// Whether the document belongs to this run's source.
    fn owns(&self, uri: &str) -> (r: bool)
        requires
            self.wf(),
        ensures
            r == self@.owns(uri@),
    {
        match self.doc_index.get(uri) {
            Some(record) => text::str_eq(record.source_id.as_str(), self.source.id.as_str()),
            None => false,
        }
    }

    /// Those of the given documents that belong to this run's source.
    fn owned_among(&self, all: &Vec<String>) -> (r: Vec<String>)
        requires
            self.wf(),
            text::views(all@).no_duplicates(),
        ensures
            text::views(r@).no_duplicates(),
            forall|u: Seq<char>|
                #[trigger] text::views(r@).contains(u) <==> text::views(all@).contains(u)
                    && self@.owns(u),
    {
        let ghost vs = text::views(all@);
        let mut out: Vec<String> = Vec::new();
        let mut i: usize = 0;
        while i < all.len()
            invariant
                i <= all@.len(),
                self.wf(),
                vs == text::views(all@),
                vs.no_duplicates(),
                text::views(out@).no_duplicates(),
                forall|u: Seq<char>|
                    #[trigger] text::views(out@).contains(u) <==> vs.take(i as int).contains(u)
                        && self@.owns(u),
            decreases all.len() - i,
        {
            let ghost before = text::views(out@);
            if self.owns(all[i].as_str()) {
                out.push(all[i].clone());
                proof {
                    assert(text::views(out@) =~= before.push(vs[i as int]));
                    assert forall|u: Seq<char>| before.contains(u) implies vs.take(
                        i as int,
                    ).contains(u) by {}
                    lemma_distinct_push(before, vs, i as int);
                }
            }
            assert forall|u: Seq<char>| #[trigger]
                text::views(out@).contains(u) <==> vs.take(i + 1).contains(u) && self@.owns(u) by {
                lemma_take_contains(vs, i as int, u);
                lemma_push_contains(before, vs[i as int], u);
                assert(before.contains(u) <==> vs.take(i as int).contains(u) && self@.owns(u));
            }
            i += 1;
        }
        assert(vs.take(i as int) =~= vs);
        out
    }

    /// The documents of this run's source, each once.
    pub fn owned_uris(&self) -> (r: Vec<String>)
        requires
            self.wf(),
        ensures
            text::views(r@).no_duplicates(),
            text::views(r@).to_set() == self@.owned(),
    {
        let all = self.doc_index.uris();
        let out = self.owned_among(&all);
        proof {
            let vs = text::views(all@);
            assert forall|u: Seq<char>| text::views(out@).to_set().contains(u)
                <==> self@.owned().contains(u) by {
                assert(text::views(out@).contains(u) <==> vs.contains(u) && self@.owns(u));
                assert(vs.to_set().contains(u) <==> self@.index.dom().contains(u));
            }
            assert(text::views(out@).to_set() =~= self@.owned());
        }
        out
    }

    /// Takes up the documents that were reported gone. Retained ones are counted; for a
    /// pruning run they are returned, to be removed. Those of other sources are left alone.
    pub fn confirmed_gone(&mut self, deletion: DeletionPolicy) -> (r: Vec<String>)
        requires
            old(self).wf(),
        ensures
            final(self).wf(),
            text::views(r@).no_duplicates(),
            deletion == DeletionPolicy::Prune ==> {
                &&& text::views(r@).to_set() == old(self)@.confirmed()
                &&& final(self)@ == old(self)@
            },
            deletion == DeletionPolicy::Retain ==> {
                &&& r@.len() == 0
                &&& final(self)@ == old(self)@.with_prunable(old(self)@.confirmed().len() as int)
            },
    {
        let all = self.gone.to_vec();
        let out = self.owned_among(&all);
        proof {
            let vs = text::views(all@);
            assert forall|u: Seq<char>| text::views(out@).to_set().contains(u)
                <==> self@.confirmed().contains(u) by {
                assert(text::views(out@).contains(u) <==> vs.contains(u) && self@.owns(u));
                assert(vs.to_set().contains(u) <==> self@.gone.contains(u));
            }
            assert(text::views(out@).to_set() =~= self@.confirmed());
            lemma_distinct_len(text::views(out@));
        }
        match deletion {
            DeletionPolicy::Prune => out,
            DeletionPolicy::Retain => {
                self.result.docs_prunable =
                self.result.docs_prunable.saturating_add(out.len() as u64);
                let none: Vec<String> = Vec::new();
                assert(text::views(none@) =~= Seq::empty());
                none
            },
        }
    }

    /// Whether one of the URIs was seen.
    fn any_seen(&self, uris: &Vec<String>) -> (r: bool)
        ensures
            r == exists|i: int|
                0 <= i < uris@.len() && #[trigger] self.seen@.contains(text::views(uris@)[i]),
    {
        let mut i: usize = 0;
        while i < uris.len()
            invariant
                i <= uris@.len(),
                forall|j: int| 0 <= j < i ==> !#[trigger] self.seen@.contains(text::views(uris@)[j]),
            decreases uris.len() - i,
        {
            if self.seen.contains(uris[i].as_str()) {
                assert(self.seen@.contains(text::views(uris@)[i as int]));
                return true;
            }
            i += 1;
        }
        false
    }

    /// Why absence is no evidence that a document is gone, where it is none.
    fn suppressed_because(&self, enumeration: &Enumeration, owned: &Vec<String>) -> (r: Option<
        SweepSuppression,
    >)
        requires
            self.wf(),
            text::views(owned@).to_set() == self@.owned(),
        ensures
            match self@.suppression(enumeration_view(*enumeration)) {
                Some(s) => r is Some && r->0@ == s,
                None => r is None,
            },
    {
        let ghost vs = text::views(owned@);
        let seen_own = self.any_seen(owned);
        proof {
            assert(seen_own == self@.saw_its_own()) by {
                if seen_own {
                    let i = choose|i: int|
                        0 <= i < owned@.len() && #[trigger] self.seen@.contains(vs[i]);
                    assert(vs.contains(vs[i]));
                    assert(vs.to_set().contains(vs[i]));
                    assert(self@.owned().contains(vs[i]));
                    assert(self@.owns(vs[i]) && self@.seen.contains(vs[i]));
                }
                if self@.saw_its_own() {
                    let u = choose|u: Seq<char>| self@.owns(u) && #[trigger] self@.seen.contains(u);
                    assert(self@.owned().contains(u));
                    assert(vs.to_set().contains(u));
                    let i = choose|i: int| 0 <= i < vs.len() && vs[i] == u;
                    assert(self.seen@.contains(vs[i]));
                }
            }
            assert((owned@.len() > 0) == (exists|u: Seq<char>| #[trigger] self@.owns(u))) by {
                if owned@.len() > 0 {
                    assert(vs.contains(vs[0]));
                    assert(vs.to_set().contains(vs[0]));
                    assert(self@.owned().contains(vs[0]));
                    assert(self@.owns(vs[0]));
                }
                if exists|u: Seq<char>| #[trigger] self@.owns(u) {
                    let u = choose|u: Seq<char>| #[trigger] self@.owns(u);
                    assert(self@.owned().contains(u));
                    assert(vs.to_set().contains(u));
                    assert(vs.contains(u));
                }
            }
        }
        match enumeration {
            Enumeration::Incomplete { reason } => Some(
                SweepSuppression::IncompleteEnumeration(reason.clone()),
            ),
            Enumeration::Complete => if owned.len() > 0 && !seen_own {
                Some(SweepSuppression::ZeroSeen)
            } else {
                None
            },
        }
    }

    /// Of the owned documents those that did not come up at all.
    fn absent_uris(&self, owned: &Vec<String>) -> (r: Vec<String>)
        requires
            self.wf(),
            text::views(owned@).no_duplicates(),
            text::views(owned@).to_set() == self@.owned(),
        ensures
            text::views(r@).no_duplicates(),
            text::views(r@).to_set() == self@.absent(),
    {
        let ghost vs = text::views(owned@);
        let mut out: Vec<String> = Vec::new();
        let mut i: usize = 0;
        while i < owned.len()
            invariant
                i <= owned@.len(),
                vs == text::views(owned@),
                vs.no_duplicates(),
                text::views(out@).no_duplicates(),
                forall|u: Seq<char>|
                    #[trigger] text::views(out@).contains(u) <==> vs.take(i as int).contains(u)
                        && !self@.seen.contains(u) && !self@.gone.contains(u),
            decreases owned.len() - i,
        {
            let ghost before = text::views(out@);
            let uri = owned[i].as_str();
            if !self.seen.contains(uri) && !self.gone.contains(uri) {
                out.push(owned[i].clone());
                proof {
                    assert(text::views(out@) =~= before.push(vs[i as int]));
                    assert forall|u: Seq<char>| before.contains(u) implies vs.take(
                        i as int,
                    ).contains(u) by {}
                    lemma_distinct_push(before, vs, i as int);
                }
            }
            assert forall|u: Seq<char>| #[trigger]
                text::views(out@).contains(u) <==> vs.take(i + 1).contains(u)
                    && !self@.seen.contains(u) && !self@.gone.contains(u) by {
                lemma_take_contains(vs, i as int, u);
                lemma_push_contains(before, vs[i as int], u);
                assert(before.contains(u) <==> vs.take(i as int).contains(u)
                    && !self@.seen.contains(u) && !self@.gone.contains(u));
            }
            i += 1;
        }
        proof {
            assert(vs.take(i as int) =~= vs);
            assert forall|u: Seq<char>| text::views(out@).to_set().contains(u)
                <==> self@.absent().contains(u) by {
                assert(text::views(out@).contains(u) <==> vs.contains(u)
                    && !self@.seen.contains(u) && !self@.gone.contains(u));
                assert(vs.to_set().contains(u) <==> self@.owned().contains(u));
            }
            assert(text::views(out@).to_set() =~= self@.absent());
        }
        out
    }

    /// What is to be done about documents that were not seen. It is asked once the confirmed
    /// ones are removed.
    pub fn plan_sweep(&mut self, deletion: DeletionPolicy, enumeration: &Enumeration) -> (r:
        SweepPlan)
        requires
            old(self).wf(),
        ensures
            final(self).wf(),
            r@ == old(self)@.sweep(deletion, enumeration_view(*enumeration)),
            r matches SweepPlan::Delete(uris) ==> text::views(uris@).no_duplicates(),
            final(self)@ == (if old(self)@.counts_absent(
                deletion,
                enumeration_view(*enumeration),
            ) {
                old(self)@.with_prunable(old(self)@.absent().len() as int)
            } else {
                old(self)@
            }),
    {
        match &self.source.spec {
            SourceSpec::Feed { refresh_interval_secs, .. } => match deletion {
                DeletionPolicy::Retain => SweepPlan::Nothing,
                DeletionPolicy::Prune => match enumeration {
                    Enumeration::Incomplete { reason } => SweepPlan::Suppressed(
                        SweepSuppression::IncompleteEnumeration(reason.clone()),
                    ),
                    Enumeration::Complete => SweepPlan::ProbeFeed {
                        refresh_interval_secs: *refresh_interval_secs,
                    },
                },
            },
            _ => {
                let owned = self.owned_uris();
                match self.suppressed_because(enumeration, &owned) {
                    Some(reason) => SweepPlan::Suppressed(reason),
                    None => {
                        let absent = self.absent_uris(&owned);
                        proof {
                            lemma_distinct_len(text::views(absent@));
                        }
                        match deletion {
                            DeletionPolicy::Retain => {
                                self.result.docs_prunable =
                                self.result.docs_prunable.saturating_add(absent.len() as u64);
                                SweepPlan::Nothing
                            },
                            DeletionPolicy::Prune => SweepPlan::Delete(absent),
                        }
                    },
                }
            },
        }
    }

    /// Takes a document out of the index. Returns the resource that is to be deleted from
    /// the store.
    pub fn remove_document(&mut self, uri: &str) -> (r: Option<String>)
        requires
            old(self).wf(),
        ensures
            final(self).wf(),
            final(self)@ == (RunView { index: old(self)@.index.remove(uri@), ..old(self)@ }),
            text::opt_view(r) == (if old(self)@.index.contains_key(uri@) {
                Some(old(self)@.index[uri@].resource_id)
            } else {
                None
            }),
    {
        match self.doc_index.remove(uri) {
            Some(record) => Some(record.resource_id),
            None => None,
        }
    }

    /// Takes the store's answer to a deletion: how much was deleted.
    pub fn document_deleted(&mut self, deleted: u64)
        requires
            old(self).wf(),
        ensures
            final(self).wf(),
            final(self)@ == (if deleted > 0 {
                RunView {
                    result: records::ResultView {
                        docs_deleted: records::bumped(old(self)@.result.docs_deleted, 1),
                        ..old(self)@.result
                    },
                    ..old(self)@
                }
            } else {
                old(self)@
            }),
    {
        if deleted > 0 {
            self.result.docs_deleted = records::bump(self.result.docs_deleted);
        }
    }

    /// Keeps the validators of the feed document itself, and the digest of the local inputs
    /// that they belong to.
    pub fn record_validators(&mut self, validators: Option<FetchMetadata>, digest: Option<String>)
        requires
            old(self).wf(),
        ensures
            final(self).wf(),
            final(self)@ == (RunView {
                result: records::ResultView {
                    document_validators: records::opt_validators_view(validators),
                    document_inputs_digest: text::opt_view(digest),
                    ..old(self)@.result
                },
                ..old(self)@
            }),
    {
        self.result.document_validators = validators;
        self.result.document_inputs_digest = digest;
    }

    /// Ends the run. Returns what it did.
    pub fn finish(&mut self) -> (r: records::IngestionResult)
        requires
            old(self).wf(),
        ensures
            final(self).wf(),
            r@ == old(self)@.result,
            final(self)@ == (RunView {
                events: old(self)@.events.push(
                    source::EventView::SourceFinished { result: old(self)@.result },
                ),
                ..old(self)@
            }),
    {
        let result = self.result.copied();
        self.emit(ProgressEvent::SourceFinished { result: result.copied() });
        result
    }
}

// ---------------------------------------------------------------------------
// Laws
// ---------------------------------------------------------------------------
/// A retaining run deletes nothing: what is not seen is at most counted.
pub proof fn retaining_runs_delete_nothing(run: RunView, incomplete: Option<Seq<char>>)
    ensures
        !(run.sweep(DeletionPolicy::Retain, incomplete) is Delete),
        !(run.sweep(DeletionPolicy::Retain, incomplete) is ProbeFeed),
{
}

/// A run that did not look everywhere deletes nothing for being absent.
pub proof fn incomplete_runs_sweep_nothing(
    run: RunView,
    deletion: DeletionPolicy,
    reason: Seq<char>,
)
    ensures
        run.sweep(deletion, Some(reason)) is Nothing || run.sweep(deletion, Some(reason))
            == PlanView::Suppressed(SuppressionView::IncompleteEnumeration(reason)),
{
}

/// A run that saw none of its source's documents deletes none of them for being absent.
pub proof fn blind_runs_sweep_nothing(
    run: RunView,
    deletion: DeletionPolicy,
    incomplete: Option<Seq<char>>,
)
    requires
        forall|u: Seq<char>| run.owns(u) ==> !#[trigger] run.seen.contains(u),
        run.sweep(deletion, incomplete) is Delete,
    ensures
        run.sweep(deletion, incomplete)->Delete_0 =~= Set::<Seq<char>>::empty(),
{
}

/// A sweep deletes only documents of its own source, and none that was seen.
pub proof fn sweeps_spare_what_was_seen(
    run: RunView,
    deletion: DeletionPolicy,
    incomplete: Option<Seq<char>>,
    uri: Seq<char>,
)
    requires
        run.sweep(deletion, incomplete) matches PlanView::Delete(uris) && uris.contains(uri),
    ensures
        run.owns(uri),
        !run.seen.contains(uri),
        deletion == DeletionPolicy::Prune,
{
}

/// The absence of an entry from a feed never deletes it.
pub proof fn feeds_are_not_swept(
    run: RunView,
    deletion: DeletionPolicy,
    incomplete: Option<Seq<char>>,
)
    requires
        run.source.spec is Feed,
    ensures
        !(run.sweep(deletion, incomplete) is Delete),
{
}

} // verus!
