//! The end of a run as a machine: what the store and the fetcher are asked to do, one thing
//! at a time, and what follows from their answers.
//!
//! Confirmed removals come first. Then documents that were not seen are deleted, or, for a
//! feed, entries that were not checked for a while are asked for. Then the run is finished.

use super::liveness;
use super::liveness::{FetchResult, ProbeAction};
use super::pipeline::{PipelineCallback, RunView};
use super::records;
use super::records::{FetchMetadata, IngestionResult, StaleFeedResource};
use super::source;
use super::source::{DeletionPolicy, SourceSpec};
use super::sweep;
use super::sweep::{Enumeration, SweepPlan, SweepSuppression};
use crate::clock;
use crate::error::Error;
use crate::lists;
use crate::text;
use vstd::prelude::*;

verus! {

/// Where the end of a run stands.
#[derive(Debug, Clone, Copy, PartialEq, Eq, Structural)]
pub enum Phase {
    /// Documents are removed: those that are confirmed to be gone, or else those that were
    /// not seen.
    Removing { confirmed: bool },
    /// Entries of a feed are looked up.
    Listing,
    /// Entries of a feed are asked for.
    Probing,
    /// Everything is done.
    Done,
}

/// The end of a run over one source.
pub struct SourceRun {
    pub run: PipelineCallback,
    deletion: DeletionPolicy,
    enumeration: Enumeration,
    /// Seconds since 1970.
    now: i64,
    phase: Phase,
    /// Documents to remove.
    queue: Vec<String>,
    /// Entries to ask for.
    candidates: Vec<StaleFeedResource>,
    /// The next one of either.
    at: usize,
    suppressed: Option<SweepSuppression>,
}

/// The end of a run as a mathematical value.
#[verifier::ext_equal]
pub struct MachineView {
    pub run: RunView,
    pub deletion: DeletionPolicy,
    pub incomplete: Option<Seq<char>>,
    pub now: i64,
    pub phase: Phase,
    pub queue: Seq<Seq<char>>,
    pub candidates: Seq<records::StaleView>,
    pub at: int,
    pub suppressed: Option<sweep::SuppressionView>,
}

/// An optional reason as a mathematical value.
pub open spec fn opt_reason(s: Option<SweepSuppression>) -> Option<sweep::SuppressionView> {
    match s {
        Some(s) => Some(s@),
        None => None,
    }
}

impl View for SourceRun {
    type V = MachineView;

    closed spec fn view(&self) -> MachineView {
        MachineView {
            run: self.run@,
            deletion: self.deletion,
            incomplete: sweep::enumeration_view(self.enumeration),
            now: self.now,
            phase: self.phase,
            queue: text::views(self.queue@),
            candidates: lists::views_of(self.candidates@),
            at: self.at as int,
            suppressed: opt_reason(self.suppressed),
        }
    }
}

/// What is to be done next.
pub enum RunAction {
    /// Delete a resource from the store; the answer goes to [`SourceRun::deleted`].
    DeleteResource { resource_id: String },
    /// Look up entries of the feed that were last checked before a time, so many at most; the
    /// answer goes to [`SourceRun::stale`].
    ListStale { checked_before: Option<String>, limit: usize },
    /// Fetch an entry; the answer goes to [`SourceRun::fetched`].
    Fetch { uri: String, validators: FetchMetadata },
    /// Note that an entry was checked, with these validators; then [`SourceRun::touched`],
    /// whether or not it worked.
    Touch { resource_id: String, etag: Option<String>, last_modified: Option<String> },
    /// Nothing: the run is finished. `suppressed` says why nothing was taken for gone.
    Finished { result: IngestionResult, suppressed: Option<SweepSuppression> },
}

/// [`RunAction`] as a mathematical value.
pub enum ActionView {
    DeleteResource { resource_id: Seq<char> },
    ListStale { checked_before: Option<Seq<char>>, limit: int },
    Fetch { uri: Seq<char>, validators: records::ValidatorsView },
    Touch { resource_id: Seq<char>, validators: records::ValidatorsView },
    Finished { result: records::ResultView, suppressed: Option<sweep::SuppressionView> },
}

impl View for RunAction {
    type V = ActionView;

    open spec fn view(&self) -> ActionView {
        match *self {
            RunAction::DeleteResource { resource_id } => ActionView::DeleteResource {
                resource_id: resource_id@,
            },
            RunAction::ListStale { checked_before, limit } => ActionView::ListStale {
                checked_before: text::opt_view(checked_before),
                limit: limit as int,
            },
            RunAction::Fetch { uri, validators } => ActionView::Fetch {
                uri: uri@,
                validators: validators@,
            },
            RunAction::Touch { resource_id, etag, last_modified } => ActionView::Touch {
                resource_id: resource_id@,
                validators: records::ValidatorsView {
                    etag: text::opt_view(etag),
                    last_modified: text::opt_view(last_modified),
                },
            },
            RunAction::Finished { result, suppressed } => ActionView::Finished {
                result: result@,
                suppressed: opt_reason(suppressed),
            },
        }
    }
}

impl RunView {
    /// The run without a document.
    pub open spec fn without(self, uri: Seq<char>) -> RunView {
        RunView { index: self.index.remove(uri), ..self }
    }

    /// The run with its end reported.
    pub open spec fn closed(self) -> RunView {
        RunView {
            events: self.events.push(source::EventView::SourceFinished { result: self.result }),
            ..self
        }
    }

    /// The run with a document counted as deleted, if anything was deleted.
    pub open spec fn with_deleted(self, deleted: u64) -> RunView {
        if deleted > 0 {
            RunView {
                result: records::ResultView {
                    docs_deleted: records::bumped(self.result.docs_deleted, 1),
                    ..self.result
                },
                ..self
            }
        } else {
            self
        }
    }

    /// The run with what was not seen counted, where it is kept.
    pub open spec fn after_plan(
        self,
        deletion: DeletionPolicy,
        incomplete: Option<Seq<char>>,
    ) -> RunView {
        if self.counts_absent(deletion, incomplete) {
            self.with_prunable(self.absent().len() as int)
        } else {
            self
        }
    }

    /// The feed's own interval.
    pub open spec fn refresh(self) -> Option<u64> {
        match self.source.spec {
            source::SpecView::Feed { refresh_interval_secs, .. } => refresh_interval_secs,
            _ => None,
        }
    }
}

/// Whether a list holds each member of a set once.
pub open spec fn lists_set(queue: Seq<Seq<char>>, set: Set<Seq<char>>) -> bool {
    queue.no_duplicates() && queue.to_set() == set
}

/// The lookup of entries that were not checked for a while.
pub open spec fn lookup(b: MachineView) -> ActionView {
    ActionView::ListStale {
        checked_before: clock::utc_text(liveness::cutoff_secs(b.now, b.run.refresh())),
        limit: if 25 + b.run.seen.len() > 500 {
            500
        } else {
            25 + b.run.seen.len() as int
        },
    }
}

/// The next document of the queue is taken out of the index, and deleted.
pub open spec fn removes(b: MachineView, a: MachineView, act: ActionView) -> bool {
    &&& b.at < b.queue.len()
    &&& a == (MachineView { run: b.run.without(b.queue[b.at]), at: b.at + 1, ..b })
    &&& act == (ActionView::DeleteResource {
        resource_id: b.run.index[b.queue[b.at]].resource_id,
    })
}

/// The run is finished.
pub open spec fn ends(b: MachineView, a: MachineView, act: ActionView) -> bool {
    &&& a == (MachineView { run: b.run.closed(), phase: Phase::Done, ..b })
    &&& act == (ActionView::Finished { result: b.run.result, suppressed: b.suppressed })
}

/// A list of documents that were not seen is taken up.
pub open spec fn takes_up(
    m: MachineView,
    queue: Seq<Seq<char>>,
    a: MachineView,
    act: ActionView,
) -> bool {
    let n = MachineView { phase: Phase::Removing { confirmed: false }, queue, at: 0, ..m };
    if queue.len() == 0 {
        ends(n, a, act)
    } else {
        removes(n, a, act)
    }
}

/// The documents of a set are taken up, in some order.
pub open spec fn takes_up_all(
    m: MachineView,
    uris: Set<Seq<char>>,
    a: MachineView,
    act: ActionView,
) -> bool {
    exists|queue: Seq<Seq<char>>|
        #[trigger] lists_set(queue, uris) && takes_up(m, queue, a, act)
}

/// The documents that were not seen are taken up.
pub open spec fn sweeps(b: MachineView, a: MachineView, act: ActionView) -> bool {
    let m = MachineView { run: b.run.after_plan(b.deletion, b.incomplete), ..b };
    match b.run.sweep(b.deletion, b.incomplete) {
        sweep::PlanView::Nothing => ends(m, a, act),
        sweep::PlanView::Suppressed(s) => ends(
            MachineView { suppressed: Some(s), ..m },
            a,
            act,
        ),
        sweep::PlanView::ProbeFeed { .. } => {
            &&& a == (MachineView { phase: Phase::Listing, ..m })
            &&& act == lookup(m)
        },
        sweep::PlanView::Delete(uris) => takes_up_all(m, uris, a, act),
    }
}

/// What follows where nothing is waited for.
pub open spec fn advances(b: MachineView, a: MachineView, act: ActionView) -> bool {
    match b.phase {
        Phase::Removing { confirmed } => if b.at < b.queue.len() {
            removes(b, a, act)
        } else if confirmed {
            sweeps(b, a, act)
        } else {
            ends(b, a, act)
        },
        Phase::Listing => a == b && act == lookup(b),
        Phase::Probing => if b.at < b.candidates.len() {
            let c = b.candidates[b.at];
            &&& a == b
            &&& act == (ActionView::Fetch {
                uri: c.uri,
                validators: records::ValidatorsView {
                    etag: c.external_etag,
                    last_modified: c.external_last_modified,
                },
            })
        } else {
            ends(b, a, act)
        },
        Phase::Done => {
            &&& a == b
            &&& act == (ActionView::Finished { result: b.run.result, suppressed: b.suppressed })
        },
    }
}

/// The end of a run as it begins, with a list of what is confirmed to be gone.
pub open spec fn begins(
    run: RunView,
    deletion: DeletionPolicy,
    incomplete: Option<Seq<char>>,
    now: i64,
    validators: Option<records::ValidatorsView>,
    digest: Option<Seq<char>>,
    queue: Seq<Seq<char>>,
) -> MachineView {
    let noted = RunView {
        result: records::ResultView {
            document_validators: validators,
            document_inputs_digest: digest,
            ..run.result
        },
        ..run
    };
    MachineView {
        run: if deletion == DeletionPolicy::Retain {
            noted.with_prunable(run.confirmed().len() as int)
        } else {
            noted
        },
        deletion,
        incomplete,
        now,
        phase: Phase::Removing { confirmed: true },
        queue,
        candidates: Seq::empty(),
        at: 0,
        suppressed: None,
    }
}

/// What is confirmed to be gone and is to be removed.
pub open spec fn to_remove(run: RunView, deletion: DeletionPolicy) -> Set<Seq<char>> {
    if deletion == DeletionPolicy::Prune {
        run.confirmed()
    } else {
        Set::empty()
    }
}

/// The machine after an entry was fetched: the action for it.
pub open spec fn after_fetch(
    b: MachineView,
    a: MachineView,
    act: ActionView,
    fetched: Result<FetchResult, Error>,
) -> bool {
    if b.phase == Phase::Probing && b.at < b.candidates.len() {
        let c = b.candidates[b.at];
        &&& a == (MachineView { run: b.run.probed(c, fetched), at: b.at + 1, ..b })
        &&& act == (match liveness::probe_action(c, fetched) {
            liveness::ActionView::Delete { resource_id } => ActionView::DeleteResource {
                resource_id,
            },
            liveness::ActionView::Touch { resource_id, validators } => ActionView::Touch {
                resource_id,
                validators,
            },
        })
    } else {
        advances(b, a, act)
    }
}

/// What comes back for an action.
pub enum AnswerView {
    /// How much was deleted.
    Deleted(u64),
    /// The entries that were not checked for a while.
    Stale(Seq<records::StaleView>),
    /// What fetching an entry came to.
    Fetched(Result<FetchResult, Error>),
    /// An entry was noted as checked.
    Touched,
}

/// The machine goes on after an answer.
pub open spec fn responds(
    b: MachineView,
    answer: AnswerView,
    a: MachineView,
    act: ActionView,
) -> bool {
    match answer {
        AnswerView::Deleted(n) => advances(
            MachineView { run: b.run.with_deleted(n), ..b },
            a,
            act,
        ),
        AnswerView::Stale(entries) => advances(
            MachineView {
                phase: Phase::Probing,
                candidates: liveness::at_most(entries.filter(liveness::not_in(b.run.seen)), 25),
                at: 0,
                ..b
            },
            a,
            act,
        ),
        AnswerView::Fetched(fetched) => after_fetch(b, a, act, fetched),
        AnswerView::Touched => advances(b, a, act),
    }
}

impl SourceRun {
    /// The run is well-formed, and what is still to be removed is in the index.
    pub closed spec fn wf(self) -> bool {
        &&& self.run.wf()
        &&& text::views(self.queue@).no_duplicates()
        &&& self.phase is Removing ==> self.at <= self.queue@.len() && forall|j: int|
            self.at <= j < self.queue@.len() ==> self.run@.index.contains_key(
                #[trigger] text::views(self.queue@)[j],
            )
    }

    /// Begins the end of a run, once the ingestor is through.
    pub fn begin(
        run: PipelineCallback,
        deletion: DeletionPolicy,
        enumeration: Enumeration,
        validators: Option<FetchMetadata>,
        digest: Option<String>,
        now: i64,
    ) -> (r: (SourceRun, RunAction))
        requires
            run.wf(),
        ensures
            r.0.wf(),
            exists|queue: Seq<Seq<char>>|
                #[trigger] lists_set(queue, to_remove(run@, deletion)) && advances(
                    begins(
                        run@,
                        deletion,
                        sweep::enumeration_view(enumeration),
                        now,
                        records::opt_validators_view(validators),
                        text::opt_view(digest),
                        queue,
                    ),
                    r.0@,
                    r.1@,
                ),
    {
        let mut run = run;
        let ghost before = run@;
        run.record_validators(validators, digest);
        assert(run@.confirmed() =~= before.confirmed());
        let queue = run.confirmed_gone(deletion);
        let ghost q = text::views(queue@);
        proof {
            if deletion == DeletionPolicy::Retain {
                assert(q.to_set() =~= Set::<Seq<char>>::empty());
            }
            assert(lists_set(q, to_remove(before, deletion)));
            assert forall|j: int| 0 <= j < q.len() implies run@.index.contains_key(
                #[trigger] q[j],
            ) by {
                assert(q.to_set().contains(q[j]));
                assert(before.confirmed().contains(q[j]));
            }
        }
        let mut machine = SourceRun {
            run,
            deletion,
            enumeration,
            now,
            phase: Phase::Removing { confirmed: true },
            queue,
            candidates: Vec::new(),
            at: 0,
            suppressed: None,
        };
        proof {
            assert(machine@.candidates =~= Seq::empty());
            assert(machine@ =~= begins(
                before,
                deletion,
                sweep::enumeration_view(enumeration),
                now,
                records::opt_validators_view(validators),
                text::opt_view(digest),
                q,
            ));
        }
        let action = machine.advance();
        (machine, action)
    }

    /// Takes the next document of the queue out of the index.
    fn remove_next(&mut self) -> (r: RunAction)
        requires
            old(self).wf(),
            old(self).phase is Removing,
            old(self).at < old(self).queue@.len(),
        ensures
            final(self).wf(),
            removes(old(self)@, final(self)@, r@),
    {
        let ghost q = text::views(self.queue@);
        let i: usize = self.at;
        let total: usize = self.queue.len();
        assert(i < total);
        assert(self.run@.index.contains_key(q[i as int]));
        let removed = self.run.remove_document(self.queue[i].as_str());
        self.at = i + 1;
        assert forall|j: int| i < j < q.len() implies self.run@.index.contains_key(
            #[trigger] q[j],
        ) by {
            assert(q[j] != q[i as int]);
        }
        match removed {
            Some(resource_id) => RunAction::DeleteResource { resource_id },
            // The queue holds documents of the index only.
            None => RunAction::DeleteResource { resource_id: String::new() },
        }
    }

    /// Finishes the run.
    fn end(&mut self) -> (r: RunAction)
        requires
            old(self).wf(),
        ensures
            final(self).wf(),
            ends(old(self)@, final(self)@, r@),
    {
        self.phase = Phase::Done;
        let result = self.run.finish();
        RunAction::Finished { result, suppressed: copy_reason(&self.suppressed) }
    }

    /// Goes on where nothing is waited for.
    fn advance(&mut self) -> (r: RunAction)
        requires
            old(self).wf(),
        ensures
            final(self).wf(),
            advances(old(self)@, final(self)@, r@),
    {
        match self.phase {
            Phase::Removing { confirmed } => {
                if self.at < self.queue.len() {
                    self.remove_next()
                } else if confirmed {
                    self.sweep()
                } else {
                    self.end()
                }
            },
            Phase::Listing => self.list_stale(),
            Phase::Probing => {
                if self.at < self.candidates.len() {
                    let c = &self.candidates[self.at];
                    RunAction::Fetch {
                        uri: c.uri.clone(),
                        validators: PipelineCallback::probe_validators(c),
                    }
                } else {
                    self.end()
                }
            },
            Phase::Done => RunAction::Finished {
                result: self.run.result.copied(),
                suppressed: copy_reason(&self.suppressed),
            },
        }
    }

    fn list_stale(&self) -> (r: RunAction)
        requires
            self.wf(),
        ensures
            r@ == lookup(self@),
    {
        let refresh = match &self.run.source.spec {
            SourceSpec::Feed { refresh_interval_secs, .. } => *refresh_interval_secs,
            _ => None,
        };
        RunAction::ListStale {
            checked_before: liveness::checked_before(self.now, refresh),
            limit: liveness::query_limit(self.run.seen.len()),
        }
    }

    /// Takes up the documents that were not seen.
    fn sweep(&mut self) -> (r: RunAction)
        requires
            old(self).wf(),
            old(self)@.phase == (Phase::Removing { confirmed: true }),
        ensures
            final(self).wf(),
            sweeps(old(self)@, final(self)@, r@),
    {
        let ghost b = self@;
        let plan = self.run.plan_sweep(self.deletion, &self.enumeration);
        let ghost m = MachineView { run: b.run.after_plan(b.deletion, b.incomplete), ..b };
        assert(self@ == m);
        match plan {
            SweepPlan::Nothing => self.end(),
            SweepPlan::Suppressed(reason) => {
                self.suppressed = Some(reason);
                self.end()
            },
            SweepPlan::ProbeFeed { .. } => {
                self.phase = Phase::Listing;
                self.list_stale()
            },
            SweepPlan::Delete(uris) => {
                let ghost q = text::views(uris@);
                proof {
                    assert(lists_set(q, b.run.absent()));
                    assert forall|j: int| 0 <= j < q.len() implies self.run@.index.contains_key(
                        #[trigger] q[j],
                    ) by {
                        assert(q.to_set().contains(q[j]));
                        assert(b.run.absent().contains(q[j]));
                    }
                }
                self.queue = uris;
                self.at = 0;
                self.phase = Phase::Removing { confirmed: false };
                let ghost n = self@;
                let r = if self.queue.len() == 0 {
                    self.end()
                } else {
                    self.remove_next()
                };
                assert(n == (MachineView {
                    phase: Phase::Removing { confirmed: false },
                    queue: q,
                    at: 0,
                    ..m
                }));
                proof {
                    let s = b.run.absent();
                    assert(b.run.sweep(b.deletion, b.incomplete) == sweep::PlanView::Delete(s));
                    assert(lists_set(q, s) && takes_up(m, q, self@, r@));
                    assert(takes_up_all(m, s, self@, r@));
                }
                r
            },
        }
    }

    /// Takes the store's answer to a deletion: how much was deleted.
    pub fn deleted(&mut self, deleted: u64) -> (r: RunAction)
        requires
            old(self).wf(),
        ensures
            final(self).wf(),
            responds(old(self)@, AnswerView::Deleted(deleted), final(self)@, r@),
    {
        self.run.document_deleted(deleted);
        self.advance()
    }

    /// Takes the entries that were not checked for a while.
    pub fn stale(&mut self, candidates: &Vec<StaleFeedResource>) -> (r: RunAction)
        requires
            old(self).wf(),
        ensures
            final(self).wf(),
            responds(
                old(self)@,
                AnswerView::Stale(lists::views_of(candidates@)),
                final(self)@,
                r@,
            ),
    {
        self.candidates = self.run.liveness_batch(candidates);
        self.phase = Phase::Probing;
        self.at = 0;
        self.advance()
    }

    /// Takes what fetching an entry came to.
    pub fn fetched(&mut self, fetched: Result<FetchResult, Error>) -> (r: RunAction)
        requires
            old(self).wf(),
        ensures
            final(self).wf(),
            responds(old(self)@, AnswerView::Fetched(fetched), final(self)@, r@),
    {
        let probing = match self.phase {
            Phase::Probing => true,
            _ => false,
        };
        if !probing || self.at >= self.candidates.len() {
            return self.advance();
        }
        let i: usize = self.at;
        let action = self.run.probe_liveness_candidate(&self.candidates[i], fetched);
        self.at = i + 1;
        match action {
            ProbeAction::Delete { resource_id } => RunAction::DeleteResource { resource_id },
            ProbeAction::Touch { resource_id, etag, last_modified } => RunAction::Touch {
                resource_id,
                etag,
                last_modified,
            },
        }
    }

    /// Goes on after an entry was noted as checked.
    pub fn touched(&mut self) -> (r: RunAction)
        requires
            old(self).wf(),
        ensures
            final(self).wf(),
            responds(old(self)@, AnswerView::Touched, final(self)@, r@),
    {
        self.advance()
    }
}

fn copy_reason(s: &Option<SweepSuppression>) -> (r: Option<SweepSuppression>)
    ensures
        opt_reason(r) == opt_reason(*s),
{
    match s {
        Some(SweepSuppression::IncompleteEnumeration(reason)) => Some(
            SweepSuppression::IncompleteEnumeration(reason.clone()),
        ),
        Some(SweepSuppression::ZeroSeen) => Some(SweepSuppression::ZeroSeen),
        None => None,
    }
}

// ---------------------------------------------------------------------------
// Laws
// ---------------------------------------------------------------------------
impl MachineView {
    /// Whether there is a reason to remove each document that is still to be removed: the
    /// run prunes, its source owns the document, and the document was reported gone or not
    /// seen.
    pub open spec fn sound(self) -> bool {
        self.phase is Removing ==> {
            &&& self.queue.no_duplicates()
            &&& 0 <= self.at
            &&& forall|j: int|
                self.at <= j < self.queue.len() ==> self.may_remove(#[trigger] self.queue[j])
        }
    }

    /// Whether there is a reason to remove a document.
    pub open spec fn may_remove(self, uri: Seq<char>) -> bool {
        &&& self.deletion == DeletionPolicy::Prune
        &&& self.run.owns(uri)
        &&& self.run.gone.contains(uri) || !self.run.seen.contains(uri)
    }
}

/// There is a reason for everything that is to be removed as the end of a run begins.
pub proof fn runs_begin_soundly(
    run: RunView,
    deletion: DeletionPolicy,
    incomplete: Option<Seq<char>>,
    now: i64,
    validators: Option<records::ValidatorsView>,
    digest: Option<Seq<char>>,
    queue: Seq<Seq<char>>,
)
    requires
        lists_set(queue, to_remove(run, deletion)),
    ensures
        begins(run, deletion, incomplete, now, validators, digest, queue).sound(),
{
    let m = begins(run, deletion, incomplete, now, validators, digest, queue);
    assert forall|j: int| 0 <= j < queue.len() implies m.may_remove(#[trigger] queue[j]) by {
        assert(queue.to_set().contains(queue[j]));
        assert(to_remove(run, deletion).contains(queue[j]));
    }
}

proof fn lemma_removal(b: MachineView, a: MachineView, act: ActionView)
    requires
        b.sound(),
        b.phase is Removing,
        removes(b, a, act),
    ensures
        a.sound(),
        forall|u: Seq<char>|
            b.run.index.contains_key(u) && !#[trigger] a.run.index.contains_key(u)
                ==> b.may_remove(u),
{
    assert forall|j: int| a.at <= j < a.queue.len() implies a.may_remove(#[trigger] a.queue[j]) by {
        assert(b.may_remove(b.queue[j]));
        assert(b.queue[j] != b.queue[b.at]);
    }
    assert(b.may_remove(b.queue[b.at]));
}

/// As the end of a run goes on, a document leaves the index only for a reason: the run
/// prunes, its source owns the document, and the document was reported gone or not seen.
pub proof fn removals_have_a_reason(b: MachineView, a: MachineView, act: ActionView)
    requires
        b.sound(),
        advances(b, a, act),
    ensures
        a.sound(),
        forall|u: Seq<char>|
            b.run.index.contains_key(u) && !#[trigger] a.run.index.contains_key(u)
                ==> b.may_remove(u),
{
    if b.phase is Removing && b.at < b.queue.len() {
        lemma_removal(b, a, act);
    } else if b.phase == (Phase::Removing { confirmed: true }) {
        let m = MachineView { run: b.run.after_plan(b.deletion, b.incomplete), ..b };
        match b.run.sweep(b.deletion, b.incomplete) {
            sweep::PlanView::Delete(uris) => {
                let queue = choose|queue: Seq<Seq<char>>|
                    #[trigger] lists_set(queue, uris) && takes_up(m, queue, a, act);
                let n = MachineView {
                    phase: Phase::Removing { confirmed: false },
                    queue,
                    at: 0,
                    ..m
                };
                assert forall|j: int| 0 <= j < queue.len() implies n.may_remove(
                    #[trigger] queue[j],
                ) by {
                    assert(queue.to_set().contains(queue[j]));
                    assert(b.run.absent().contains(queue[j]));
                }
                if queue.len() > 0 {
                    lemma_removal(n, a, act);
                    assert forall|u: Seq<char>|
                        b.run.index.contains_key(u) && !#[trigger] a.run.index.contains_key(
                            u,
                        ) implies b.may_remove(u) by {
                        assert(n.may_remove(u));
                    }
                }
            },
            _ => {},
        }
    }
}

/// Counting a deletion, looking entries up and fetching them keep the reasons; only an entry
/// that its server reports gone leaves the index.
pub proof fn answers_keep_the_reasons(
    b: MachineView,
    a: MachineView,
    act: ActionView,
    deleted: u64,
    candidates: Seq<records::StaleView>,
    fetched: Result<FetchResult, Error>,
)
    requires
        b.sound(),
    ensures
        (MachineView { run: b.run.with_deleted(deleted), ..b }).sound(),
        (MachineView { phase: Phase::Probing, candidates, at: 0, ..b }).sound(),
        b.phase == Phase::Probing && after_fetch(b, a, act, fetched) && !(fetched matches Ok(
            FetchResult::Gone,
        )) ==> a.run.index == b.run.index,
{
    let m = MachineView { run: b.run.with_deleted(deleted), ..b };
    if b.phase is Removing {
        assert forall|j: int| m.at <= j < m.queue.len() implies m.may_remove(#[trigger] m.queue[j]) by {
            assert(b.may_remove(b.queue[j]));
        }
    }
}

} // verus!
