//! The end of a run as a whole, from its first action to its last: what is gone afterwards.

use super::liveness::FetchResult;
use super::pipeline::RunView;
use super::records;
use super::run;
use super::run::{ActionView, AnswerView, MachineView, Phase};
use super::source::DeletionPolicy;
use super::sweep;
use vstd::prelude::*;

verus! {

/// The actions of the end of a run, the machine after each, and the answers to all but the
/// last.
pub struct History {
    pub machines: Seq<MachineView>,
    pub actions: Seq<ActionView>,
    pub answers: Seq<AnswerView>,
}

/// Whether an answer is one to the action.
pub open spec fn answers(act: ActionView, answer: AnswerView) -> bool {
    match act {
        ActionView::DeleteResource { .. } => answer is Deleted,
        ActionView::ListStale { .. } => answer is Stale,
        ActionView::Fetch { .. } => answer is Fetched,
        ActionView::Touch { .. } => answer is Touched,
        ActionView::Finished { .. } => false,
    }
}

impl History {
    /// Whether this is what comes of a beginning, every action being answered.
    pub open spec fn follows(self, start: MachineView) -> bool {
        &&& self.machines.len() == self.answers.len() + 1
        &&& self.actions.len() == self.machines.len()
        &&& run::advances(start, self.machines[0], self.actions[0])
        &&& forall|i: int|
            0 <= i < self.answers.len() ==> answers(self.actions[i], #[trigger] self.answers[i])
                && run::responds(
                self.machines[i],
                self.answers[i],
                self.machines[i + 1],
                self.actions[i + 1],
            )
    }

    /// Whether the run came to its end.
    pub open spec fn is_finished(self) -> bool {
        self.actions.last() is Finished
    }

    /// The documents of the index at the end.
    pub open spec fn index(self) -> Map<Seq<char>, records::DocView> {
        self.machines.last().run.index
    }

    /// Whether the answer of the given number says that the entry is gone.
    pub open spec fn says_gone(self, i: int, uri: Seq<char>) -> bool {
        &&& self.answers[i] matches AnswerView::Fetched(Ok(FetchResult::Gone))
        &&& self.actions[i] matches ActionView::Fetch { uri: u, .. } && u == uri
    }

    /// The entries that the first `n` answers said were gone.
    pub open spec fn gone_by(self, n: int) -> Set<Seq<char>> {
        Set::new(|u: Seq<char>| exists|i: int| 0 <= i < n && #[trigger] self.says_gone(i, u))
    }

    /// The entries whose server said that they are gone.
    pub open spec fn gone_entries(self) -> Set<Seq<char>> {
        self.gone_by(self.answers.len() as int)
    }
}

/// The resources that the store is asked to delete, in order.
pub open spec fn requests(acts: Seq<ActionView>) -> Seq<Seq<char>>
    decreases acts.len(),
{
    if acts.len() == 0 {
        Seq::empty()
    } else {
        requested(requests(acts.drop_last()), acts.last())
    }
}

/// The resources that the store is asked to delete, with one more action.
pub open spec fn requested(before: Seq<Seq<char>>, act: ActionView) -> Seq<Seq<char>> {
    match act {
        ActionView::DeleteResource { resource_id } => before.push(resource_id),
        _ => before,
    }
}

/// The resources of documents.
pub open spec fn resources(
    index: Map<Seq<char>, records::DocView>,
    uris: Seq<Seq<char>>,
) -> Seq<Seq<char>> {
    uris.map_values(|u: Seq<char>| index[u].resource_id)
}

impl RunView {
    /// The run once what is confirmed to be gone is removed.
    pub open spec fn settled(self, deletion: DeletionPolicy) -> RunView {
        RunView { index: self.index.remove_keys(run::to_remove(self, deletion)), ..self }
    }

    /// What is done then about documents that were not seen.
    pub open spec fn final_sweep(
        self,
        deletion: DeletionPolicy,
        incomplete: Option<Seq<char>>,
    ) -> sweep::PlanView {
        self.settled(deletion).sweep(deletion, incomplete)
    }

    /// The documents that are taken for gone because they were not seen.
    pub open spec fn swept(
        self,
        deletion: DeletionPolicy,
        incomplete: Option<Seq<char>>,
    ) -> Set<Seq<char>> {
        match self.final_sweep(deletion, incomplete) {
            sweep::PlanView::Delete(uris) => uris,
            _ => Set::empty(),
        }
    }

    /// The count of documents that a pruning run would delete, before the sweep.
    spec fn prunable_at_first(self, deletion: DeletionPolicy) -> u64 {
        if deletion == DeletionPolicy::Retain {
            records::bumped(self.result.docs_prunable, self.confirmed().len() as int)
        } else {
            self.result.docs_prunable
        }
    }

    /// The count of documents that a pruning run would delete, after the sweep.
    spec fn prunable_at_last(
        self,
        deletion: DeletionPolicy,
        incomplete: Option<Seq<char>>,
    ) -> u64 {
        let settled = self.settled(deletion);
        if settled.counts_absent(deletion, incomplete) {
            records::bumped(self.prunable_at_first(deletion), settled.absent().len() as int)
        } else {
            self.prunable_at_first(deletion)
        }
    }

    /// Why documents that were not seen are kept, where they are kept for a reason.
    pub open spec fn held_back(
        self,
        deletion: DeletionPolicy,
        incomplete: Option<Seq<char>>,
    ) -> Option<sweep::SuppressionView> {
        match self.final_sweep(deletion, incomplete) {
            sweep::PlanView::Suppressed(s) => Some(s),
            _ => None,
        }
    }
}

/// A run, and how it is ended.
pub struct Ending {
    pub run: RunView,
    pub deletion: DeletionPolicy,
    pub incomplete: Option<Seq<char>>,
    /// What is confirmed to be gone and is to be removed, in the order in which it is.
    pub first: Seq<Seq<char>>,
}

impl Ending {
    spec fn plan(self) -> sweep::PlanView {
        self.run.final_sweep(self.deletion, self.incomplete)
    }

    spec fn settled(self) -> Map<Seq<char>, records::DocView> {
        self.run.settled(self.deletion).index
    }

    /// Whether the machine is where it should be, after the given entries were said to be gone
    /// and the given resources asked to be deleted.
    spec fn tracks(self, m: MachineView, gone: Set<Seq<char>>, reqs: Seq<Seq<char>>) -> bool {
        let index = self.run.index;
        &&& m.deletion == self.deletion
        &&& m.incomplete == self.incomplete
        &&& m.run.source == self.run.source
        &&& m.run.seen == self.run.seen
        &&& m.run.gone == self.run.gone
        &&& m.suppressed == if m.phase == Phase::Done {
            self.run.held_back(self.deletion, self.incomplete)
        } else {
            None
        }
        &&& m.run.result.docs_prunable == if m.phase == (Phase::Removing { confirmed: true }) {
            self.run.prunable_at_first(self.deletion)
        } else {
            self.run.prunable_at_last(self.deletion, self.incomplete)
        }
        &&& match m.phase {
            Phase::Removing { confirmed: true } => {
                &&& m.queue == self.first
                &&& 0 <= m.at <= m.queue.len()
                &&& m.run.index == index.remove_keys(m.queue.take(m.at).to_set())
                &&& reqs == resources(index, m.queue.take(m.at))
                &&& gone == Set::<Seq<char>>::empty()
            },
            Phase::Removing { confirmed: false } => {
                &&& self.plan() matches sweep::PlanView::Delete(uris) && run::lists_set(
                    m.queue,
                    uris,
                )
                &&& 0 <= m.at <= m.queue.len()
                &&& m.run.index == self.settled().remove_keys(m.queue.take(m.at).to_set())
                &&& reqs == resources(index, self.first + m.queue.take(m.at))
            },
            Phase::Listing => {
                &&& self.plan() is ProbeFeed
                &&& m.run.index == self.settled()
                &&& gone == Set::<Seq<char>>::empty()
            },
            Phase::Probing => {
                &&& self.plan() is ProbeFeed
                &&& 0 <= m.at <= m.candidates.len()
                &&& m.run.index == self.settled().remove_keys(gone)
            },
            Phase::Done => match self.plan() {
                sweep::PlanView::ProbeFeed { .. } => m.run.index == self.settled().remove_keys(
                    gone,
                ),
                sweep::PlanView::Delete(uris) => {
                    &&& m.run.index == self.settled().remove_keys(uris)
                    &&& run::lists_set(m.queue, uris)
                    &&& reqs == resources(index, self.first + m.queue)
                },
                _ => {
                    &&& m.run.index == self.settled()
                    &&& reqs == resources(index, self.first)
                },
            },
        }
    }

    /// Whether the machine may wait for the answer to an action.
    spec fn awaits(self, m: MachineView, act: ActionView) -> bool {
        match m.phase {
            Phase::Removing { .. } => act is DeleteResource,
            Phase::Listing => act is ListStale,
            Phase::Probing => {
                ||| act is DeleteResource
                ||| act is Touch
                ||| act matches ActionView::Fetch { uri, .. } && m.at < m.candidates.len() && uri
                    == m.candidates[m.at].uri
            },
            Phase::Done => act == (ActionView::Finished {
                result: m.run.result,
                suppressed: m.suppressed,
            }),
        }
    }
}

/// What is done about documents that were not seen follows from the index, the source and
/// what came up.
proof fn lemma_same_sweep(
    a: RunView,
    b: RunView,
    deletion: DeletionPolicy,
    incomplete: Option<Seq<char>>,
)
    requires
        a.index == b.index,
        a.source == b.source,
        a.seen == b.seen,
        a.gone == b.gone,
    ensures
        a.sweep(deletion, incomplete) == b.sweep(deletion, incomplete),
        a.counts_absent(deletion, incomplete) == b.counts_absent(deletion, incomplete),
        a.absent() == b.absent(),
{
    assert forall|u: Seq<char>| #[trigger] a.owns(u) == b.owns(u) by {}
    assert(a.absent() =~= b.absent());
    if a.saw_its_own() {
        let u = choose|u: Seq<char>| a.owns(u) && #[trigger] a.seen.contains(u);
        assert(b.owns(u) && b.seen.contains(u));
    }
    if b.saw_its_own() {
        let u = choose|u: Seq<char>| b.owns(u) && #[trigger] b.seen.contains(u);
        assert(a.owns(u) && a.seen.contains(u));
    }
    if exists|u: Seq<char>| #[trigger] a.owns(u) {
        let u = choose|u: Seq<char>| #[trigger] a.owns(u);
        assert(b.owns(u));
    }
    if exists|u: Seq<char>| #[trigger] b.owns(u) {
        let u = choose|u: Seq<char>| #[trigger] b.owns(u);
        assert(a.owns(u));
    }
}

/// One more document of a list leaves an index.
proof fn lemma_one_more(
    index: Map<Seq<char>, records::DocView>,
    queue: Seq<Seq<char>>,
    at: int,
)
    requires
        queue.no_duplicates(),
        0 <= at < queue.len(),
        index.contains_key(queue[at]),
    ensures
        index.remove_keys(queue.take(at).to_set()).remove(queue[at]) == index.remove_keys(
            queue.take(at + 1).to_set(),
        ),
        index.remove_keys(queue.take(at).to_set())[queue[at]] == index[queue[at]],
{
    let (s, t) = (queue.take(at), queue.take(at + 1));
    assert(t =~= s.push(queue[at]));
    s.lemma_push_to_set_commute(queue[at]);
    assert(!s.to_set().contains(queue[at])) by {
        if s.to_set().contains(queue[at]) {
            let j = choose|j: int| 0 <= j < s.len() && s[j] == queue[at];
            assert(queue[j] == queue[at]);
        }
    }
    assert(index.remove_keys(s.to_set()).remove(queue[at]) =~= index.remove_keys(t.to_set()));
}

proof fn lemma_ends(
    e: Ending,
    b: MachineView,
    a: MachineView,
    act: ActionView,
    gone: Set<Seq<char>>,
    reqs: Seq<Seq<char>>,
)
    requires
        run::ends(b, a, act),
        b.deletion == e.deletion,
        b.incomplete == e.incomplete,
        b.run.source == e.run.source,
        b.run.seen == e.run.seen,
        b.run.gone == e.run.gone,
        e.tracks(MachineView { phase: Phase::Done, ..b }, gone, reqs),
    ensures
        e.tracks(a, gone, requested(reqs, act)),
        e.awaits(a, act),
{
}

/// The next document of either list is removed.
proof fn lemma_removes(
    e: Ending,
    b: MachineView,
    a: MachineView,
    act: ActionView,
    gone: Set<Seq<char>>,
    reqs: Seq<Seq<char>>,
)
    requires
        run::lists_set(e.first, run::to_remove(e.run, e.deletion)),
        b.phase is Removing,
        e.tracks(b, gone, reqs),
        run::removes(b, a, act),
    ensures
        e.tracks(a, gone, requested(reqs, act)),
        e.awaits(a, act),
{
    let index = e.run.index;
    let uri = b.queue[b.at];
    let (s, t) = (b.queue.take(b.at), b.queue.take(b.at + 1));
    assert(t =~= s.push(uri));
    assert(b.queue.to_set().contains(uri));
    match b.phase {
        Phase::Removing { confirmed: true } => {
            assert(e.run.confirmed().contains(uri));
            lemma_one_more(index, b.queue, b.at);
            assert(resources(index, s).push(index[uri].resource_id) =~= resources(index, t));
        },
        _ => {
            assert(e.run.settled(e.deletion).absent().contains(uri));
            assert(e.settled()[uri] == index[uri]);
            lemma_one_more(e.settled(), b.queue, b.at);
            assert(resources(index, e.first + s).push(index[uri].resource_id) =~= resources(
                index,
                e.first + t,
            ));
        },
    }
}

/// The machine stays where it should be as it goes on.
proof fn lemma_advances(
    e: Ending,
    b: MachineView,
    a: MachineView,
    act: ActionView,
    gone: Set<Seq<char>>,
    reqs: Seq<Seq<char>>,
)
    requires
        run::lists_set(e.first, run::to_remove(e.run, e.deletion)),
        e.tracks(b, gone, reqs),
        run::advances(b, a, act),
    ensures
        e.tracks(a, gone, requested(reqs, act)),
        e.awaits(a, act),
{
    let index = e.run.index;
    match b.phase {
        Phase::Removing { confirmed } => {
            if b.at < b.queue.len() {
                lemma_removes(e, b, a, act, gone, reqs);
            } else if confirmed {
                assert(b.queue.take(b.at) =~= e.first);
                assert(b.run.index == e.settled());
                lemma_same_sweep(b.run, e.run.settled(e.deletion), e.deletion, e.incomplete);
                let m = MachineView { run: b.run.after_plan(b.deletion, b.incomplete), ..b };
                match e.plan() {
                    sweep::PlanView::Nothing => {
                        lemma_ends(e, m, a, act, gone, reqs);
                    },
                    sweep::PlanView::Suppressed(s) => {
                        lemma_ends(
                            e,
                            MachineView { suppressed: Some(s), ..m },
                            a,
                            act,
                            gone,
                            reqs,
                        );
                    },
                    sweep::PlanView::ProbeFeed { .. } => {},
                    sweep::PlanView::Delete(uris) => {
                        let queue = choose|queue: Seq<Seq<char>>|
                            #[trigger] run::lists_set(queue, uris) && run::takes_up(
                                m,
                                queue,
                                a,
                                act,
                            );
                        let n = MachineView {
                            phase: Phase::Removing { confirmed: false },
                            queue,
                            at: 0,
                            ..m
                        };
                        assert(queue.take(0).to_set() =~= Set::<Seq<char>>::empty());
                        assert(e.settled().remove_keys(Set::<Seq<char>>::empty()) =~= e.settled());
                        assert(e.first + queue.take(0) =~= e.first);
                        if queue.len() == 0 {
                            assert(queue =~= queue.take(0));
                            lemma_ends(e, n, a, act, gone, reqs);
                        } else {
                            lemma_removes(e, n, a, act, gone, reqs);
                        }
                    },
                }
            } else {
                assert(b.queue.take(b.at) =~= b.queue);
                lemma_ends(e, b, a, act, gone, reqs);
            }
        },
        Phase::Probing => {
            if b.at >= b.candidates.len() {
                lemma_ends(e, b, a, act, gone, reqs);
            }
        },
        _ => {},
    }
}

/// The machine stays where it should be as it takes an answer.
proof fn lemma_responds(
    e: Ending,
    b: MachineView,
    asked: ActionView,
    answer: AnswerView,
    a: MachineView,
    act: ActionView,
    gone: Set<Seq<char>>,
    reqs: Seq<Seq<char>>,
)
    requires
        run::lists_set(e.first, run::to_remove(e.run, e.deletion)),
        e.tracks(b, gone, reqs),
        e.awaits(b, asked),
        answers(asked, answer),
        run::responds(b, answer, a, act),
    ensures
        e.tracks(
            a,
            if answer matches AnswerView::Fetched(Ok(FetchResult::Gone)) {
                gone.insert(asked->Fetch_uri)
            } else {
                gone
            },
            requested(reqs, act),
        ),
        e.awaits(a, act),
{
    match answer {
        AnswerView::Deleted(n) => {
            let m = MachineView { run: b.run.with_deleted(n), ..b };
            lemma_advances(e, m, a, act, gone, reqs);
        },
        AnswerView::Stale(entries) => {
            let m = MachineView {
                phase: Phase::Probing,
                candidates: super::liveness::at_most(
                    entries.filter(super::liveness::not_in(b.run.seen)),
                    25,
                ),
                at: 0,
                ..b
            };
            assert(e.settled().remove_keys(gone) =~= e.settled());
            lemma_advances(e, m, a, act, gone, reqs);
        },
        AnswerView::Fetched(fetched) => {
            let uri = b.candidates[b.at].uri;
            assert(e.settled().remove_keys(gone).remove(uri) =~= e.settled().remove_keys(
                gone.insert(uri),
            ));
        },
        AnswerView::Touched => {
            lemma_advances(e, b, a, act, gone, reqs);
        },
    }
}

/// The machine is where it should be after any number of answers.
proof fn lemma_tracks(e: Ending, start: MachineView, h: History, k: int)
    requires
        run::lists_set(e.first, run::to_remove(e.run, e.deletion)),
        e.tracks(start, Set::empty(), Seq::empty()),
        h.follows(start),
        0 <= k < h.machines.len(),
    ensures
        e.tracks(h.machines[k], h.gone_by(k), requests(h.actions.take(k + 1))),
        e.awaits(h.machines[k], h.actions[k]),
    decreases k,
{
    let acts = h.actions.take(k + 1);
    assert(acts.drop_last() =~= h.actions.take(k));
    assert(acts.last() == h.actions[k]);
    if k == 0 {
        assert(h.gone_by(0) =~= Set::empty());
        assert(requests(h.actions.take(0)) =~= Seq::empty());
        lemma_advances(e, start, h.machines[0], h.actions[0], Set::empty(), Seq::empty());
    } else {
        lemma_tracks(e, start, h, k - 1);
        let answer = h.answers[k - 1];
        let before = h.gone_by(k - 1);
        let after = if answer matches AnswerView::Fetched(Ok(FetchResult::Gone)) {
            before.insert(h.actions[k - 1]->Fetch_uri)
        } else {
            before
        };
        assert forall|u: Seq<char>| #[trigger] after.contains(u) == h.gone_by(k).contains(u) by {
            if before.contains(u) {
                let i = choose|i: int| 0 <= i < k - 1 && #[trigger] h.says_gone(i, u);
                assert(h.says_gone(i, u));
            } else if after.contains(u) {
                assert(h.says_gone(k - 1, u));
            }
            if h.gone_by(k).contains(u) {
                let i = choose|i: int| 0 <= i < k && #[trigger] h.says_gone(i, u);
                assert(h.says_gone(i, u));
            }
        }
        assert(after =~= h.gone_by(k));
        lemma_responds(
            e,
            h.machines[k - 1],
            h.actions[k - 1],
            answer,
            h.machines[k],
            h.actions[k],
            before,
            requests(h.actions.take(k)),
        );
    }
}

/// A run that came to its end has removed what was confirmed to be gone and what was swept,
/// and nothing else, and the store was asked to delete the resource of each once. A feed has
/// lost what was confirmed to be gone and the entries whose server said so. The last action
/// says why nothing was swept, if something kept it from being.
pub proof fn runs_remove_exactly(
    run: RunView,
    deletion: DeletionPolicy,
    incomplete: Option<Seq<char>>,
    now: i64,
    validators: Option<records::ValidatorsView>,
    digest: Option<Seq<char>>,
    queue: Seq<Seq<char>>,
    h: History,
)
    requires
        run::lists_set(queue, run::to_remove(run, deletion)),
        h.follows(run::begins(run, deletion, incomplete, now, validators, digest, queue)),
        h.is_finished(),
    ensures
        h.actions.last()->Finished_suppressed == run.held_back(deletion, incomplete),
        run.final_sweep(deletion, incomplete) is ProbeFeed ==> h.index() == run.index.remove_keys(
            run::to_remove(run, deletion).union(h.gone_entries()),
        ),
        !(run.final_sweep(deletion, incomplete) is ProbeFeed) ==> {
            let removed = run::to_remove(run, deletion).union(run.swept(deletion, incomplete));
            &&& h.index() == run.index.remove_keys(removed)
            &&& exists|order: Seq<Seq<char>>|
                run::lists_set(order, removed) && requests(h.actions) == #[trigger] resources(
                    run.index,
                    order,
                )
        },
{
    let e = Ending { run, deletion, incomplete, first: queue };
    let start = run::begins(run, deletion, incomplete, now, validators, digest, queue);
    assert(queue.take(0).to_set() =~= Set::<Seq<char>>::empty());
    assert(run.index.remove_keys(Set::<Seq<char>>::empty()) =~= run.index);
    assert(resources(run.index, queue.take(0)) =~= Seq::empty());
    assert(e.tracks(start, Set::empty(), Seq::empty()));
    let k = h.machines.len() - 1;
    lemma_tracks(e, start, h, k);
    assert(h.actions.take(k + 1) =~= h.actions);
    let m = h.machines[k];
    let confirmed = run::to_remove(run, deletion);
    let swept = run.swept(deletion, incomplete);
    match e.plan() {
        sweep::PlanView::ProbeFeed { .. } => {
            assert(e.settled().remove_keys(h.gone_entries()) =~= run.index.remove_keys(
                confirmed.union(h.gone_entries()),
            ));
        },
        sweep::PlanView::Delete(uris) => {
            let order = queue + m.queue;
            assert(e.settled().remove_keys(uris) =~= run.index.remove_keys(confirmed.union(uris)));
            lemma_lists_both(queue, confirmed, m.queue, uris);
            assert(requests(h.actions) == resources(run.index, order));
        },
        _ => {
            assert(confirmed.union(swept) =~= confirmed);
            assert(requests(h.actions) == resources(run.index, queue));
        },
    }
}

/// Two lists of sets that have nothing in common list both together.
proof fn lemma_lists_both(
    a: Seq<Seq<char>>,
    s: Set<Seq<char>>,
    b: Seq<Seq<char>>,
    t: Set<Seq<char>>,
)
    requires
        run::lists_set(a, s),
        run::lists_set(b, t),
        forall|u: Seq<char>| s.contains(u) ==> !#[trigger] t.contains(u),
    ensures
        run::lists_set(a + b, s.union(t)),
{
    vstd::seq_lib::seq_to_set_distributes_over_add(a, b);
    assert((a + b).to_set() =~= s.union(t));
    let c = a + b;
    assert forall|i: int, j: int| 0 <= i < c.len() && 0 <= j < c.len() && i != j implies c[i]
        != c[j] by {
        if i < a.len() && j >= a.len() {
            assert(a.to_set().contains(a[i]));
            assert(b.to_set().contains(b[j - a.len()]));
        } else if j < a.len() && i >= a.len() {
            assert(a.to_set().contains(a[j]));
            assert(b.to_set().contains(b[i - a.len()]));
        }
    }
}

/// A pruning run over anything but a feed removes exactly what is confirmed to be gone, and,
/// unless absence is no evidence, what did not come up at all.
pub proof fn pruning_removes_the_gone_and_the_absent(
    run: RunView,
    incomplete: Option<Seq<char>>,
    now: i64,
    validators: Option<records::ValidatorsView>,
    digest: Option<Seq<char>>,
    queue: Seq<Seq<char>>,
    h: History,
)
    requires
        !(run.source.spec is Feed),
        run::lists_set(queue, run.confirmed()),
        h.follows(
            run::begins(run, DeletionPolicy::Prune, incomplete, now, validators, digest, queue),
        ),
        h.is_finished(),
    ensures
        h.index() == run.index.remove_keys(
            match run.settled(DeletionPolicy::Prune).suppression(incomplete) {
                None => run.confirmed().union(run.absent()),
                Some(_) => run.confirmed(),
            },
        ),
        h.actions.last()->Finished_suppressed == run.settled(DeletionPolicy::Prune).suppression(
            incomplete,
        ),
{
    runs_remove_exactly(
        run,
        DeletionPolicy::Prune,
        incomplete,
        now,
        validators,
        digest,
        queue,
        h,
    );
    assert(run.settled(DeletionPolicy::Prune).absent() =~= run.absent());
    assert(run.confirmed().union(Set::empty()) =~= run.confirmed());
}

/// A pruning run over a feed that was read whole removes exactly what is confirmed to be gone
/// and the entries whose server says that they are.
pub proof fn pruning_a_feed_removes_the_gone(
    run: RunView,
    now: i64,
    validators: Option<records::ValidatorsView>,
    digest: Option<Seq<char>>,
    queue: Seq<Seq<char>>,
    h: History,
)
    requires
        run.source.spec is Feed,
        run::lists_set(queue, run.confirmed()),
        h.follows(run::begins(run, DeletionPolicy::Prune, None, now, validators, digest, queue)),
        h.is_finished(),
    ensures
        h.index() == run.index.remove_keys(run.confirmed().union(h.gone_entries())),
{
    runs_remove_exactly(run, DeletionPolicy::Prune, None, now, validators, digest, queue, h);
}

/// A run that does not prune removes nothing, and asks the store to delete nothing.
pub proof fn retaining_removes_nothing(
    run: RunView,
    incomplete: Option<Seq<char>>,
    now: i64,
    validators: Option<records::ValidatorsView>,
    digest: Option<Seq<char>>,
    queue: Seq<Seq<char>>,
    h: History,
)
    requires
        run::lists_set(queue, Set::empty()),
        h.follows(
            run::begins(run, DeletionPolicy::Retain, incomplete, now, validators, digest, queue),
        ),
        h.is_finished(),
    ensures
        h.index() == run.index,
        requests(h.actions) == Seq::<Seq<char>>::empty(),
{
    runs_remove_exactly(
        run,
        DeletionPolicy::Retain,
        incomplete,
        now,
        validators,
        digest,
        queue,
        h,
    );
    let none = run::to_remove(run, DeletionPolicy::Retain).union(
        run.swept(DeletionPolicy::Retain, incomplete),
    );
    assert(none =~= Set::empty());
    assert(run.index.remove_keys(none) =~= run.index);
    let order = choose|order: Seq<Seq<char>>|
        run::lists_set(order, none) && requests(h.actions) == #[trigger] resources(
            run.index,
            order,
        );
    if order.len() > 0 {
        assert(order.to_set().contains(order[0]));
    }
    assert(requests(h.actions) =~= Seq::empty());
}

/// A run that prunes counts nothing that a pruning run would remove. One that does not counts
/// what is confirmed to be gone, and, where nothing speaks against it, what did not come up at
/// all; of a feed only the former.
pub proof fn prunable_documents_are_counted(
    run: RunView,
    deletion: DeletionPolicy,
    incomplete: Option<Seq<char>>,
    now: i64,
    validators: Option<records::ValidatorsView>,
    digest: Option<Seq<char>>,
    queue: Seq<Seq<char>>,
    h: History,
)
    requires
        run::lists_set(queue, run::to_remove(run, deletion)),
        h.follows(run::begins(run, deletion, incomplete, now, validators, digest, queue)),
        h.is_finished(),
    ensures
        ({
            let before = run.result.docs_prunable;
            let after = h.actions.last()->Finished_result.docs_prunable;
            let gone = records::bumped(before, run.confirmed().len() as int);
            if deletion == DeletionPolicy::Prune {
                after == before
            } else if run.source.spec is Feed || run.suppression(incomplete) is Some {
                after == gone
            } else {
                after == records::bumped(gone, run.absent().len() as int)
            }
        }),
{
    let e = Ending { run, deletion, incomplete, first: queue };
    let start = run::begins(run, deletion, incomplete, now, validators, digest, queue);
    assert(queue.take(0).to_set() =~= Set::<Seq<char>>::empty());
    assert(run.index.remove_keys(Set::<Seq<char>>::empty()) =~= run.index);
    assert(resources(run.index, queue.take(0)) =~= Seq::empty());
    lemma_tracks(e, start, h, h.machines.len() - 1);
    if deletion == DeletionPolicy::Retain {
        assert(run.settled(deletion) == run);
    }
}

/// A run that retains counts as many documents as one that prunes removes, if no document is
/// both seen and reported gone; a feed that is read whole is left out, as its entries are only
/// asked for where they may be removed.
pub proof fn retaining_counts_what_pruning_removes(
    run: RunView,
    incomplete: Option<Seq<char>>,
    now: i64,
    validators: Option<records::ValidatorsView>,
    digest: Option<Seq<char>>,
    queue: Seq<Seq<char>>,
    h: History,
)
    requires
        run.index.dom().finite(),
        forall|u: Seq<char>|
            run.owns(u) && #[trigger] run.seen.contains(u) ==> !run.gone.contains(u),
        run.source.spec is Feed ==> incomplete is Some,
        run::lists_set(queue, Set::empty()),
        h.follows(
            run::begins(run, DeletionPolicy::Retain, incomplete, now, validators, digest, queue),
        ),
        h.is_finished(),
    ensures
        h.actions.last()->Finished_result.docs_prunable == records::bumped(
            run.result.docs_prunable,
            run.confirmed().union(run.swept(DeletionPolicy::Prune, incomplete)).len() as int,
        ),
{
    prunable_documents_are_counted(
        run,
        DeletionPolicy::Retain,
        incomplete,
        now,
        validators,
        digest,
        queue,
        h,
    );
    let settled = run.settled(DeletionPolicy::Prune);
    let swept = run.swept(DeletionPolicy::Prune, incomplete);
    assert(settled.absent() =~= run.absent());
    assert(run.confirmed().subset_of(run.index.dom()));
    assert(run.absent().subset_of(run.index.dom()));
    vstd::set_lib::lemma_set_subset_finite(run.index.dom(), run.confirmed());
    vstd::set_lib::lemma_set_subset_finite(run.index.dom(), run.absent());
    vstd::set_lib::lemma_set_disjoint_lens(run.confirmed(), run.absent());
    assert(run.confirmed().union(Set::empty()) =~= run.confirmed());
    if run.saw_its_own() {
        let u = choose|u: Seq<char>| run.owns(u) && #[trigger] run.seen.contains(u);
        assert(settled.owns(u) && settled.seen.contains(u));
    } else {
        assert(!settled.saw_its_own());
        if exists|u: Seq<char>| #[trigger] settled.owns(u) {
            let u = choose|u: Seq<char>| #[trigger] settled.owns(u);
            assert(run.owns(u));
        } else {
            assert(run.absent() =~= Set::empty()) by {
                assert forall|u: Seq<char>| !run.absent().contains(u) by {
                    if run.absent().contains(u) {
                        assert(settled.owns(u));
                    }
                }
            }
        }
    }
}

/// How many of the first `n` answers say that something was deleted.
pub open spec fn deletions(all: Seq<AnswerView>, n: int) -> int
    decreases n,
{
    if n <= 0 {
        0
    } else {
        deletions(all, n - 1) + match all[n - 1] {
            AnswerView::Deleted(k) => if k > 0 {
                1int
            } else {
                0
            },
            _ => 0,
        }
    }
}

/// Going on deletes nothing by itself.
proof fn lemma_advancing_counts_nothing(b: MachineView, a: MachineView, act: ActionView)
    requires
        run::advances(b, a, act),
    ensures
        a.run.result.docs_deleted == b.run.result.docs_deleted,
        act matches ActionView::Finished { result, .. } ==> result == a.run.result,
{
    if b.phase == (Phase::Removing { confirmed: true }) && b.at >= b.queue.len() {
        if let sweep::PlanView::Delete(uris) = b.run.sweep(b.deletion, b.incomplete) {
            let m = MachineView { run: b.run.after_plan(b.deletion, b.incomplete), ..b };
            let queue = choose|queue: Seq<Seq<char>>|
                #[trigger] run::lists_set(queue, uris) && run::takes_up(m, queue, a, act);
            assert(run::takes_up(m, queue, a, act));
        }
    }
}

proof fn lemma_deletions(start: MachineView, h: History, k: int)
    requires
        h.follows(start),
        0 <= k < h.machines.len(),
    ensures
        h.machines[k].run.result.docs_deleted == records::bumped(
            start.run.result.docs_deleted,
            deletions(h.answers, k),
        ),
        deletions(h.answers, k) >= 0,
        h.actions[k] matches ActionView::Finished { result, .. } ==> result
            == h.machines[k].run.result,
    decreases k,
{
    if k == 0 {
        lemma_advancing_counts_nothing(start, h.machines[0], h.actions[0]);
    } else {
        lemma_deletions(start, h, k - 1);
        let b = h.machines[k - 1];
        let (a, act) = (h.machines[k], h.actions[k]);
        match h.answers[k - 1] {
            AnswerView::Deleted(n) => {
                let m = MachineView { run: b.run.with_deleted(n), ..b };
                lemma_advancing_counts_nothing(m, a, act);
            },
            AnswerView::Stale(entries) => {
                let m = MachineView {
                    phase: Phase::Probing,
                    candidates: super::liveness::at_most(
                        entries.filter(super::liveness::not_in(b.run.seen)),
                        25,
                    ),
                    at: 0,
                    ..b
                };
                lemma_advancing_counts_nothing(m, a, act);
            },
            AnswerView::Fetched(_) => {
                if !(b.phase == Phase::Probing && b.at < b.candidates.len()) {
                    lemma_advancing_counts_nothing(b, a, act);
                }
            },
            AnswerView::Touched => {
                lemma_advancing_counts_nothing(b, a, act);
            },
        }
    }
}

/// A run counts each deletion of which the store says that it deleted something.
pub proof fn deletions_are_counted(
    run: RunView,
    deletion: DeletionPolicy,
    incomplete: Option<Seq<char>>,
    now: i64,
    validators: Option<records::ValidatorsView>,
    digest: Option<Seq<char>>,
    queue: Seq<Seq<char>>,
    h: History,
)
    requires
        h.follows(run::begins(run, deletion, incomplete, now, validators, digest, queue)),
        h.is_finished(),
    ensures
        h.actions.last()->Finished_result.docs_deleted == records::bumped(
            run.result.docs_deleted,
            deletions(h.answers, h.answers.len() as int),
        ),
{
    let start = run::begins(run, deletion, incomplete, now, validators, digest, queue);
    lemma_deletions(start, h, h.machines.len() - 1);
}

} // verus!
