//! What a run may remove, in terms of what it knows: the index, what came up, and what was
//! reported gone.

use super::document_index;
use super::file_order;
use super::history;
use super::history::History;
use super::liveness;
use super::liveness::FetchResult;
use super::pipeline::RunView;
use super::records;
use super::run;
use super::run::{ActionView, MachineView, Phase};
use super::source;
use super::source::DeletionPolicy;
use super::sweep;
use crate::clock;
use crate::error::Error;
use vstd::prelude::*;

verus! {

// ---------------------------------------------------------------------------
// What is a run's own
// ---------------------------------------------------------------------------
/// Whether the index has the document, and has it from this run's source.
pub open spec fn is_from_the_source(r: RunView, uri: Seq<char>) -> bool {
    r.index.contains_key(uri) && r.index[uri].source_id == r.source.id
}

/// What is confirmed to be gone is what was reported gone and is the source's own. What is
/// absent is what is the source's own and came up in no way.
pub proof fn only_its_own_documents_are_a_runs_concern(r: RunView, uri: Seq<char>)
    ensures
        r.owned().contains(uri) <==> is_from_the_source(r, uri),
        r.confirmed().contains(uri) <==> is_from_the_source(r, uri) && r.gone.contains(uri),
        r.absent().contains(uri) <==> is_from_the_source(r, uri) && !r.seen.contains(uri)
            && !r.gone.contains(uri),
{
}

/// Absence says nothing where the run did not look everywhere, and where it saw none of the
/// documents that its source has; everywhere else it does.
pub proof fn absence_is_evidence_only_after_a_proper_look(
    r: RunView,
    incomplete: Option<Seq<char>>,
)
    ensures
        incomplete matches Some(reason) ==> r.suppression(incomplete) == Some(
            sweep::SuppressionView::IncompleteEnumeration(reason),
        ),
        incomplete is None && (exists|u: Seq<char>| #[trigger] is_from_the_source(r, u)) && (
        forall|u: Seq<char>| #[trigger]
            is_from_the_source(r, u) ==> !r.seen.contains(u)) ==> r.suppression(incomplete)
            == Some(sweep::SuppressionView::ZeroSeen),
        incomplete is None && (forall|u: Seq<char>| !#[trigger] is_from_the_source(r, u))
            ==> r.suppression(incomplete) is None,
        incomplete is None && (exists|u: Seq<char>| #[trigger]
            is_from_the_source(r, u) && r.seen.contains(u)) ==> r.suppression(incomplete) is None,
{
    assert forall|u: Seq<char>| #[trigger] is_from_the_source(r, u) == r.owns(u) by {}
    if exists|u: Seq<char>| #[trigger] is_from_the_source(r, u) && r.seen.contains(u) {
        let u = choose|u: Seq<char>| #[trigger] is_from_the_source(r, u) && r.seen.contains(u);
        assert(r.owns(u) && r.seen.contains(u));
        assert(r.saw_its_own());
    }
    if exists|u: Seq<char>| #[trigger] is_from_the_source(r, u) {
        let u = choose|u: Seq<char>| #[trigger] is_from_the_source(r, u);
        assert(r.owns(u));
    }
    if forall|u: Seq<char>| #[trigger] is_from_the_source(r, u) ==> !r.seen.contains(u) {
        if r.saw_its_own() {
            let u = choose|u: Seq<char>| r.owns(u) && #[trigger] r.seen.contains(u);
            assert(is_from_the_source(r, u));
        }
    }
    if forall|u: Seq<char>| !#[trigger] is_from_the_source(r, u) {
        if exists|u: Seq<char>| #[trigger] r.owns(u) {
            let u = choose|u: Seq<char>| #[trigger] r.owns(u);
            assert(is_from_the_source(r, u));
        }
    }
}

/// What is done about documents that were not seen: a feed is asked for its entries, if the run
/// prunes and read the feed whole; of other sources what is absent is deleted, if the run prunes
/// and absence is evidence.
pub proof fn sweeps_follow_the_evidence(
    r: RunView,
    deletion: DeletionPolicy,
    incomplete: Option<Seq<char>>,
)
    ensures
        ({
            let plan = r.sweep(deletion, incomplete);
            let is_feed = r.source.spec is Feed;
            &&& plan is Delete <==> !is_feed && deletion == DeletionPolicy::Prune && r.suppression(
                incomplete,
            ) is None
            &&& plan is ProbeFeed <==> is_feed && deletion == DeletionPolicy::Prune && incomplete
                is None
            &&& plan matches sweep::PlanView::Delete(uris) ==> uris == r.absent()
            &&& plan matches sweep::PlanView::Suppressed(s) ==> r.suppression(incomplete) == Some(s)
            &&& !is_feed && r.suppression(incomplete) is Some ==> plan is Suppressed
            &&& is_feed && deletion == DeletionPolicy::Prune && incomplete is Some ==> plan
                is Suppressed
            &&& is_feed && deletion == DeletionPolicy::Retain ==> plan is Nothing
            &&& plan matches sweep::PlanView::ProbeFeed { refresh_interval_secs } ==> (
            r.source.spec matches source::SpecView::Feed { refresh_interval_secs: own, .. } && own
                == refresh_interval_secs)
        }),
{
}

// ---------------------------------------------------------------------------
// Whole runs
// ---------------------------------------------------------------------------
/// Whatever a run over anything but a feed does, it leaves alone what is not its source's own,
/// what it saw and was not told to be gone, and everything if it does not prune. It adds nothing
/// and changes no record.
pub proof fn runs_leave_alone_what_is_not_theirs(
    r: RunView,
    deletion: DeletionPolicy,
    incomplete: Option<Seq<char>>,
    now: i64,
    validators: Option<records::ValidatorsView>,
    digest: Option<Seq<char>>,
    queue: Seq<Seq<char>>,
    h: History,
    uri: Seq<char>,
)
    requires
        run::lists_set(queue, run::to_remove(r, deletion)),
        h.follows(run::begins(r, deletion, incomplete, now, validators, digest, queue)),
        h.is_finished(),
        !(r.source.spec is Feed),
        r.index.contains_key(uri),
    ensures
        r.index[uri].source_id != r.source.id ==> h.index().contains_key(uri),
        r.seen.contains(uri) && !r.gone.contains(uri) ==> h.index().contains_key(uri),
        deletion == DeletionPolicy::Retain ==> h.index().contains_key(uri),
        incomplete is Some && !r.gone.contains(uri) ==> h.index().contains_key(uri),
        deletion == DeletionPolicy::Prune && r.index[uri].source_id == r.source.id
            && r.gone.contains(uri) ==> !h.index().contains_key(uri),
        h.index().contains_key(uri) ==> h.index()[uri] == r.index[uri],
{
    history::runs_remove_exactly(r, deletion, incomplete, now, validators, digest, queue, h);
    let removed = run::to_remove(r, deletion).union(r.swept(deletion, incomplete));
    assert(h.index() == r.index.remove_keys(removed));
    if removed.contains(uri) {
        assert(r.owns(uri));
    }
}

/// A run ends with a report of its result.
pub proof fn runs_end_with_a_report(r: RunView)
    ensures
        r.closed().events == r.events.push(source::EventView::SourceFinished { result: r.result }),
        r.closed().index == r.index,
        r.closed().result == r.result,
{
}

/// The end of a run begins with the validators and the digest noted, everything that is
/// confirmed to be gone queued in order, and nothing done yet.
pub proof fn ends_of_runs_begin_with_what_is_confirmed(
    r: RunView,
    deletion: DeletionPolicy,
    incomplete: Option<Seq<char>>,
    now: i64,
    validators: Option<records::ValidatorsView>,
    digest: Option<Seq<char>>,
    queue: Seq<Seq<char>>,
)
    ensures
        ({
            let m = run::begins(r, deletion, incomplete, now, validators, digest, queue);
            &&& m.run.result.document_validators == validators
            &&& m.run.result.document_inputs_digest == digest
            &&& m.run.result.docs_deleted == r.result.docs_deleted
            &&& m.run.result.docs_indexed == r.result.docs_indexed
            &&& m.run.index == r.index && m.run.seen == r.seen && m.run.gone == r.gone
            &&& m.run.source == r.source && m.run.events == r.events
            &&& m.deletion == deletion && m.incomplete == incomplete && m.now == now
            &&& m.queue == queue && m.at == 0 && m.suppressed is None
            &&& m.phase == (Phase::Removing { confirmed: true })
        }),
        forall|u: Seq<char>| #[trigger]
            run::to_remove(r, deletion).contains(u) <==> deletion == DeletionPolicy::Prune
                && is_from_the_source(r, u) && r.gone.contains(u),
{
}

/// A document that is removed is the next of the queue, and the store is asked to delete that
/// document's own resource.
pub proof fn removals_delete_the_documents_resource(b: MachineView, a: MachineView, act: ActionView)
    requires
        b.phase is Removing,
        0 <= b.at < b.queue.len(),
        run::advances(b, a, act),
    ensures
        act == (ActionView::DeleteResource {
            resource_id: b.run.index[b.queue[b.at]].resource_id,
        }),
        !a.run.index.contains_key(b.queue[b.at]),
        forall|u: Seq<char>|
            u != b.queue[b.at] ==> (#[trigger] a.run.index.contains_key(u)
                == b.run.index.contains_key(u)),
        a.at == b.at + 1,
        a.run.result == b.run.result,
{
}

/// A deletion is counted if anything was deleted.
pub proof fn deletions_count_if_anything_was_deleted(r: RunView, n: u64)
    ensures
        n == 0 ==> r.with_deleted(n) == r,
        n > 0 && r.result.docs_deleted < u64::MAX ==> r.with_deleted(n).result.docs_deleted
            == r.result.docs_deleted + 1,
        r.with_deleted(n).index == r.index,
        r.with_deleted(n).seen == r.seen,
{
}

// ---------------------------------------------------------------------------
// Feeds
// ---------------------------------------------------------------------------
/// Entries are looked up that were last checked before the interval, 25 more than were seen and
/// never more than 500.
pub proof fn lookups_ask_for_old_entries(m: MachineView)
    ensures
        run::lookup(m) matches ActionView::ListStale { checked_before, limit } && {
            &&& checked_before == clock::utc_text(liveness::cutoff_secs(m.now, m.run.refresh()))
            &&& m.run.seen.len() <= 475 ==> limit == m.run.seen.len() + 25
            &&& m.run.seen.len() > 475 ==> limit == 500
        },
        m.run.source.spec matches source::SpecView::Feed { refresh_interval_secs, .. }
            ==> m.run.refresh() == refresh_interval_secs,
{
}

/// Of the entries that were looked up at most 25 are asked for, the first ones that were not
/// seen; an entry that was seen is not.
pub proof fn the_first_unseen_entries_are_asked_for(
    entries: Seq<records::StaleView>,
    seen: Set<Seq<char>>,
)
    ensures
        ({
            let unseen = entries.filter(|c: records::StaleView| !seen.contains(c.uri));
            let asked = liveness::at_most(entries.filter(liveness::not_in(seen)), 25);
            &&& unseen.len() <= 25 ==> asked == unseen
            &&& unseen.len() > 25 ==> asked == unseen.take(25)
        }),
{
    let p = |c: records::StaleView| !seen.contains(c.uri);
    lemma_same_filter(entries, p, liveness::not_in(seen));
}

proof fn lemma_same_filter(
    s: Seq<records::StaleView>,
    p: spec_fn(records::StaleView) -> bool,
    q: spec_fn(records::StaleView) -> bool,
)
    requires
        forall|c: records::StaleView| #[trigger] p(c) == q(c),
    ensures
        s.filter(p) == s.filter(q),
    decreases s.len(),
{
    reveal(Seq::filter);
    if s.len() > 0 {
        assert(p(s.last()) == q(s.last()));
        lemma_same_filter(s.drop_last(), p, q);
    }
}

/// Entries are asked for one after the other, by their URI and with the validators that they
/// have.
pub proof fn entries_are_asked_for_with_their_validators(
    b: MachineView,
    a: MachineView,
    act: ActionView,
)
    requires
        b.phase == Phase::Probing,
        0 <= b.at < b.candidates.len(),
        run::advances(b, a, act),
    ensures
        act matches ActionView::Fetch { uri, validators } && {
            &&& uri == b.candidates[b.at].uri
            &&& validators.etag == b.candidates[b.at].external_etag
            &&& validators.last_modified == b.candidates[b.at].external_last_modified
        },
        a == b,
{
}

/// What is asked of the store after a fetch goes by the answer: a gone entry's resource is
/// deleted and the entry leaves the index; any other is noted as checked and stays. The check is
/// counted either way.
pub proof fn answers_of_servers_decide(
    b: MachineView,
    a: MachineView,
    act: ActionView,
    fetched: Result<FetchResult, Error>,
)
    requires
        b.phase == Phase::Probing,
        0 <= b.at < b.candidates.len(),
        run::after_fetch(b, a, act, fetched),
    ensures
        ({
            let c = b.candidates[b.at];
            &&& fetched matches Ok(FetchResult::Gone) ==> act == (ActionView::DeleteResource {
                resource_id: c.resource_id,
            }) && a.run.index == b.run.index.remove(c.uri)
            &&& !(fetched matches Ok(FetchResult::Gone)) ==> (act matches ActionView::Touch {
                resource_id,
                ..
            } && resource_id == c.resource_id) && a.run.index == b.run.index
            &&& a.at == b.at + 1
            &&& b.run.result.feed_entries_liveness_checked < u64::MAX
                ==> a.run.result.feed_entries_liveness_checked
                == b.run.result.feed_entries_liveness_checked + 1
        }),
{
}

// ---------------------------------------------------------------------------
// The index and the order of files
// ---------------------------------------------------------------------------
/// An index that is filled has every document that was put in, each as it was put in last, and
/// keeps what it had under other URIs.
pub proof fn filled_indexes_hold_what_was_put_in(
    index: Map<Seq<char>, records::DocView>,
    rs: Seq<records::DocView>,
    uri: Seq<char>,
)
    ensures
        ({
            let after = document_index::with_all(index, rs);
            &&& (forall|j: int| 0 <= j < rs.len() ==> (#[trigger] rs[j]).uri != uri) ==> (
            after.contains_key(uri) == index.contains_key(uri) && (index.contains_key(uri)
                ==> after[uri] == index[uri]))
            &&& forall|k: int|
                0 <= k < rs.len() && (#[trigger] rs[k]).uri == uri && (forall|j: int|
                    k < j < rs.len() ==> (#[trigger] rs[j]).uri != uri) ==> after.contains_key(uri)
                    && after[uri] == rs[k]
        }),
    decreases rs.len(),
{
    if rs.len() > 0 {
        let front = rs.drop_last();
        filled_indexes_hold_what_was_put_in(index, front, uri);
        let before = document_index::with_all(index, front);
        let after = document_index::with_all(index, rs);
        assert forall|j: int| 0 <= j < front.len() implies (#[trigger] front[j]) == rs[j] by {}
        if forall|j: int| 0 <= j < rs.len() ==> (#[trigger] rs[j]).uri != uri {
            assert forall|j: int| 0 <= j < front.len() implies (#[trigger] front[j]).uri != uri by {
                assert(rs[j].uri != uri);
            }
            assert(rs[rs.len() - 1].uri != uri);
        }
        assert forall|k: int|
            0 <= k < rs.len() && (#[trigger] rs[k]).uri == uri && (forall|j: int|
                k < j < rs.len() ==> (#[trigger] rs[j]).uri != uri) implies after.contains_key(uri)
            && after[uri] == rs[k] by {
            if k < rs.len() - 1 {
                assert(rs[rs.len() - 1].uri != uri);
                assert(front[k].uri == uri);
                assert forall|j: int| k < j < front.len() implies (#[trigger] front[j]).uri
                    != uri by {
                    assert(rs[j].uri != uri);
                }
            }
        }
    }
}

/// Paths are in the order of the first byte in which they differ, where a separator comes before
/// every other byte; a path comes before all that go on from it. So what is in a directory
/// comes right behind it, before what is beside it under a longer name.
pub proof fn directories_come_before_longer_names(
    dir: Seq<u8>,
    a: Seq<u8>,
    b: Seq<u8>,
    x: u8,
    y: u8,
)
    ensures
        file_order::path_before(dir, dir.push(x) + a),
        !file_order::path_before(dir, dir),
        x != y && x == 47u8 ==> file_order::path_before(dir.push(x) + a, dir.push(y) + b),
        x < y && y != 47u8 ==> file_order::path_before(dir.push(x) + a, dir.push(y) + b),
    decreases dir.len(),
{
    let (s, t) = (dir.push(x) + a, dir.push(y) + b);
    if dir.len() == 0 {
        assert(s[0] == x);
        assert(t[0] == y);
    } else {
        let rest = dir.drop_first();
        directories_come_before_longer_names(rest, a, b, x, y);
        assert(s.drop_first() =~= rest.push(x) + a);
        assert(t.drop_first() =~= rest.push(y) + b);
        assert(s[0] == dir[0] && t[0] == dir[0]);
    }
}

} // verus!
