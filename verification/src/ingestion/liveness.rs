//! Liveness of feed entries.
//!
//! An entry that ages out of its feed is not gone. A pruning run asks for a few of the entries
//! that were not checked for a while, and deletes those whose server says that they are gone.

use super::pipeline;
use super::pipeline::{PipelineCallback, RunView};
use super::records;
use super::records::{FetchMetadata, StaleFeedResource};
use crate::clock;
use crate::error::Error;
use crate::lists;
use crate::text;
use vstd::prelude::*;

verus! {

/// At most this many entries are asked for in one run.
pub const FEED_LIVENESS_BATCH_LIMIT: usize = 25;

/// An entry is not asked for again within this time.
pub const FEED_LIVENESS_MIN_RECHECK_SECS: u64 = 86400;

/// At most this many candidates are looked up.
pub const FEED_LIVENESS_OVERFETCH_CAP: usize = 500;

/// First second of the earliest year that can be written, counted from 1970.
pub const EARLIEST_SECS: i64 = -8334601228800;

/// What fetching a document came to.
#[derive(Debug)]
pub enum FetchResult {
    Downloaded {
        bytes: Vec<u8>,
        content_type: Option<String>,
        etag: Option<String>,
        last_modified: Option<String>,
        final_url: Option<String>,
    },
    NotModified { etag: Option<String>, last_modified: Option<String> },
    Gone,
    Blocked,
}

/// For how long an entry is not asked for again: the feed's own interval, but at least a
/// day.
pub open spec fn recheck_secs(refresh_interval_secs: Option<u64>) -> u64 {
    match refresh_interval_secs {
        Some(s) => if s > 86400 {
            s
        } else {
            86400
        },
        None => 86400,
    }
}

/// The moment before which an entry must have been checked to be asked for again.
pub open spec fn cutoff_secs(now: i64, refresh_interval_secs: Option<u64>) -> i64 {
    let t = now - recheck_secs(refresh_interval_secs);
    if t < EARLIEST_SECS {
        EARLIEST_SECS
    } else {
        t as i64
    }
}

/// The moment before which an entry must have been checked to be asked for again, in seconds
/// since 1970.
pub fn cutoff(now: i64, refresh_interval_secs: Option<u64>) -> (r: i64)
    ensures
        r == cutoff_secs(now, refresh_interval_secs),
{
    let window: u64 = match refresh_interval_secs {
        Some(s) => if s > FEED_LIVENESS_MIN_RECHECK_SECS {
            s
        } else {
            FEED_LIVENESS_MIN_RECHECK_SECS
        },
        None => FEED_LIVENESS_MIN_RECHECK_SECS,
    };
    let t: i128 = now as i128 - window as i128;
    if t < EARLIEST_SECS as i128 {
        EARLIEST_SECS
    } else {
        t as i64
    }
}

/// The text of that moment, for comparison with stored timestamps; `None` where it cannot be
/// written.
pub fn checked_before(now: i64, refresh_interval_secs: Option<u64>) -> (r: Option<String>)
    ensures
        text::opt_view(r) == clock::utc_text(cutoff_secs(now, refresh_interval_secs)),
        0 <= cutoff_secs(now, refresh_interval_secs) < 253402300800 ==> text::opt_view(r) == Some(
            crate::calendar::unix_text(cutoff_secs(now, refresh_interval_secs) as int),
        ),
{
    clock::utc_at(cutoff(now, refresh_interval_secs))
}

/// How many candidates to look up, so that enough are left without those that were seen.
pub fn query_limit(seen: usize) -> (r: usize)
    ensures
        r == (if 25 + seen > 500 {
            500
        } else {
            25 + seen
        }),
{
    let n: usize = FEED_LIVENESS_BATCH_LIMIT.saturating_add(seen);
    if n > FEED_LIVENESS_OVERFETCH_CAP {
        FEED_LIVENESS_OVERFETCH_CAP
    } else {
        n
    }
}

/// The candidates that were not seen.
pub open spec fn not_in(seen: Set<Seq<char>>) -> spec_fn(records::StaleView) -> bool {
    |c: records::StaleView| !seen.contains(c.uri)
}

/// At most as many items.
pub open spec fn at_most<A>(s: Seq<A>, n: int) -> Seq<A> {
    if s.len() <= n {
        s
    } else {
        s.take(n)
    }
}

/// What is to be done about an entry that was asked for.
#[derive(Debug, Clone, PartialEq, Eq)]
pub enum ProbeAction {
    /// Delete the resource.
    Delete { resource_id: String },
    /// Note that it was checked, with these validators.
    Touch { resource_id: String, etag: Option<String>, last_modified: Option<String> },
}

/// [`ProbeAction`] as a mathematical value.
pub enum ActionView {
    Delete { resource_id: Seq<char> },
    Touch { resource_id: Seq<char>, validators: records::ValidatorsView },
}

impl View for ProbeAction {
    type V = ActionView;

    open spec fn view(&self) -> ActionView {
        match *self {
            ProbeAction::Delete { resource_id } => ActionView::Delete { resource_id: resource_id@ },
            ProbeAction::Touch { resource_id, etag, last_modified } => ActionView::Touch {
                resource_id: resource_id@,
                validators: records::ValidatorsView {
                    etag: text::opt_view(etag),
                    last_modified: text::opt_view(last_modified),
                },
            },
        }
    }
}

/// What is to be done about an entry, by what fetching it came to. Only the server's word
/// that it is gone deletes it; a failure proves nothing. Downloaded content is not indexed
/// here, so the validators that came with it are not kept.
pub open spec fn probe_action(
    candidate: records::StaleView,
    fetched: Result<FetchResult, Error>,
) -> ActionView {
    let stored = records::ValidatorsView {
        etag: candidate.external_etag,
        last_modified: candidate.external_last_modified,
    };
    match fetched {
        Ok(FetchResult::Gone) => ActionView::Delete { resource_id: candidate.resource_id },
        Ok(FetchResult::NotModified { etag, last_modified }) => ActionView::Touch {
            resource_id: candidate.resource_id,
            validators: records::ValidatorsView {
                etag: pipeline::first_of(text::opt_view(etag), stored.etag),
                last_modified: pipeline::first_of(
                    text::opt_view(last_modified),
                    stored.last_modified,
                ),
            },
        },
        _ => ActionView::Touch { resource_id: candidate.resource_id, validators: stored },
    }
}

impl RunView {
    /// The run after an entry was asked for.
    pub open spec fn probed(
        self,
        candidate: records::StaleView,
        fetched: Result<FetchResult, Error>,
    ) -> RunView {
        RunView {
            index: if probe_action(candidate, fetched) is Delete {
                self.index.remove(candidate.uri)
            } else {
                self.index
            },
            result: records::ResultView {
                feed_entries_liveness_checked: records::bumped(
                    self.result.feed_entries_liveness_checked,
                    1,
                ),
                ..self.result
            },
            ..self
        }
    }
}

impl PipelineCallback {
    /// The candidates to ask for: those that this run did not see, and not too many.
    pub fn liveness_batch(&self, candidates: &Vec<StaleFeedResource>) -> (r: Vec<StaleFeedResource>)
        requires
            self.wf(),
        ensures
            lists::views_of(r@) == at_most(
                lists::views_of(candidates@).filter(not_in(self@.seen)),
                25,
            ),
    {
        let ghost vs = lists::views_of(candidates@);
        let ghost p = not_in(self@.seen);
        let mut out: Vec<StaleFeedResource> = Vec::new();
        let mut i: usize = 0;
        assert(vs.take(0).filter(p) =~= Seq::<records::StaleView>::empty()) by {
            reveal(Seq::filter);
        }
        assert(lists::views_of(out@) =~= Seq::<records::StaleView>::empty());
        while i < candidates.len()
            invariant
                i <= candidates@.len(),
                vs == lists::views_of(candidates@),
                p == not_in(self@.seen),
                out@.len() <= 25,
                lists::views_of(out@) == at_most(vs.take(i as int).filter(p), 25),
            decreases candidates.len() - i,
        {
            proof {
                lists::lemma_filter_step(vs, p, i as int);
            }
            let ghost before = vs.take(i as int).filter(p);
            let ghost kept = lists::views_of(out@);
            if out.len() < FEED_LIVENESS_BATCH_LIMIT && !self.seen.contains(
                candidates[i].uri.as_str(),
            ) {
                let c = candidates[i].copied();
                proof {
                    lists::lemma_views_push(out@, c);
                }
                out.push(c);
            }
            assert(lists::views_of(out@) =~= at_most(vs.take(i + 1).filter(p), 25));
            i += 1;
        }
        assert(vs.take(i as int) =~= vs);
        out
    }

    /// The validators to ask for an entry with.
    pub fn probe_validators(candidate: &StaleFeedResource) -> (r: FetchMetadata)
        ensures
            r@ == (records::ValidatorsView {
                etag: candidate@.external_etag,
                last_modified: candidate@.external_last_modified,
            }),
    {
        FetchMetadata {
            etag: text::clone_opt(&candidate.external_etag),
            last_modified: text::clone_opt(&candidate.external_last_modified),
        }
    }

    /// Takes what fetching an entry came to. Returns what the store is to do.
    pub fn probe_liveness_candidate(
        &mut self,
        candidate: &StaleFeedResource,
        fetched: Result<FetchResult, Error>,
    ) -> (r: ProbeAction)
        requires
            old(self).wf(),
        ensures
            final(self).wf(),
            r@ == probe_action(candidate@, fetched),
            final(self)@ == old(self)@.probed(candidate@, fetched),
    {
        self.result.feed_entries_liveness_checked = records::bump(
            self.result.feed_entries_liveness_checked,
        );
        let resource_id = candidate.resource_id.clone();
        match fetched {
            Ok(FetchResult::Gone) => {
                let _ = self.doc_index.remove(candidate.uri.as_str());
                ProbeAction::Delete { resource_id }
            },
            Ok(FetchResult::NotModified { etag, last_modified }) => ProbeAction::Touch {
                resource_id,
                etag: pipeline::or_else(&etag, &candidate.external_etag),
                last_modified: pipeline::or_else(&last_modified, &candidate.external_last_modified),
            },
            _ => ProbeAction::Touch {
                resource_id,
                etag: text::clone_opt(&candidate.external_etag),
                last_modified: text::clone_opt(&candidate.external_last_modified),
            },
        }
    }
}

// ---------------------------------------------------------------------------
// Laws
// ---------------------------------------------------------------------------
/// Only the server's word that an entry is gone takes it out of the index.
pub proof fn only_gone_entries_are_deleted(
    run: RunView,
    candidate: records::StaleView,
    fetched: Result<FetchResult, Error>,
)
    requires
        !(fetched matches Ok(FetchResult::Gone)),
    ensures
        probe_action(candidate, fetched) is Touch,
        run.probed(candidate, fetched).index == run.index,
{
}

/// No entry that the run saw is asked for, and no more than the limit.
pub proof fn seen_entries_are_not_probed(
    candidates: Seq<records::StaleView>,
    seen: Set<Seq<char>>,
    i: int,
)
    requires
        0 <= i < at_most(candidates.filter(not_in(seen)), 25).len(),
    ensures
        i < 25,
        !seen.contains(at_most(candidates.filter(not_in(seen)), 25)[i].uri),
{
    let kept = candidates.filter(not_in(seen));
    candidates.lemma_filter_pred(not_in(seen), i);
}

} // verus!
