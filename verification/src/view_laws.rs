//! Values are seen as they are: every field of a view shows the field that it is named after.

use crate::auth::principal::Principal;
use crate::auth::rows::{
    AccessRequestRow, AuthCodeRow, AuthTokenRow, InviteRow, OAuthClientRow, StoreGrantRow, UserRow,
};
use crate::block::Block;
use crate::chunker::config::ChunkerConfig;
use crate::chunker::output::ChunkOutput;
use crate::config::effective::EffectiveStore;
use crate::config::loader::ResolvedPaths;
use crate::config::platform::{HostDirs, PlatformPaths};
use crate::config::schema::IndexingPolicyConfig;
use crate::ingestion::jobs::IndexJob;
use crate::ingestion::pipeline::{MetadataWrite, PipelineCallback};
use crate::ingestion::records::{
    DocumentRecord, FetchMetadata, IngestionResult, Metadata, Provenance, ResourceRecord,
    StaleFeedResource,
};
use crate::ingestion::resource::{ChunkRecord, Resource};
use crate::ingestion::source::Source;
use crate::outline::OpenHeading;
use vstd::prelude::*;

verus! {

/// Whether an optional text shows a string, and is there exactly if the string is.
pub open spec fn shows(t: Option<Seq<char>>, s: Option<String>) -> bool {
    match (t, s) {
        (Some(t), Some(s)) => t == s@,
        (None, None) => true,
        _ => false,
    }
}

/// Whether texts show strings, one by one.
pub open spec fn show(ts: Seq<Seq<char>>, ss: Seq<String>) -> bool {
    ts.len() == ss.len() && forall|i: int| 0 <= i < ts.len() ==> (#[trigger] ts[i]) == ss[i]@
}

/// The rows of the auth store are seen field by field as they are.
pub proof fn rows_are_seen_as_they_are(
    u: UserRow,
    t: AuthTokenRow,
    c: AuthCodeRow,
    d: OAuthClientRow,
    g: StoreGrantRow,
    v: InviteRow,
    q: AccessRequestRow,
    p: Principal,
)
    ensures
        u@.id == u.id@,
        u@.name == u.name@,
        u@.role == u.role,
        u@.created_at == u.created_at@,
        t@.id == t.id@,
        t@.user_id == t.user_id@,
        t@.kind == t.kind,
        t@.secret_hash == t.secret_hash@,
        shows(t@.expires_at, t.expires_at),
        shows(t@.last_used_at, t.last_used_at),
        shows(t@.revoked_at, t.revoked_at),
        t@.created_at == t.created_at@,
        shows(t@.family_id, t.family_id),
        shows(t@.rotated_from, t.rotated_from),
        c@.id == c.id@,
        c@.client_id == c.client_id@,
        c@.user_id == c.user_id@,
        c@.code_hash == c.code_hash@,
        c@.code_challenge == c.code_challenge@,
        c@.code_challenge_method == c.code_challenge_method@,
        c@.redirect_uri == c.redirect_uri@,
        c@.expires_at == c.expires_at@,
        shows(c@.consumed_at, c.consumed_at),
        c@.created_at == c.created_at@,
        d@.id == d.id@,
        shows(d@.client_name, d.client_name),
        show(d@.redirect_uris, d.redirect_uris@),
        d@.created_at == d.created_at@,
        g@.store_name == g.store_name@,
        g@.user_id == g.user_id@,
        g@.granted_by == g.granted_by@,
        g@.created_at == g.created_at@,
        v@.id == v.id@,
        v@.token_hash == v.token_hash@,
        v@.mode == v.mode,
        show(v@.store_grants, v.store_grants@),
        v@.max_uses == v.max_uses,
        v@.uses == v.uses,
        shows(v@.expires_at, v.expires_at),
        shows(v@.revoked_at, v.revoked_at),
        v@.created_by == v.created_by@,
        v@.created_at == v.created_at@,
        q@.id == q.id@,
        q@.invite_id == q.invite_id@,
        q@.requested_name == q.requested_name@,
        q@.secret_hash == q.secret_hash@,
        q@.state == q.state,
        shows(q@.resulting_user_id, q.resulting_user_id),
        q@.created_at == q.created_at@,
        shows(q@.decided_at, q.decided_at),
        shows(q@.collected_at, q.collected_at),
        p@.user_id == p.user_id@,
        p@.name == p.name@,
        p@.role == p.role,
        p@.access == p.access@,
{
}

/// The records of ingestion are seen field by field as they are.
pub proof fn records_are_seen_as_they_are(
    f: FetchMetadata,
    d: DocumentRecord,
    m: Metadata,
    r: ResourceRecord,
    s: StaleFeedResource,
    p: Provenance,
    n: IngestionResult,
    c: ChunkRecord,
    w: MetadataWrite,
)
    ensures
        shows(f@.etag, f.etag),
        shows(f@.last_modified, f.last_modified),
        d@.uri == d.uri@,
        d@.resource_id == d.resource_id@,
        d@.source_id == d.source_id@,
        d@.content_hash == d.content_hash@,
        d@.policy_version == d.policy_version@,
        d@.metadata_hash == d.metadata_hash@,
        shows(d@.external_etag, d.external_etag),
        shows(d@.external_last_modified, d.external_last_modified),
        m@.json == m.json@,
        shows(m@.title, m.title),
        shows(m@.date, m.date),
        r@.metadata == r.metadata@,
        shows(r@.external_id, r.external_id),
        shows(r@.external_etag, r.external_etag),
        shows(r@.external_last_modified, r.external_last_modified),
        shows(r@.modified_at, r.modified_at),
        shows(r@.date_original, r.date_original),
        shows(r@.date_parsed, r.date_parsed),
        s@.uri == s.uri@,
        s@.resource_id == s.resource_id@,
        shows(s@.external_etag, s.external_etag),
        shows(s@.external_last_modified, s.external_last_modified),
        p@.origin_store == p.origin_store@,
        p@.source_id == p.source_id@,
        p@.source_kind == p.source_kind@,
        p@.fetched_at == p.fetched_at@,
        p@.content_hash == p.content_hash@,
        show(p@.share_path, p.share_path@),
        n@.docs_seen == n.docs_seen,
        n@.docs_indexed == n.docs_indexed,
        n@.docs_skipped == n.docs_skipped,
        n@.docs_deleted == n.docs_deleted,
        n@.chunks_written == n.chunks_written,
        n@.unsupported_format_count == n.unsupported_format_count,
        n@.error_count == n.error_count,
        n@.docs_prunable == n.docs_prunable,
        n@.docs_metadata_updated == n.docs_metadata_updated,
        n@.feed_entries_liveness_checked == n.feed_entries_liveness_checked,
        shows(n@.document_inputs_digest, n.document_inputs_digest),
        c@.chunk == c.chunk@,
        c@.resource_id == c.resource_id@,
        c@.store_id == c.store_id@,
        c@.policy_version == c.policy_version@,
        c@.provenance == c.provenance@,
        c@.uri == c.uri@,
        shows(c@.mime, c.mime),
        c@.page == c.page,
        c@.resource == c.resource@,
        w@.resource_id == w.resource_id@,
        w@.record == w.record@,
        w@.updated == w.updated@,
{
}

/// Resources, sources, jobs and runs are seen field by field as they are.
pub proof fn resources_are_seen_as_they_are(
    r: Resource,
    s: Source,
    j: IndexJob,
    run: PipelineCallback,
)
    ensures
        r@.id == r.id@,
        r@.source_id == r.source_id@,
        r@.uri == r.uri@,
        shows(r@.mime, r.mime),
        r@.content_hash == r.content_hash@,
        r@.metadata == r.metadata@,
        shows(r@.external_id, r.external_id),
        shows(r@.external_etag, r.external_etag),
        shows(r@.external_last_modified, r.external_last_modified),
        shows(r@.modified_at, r.modified_at),
        r@.added_at == r.added_at@,
        r@.ingestor_kind == r.ingestor_kind@,
        s@.id == s.id@,
        s@.store_id == s.store_id@,
        s@.source_preset == s.source_preset@,
        s@.spec == s.spec@,
        j@.id == j.id@,
        j@.store_id == j.store_id@,
        j@.scope == j.scope,
        j@.state == j.state,
        j@.stats == j.stats,
        shows(j@.error, j.error),
        shows(j@.error_code, j.error_code),
        j@.created_at == j.created_at@,
        shows(j@.started_at, j.started_at),
        shows(j@.completed_at, j.completed_at),
        run@.source == run.source@,
        run@.store_id == run.config.store_id@,
        run@.policy_version == run.config.policy_version@,
        run@.chunker == run.config.chunker@,
        run@.index == run.doc_index@,
        run@.result == run.result@,
        run@.seen == run.seen@,
        run@.gone == run.gone@,
        run@.total == run.discovered_total,
        run@.next == run.next_index,
        run@.skip_errors == run.skip_error_count,
        r@.blocks.len() == r.blocks@.len(),
        forall|i: int| 0 <= i < r.blocks@.len() ==> (#[trigger] r@.blocks[i]) == r.blocks@[i]@,
        run@.events.len() == run.events@.len(),
        forall|i: int| 0 <= i < run.events@.len() ==> (#[trigger] run@.events[i]) == run.events@[i]@,
{
}

/// Blocks and chunks are seen field by field as they are.
pub proof fn chunks_are_seen_as_they_are(
    b: Block,
    c: ChunkOutput,
    k: ChunkerConfig,
    h: OpenHeading,
)
    ensures
        b@.seq == b.seq,
        b@.kind == b.kind@,
        b@.text == b.text@,
        c@.id == c.id@,
        c@.text == c.text@,
        c@.start == c.span.start as nat,
        c@.end == c.span.end as nat,
        show(c@.heading_path, c.heading_path@),
        c@.block_seq == c.block_seq,
        c@.seq_in_block == c.seq_in_block,
        c@.window_block_seqs == c.window_block_seqs@,
        shows(c@.block_kind, c.block_kind),
        k@.preset == k.preset@,
        k@.target_tokens == k.target_tokens,
        k@.overlap_tokens == k.overlap_tokens,
        k@.window_turns == k.window_turns,
        k@.stride_turns == k.stride_turns,
        h@.level == h.level,
        h@.text == h.text@,
        b.location matches Some(l) ==> b@.page == l.page,
        b.location is None ==> b@.page is None,
{
}

/// Stores, policies and paths are seen field by field as they are.
pub proof fn configurations_are_seen_as_they_are(
    s: EffectiveStore,
    p: IndexingPolicyConfig,
    h: HostDirs,
    l: PlatformPaths,
    r: ResolvedPaths,
)
    ensures
        s@.name == s.name@,
        shows(s@.id, s.id),
        s@.ownership == s.ownership,
        s@.visibility == s.visibility@,
        s@.backend == s.backend@,
        s@.indexing == s.indexing@,
        p@.overrides == p.chunking.preset_overrides@,
        p@.model == p.embedding.model@,
        p@.provider == p.embedding.provider@,
        show(p@.parsers, p.parsers@),
        h@.asked == (h.qualifier@, h.organization@, h.application@),
        h@.config_dir == h.config_dir@,
        h@.data_dir == h.data_dir@,
        h@.cache_dir == h.cache_dir@,
        l@.config_file == l.config_file@,
        l@.data_dir == l.data_dir@,
        l@.models_dir == l.models_dir@,
        l@.logs_dir == l.logs_dir@,
        r@.config_file == r.config_file@,
        r@.data_dir == r.data_dir@,
        r@.models_dir == r.models_dir@,
        r@.logs_dir == r.logs_dir@,
        h.state_dir matches Some(d) ==> h@.state_dir == Some(d@),
        h.state_dir is None ==> h@.state_dir is None,
{
}

} // verus!
