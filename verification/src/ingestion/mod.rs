//! Ingestion of sources into a store.
//!
//! A run over a source goes through [`PipelineCallback`]: it takes what an ingestor finds,
//! decides what is indexed, updated or left alone, and keeps count. At its end it decides
//! which documents are gone. Files, feeds, embedders and stores are asked by the caller.

pub mod document_index;
pub mod file_order;
pub mod globs;
pub mod history;
pub mod jobs;
pub mod laws;
pub mod liveness;
pub mod pipeline;
pub mod records;
pub mod removal_laws;
pub mod resource;
pub mod run;
pub mod source;
pub mod sweep;
pub mod uri_set;

pub use crate::clock::{format_secs_rfc3339, now_rfc3339};
pub use document_index::DocumentIndex;
pub use globs::{FoundFile, PathEnumeration};
pub use jobs::{
    complete_index_job, create_index_job, fail_index_job, fail_index_job_with_error,
    is_store_stale, start_index_job,
};
pub use liveness::FetchResult;
pub use pipeline::PipelineCallback;
pub use records::{DocumentRecord, FetchMetadata, IngestionResult};
pub use resource::{IndexOutcome, IngestionConfig};
pub use source::DeletionPolicy;
