//! The core of localdb: chunking, identity, ingestion, configuration and access of a local
//! document database.
//!
//! The library computes and decides. Files, networks, databases and embedding models are
//! left to the application around it: functions take what was read and return what is to be
//! written.

pub mod auth;
pub mod backend;
pub mod base_laws;
pub mod block;
pub mod calendar;
pub mod chunker;
pub mod citation;
pub mod clock;
pub mod config;
pub mod date_laws;
pub mod dates;
pub mod error;
pub mod heading_index;
pub mod ids;
pub mod ingestion;
pub mod json;
pub mod lists;
pub mod outline;
pub mod os_path;
pub mod paths;
pub mod text;
pub mod types;
pub mod urls;
pub mod view_laws;

pub use error::Error;
