//! Chunking of documents.
//!
//! [`chunk_blocks`] takes the typed blocks of a document apart into chunks:
//! - `prose` splits along the Markdown structure, within a token target;
//! - `code` packs lines within a budget of bytes, and cuts lines that are longer by characters;
//! - `messages` slides a window over the turns of a conversation;
//! - tables are packed by rows, with the header repeated in every chunk.
//!
//! A chunk's id is the digest of its document, block, text and position, and is given once
//! the last two are settled.

pub mod blocks;
pub mod code;
pub mod code_laws;
pub mod config;
pub mod laws;
pub mod lines;
pub mod message_laws;
pub mod messages;
pub mod output;
pub mod preset;
pub mod prose;
pub mod size_laws;
pub mod sizers;
pub mod table;
pub mod table_laws;

pub use blocks::chunk_blocks;
pub use code::chunk_code;
pub use config::ChunkerConfig;
pub use messages::chunk_messages;
pub use output::{finalize_ids, ChunkOutput};
pub use preset::preset_for;
pub use prose::{chunk_prose, OVERLONG_LINE_MULTIPLIER, STRUCTURELESS_RUN_MULTIPLIER};
pub use sizers::{CharSizer, ChunkSizer, TokenSizer};
pub use table::{chunk_table, is_table_separator_row};
