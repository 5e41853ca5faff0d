//! Typed blocks of a document.

use crate::text;
use vstd::prelude::*;

verus! {

/// What a block is.
#[derive(Debug, Clone, PartialEq)]
pub enum BlockKind {
    /// A section title; level 1 is the outermost.
    Heading { level: u8 },
    /// Running text.
    Text,
    /// A code listing.
    Code { language: Option<String> },
    /// A Markdown pipe-table.
    Table { caption: Option<String> },
    /// One message of a conversation.
    Message {
        sender: String,
        timestamp: Option<String>,
        message_id: Option<String>,
        reply_to: Option<String>,
    },
    /// One stretch of a transcript.
    Segment { speaker: Option<String>, start_ms: u64, end_ms: u64 },
    /// A pointer to another resource.
    Reference { target: Option<String> },
    /// A file that comes with the document.
    Attachment { filename: Option<String> },
    /// Metadata in front of a document's body.
    Frontmatter { format: Option<String> },
    /// A picture.
    Image { alt: Option<String> },
}

/// Where in its resource a block was found.
#[derive(Debug, Clone, PartialEq)]
pub struct BlockLocation {
    pub page: Option<u32>,
}

/// One block of a document.
#[derive(Debug, Clone, PartialEq)]
pub struct Block {
    /// Position among the document's blocks.
    pub seq: u32,
    pub kind: BlockKind,
    pub text: String,
    pub location: Option<BlockLocation>,
}

/// The part of a block's kind that chunking depends on.
pub enum KindView {
    Heading { level: u8 },
    Text,
    Code,
    Table,
    Message { sender: Seq<char>, timestamp: Option<Seq<char>> },
    Segment { speaker: Option<Seq<char>>, start_ms: u64, end_ms: u64 },
    Reference,
    Attachment,
    Frontmatter,
    Image,
}

/// A block as a mathematical value.
pub struct BlockView {
    pub seq: u32,
    pub kind: KindView,
    pub text: Seq<char>,
    /// The page that the block was found on.
    pub page: Option<u32>,
}

impl View for BlockKind {
    type V = KindView;

    open spec fn view(&self) -> KindView {
        match *self {
            BlockKind::Heading { level } => KindView::Heading { level },
            BlockKind::Text => KindView::Text,
            BlockKind::Code { .. } => KindView::Code,
            BlockKind::Table { .. } => KindView::Table,
            BlockKind::Message { sender, timestamp, .. } => KindView::Message {
                sender: sender@,
                timestamp: text::opt_view(timestamp),
            },
            BlockKind::Segment { speaker, start_ms, end_ms } => KindView::Segment {
                speaker: text::opt_view(speaker),
                start_ms,
                end_ms,
            },
            BlockKind::Reference { .. } => KindView::Reference,
            BlockKind::Attachment { .. } => KindView::Attachment,
            BlockKind::Frontmatter { .. } => KindView::Frontmatter,
            BlockKind::Image { .. } => KindView::Image,
        }
    }
}

impl View for Block {
    type V = BlockView;

    open spec fn view(&self) -> BlockView {
        BlockView {
            seq: self.seq,
            kind: self.kind@,
            text: self.text@,
            page: match self.location {
                Some(location) => location.page,
                None => None,
            },
        }
    }
}

/// The views of a list of blocks.
pub open spec fn block_views(v: Seq<Block>) -> Seq<BlockView> {
    Seq::new(v.len(), |i: int| v[i]@)
}

impl KindView {
    /// The kind's name.
    pub open spec fn name(self) -> Seq<char> {
        match self {
            KindView::Heading { .. } => "heading"@,
            KindView::Text => "text"@,
            KindView::Code => "code"@,
            KindView::Table => "table"@,
            KindView::Message { .. } => "message"@,
            KindView::Segment { .. } => "segment"@,
            KindView::Reference => "reference"@,
            KindView::Attachment => "attachment"@,
            KindView::Frontmatter => "frontmatter"@,
            KindView::Image => "image"@,
        }
    }
}

impl BlockKind {
    /// The kind's name, as it is stored with chunks.
    pub fn kind_str(&self) -> (r: &'static str)
        ensures
            r@ == self@.name(),
    {
        match self {
            BlockKind::Heading { .. } => "heading",
            BlockKind::Text => "text",
            BlockKind::Code { .. } => "code",
            BlockKind::Table { .. } => "table",
            BlockKind::Message { .. } => "message",
            BlockKind::Segment { .. } => "segment",
            BlockKind::Reference { .. } => "reference",
            BlockKind::Attachment { .. } => "attachment",
            BlockKind::Frontmatter { .. } => "frontmatter",
            BlockKind::Image { .. } => "image",
        }
    }
}

impl BlockView {
    /// Whether the block is a turn of a conversation that has something to say.
    pub open spec fn is_turn(self) -> bool {
        self.text.len() > 0 && (self.kind is Message || self.kind is Segment)
    }
}

impl Block {
    /// Whether the block is a non-empty message or transcript segment.
    pub fn is_turn(&self) -> (r: bool)
        ensures
            r == self@.is_turn(),
    {
        !self.text.as_str().is_empty() && match self.kind {
            BlockKind::Message { .. } => true,
            BlockKind::Segment { .. } => true,
            _ => false,
        }
    }
}

} // verus!
