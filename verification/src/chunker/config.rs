//! Chunking presets.

use crate::error::{Error, ErrorView};
use crate::text;
use vstd::prelude::*;

verus! {

/// How to chunk.
#[derive(Debug, Clone)]
pub struct ChunkerConfig {
    /// `prose`, `code` or `messages`.
    pub preset: String,
    /// Target chunk size, in the sizer's units. For `code`, the bytes that lines are packed into
    /// and the characters that a line is cut to.
    pub target_tokens: Option<usize>,
    /// Overlap of neighbouring chunks.
    pub overlap_tokens: Option<usize>,
    /// Turns per message window.
    pub window_turns: Option<usize>,
    /// Turns from one window's start to the next one's.
    pub stride_turns: Option<usize>,
}

/// A configuration as a mathematical value.
pub struct ConfigView {
    pub preset: Seq<char>,
    pub target_tokens: Option<usize>,
    pub overlap_tokens: Option<usize>,
    pub window_turns: Option<usize>,
    pub stride_turns: Option<usize>,
}

impl View for ChunkerConfig {
    type V = ConfigView;

    open spec fn view(&self) -> ConfigView {
        ConfigView {
            preset: self.preset@,
            target_tokens: self.target_tokens,
            overlap_tokens: self.overlap_tokens,
            window_turns: self.window_turns,
            stride_turns: self.stride_turns,
        }
    }
}

impl ConfigView {
    /// The prose preset: 256 tokens, no overlap.
    pub open spec fn prose() -> ConfigView {
        ConfigView {
            preset: "prose"@,
            target_tokens: Some(256),
            overlap_tokens: Some(0),
            window_turns: None,
            stride_turns: None,
        }
    }

    /// The code preset: 3000 characters, no overlap.
    pub open spec fn code() -> ConfigView {
        ConfigView {
            preset: "code"@,
            target_tokens: Some(3000),
            overlap_tokens: Some(0),
            window_turns: None,
            stride_turns: None,
        }
    }

    /// The messages preset: 512 tokens, windows of 6 turns every 3 turns.
    pub open spec fn messages() -> ConfigView {
        ConfigView {
            preset: "messages"@,
            target_tokens: Some(512),
            overlap_tokens: Some(0),
            window_turns: Some(6),
            stride_turns: Some(3),
        }
    }

    /// The preset of the given name.
    pub open spec fn named(preset: Seq<char>) -> Option<ConfigView> {
        if preset == "prose"@ {
            Some(ConfigView::prose())
        } else if preset == "code"@ {
            Some(ConfigView::code())
        } else if preset == "messages"@ {
            Some(ConfigView::messages())
        } else {
            None
        }
    }

    /// The target where none is set: that of the preset of the name, or else of prose.
    pub open spec fn preset_target(self) -> nat {
        if self.preset == "code"@ {
            3000
        } else if self.preset == "messages"@ {
            512
        } else {
            256
        }
    }

    /// The target size.
    pub open spec fn target(self) -> nat {
        match self.target_tokens {
            Some(n) => n as nat,
            None => self.preset_target(),
        }
    }

    pub open spec fn overlap(self) -> nat {
        match self.overlap_tokens {
            Some(n) => n as nat,
            None => 0,
        }
    }

    pub open spec fn window(self) -> nat {
        match self.window_turns {
            Some(n) => n as nat,
            None => 6,
        }
    }

    pub open spec fn stride(self) -> nat {
        match self.stride_turns {
            Some(n) => n as nat,
            None => 3,
        }
    }
}

impl ChunkerConfig {
    /// The `prose` preset.
    pub fn prose() -> (r: Self)
        ensures
            r@ == ConfigView::prose(),
    {
        ChunkerConfig {
            preset: "prose".to_owned(),
            target_tokens: Some(256),
            overlap_tokens: Some(0),
            window_turns: None,
            stride_turns: None,
        }
    }

    /// The `code` preset.
    pub fn code() -> (r: Self)
        ensures
            r@ == ConfigView::code(),
    {
        ChunkerConfig {
            preset: "code".to_owned(),
            target_tokens: Some(3000),
            overlap_tokens: Some(0),
            window_turns: None,
            stride_turns: None,
        }
    }

    /// The `messages` preset.
    pub fn messages() -> (r: Self)
        ensures
            r@ == ConfigView::messages(),
    {
        ChunkerConfig {
            preset: "messages".to_owned(),
            target_tokens: Some(512),
            overlap_tokens: Some(0),
            window_turns: Some(6),
            stride_turns: Some(3),
        }
    }

    /// The preset of the given name; unknown names are invalid requests.
    pub fn from_preset(preset: &str) -> (r: Result<Self, Error>)
        ensures
            match ConfigView::named(preset@) {
                Some(c) => r is Ok && r->Ok_0@ == c,
                None => r is Err && r->Err_0@ == (ErrorView::InvalidRequest {
                    message: "unknown chunking preset '"@ + preset@
                        + "'; valid values: prose, code, messages"@,
                }),
            },
    {
        if text::str_eq(preset, "prose") {
            Ok(Self::prose())
        } else if text::str_eq(preset, "code") {
            Ok(Self::code())
        } else if text::str_eq(preset, "messages") {
            Ok(Self::messages())
        } else {
            Err(
                Error::invalid_request(
                    text::concat3(
                        "unknown chunking preset '",
                        preset,
                        "'; valid values: prose, code, messages",
                    ),
                ),
            )
        }
    }

    /// The same configuration.
    pub fn copied(&self) -> (r: Self)
        ensures
            r@ == self@,
    {
        ChunkerConfig {
            preset: self.preset.clone(),
            target_tokens: self.target_tokens,
            overlap_tokens: self.overlap_tokens,
            window_turns: self.window_turns,
            stride_turns: self.stride_turns,
        }
    }

    /// The target size; that of the preset where none is set.
    pub fn resolved_target_tokens(&self) -> (r: usize)
        ensures
            r == self@.target(),
    {
        match self.target_tokens {
            Some(n) => n,
            None => if text::str_eq(self.preset.as_str(), "code") {
                3000
            } else if text::str_eq(self.preset.as_str(), "messages") {
                512
            } else {
                256
            },
        }
    }

    /// The overlap, 0 where none is set.
    pub fn resolved_overlap_tokens(&self) -> (r: usize)
        ensures
            r == self@.overlap(),
    {
        match self.overlap_tokens {
            Some(n) => n,
            None => 0,
        }
    }

    /// The turns per window, 6 where none are set.
    pub fn resolved_window_turns(&self) -> (r: usize)
        ensures
            r == self@.window(),
    {
        match self.window_turns {
            Some(n) => n,
            None => 6,
        }
    }

    /// The stride, 3 where none is set.
    pub fn resolved_stride_turns(&self) -> (r: usize)
        ensures
            r == self@.stride(),
    {
        match self.stride_turns {
            Some(n) => n,
            None => 3,
        }
    }
}

} // verus!
