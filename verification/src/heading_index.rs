//! Heading index of a Markdown text.
//!
//! [`build_heading_index`] lists every heading's byte offset with the path of headings
//! that holds from there on; [`heading_path_at`] looks a place up in it.

use crate::outline;
use crate::outline::OpenHeading;
use crate::text;
use pulldown_cmark::{Event, Options, Parser, Tag, TagEnd};
use vstd::prelude::*;

verus! {

/// What the index needs of one event of a Markdown parser.
#[derive(Debug, Clone, PartialEq)]
pub enum HeadingEvent {
    /// A heading begins.
    Start { level: u8, offset: usize },
    /// Literal text.
    Text(String),
    /// A heading ends.
    End,
    /// Anything else.
    Other,
}

/// An event as a mathematical value.
pub enum EventView {
    Start { level: u8, offset: nat },
    Text(Seq<char>),
    End,
    Other,
}

impl View for HeadingEvent {
    type V = EventView;

    open spec fn view(&self) -> EventView {
        match *self {
            HeadingEvent::Start { level, offset } => EventView::Start {
                level,
                offset: offset as nat,
            },
            HeadingEvent::Text(t) => EventView::Text(t@),
            HeadingEvent::End => EventView::End,
            HeadingEvent::Other => EventView::Other,
        }
    }
}

/// The views of a list of events.
pub open spec fn event_views(v: Seq<HeadingEvent>) -> Seq<EventView> {
    Seq::new(v.len(), |i: int| v[i]@)
}

/// The events that the CommonMark parser yields for a text.
pub uninterp spec fn markdown_events(markdown: Seq<char>) -> Seq<EventView>;

/// Wraps `pulldown_cmark::Parser::new_ext` without extensions, walked with its byte
/// offsets. The events depend on the text alone. Each is mapped to what the index needs of
/// it: the level (1 to 6) and the start of a heading, a text, the end of a heading.
#[verifier::external_body]
fn parse_events(markdown: &str) -> (r: Vec<HeadingEvent>)
    ensures
        event_views(r@) == markdown_events(markdown@),
{
    Parser::new_ext(markdown, Options::empty())
        .into_offset_iter()
        .map(|(event, range)| match event {
            Event::Start(Tag::Heading { level, .. }) => {
                HeadingEvent::Start { level: level as u8, offset: range.start }
            },
            Event::Text(t) => HeadingEvent::Text(t.to_string()),
            Event::End(TagEnd::Heading(_)) => HeadingEvent::End,
            _ => HeadingEvent::Other,
        })
        .collect()
}

/// What is known after some events: the open headings, the heading being read with the
/// text of it so far, and the index.
pub struct IndexState {
    pub open: Seq<outline::HeadingView>,
    pub reading: Option<(u8, nat)>,
    pub buffer: Seq<char>,
    pub index: Seq<(nat, Seq<Seq<char>>)>,
}

/// The state after one more event.
pub open spec fn after_event(st: IndexState, e: EventView) -> IndexState {
    match e {
        EventView::Start { level, offset } => IndexState {
            reading: Some((level, offset)),
            buffer: Seq::empty(),
            ..st
        },
        EventView::Text(t) => if st.reading is Some {
            IndexState { buffer: st.buffer + t, ..st }
        } else {
            st
        },
        EventView::End => match st.reading {
            Some((level, offset)) => {
                let open = outline::entered(
                    st.open,
                    outline::HeadingView { level, text: st.buffer },
                );
                IndexState {
                    open,
                    reading: None,
                    buffer: Seq::empty(),
                    index: st.index.push((offset, outline::path_of(open))),
                }
            },
            None => st,
        },
        EventView::Other => st,
    }
}

/// The state after all the events.
pub open spec fn after_events(es: Seq<EventView>) -> IndexState
    decreases es.len(),
{
    if es.len() == 0 {
        IndexState {
            open: Seq::empty(),
            reading: None,
            buffer: Seq::empty(),
            index: Seq::empty(),
        }
    } else {
        after_event(after_events(es.drop_last()), es.last())
    }
}

/// The heading index of a Markdown text.
pub open spec fn heading_index(markdown: Seq<char>) -> Seq<(nat, Seq<Seq<char>>)> {
    after_events(markdown_events(markdown)).index
}

/// The view of an index.
pub open spec fn index_view(v: Seq<(usize, Vec<String>)>) -> Seq<(nat, Seq<Seq<char>>)> {
    Seq::new(v.len(), |i: int| (v[i].0 as nat, text::views(v[i].1@)))
}

/// The index that the given parser events give.
pub fn index_from_events(events: &Vec<HeadingEvent>) -> (r: Vec<(usize, Vec<String>)>)
    ensures
        index_view(r@) == after_events(event_views(events@)).index,
{
    let ghost es = event_views(events@);
    let mut open: Vec<OpenHeading> = Vec::new();
    let mut reading: Option<(u8, usize)> = None;
    let mut buffer = String::new();
    let mut index: Vec<(usize, Vec<String>)> = Vec::new();
    let mut i: usize = 0;
    proof {
        assert(es.take(0) =~= Seq::empty());
        assert(outline::open_views(open@) =~= Seq::empty());
        assert(index_view(index@) =~= Seq::empty());
    }
    while i < events.len()
        invariant
            i <= events.len(),
            es == event_views(events@),
            after_events(es.take(i as int)).open == outline::open_views(open@),
            after_events(es.take(i as int)).reading == (match reading {
                Some((level, offset)) => Some((level, offset as nat)),
                None => None,
            }),
            after_events(es.take(i as int)).buffer == buffer@,
            after_events(es.take(i as int)).index == index_view(index@),
        decreases events.len() - i,
    {
        proof {
            assert(es.take(i + 1).drop_last() =~= es.take(i as int));
            assert(es.take(i + 1).last() == events@[i as int]@);
        }
        match &events[i] {
            HeadingEvent::Start { level, offset } => {
                buffer = String::new();
                reading = Some((*level, *offset));
            },
            HeadingEvent::Text(t) => {
                if reading.is_some() {
                    buffer.append(t.as_str());
                }
            },
            HeadingEvent::End => {
                if let Some((level, offset)) = reading {
                    outline::enter(&mut open, level, buffer);
                    buffer = String::new();
                    reading = None;
                    let path = outline::current_path(&open);
                    let ghost before = index_view(index@);
                    let ghost entry = (offset as nat, text::views(path@));
                    index.push((offset, path));
                    assert(index_view(index@) =~= before.push(entry));
                }
            },
            HeadingEvent::Other => {},
        }
        i += 1;
    }
    assert(es.take(es.len() as int) =~= es);
    index
}

/// The heading index of a Markdown text: each heading's byte offset with the path of
/// headings, outermost first, that holds from there.
pub fn build_heading_index(markdown: &str) -> (r: Vec<(usize, Vec<String>)>)
    ensures
        index_view(r@) == heading_index(markdown@),
{
    let events = parse_events(markdown);
    index_from_events(&events)
}

/// The path that holds at `offset`: that of the last entry at or before it.
pub open spec fn path_at(index: Seq<(nat, Seq<Seq<char>>)>, offset: nat) -> Seq<Seq<char>>
    decreases index.len(),
{
    if index.len() == 0 {
        Seq::empty()
    } else if index.last().0 <= offset {
        index.last().1
    } else {
        path_at(index.drop_last(), offset)
    }
}

/// The heading path at a byte offset: the path of the most recent heading at or before it,
/// or none where no heading precedes it.
pub fn heading_path_at(index: &[(usize, Vec<String>)], offset: usize) -> (r: Vec<String>)
    ensures
        text::views(r@) == path_at(index_view(index@), offset as nat),
{
    let ghost iv = index_view(index@);
    let mut i: usize = index.len();
    assert(iv.take(i as int) =~= iv);
    while i > 0
        invariant
            i <= index.len(),
            iv == index_view(index@),
            path_at(iv, offset as nat) == path_at(iv.take(i as int), offset as nat),
        decreases i,
    {
        assert(iv.take(i as int).last() == iv[i - 1]);
        if index[i - 1].0 <= offset {
            return text::clone_strings(&index[i - 1].1);
        }
        assert(iv.take(i as int).drop_last() =~= iv.take(i - 1));
        i -= 1;
    }
    let r: Vec<String> = Vec::new();
    assert(text::views(r@) =~= path_at(iv.take(0), offset as nat));
    r
}

/// In an index sorted by offset, a place between two entries has the path of the first of
/// them, and a place before all entries has none.
pub proof fn path_at_is_the_latest_heading(
    index: Seq<(nat, Seq<Seq<char>>)>,
    offset: nat,
    k: int,
)
    requires
        forall|i: int, j: int| 0 <= i < j < index.len() ==> index[i].0 < index[j].0,
        -1 <= k < index.len(),
        k >= 0 ==> index[k].0 <= offset,
        k + 1 < index.len() ==> offset < index[k + 1].0,
    ensures
        path_at(index, offset) == (if k < 0 {
            Seq::empty()
        } else {
            index[k].1
        }),
    decreases index.len(),
{
    if index.len() > 0 {
        if k == index.len() - 1 {
        } else {
            if k + 1 < index.len() - 1 {
                assert(index[k + 1].0 < index.last().0);
            }
            path_at_is_the_latest_heading(index.drop_last(), offset, k);
        }
    }
}

} // verus!
