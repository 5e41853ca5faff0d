//! What chunking promises of sizes, presets and headings within a text.

use super::config::ConfigView;
use super::lines;
use super::preset;
use super::prose;
use crate::heading_index;
use crate::heading_index::EventView;
use crate::outline;
use crate::paths;
use crate::text;
use vstd::prelude::*;

verus! {

// ---------------------------------------------------------------------------
// Configurations
// ---------------------------------------------------------------------------
/// What is set is used, and what is not set is that of the preset of the name.
pub proof fn unset_sizes_are_those_of_the_preset(c: ConfigView)
    ensures
        c.target_tokens matches Some(n) ==> c.target() == n,
        c.overlap_tokens matches Some(n) ==> c.overlap() == n,
        c.window_turns matches Some(n) ==> c.window() == n,
        c.stride_turns matches Some(n) ==> c.stride() == n,
        ConfigView::named(c.preset) matches Some(p) ==> {
            &&& p.preset == c.preset
            &&& c.target_tokens is None ==> p.target_tokens == Some(c.target() as usize)
            &&& c.overlap_tokens is None ==> p.overlap() == c.overlap()
            &&& c.window_turns is None ==> p.window() == c.window()
            &&& c.stride_turns is None ==> p.stride() == c.stride()
        },
{
    reveal_strlit("prose");
    reveal_strlit("code");
    reveal_strlit("messages");
    assert("prose"@.len() == 5 && "code"@.len() == 4 && "messages"@.len() == 8);
}

/// There are three presets, each under its own name: 256 tokens of prose, 3000 characters of
/// code, and windows of six turns every three turns within 512 tokens. None overlaps.
pub proof fn presets_go_by_their_name(name: Seq<char>)
    ensures
        ConfigView::named(name) is Some <==> name == "prose"@ || name == "code"@ || name
            == "messages"@,
        ConfigView::named(name) matches Some(p) ==> p.preset == name && p.overlap() == 0,
        ConfigView::named("prose"@)->0.target() == 256,
        ConfigView::named("code"@)->0.target() == 3000,
        ConfigView::named("messages"@)->0.target() == 512,
        ConfigView::named("messages"@)->0.window() == 6,
        ConfigView::named("messages"@)->0.stride() == 3,
{
    reveal_strlit("prose");
    reveal_strlit("code");
    reveal_strlit("messages");
    assert("prose"@.len() == 5 && "code"@.len() == 4 && "messages"@.len() == 8);
}

// ---------------------------------------------------------------------------
// Prose
// ---------------------------------------------------------------------------
/// The splitter aims at three quarters of the target at least, and is asked for the overlap
/// that is configured, unless that would leave no room for anything else.
pub proof fn the_splitter_is_asked_for_what_is_configured(target: nat, overlap: nat)
    ensures
        4 * prose::desired_size(target) <= 3 * target,
        3 * target < 4 * prose::desired_size(target) + 4,
        overlap < prose::desired_size(target) ==> prose::usable_overlap(target, overlap) == overlap,
        overlap >= prose::desired_size(target) ==> prose::usable_overlap(target, overlap) == 0,
{
}

/// A text with a stretch of more than eight times the target without white space has no
/// structure to split along.
pub proof fn long_runs_have_no_structure(s: Seq<char>, target: nat, a: int, b: int)
    requires
        0 <= a,
        b <= s.len(),
        b - a > 8 * target,
        forall|i: int| a <= i < b ==> !text::white_space(#[trigger] s[i]),
    ensures
        prose::structureless(s, target),
{
    assert(prose::space_free(s, a, a + 8 * target as int + 1));
}

/// Nor has a text with a line of more than 64 times the target. A text without either has.
pub proof fn long_lines_have_no_structure(s: Seq<char>, target: nat)
    ensures
        prose::structureless(s, target) ==> (exists|a: int|
            0 <= a && a + 8 * target < s.len() && #[trigger] prose::space_free(
                s,
                a,
                a + 8 * target as int + 1,
            )) || (exists|a: int|
            0 <= a && a + 64 * target < s.len() && #[trigger] is_unbroken(
                s,
                a,
                a + 64 * target as int + 1,
            )),
        (exists|a: int|
            0 <= a && a + 64 * target + 1 < s.len() && #[trigger] is_unbroken(
                s,
                a,
                a + 64 * target as int + 2,
            )) ==> prose::structureless(s, target),
{
    let n = 64 * target as int;
    let rs = lines::line_ranges(s, 0);
    lemma_lines(s, 0);
    if prose::has_line_over(s, n) {
        let i = choose|i: int| 0 <= i < rs.len() && (#[trigger] rs[i]).1 - rs[i].0 > n;
        assert(is_unbroken(s, rs[i].0, rs[i].1));
        assert(is_unbroken(s, rs[i].0, rs[i].0 + n + 1));
    }
    if exists|a: int|
        0 <= a && a + 64 * target + 1 < s.len() && #[trigger] is_unbroken(s, a, a + n + 2) {
        let a = choose|a: int|
            0 <= a && a + 64 * target + 1 < s.len() && #[trigger] is_unbroken(s, a, a + n + 2);
        lemma_line_at(s, 0, a, a + n + 2);
    }
}

/// No line break in `s[a..b]`.
pub open spec fn is_unbroken(s: Seq<char>, a: int, b: int) -> bool {
    forall|i: int| a <= i < b ==> (#[trigger] s[i]) != '\n'
}

/// A stretch without a line break lies in one line, but for a carriage return at its end.
proof fn lemma_line_at(s: Seq<char>, from: int, a: int, b: int)
    requires
        0 <= from <= a < b <= s.len(),
        is_unbroken(s, a, b),
    ensures
        exists|i: int|
            0 <= i < lines::line_ranges(s, from).len() && (#[trigger] lines::line_ranges(
                s,
                from,
            )[i]).0 <= a && b - 1 <= lines::line_ranges(s, from)[i].1,
    decreases s.len() - from,
{
    text::lemma_find_from(s, '\n', from);
    let i = text::find_from(s, '\n', from);
    let all = lines::line_ranges(s, from);
    if i >= a {
        assert(i >= b) by {
            if i < b {
                assert(s[i] != '\n');
            }
        }
        assert(all[0].0 == from);
        assert(b - 1 <= all[0].1);
    } else {
        lemma_line_at(s, i + 1, a, b);
        let rest = lines::line_ranges(s, i + 1);
        let k = choose|k: int|
            0 <= k < rest.len() && (#[trigger] rest[k]).0 <= a && b - 1 <= rest[k].1;
        assert(all[k + 1] == rest[k]);
    }
}

/// Whether a range is the content of a line: it begins the text or follows a line break, holds
/// none, and ends before one, which may have a carriage return in front of it, or at the end.
pub open spec fn is_content(s: Seq<char>, r: (int, int)) -> bool {
    &&& 0 <= r.0 <= r.1 <= s.len()
    &&& r.0 == 0 || s[r.0 - 1] == '\n'
    &&& is_unbroken(s, r.0, r.1)
    &&& {
        ||| r.1 == s.len()
        ||| s[r.1] == '\n' && (r.1 == r.0 || s[r.1 - 1] != '\r')
        ||| r.1 + 1 < s.len() && s[r.1] == '\r' && s[r.1 + 1] == '\n'
    }
}

proof fn lemma_lines(s: Seq<char>, from: int)
    requires
        0 <= from <= s.len(),
        from == 0 || s[from - 1] == '\n',
    ensures
        forall|i: int|
            0 <= i < lines::line_ranges(s, from).len() ==> is_content(
                s,
                #[trigger] lines::line_ranges(s, from)[i],
            ),
    decreases s.len() - from,
{
    if from < s.len() {
        text::lemma_find_from(s, '\n', from);
        let i = text::find_from(s, '\n', from);
        let all = lines::line_ranges(s, from);
        assert(is_content(s, (from, lines::content_end(s, from))));
        if i < s.len() {
            lemma_lines(s, i + 1);
            let rest = lines::line_ranges(s, i + 1);
            assert forall|k: int| 0 <= k < all.len() implies is_content(s, #[trigger] all[k]) by {
                if k > 0 {
                    assert(all[k] == rest[k - 1]);
                }
            }
        }
    }
}

/// Every line that a text is taken apart into is the content of one, without its line break.
pub proof fn lines_are_without_their_breaks(s: Seq<char>, i: int)
    requires
        0 <= i < lines::line_ranges(s, 0).len(),
    ensures
        is_content(s, lines::line_ranges(s, 0)[i]),
{
    lemma_lines(s, 0);
}

/// A chunk of prose is a piece of the text, with the piece's place and the headings there.
pub proof fn prose_chunks_are_the_pieces(
    resource_id: Seq<char>,
    s: Seq<char>,
    target: nat,
    overlap: nat,
    measure: spec_fn(Seq<char>) -> nat,
    block_seq: u32,
    i: int,
)
    requires
        !prose::structureless(s, target),
        0 <= i < prose::prose_chunks(resource_id, s, target, overlap, measure, block_seq).len(),
    ensures
        ({
            let ps = prose::markdown_pieces(
                s,
                measure,
                prose::desired_size(target),
                target,
                prose::usable_overlap(target, overlap),
            );
            let c = prose::prose_chunks(resource_id, s, target, overlap, measure, block_seq)[i];
            &&& prose::prose_chunks(resource_id, s, target, overlap, measure, block_seq).len()
                == ps.len()
            &&& c.text == ps[i].1
            &&& c.start == ps[i].0
            &&& c.end == ps[i].0 + text::byte_len(ps[i].1)
            &&& c.heading_path == heading_index::path_at(heading_index::heading_index(s), c.start)
            &&& c.block_seq == block_seq
            &&& c.seq_in_block == i as u32
            &&& c.id == crate::ids::chunk_id_of(resource_id, block_seq, c.text, i as u32)
        }),
{
}

// ---------------------------------------------------------------------------
// Headings within a text
// ---------------------------------------------------------------------------
/// The events of stretches of literal text.
pub open spec fn literal(texts: Seq<Seq<char>>) -> Seq<EventView> {
    Seq::new(texts.len(), |i: int| EventView::Text(texts[i]))
}

/// Texts one after the other.
pub open spec fn run_together(texts: Seq<Seq<char>>) -> Seq<char>
    decreases texts.len(),
{
    if texts.len() == 0 {
        Seq::empty()
    } else {
        run_together(texts.drop_last()) + texts.last()
    }
}

proof fn lemma_literal(es: Seq<EventView>, level: u8, offset: nat, texts: Seq<Seq<char>>)
    ensures
        ({
            let before = heading_index::after_events(es);
            let st = heading_index::after_events(
                es.push(EventView::Start { level, offset }) + literal(texts),
            );
            &&& st.open == before.open
            &&& st.index == before.index
            &&& st.reading == Some((level, offset))
            &&& st.buffer == run_together(texts)
        }),
    decreases texts.len(),
{
    let start = es.push(EventView::Start { level, offset });
    if texts.len() == 0 {
        assert(start + literal(texts) =~= start);
        assert(start.drop_last() =~= es);
        assert(run_together(texts) =~= Seq::empty());
    } else {
        lemma_literal(es, level, offset, texts.drop_last());
        let all = start + literal(texts);
        assert(all.drop_last() =~= start + literal(texts.drop_last()));
        assert(all.last() == EventView::Text(texts.last()));
    }
}

/// A heading is indexed at its start. Its text, run together, is the last name of the path from
/// there on, behind those of the open headings of smaller levels. What was indexed before stays.
pub proof fn headings_are_indexed_at_their_start(
    es: Seq<EventView>,
    level: u8,
    offset: nat,
    texts: Seq<Seq<char>>,
)
    requires
        outline::nested(heading_index::after_events(es).open),
    ensures
        ({
            let before = heading_index::after_events(es);
            let after = heading_index::after_events(
                (es.push(EventView::Start { level, offset }) + literal(texts)).push(EventView::End),
            );
            let path = after.index.last().1;
            &&& after.index.len() == before.index.len() + 1
            &&& after.index.drop_last() == before.index
            &&& after.index.last().0 == offset
            &&& path.len() > 0
            &&& path.last() == run_together(texts)
            &&& forall|i: int|
                0 <= i < path.len() - 1 ==> i < before.open.len() && before.open[i].level < level
                    && (#[trigger] path[i]) == before.open[i].text
            &&& path.len() - 1 < before.open.len() ==> before.open[path.len() - 1].level >= level
            &&& outline::nested(after.open)
        }),
{
    let before = heading_index::after_events(es);
    let reading = es.push(EventView::Start { level, offset }) + literal(texts);
    lemma_literal(es, level, offset, texts);
    let all = reading.push(EventView::End);
    assert(all.drop_last() =~= reading);
    outline::lemma_closed_to(before.open, level);
    let after = heading_index::after_events(all);
    assert(after.index.drop_last() =~= before.index);
    let m = outline::closed_to(before.open, level).len() as int;
    let path = after.index.last().1;
    assert(path.len() == m + 1);
    assert forall|i: int| 0 <= i < path.len() - 1 implies i < before.open.len()
        && before.open[i].level < level && (#[trigger] path[i]) == before.open[i].text by {
        assert(outline::closed_to(before.open, level)[i].level < level);
    }
    if m < before.open.len() {
        assert(before.open[m].level >= level);
    }
    assert(path[m] == run_together(texts));
    assert forall|i: int| 0 <= i < m implies (#[trigger] before.open[i]).level < level by {
        assert(before.open.take(m)[i] == before.open[i]);
        assert(outline::closed_to(before.open, level)[i].level < level);
    }
    let open = after.open;
    assert forall|i: int, j: int| 0 <= i < j < open.len() implies open[i].level
        < open[j].level by {
        assert(outline::closed_to(before.open, level)[i].level < level);
        assert(before.open[i] == open[i]);
        if j < m {
            assert(before.open[j] == open[j]);
        }
    }
}

/// Text outside of headings, and anything else, leaves the index as it is.
pub proof fn text_outside_of_headings_is_not_indexed(es: Seq<EventView>, t: Seq<char>)
    requires
        heading_index::after_events(es).reading is None,
    ensures
        heading_index::after_events(es.push(EventView::Text(t))) == heading_index::after_events(es),
        heading_index::after_events(es.push(EventView::Other)) == heading_index::after_events(es),
        heading_index::after_events(es.push(EventView::End)) == heading_index::after_events(es),
{
    assert(es.push(EventView::Text(t)).drop_last() =~= es);
    assert(es.push(EventView::Other).drop_last() =~= es);
    assert(es.push(EventView::End).drop_last() =~= es);
}

// ---------------------------------------------------------------------------
// Presets of files
// ---------------------------------------------------------------------------
/// A MIME type that names code or plain text decides alone. Otherwise lockfiles and the
/// extensions of source code and data are code, and everything else is prose.
pub proof fn mime_types_go_before_names(
    name: Option<Seq<char>>,
    extension: Option<Seq<char>>,
    mime: Option<Seq<char>>,
)
    ensures
        ({
            let p = preset::preset_of_parts(name, extension, mime);
            let is_json = mime == Some("application/json"@);
            let is_source = mime matches Some(m) && text::starts_with(m, "text/x-"@);
            let is_plain = mime == Some("text/plain"@);
            &&& p == "code"@ || p == "prose"@
            &&& is_json || is_source ==> p == "code"@
            &&& is_plain ==> p == "prose"@
            &&& !is_json && !is_source && !is_plain ==> (p == "code"@ <==> (
            name matches Some(n) && is_a_lockfile(n)) || (extension matches Some(e)
                && is_of_code_or_data(e)))
        }),
{
    reveal_strlit("code");
    reveal_strlit("prose");
    reveal_strlit("application/json");
    reveal_strlit("text/plain");
    reveal_strlit("text/x-");
    assert("code"@.len() == 4 && "prose"@.len() == 5);
    assert("text/plain"@[5] == 'p');
    assert("text/x-"@[5] == 'x');
    if text::starts_with("text/plain"@, "text/x-"@) {
        assert("text/plain"@.take(7)[5] == 'p');
    }
}

/// The names that lockfiles have.
pub open spec fn is_a_lockfile(n: Seq<char>) -> bool {
    let known = seq![
        "Cargo.lock"@,
        "package-lock.json"@,
        "yarn.lock"@,
        "poetry.lock"@,
        "Gemfile.lock"@,
    ];
    known[0] == n || known[1] == n || known[2] == n || known[3] == n || known[4] == n
}

/// The extensions of source code, by language, and of data.
pub open spec fn is_of_code_or_data(e: Seq<char>) -> bool {
    let systems = e == "rs"@ || e == "c"@ || e == "h"@ || e == "cpp"@ || e == "hpp"@ || e == "go"@;
    let scripts = e == "py"@ || e == "rb"@ || e == "php"@ || e == "sh"@ || e == "java"@;
    let web = e == "js"@ || e == "mjs"@ || e == "ts"@ || e == "tsx"@ || e == "css"@ || e
        == "scss"@;
    let settings = e == "json"@ || e == "yaml"@ || e == "yml"@ || e == "toml"@ || e == "ini"@ || e
        == "cfg"@ || e == "lock"@;
    let data = e == "sql"@ || e == "csv"@ || e == "xml"@ || e == "xlsx"@ || e == "xls"@;
    systems || scripts || web || settings || data
}

/// The preset of a file goes by the last name of its path and by the lower-case form of what
/// follows the last dot in it. Without a name only the MIME type decides.
pub proof fn presets_go_by_the_file_name(filename: Option<Seq<char>>, mime: Option<Seq<char>>)
    ensures
        filename is None ==> preset::preset_of(filename, mime) == preset::preset_of_parts(
            None,
            None,
            mime,
        ),
        filename matches Some(f) ==> {
            &&& paths::file_name(f) matches Some(n) ==> (paths::name_extension(n) matches Some(e)
                ==> preset::preset_of(filename, mime) == preset::preset_of_parts(
                Some(n),
                Some(preset::lowercase_of(e)),
                mime,
            ))
            &&& paths::file_name(f) matches Some(n) ==> (paths::name_extension(n) is None
                ==> preset::preset_of(filename, mime) == preset::preset_of_parts(
                Some(n),
                None,
                mime,
            ))
        },
{
}

} // verus!
