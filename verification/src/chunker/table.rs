//! The table chunker: packs rows, and repeats the header in every chunk.

use super::code;
use super::config::ChunkerConfig;
use super::lines;
use super::output;
use super::output::ChunkOutput;
use super::sizers::ChunkSizer;
use crate::error::Error;
use crate::text;
use crate::types::Span;
use vstd::prelude::*;
use vstd::slice::slice_subrange;

verus! {

// ---------------------------------------------------------------------------
// Recognizing a table
// ---------------------------------------------------------------------------
/// A cell of a separator row: dashes, with colons and white space around them.
pub open spec fn is_rule_cell(cell: Seq<char>) -> bool {
    let t = text::trimmed(cell);
    &&& t.contains('-')
    &&& forall|i: int|
        0 <= i < t.len() ==> (#[trigger] t[i] == '-' || t[i] == ':' || text::white_space(t[i]))
}

/// Whether all cells of `s` from position `from` on are those of a separator row.
pub open spec fn all_rule_cells(s: Seq<char>, from: int) -> bool
    decreases s.len() - from,
{
    let i = text::find_from(s, '|', from);
    is_rule_cell(s.subrange(from, i)) && (from <= i < s.len() ==> all_rule_cells(s, i + 1))
}

/// Whether a line is the separator row of a Markdown table, such as `|---|:--:|`.
pub open spec fn is_separator(line: Seq<char>) -> bool {
    let inner = text::trimmed_of(text::trimmed(line), '|');
    inner.len() > 0 && all_rule_cells(inner, 0)
}

fn is_rule(cell: &[char]) -> (r: bool)
    ensures
        r == is_rule_cell(cell@),
{
    let t = text::trim_chars(cell);
    if !text::contains_char(t, '-') {
        return false;
    }
    let mut i: usize = 0;
    while i < t.len()
        invariant
            i <= t.len(),
            t@ == text::trimmed(cell@),
            forall|j: int|
                0 <= j < i ==> (#[trigger] t@[j] == '-' || t@[j] == ':' || text::white_space(t@[j])),
        decreases t.len() - i,
    {
        let c = t[i];
        if c != '-' && c != ':' && !text::is_white_space(c) {
            assert(!(t@[i as int] == '-' || t@[i as int] == ':' || text::white_space(t@[i as int])));
            return false;
        }
        i += 1;
    }
    true
}

/// Whether a line, given by its characters, is the separator row of a Markdown table.
pub fn is_separator_line(line: &[char]) -> (r: bool)
    ensures
        r == is_separator(line@),
{
    let inner = text::trim_char(text::trim_chars(line), '|');
    if inner.len() == 0 {
        return false;
    }
    let mut from: usize = 0;
    loop
        invariant
            from <= inner.len(),
            inner.len() > 0,
            inner@ == text::trimmed_of(text::trimmed(line@), '|'),
            all_rule_cells(inner@, 0) == all_rule_cells(inner@, from as int),
        decreases inner.len() - from,
    {
        let i = text::find_char_from(inner, '|', from);
        if !is_rule(slice_subrange(inner, from, i)) {
            return false;
        }
        if i >= inner.len() {
            return true;
        }
        from = i + 1;
    }
}

/// Whether a line is the separator row of a Markdown table.
pub fn is_table_separator_row(line: &str) -> (r: bool)
    ensures
        r == is_separator(line@),
{
    let v = text::chars_of(line);
    is_separator_line(v.as_slice())
}

/// The text of a range of `s`.
pub open spec fn row_text(s: Seq<char>, r: (int, int)) -> Seq<char> {
    s.subrange(r.0, r.1)
}

pub open spec fn is_blank_row(s: Seq<char>, r: (int, int)) -> bool {
    text::trimmed(row_text(s, r)).len() == 0
}

/// Index of the first line at or after `from` that is not blank, or the number of lines.
pub open spec fn first_filled(s: Seq<char>, rows: Seq<(int, int)>, from: int) -> int
    decreases rows.len() - from,
{
    if from >= rows.len() {
        rows.len() as int
    } else if !is_blank_row(s, rows[from]) {
        from
    } else {
        first_filled(s, rows, from + 1)
    }
}

/// The lines of a text.
pub open spec fn all_rows(s: Seq<char>) -> Seq<(int, int)> {
    lines::line_ranges(s, 0)
}

/// Index of the header row.
pub open spec fn header_at(s: Seq<char>) -> int {
    first_filled(s, all_rows(s), 0)
}

/// Whether the text is a table: its first line that is not blank has a bar in it, and the
/// next line is a separator row.
pub open spec fn is_table(s: Seq<char>) -> bool {
    &&& header_at(s) + 1 < all_rows(s).len()
    &&& row_text(s, all_rows(s)[header_at(s)]).contains('|')
    &&& is_separator(row_text(s, all_rows(s)[header_at(s) + 1]))
}

/// The header row and the separator row.
pub open spec fn header_text(s: Seq<char>) -> Seq<char> {
    row_text(s, all_rows(s)[header_at(s)]) + "\n"@ + row_text(s, all_rows(s)[header_at(s) + 1])
}

/// The lines from index `from` on that are not blank.
pub open spec fn filled_rows(s: Seq<char>, rows: Seq<(int, int)>, from: int) -> Seq<(int, int)>
    decreases rows.len() - from,
{
    if from >= rows.len() {
        Seq::empty()
    } else if is_blank_row(s, rows[from]) {
        filled_rows(s, rows, from + 1)
    } else {
        seq![rows[from]] + filled_rows(s, rows, from + 1)
    }
}

/// The data rows of a table.
pub open spec fn data_rows(s: Seq<char>) -> Seq<(int, int)> {
    filled_rows(s, all_rows(s), header_at(s) + 2)
}

// ---------------------------------------------------------------------------
// Packing
// ---------------------------------------------------------------------------
/// One step of a packing: rows that share a chunk, or a row that fits in none.
pub enum TableItem {
    Batch(Seq<(int, int)>),
    Oversized((int, int)),
}

/// The texts of rows.
pub open spec fn row_texts(s: Seq<char>, rows: Seq<(int, int)>) -> Seq<Seq<char>> {
    Seq::new(rows.len(), |i: int| row_text(s, rows[i]))
}

/// A table of the given header and rows.
pub open spec fn batch_text(s: Seq<char>, header: Seq<char>, rows: Seq<(int, int)>) -> Seq<char> {
    header + "\n"@ + text::joined(row_texts(s, rows), "\n"@)
}

/// The pending rows as a batch, unless there are none.
pub open spec fn batch(pending: Seq<(int, int)>) -> Seq<TableItem> {
    if pending.len() == 0 {
        Seq::empty()
    } else {
        seq![TableItem::Batch(pending)]
    }
}

/// How the rows from `i` on are packed when `pending` is the batch begun: a row joins the
/// batch while the table of header and batch stays within the target. A row that is too
/// large even alone stands for itself.
pub open spec fn table_plan(
    s: Seq<char>,
    header: Seq<char>,
    rows: Seq<(int, int)>,
    i: int,
    pending: Seq<(int, int)>,
    target: nat,
    measure: spec_fn(Seq<char>) -> nat,
) -> Seq<TableItem>
    decreases rows.len() - i,
{
    if i < 0 || i >= rows.len() {
        batch(pending)
    } else if measure(batch_text(s, header, seq![rows[i]])) > target {
        batch(pending) + seq![TableItem::Oversized(rows[i])] + table_plan(
            s,
            header,
            rows,
            i + 1,
            Seq::empty(),
            target,
            measure,
        )
    } else if measure(batch_text(s, header, pending.push(rows[i]))) <= target {
        table_plan(s, header, rows, i + 1, pending.push(rows[i]), target, measure)
    } else {
        batch(pending) + table_plan(s, header, rows, i + 1, seq![rows[i]], target, measure)
    }
}

/// The ranges, moved by `by` characters.
pub open spec fn moved(rs: Seq<(int, int)>, by: int) -> Seq<(int, int)> {
    Seq::new(rs.len(), |i: int| (rs[i].0 + by, rs[i].1 + by))
}

/// The chunks of one step of the packing. A batch's span is not meaningful, for the
/// header is repeated in it; an oversized row is cut as code is, into slices of the text.
pub open spec fn item_chunks(
    s: Seq<char>,
    header: Seq<char>,
    item: TableItem,
    target: nat,
    block_seq: u32,
) -> Seq<output::ChunkView> {
    match item {
        TableItem::Batch(rows) => seq![
            output::plain(batch_text(s, header, rows), 0, 0, Seq::empty(), block_seq),
        ],
        TableItem::Oversized(r) => code::slice_chunks(
            s,
            moved(code::code_ranges(row_text(s, r), target), r.0),
            block_seq,
        ),
    }
}

/// The chunks of a packing.
pub open spec fn plan_chunks(
    s: Seq<char>,
    header: Seq<char>,
    plan: Seq<TableItem>,
    target: nat,
    block_seq: u32,
) -> Seq<output::ChunkView>
    decreases plan.len(),
{
    if plan.len() == 0 {
        Seq::empty()
    } else {
        plan_chunks(s, header, plan.drop_last(), target, block_seq) + item_chunks(
            s,
            header,
            plan.last(),
            target,
            block_seq,
        )
    }
}

/// What the table chunker makes of a text.
pub open spec fn table_chunks(
    resource_id: Seq<char>,
    s: Seq<char>,
    target: nat,
    measure: spec_fn(Seq<char>) -> nat,
    block_seq: u32,
) -> Seq<output::ChunkView> {
    if !is_table(s) {
        code::code_chunks(resource_id, s, target, block_seq)
    } else if data_rows(s).len() == 0 {
        output::numbered(
            resource_id,
            seq![output::plain(header_text(s), 0, 0, Seq::empty(), block_seq)],
        )
    } else {
        output::numbered(
            resource_id,
            plan_chunks(
                s,
                header_text(s),
                table_plan(
                    s,
                    header_text(s),
                    data_rows(s),
                    0,
                    Seq::empty(),
                    target,
                    measure,
                ),
                target,
                block_seq,
            ),
        )
    }
}

// ---------------------------------------------------------------------------
// Laws
// ---------------------------------------------------------------------------
/// The rows of a packing, in order.
pub open spec fn plan_rows(plan: Seq<TableItem>) -> Seq<(int, int)>
    decreases plan.len(),
{
    if plan.len() == 0 {
        Seq::empty()
    } else {
        plan_rows(plan.drop_last()) + match plan.last() {
            TableItem::Batch(rows) => rows,
            TableItem::Oversized(r) => seq![r],
        }
    }
}

proof fn lemma_plan_rows_concat(a: Seq<TableItem>, b: Seq<TableItem>)
    ensures
        plan_rows(a + b) == plan_rows(a) + plan_rows(b),
    decreases b.len(),
{
    if b.len() == 0 {
        assert(a + b =~= a);
        assert(plan_rows(a) + plan_rows(b) =~= plan_rows(a));
    } else {
        assert((a + b).drop_last() =~= a + b.drop_last());
        lemma_plan_rows_concat(a, b.drop_last());
        assert(plan_rows(a + b) =~= plan_rows(a) + plan_rows(b));
    }
}

proof fn lemma_plan_rows_one(item: TableItem)
    ensures
        plan_rows(seq![item]) == (match item {
            TableItem::Batch(rows) => rows,
            TableItem::Oversized(r) => seq![r],
        }),
{
    assert(seq![item].drop_last() =~= Seq::empty());
    assert(plan_rows(Seq::<TableItem>::empty()) =~= Seq::empty());
    match item {
        TableItem::Batch(rows) => {
            assert(plan_rows(seq![item]) =~= rows);
        },
        TableItem::Oversized(r) => {
            assert(plan_rows(seq![item]) =~= seq![r]);
        },
    }
}

proof fn lemma_plan_rows_batch(pending: Seq<(int, int)>)
    ensures
        plan_rows(batch(pending)) == pending,
{
    if pending.len() == 0 {
        assert(plan_rows(batch(pending)) =~= pending);
    } else {
        lemma_plan_rows_one(TableItem::Batch(pending));
    }
}

/// Packing drops, repeats and reorders no row.
pub proof fn packing_keeps_every_row(
    s: Seq<char>,
    header: Seq<char>,
    rows: Seq<(int, int)>,
    i: int,
    pending: Seq<(int, int)>,
    target: nat,
    measure: spec_fn(Seq<char>) -> nat,
)
    requires
        0 <= i <= rows.len(),
    ensures
        plan_rows(table_plan(s, header, rows, i, pending, target, measure)) == pending + rows.skip(
            i,
        ),
    decreases rows.len() - i,
{
    lemma_plan_rows_batch(pending);
    if i >= rows.len() {
        assert(pending + rows.skip(i) =~= pending);
    } else {
        let r = rows[i];
        assert(rows.skip(i) =~= seq![r] + rows.skip(i + 1));
        if measure(batch_text(s, header, seq![r])) > target {
            packing_keeps_every_row(s, header, rows, i + 1, Seq::empty(), target, measure);
            let rest = table_plan(s, header, rows, i + 1, Seq::empty(), target, measure);
            lemma_plan_rows_one(TableItem::Oversized(r));
            lemma_plan_rows_concat(batch(pending), seq![TableItem::Oversized(r)]);
            lemma_plan_rows_concat(batch(pending) + seq![TableItem::Oversized(r)], rest);
            assert(pending + seq![r] + (Seq::<(int, int)>::empty() + rows.skip(i + 1)) =~= pending
                + rows.skip(i));
        } else if measure(batch_text(s, header, pending.push(r))) <= target {
            packing_keeps_every_row(s, header, rows, i + 1, pending.push(r), target, measure);
            assert(pending.push(r) + rows.skip(i + 1) =~= pending + rows.skip(i));
        } else {
            packing_keeps_every_row(s, header, rows, i + 1, seq![r], target, measure);
            let rest = table_plan(s, header, rows, i + 1, seq![r], target, measure);
            lemma_plan_rows_concat(batch(pending), rest);
        }
    }
}

/// Every batch is a table that begins with the header and stays within the target, and
/// only rows that do not fit alone are cut.
pub proof fn batches_respect_the_target(
    s: Seq<char>,
    header: Seq<char>,
    rows: Seq<(int, int)>,
    i: int,
    pending: Seq<(int, int)>,
    target: nat,
    measure: spec_fn(Seq<char>) -> nat,
)
    requires
        0 <= i <= rows.len(),
        pending.len() > 0 ==> measure(batch_text(s, header, pending)) <= target,
    ensures
        forall|k: int|
            0 <= k < table_plan(s, header, rows, i, pending, target, measure).len() ==> (
            match #[trigger] table_plan(s, header, rows, i, pending, target, measure)[k] {
                TableItem::Batch(b) => b.len() > 0 && text::starts_with(
                    batch_text(s, header, b),
                    header + "\n"@,
                ) && measure(batch_text(s, header, b)) <= target,
                TableItem::Oversized(r) => measure(batch_text(s, header, seq![r])) > target,
            }),
    decreases rows.len() - i,
{
    let head = header + "\n"@;
    assert forall|b: Seq<(int, int)>| text::starts_with(#[trigger] batch_text(s, header, b), head) by {
        assert(batch_text(s, header, b).take(head.len() as int) =~= head);
    }
    if i < rows.len() {
        let r = rows[i];
        if measure(batch_text(s, header, seq![r])) > target {
            batches_respect_the_target(s, header, rows, i + 1, Seq::empty(), target, measure);
        } else if measure(batch_text(s, header, pending.push(r))) <= target {
            batches_respect_the_target(s, header, rows, i + 1, pending.push(r), target, measure);
        } else {
            batches_respect_the_target(s, header, rows, i + 1, seq![r], target, measure);
        }
    }
}

// ---------------------------------------------------------------------------
// The chunker
// ---------------------------------------------------------------------------
/// The text of the rows, joined by newlines, below the header.
fn build_batch(cs: &[char], header: &str, rows: &Vec<(usize, usize)>) -> (r: String)
    requires
        forall|i: int| 0 <= i < rows.len() ==> (#[trigger] rows@[i]).0 <= rows@[i].1 <= cs.len(),
    ensures
        r@ == batch_text(cs@, header@, lines::range_views(rows@)),
{
    let mut parts: Vec<String> = Vec::new();
    let mut i: usize = 0;
    while i < rows.len()
        invariant
            i <= rows.len(),
            parts.len() == i,
            forall|j: int|
                0 <= j < rows.len() ==> (#[trigger] rows@[j]).0 <= rows@[j].1 <= cs.len(),
            forall|j: int|
                0 <= j < i ==> (#[trigger] parts@[j])@ == cs@.subrange(
                    rows@[j].0 as int,
                    rows@[j].1 as int,
                ),
        decreases rows.len() - i,
    {
        assert(rows@[i as int].0 <= rows@[i as int].1);
        parts.push(text::string_of(slice_subrange(cs, rows[i].0, rows[i].1)));
        i += 1;
    }
    let n: usize = parts.len();
    let body = text::join_range(&parts, 0, n, "\n");
    proof {
        assert(text::views(parts@).subrange(0, n as int) =~= row_texts(
            cs@,
            lines::range_views(rows@),
        ));
    }
    text::concat3(header, "\n", body.as_str())
}

/// The rows, and one more.
fn with_row(rows: &Vec<(usize, usize)>, row: (usize, usize)) -> (r: Vec<(usize, usize)>)
    ensures
        r@ == rows@.push(row),
{
    let mut out: Vec<(usize, usize)> = Vec::new();
    let mut i: usize = 0;
    while i < rows.len()
        invariant
            i <= rows.len(),
            out@ == rows@.take(i as int),
        decreases rows.len() - i,
    {
        out.push(rows[i]);
        i += 1;
        assert(rows@.take(i as int) =~= rows@.take(i - 1).push(rows@[i - 1]));
    }
    out.push(row);
    assert(out@ =~= rows@.push(row));
    out
}

/// Appends a chunk with an empty heading path.
fn push_plain(
    chunks: &mut Vec<ChunkOutput>,
    text: String,
    start: usize,
    end: usize,
    block_seq: u32,
)
    ensures
        output::chunk_views(final(chunks)@) == output::chunk_views(old(chunks)@).push(
            output::placed(
                output::plain(text@, start as nat, end as nat, Seq::empty(), block_seq),
                old(chunks)@.len() as int,
            ),
        ),
{
    let path: Vec<String> = Vec::new();
    assert(text::views(path@) =~= Seq::<Seq<char>>::empty());
    let n: usize = chunks.len();
    let ghost t = text@;
    chunks.push(
        ChunkOutput::placeholder(text, Span::new(start, end), path, block_seq, n as u32),
    );
    assert(output::chunk_views(chunks@) =~= output::chunk_views(old(chunks)@).push(
        output::placed(
            output::plain(t, start as nat, end as nat, Seq::empty(), block_seq),
            n as int,
        ),
    ));
}

proof fn lemma_stamped_push(cs: Seq<output::ChunkView>, c: output::ChunkView)
    ensures
        output::stamped(cs.push(c)) == output::stamped(cs).push(
            output::placed(c, cs.len() as int),
        ),
{
    assert(output::stamped(cs.push(c)) =~= output::stamped(cs).push(
        output::placed(c, cs.len() as int),
    ));
}

/// Emits the pending rows as one chunk, a table of its own, and leaves none pending.
fn flush_table_batch(
    cs: &[char],
    header: &str,
    pending: &mut Vec<(usize, usize)>,
    chunks: &mut Vec<ChunkOutput>,
    block_seq: u32,
    Ghost(raw): Ghost<Seq<output::ChunkView>>,
)
    requires
        forall|i: int|
            0 <= i < old(pending).len() ==> (#[trigger] old(pending)@[i]).0 <= old(pending)@[i].1
                <= cs.len(),
        output::chunk_views(old(chunks)@) == output::stamped(raw),
    ensures
        final(pending)@.len() == 0,
        output::chunk_views(final(chunks)@) == output::stamped(
            if old(pending)@.len() == 0 {
                raw
            } else {
                raw.push(
                    output::plain(
                        batch_text(cs@, header@, lines::range_views(old(pending)@)),
                        0,
                        0,
                        Seq::empty(),
                        block_seq,
                    ),
                )
            },
        ),
{
    if pending.len() > 0 {
        let t = build_batch(cs, header, pending);
        proof {
            assert(output::chunk_views(chunks@).len() == raw.len());
            lemma_stamped_push(raw, output::plain(t@, 0, 0, Seq::empty(), block_seq));
        }
        push_plain(chunks, t, 0, 0, block_seq);
        pending.clear();
    }
}

/// The lines from index `from` on that are not blank.
fn rows_from(cs: &[char], rows: &Vec<(usize, usize)>, from: usize) -> (r: Vec<(usize, usize)>)
    requires
        from <= rows.len(),
        forall|i: int| 0 <= i < rows.len() ==> (#[trigger] rows@[i]).0 <= rows@[i].1 <= cs.len(),
    ensures
        lines::range_views(r@) == filled_rows(cs@, lines::range_views(rows@), from as int),
        forall|i: int| 0 <= i < r.len() ==> (#[trigger] r@[i]).0 <= r@[i].1 <= cs.len(),
{
    let ghost rv = lines::range_views(rows@);
    let mut out: Vec<(usize, usize)> = Vec::new();
    let mut i: usize = from;
    assert(lines::range_views(out@) + filled_rows(cs@, rv, from as int) =~= filled_rows(
        cs@,
        rv,
        from as int,
    ));
    while i < rows.len()
        invariant
            from <= i <= rows.len(),
            rv == lines::range_views(rows@),
            filled_rows(cs@, rv, from as int) == lines::range_views(out@) + filled_rows(
                cs@,
                rv,
                i as int,
            ),
            forall|j: int|
                0 <= j < rows.len() ==> (#[trigger] rows@[j]).0 <= rows@[j].1 <= cs.len(),
            forall|j: int| 0 <= j < out.len() ==> (#[trigger] out@[j]).0 <= out@[j].1 <= cs.len(),
        decreases rows.len() - i,
    {
        assert(rows@[i as int].0 <= rows@[i as int].1);
        let (a, b) = rows[i];
        if !text::is_blank(slice_subrange(cs, a, b)) {
            let ghost before = lines::range_views(out@);
            out.push((a, b));
            assert(lines::range_views(out@) =~= before.push(rv[i as int]));
            assert(before + (seq![rv[i as int]] + filled_rows(cs@, rv, i + 1)) =~= before.push(
                rv[i as int],
            ) + filled_rows(cs@, rv, i + 1));
        }
        i += 1;
    }
    assert(lines::range_views(out@) + filled_rows(cs@, rv, i as int) =~= lines::range_views(out@));
    out
}

/// Cuts a row that is too large for a table of its own, and appends its pieces as slices of
/// the whole text.
fn push_oversized(
    resource_id: &str,
    cs: &[char],
    row: (usize, usize),
    config: &ChunkerConfig,
    chunks: &mut Vec<ChunkOutput>,
    block_seq: u32,
    Ghost(raw): Ghost<Seq<output::ChunkView>>,
)
    requires
        row.0 <= row.1 <= cs.len(),
        text::byte_len(cs@) <= usize::MAX,
        output::chunk_views(old(chunks)@) == output::stamped(raw),
    ensures
        output::chunk_views(final(chunks)@) == output::stamped(
            raw + code::slice_chunks(
                cs@,
                moved(
                    code::code_ranges(
                        row_text(cs@, (row.0 as int, row.1 as int)),
                        config@.target(),
                    ),
                    row.0 as int,
                ),
                block_seq,
            ),
        ),
{
    let ghost rt = row_text(cs@, (row.0 as int, row.1 as int));
    let ghost ranges = code::code_ranges(rt, config@.target());
    let ghost whole = code::slice_chunks(cs@, moved(ranges, row.0 as int), block_seq);
    let t = text::string_of(slice_subrange(cs, row.0, row.1));
    let row_off: usize = code::range_bytes(cs, 0, row.0);
    let pieces = match code::chunk_code(resource_id, t.as_str(), config, block_seq) {
        Ok(p) => p,
        Err(_) => Vec::new(),
    };
    proof {
        code::code_ranges_tile_the_text(rt, config@.target());
        assert(cs@.subrange(0, row.0 as int) =~= cs@.take(row.0 as int));
        assert(raw + whole.take(0) =~= raw);
        assert(output::chunk_views(pieces@).len() == ranges.len());
    }
    let mut i: usize = 0;
    while i < pieces.len()
        invariant
            i <= pieces.len() == ranges.len(),
            row.0 <= row.1 <= cs.len(),
            text::byte_len(cs@) <= usize::MAX,
            row_off == text::byte_offset(cs@, row.0 as int),
            rt == row_text(cs@, (row.0 as int, row.1 as int)),
            ranges == code::code_ranges(rt, config@.target()),
            code::tiles(ranges, 0, rt.len() as int),
            whole == code::slice_chunks(cs@, moved(ranges, row.0 as int), block_seq),
            output::chunk_views(pieces@) == code::code_chunks(
                resource_id@,
                rt,
                config@.target(),
                block_seq,
            ),
            output::chunk_views(chunks@) == output::stamped(raw + whole.take(i as int)),
        decreases pieces.len() - i,
    {
        let p = &pieces[i];
        proof {
            assert(output::chunk_views(pieces@)[i as int] == p@);
            let (a, b) = ranges[i as int];
            code::lemma_tiles_bounds(ranges, 0, rt.len() as int, i as int);
            lemma_offset_in_row(cs@, row.0 as int, row.1 as int, a);
            lemma_offset_in_row(cs@, row.0 as int, row.1 as int, b);
            text::lemma_byte_len_subrange(cs@, row.0 + a, row.0 + b);
            assert(rt.subrange(a, b) =~= cs@.subrange(row.0 + a, row.0 + b));
        }
        let start: usize = row_off + p.span.start;
        let end: usize = row_off + p.span.end;
        let ghost c = whole[i as int];
        proof {
            assert(output::chunk_views(chunks@).len() == (raw + whole.take(i as int)).len());
            lemma_stamped_push(raw + whole.take(i as int), c);
            assert((raw + whole.take(i as int)).push(c) =~= raw + whole.take(i + 1));
        }
        push_plain(chunks, p.text.clone(), start, end, block_seq);
        i += 1;
    }
    assert(whole.take(i as int) =~= whole);
}

/// A place in a row has as its byte offset in the text the row's own offset more.
proof fn lemma_offset_in_row(s: Seq<char>, from: int, to: int, a: int)
    requires
        0 <= from <= to <= s.len(),
        0 <= a <= to - from,
    ensures
        text::byte_offset(s, from + a) == text::byte_offset(s, from) + text::byte_offset(
            s.subrange(from, to),
            a,
        ),
{
    assert(s.take(from + a) =~= s.take(from) + s.subrange(from, to).take(a));
    text::lemma_byte_len_concat(s.take(from), s.subrange(from, to).take(a));
}

proof fn lemma_plan_chunks_push(
    s: Seq<char>,
    header: Seq<char>,
    plan: Seq<TableItem>,
    item: TableItem,
    target: nat,
    block_seq: u32,
)
    ensures
        plan_chunks(s, header, plan.push(item), target, block_seq) == plan_chunks(
            s,
            header,
            plan,
            target,
            block_seq,
        ) + item_chunks(s, header, item, target, block_seq),
{
    assert(plan.push(item).drop_last() =~= plan);
}

proof fn lemma_plan_chunks_batch(
    s: Seq<char>,
    header: Seq<char>,
    plan: Seq<TableItem>,
    pending: Seq<(int, int)>,
    target: nat,
    block_seq: u32,
)
    ensures
        plan_chunks(s, header, plan + batch(pending), target, block_seq) == (if pending.len()
            == 0 {
            plan_chunks(s, header, plan, target, block_seq)
        } else {
            plan_chunks(s, header, plan, target, block_seq).push(
                output::plain(batch_text(s, header, pending), 0, 0, Seq::empty(), block_seq),
            )
        }),
{
    if pending.len() == 0 {
        assert(plan + batch(pending) =~= plan);
    } else {
        let item = TableItem::Batch(pending);
        lemma_plan_chunks_push(s, header, plan, item, target, block_seq);
        assert(plan + batch(pending) =~= plan.push(item));
        assert(plan_chunks(s, header, plan, target, block_seq) + item_chunks(
            s,
            header,
            item,
            target,
            block_seq,
        ) =~= plan_chunks(s, header, plan, target, block_seq).push(
            output::plain(batch_text(s, header, pending), 0, 0, Seq::empty(), block_seq),
        ));
    }
}

/// Packs the data rows of a table below its header.
#[verifier::rlimit(40)]
fn pack_rows<S: ChunkSizer + ?Sized>(
    resource_id: &str,
    cs: &[char],
    header: &str,
    rows: &Vec<(usize, usize)>,
    config: &ChunkerConfig,
    sizer: &S,
    block_seq: u32,
) -> (r: Vec<ChunkOutput>)
    requires
        text::byte_len(cs@) <= usize::MAX,
        forall|i: int| 0 <= i < rows.len() ==> (#[trigger] rows@[i]).0 <= rows@[i].1 <= cs.len(),
    ensures
        output::chunk_views(r@) == output::stamped(
            plan_chunks(
                cs@,
                header@,
                table_plan(
                    cs@,
                    header@,
                    lines::range_views(rows@),
                    0,
                    Seq::empty(),
                    config@.target(),
                    sizer.measure(),
                ),
                config@.target(),
                block_seq,
            ),
        ),
{
    let target: usize = config.resolved_target_tokens();
    let ghost t = target as nat;
    let ghost rv = lines::range_views(rows@);
    let ghost m = sizer.measure();
    let ghost full = table_plan(cs@, header@, rv, 0, Seq::empty(), t, m);
    let ghost mut done: Seq<TableItem> = Seq::empty();
    let mut chunks: Vec<ChunkOutput> = Vec::new();
    let mut pending: Vec<(usize, usize)> = Vec::new();
    let mut i: usize = 0;
    proof {
        assert(lines::range_views(pending@) =~= Seq::empty());
        assert(done + full =~= full);
        assert(output::chunk_views(chunks@) =~= output::stamped(
            plan_chunks(cs@, header@, done, t, block_seq),
        ));
    }
    while i < rows.len()
        invariant
            i <= rows.len(),
            target == config@.target(),
            t == target as nat,
            rv == lines::range_views(rows@),
            m == sizer.measure(),
            text::byte_len(cs@) <= usize::MAX,
            full == done + table_plan(
                cs@,
                header@,
                rv,
                i as int,
                lines::range_views(pending@),
                t,
                m,
            ),
            output::chunk_views(chunks@) == output::stamped(
                plan_chunks(cs@, header@, done, t, block_seq),
            ),
            forall|j: int|
                0 <= j < rows.len() ==> (#[trigger] rows@[j]).0 <= rows@[j].1 <= cs.len(),
            forall|j: int|
                0 <= j < pending.len() ==> (#[trigger] pending@[j]).0 <= pending@[j].1
                    <= cs.len(),
        decreases rows.len() - i,
    {
        let ghost pv = lines::range_views(pending@);
        let ghost r = rv[i as int];
        assert(rows@[i as int].0 <= rows@[i as int].1);
        let row = rows[i];
        let mut solo: Vec<(usize, usize)> = Vec::new();
        solo.push(row);
        assert(lines::range_views(solo@) =~= seq![r]);
        let solo_text = build_batch(cs, header, &solo);
        if sizer.size(solo_text.as_str()) > target {
            proof {
                lemma_plan_chunks_batch(cs@, header@, done, pv, t, block_seq);
            }
            flush_table_batch(
                cs,
                header,
                &mut pending,
                &mut chunks,
                block_seq,
                Ghost(plan_chunks(cs@, header@, done, t, block_seq)),
            );
            let ghost rest = table_plan(cs@, header@, rv, i + 1, Seq::empty(), t, m);
            let ghost item = TableItem::Oversized(r);
            proof {
                assert(full == done + (batch(pv) + seq![item] + rest));
                assert(full =~= (done + batch(pv)).push(item) + rest);
                done = done + batch(pv);
            }
            push_oversized(
                resource_id,
                cs,
                row,
                config,
                &mut chunks,
                block_seq,
                Ghost(plan_chunks(cs@, header@, done, t, block_seq)),
            );
            proof {
                lemma_plan_chunks_push(cs@, header@, done, item, t, block_seq);
                done = done.push(item);
                assert(lines::range_views(pending@) =~= Seq::empty());
            }
        } else {
            let candidate = with_row(&pending, row);
            assert(lines::range_views(candidate@) =~= pv.push(r));
            let candidate_text = build_batch(cs, header, &candidate);
            if sizer.size(candidate_text.as_str()) <= target {
                pending.push(row);
                assert(lines::range_views(pending@) =~= pv.push(r));
            } else {
                proof {
                    lemma_plan_chunks_batch(cs@, header@, done, pv, t, block_seq);
                }
                flush_table_batch(
                    cs,
                    header,
                    &mut pending,
                    &mut chunks,
                    block_seq,
                    Ghost(plan_chunks(cs@, header@, done, t, block_seq)),
                );
                pending.push(row);
                proof {
                    let rest = table_plan(cs@, header@, rv, i + 1, seq![r], t, m);
                    assert(lines::range_views(pending@) =~= seq![r]);
                    assert(full == done + (batch(pv) + rest));
                    assert(full =~= (done + batch(pv)) + rest);
                    done = done + batch(pv);
                }
            }
        }
        i += 1;
    }
    proof {
        lemma_plan_chunks_batch(
            cs@,
            header@,
            done,
            lines::range_views(pending@),
            t,
            block_seq,
        );
    }
    flush_table_batch(
        cs,
        header,
        &mut pending,
        &mut chunks,
        block_seq,
        Ghost(plan_chunks(cs@, header@, done, t, block_seq)),
    );
    chunks
}

/// The table chunker. Rows are packed up to the target under a repeated header; a text that
/// is no table goes to the code chunker, as does a row that fits in no chunk.
pub fn chunk_table<S: ChunkSizer + ?Sized>(
    resource_id: &str,
    markdown: &str,
    config: &ChunkerConfig,
    sizer: &S,
    block_seq: u32,
) -> (r: Result<Vec<ChunkOutput>, Error>)
    ensures
        r is Ok,
        output::chunk_views(r->Ok_0@) == table_chunks(
            resource_id@,
            markdown@,
            config@.target(),
            sizer.measure(),
            block_seq,
        ),
{
    let total: usize = text::str_byte_len(markdown);
    let v = text::chars_of(markdown);
    let cs = v.as_slice();
    let rows = lines::lines_of(cs);
    let mut h: usize = 0;
    while h < rows.len()
        invariant_except_break
            h <= rows.len(),
            first_filled(cs@, all_rows(cs@), 0) == first_filled(cs@, all_rows(cs@), h as int),
        invariant
            lines::range_views(rows@) == all_rows(cs@),
            forall|i: int| 0 <= i < rows.len() ==> (#[trigger] rows@[i]).0 <= rows@[i].1 <= cs.len(),
        ensures
            h <= rows.len(),
            h == header_at(cs@),
        decreases rows.len() - h,
    {
        assert(rows@[h as int].0 <= rows@[h as int].1);
        assert(all_rows(cs@)[h as int] == (rows@[h as int].0 as int, rows@[h as int].1 as int));
        if !text::is_blank(slice_subrange(cs, rows[h].0, rows[h].1)) {
            break;
        }
        h += 1;
    }
    let ok = if rows.len() > 0 && h < rows.len() - 1 {
        assert(rows@[h as int].0 <= rows@[h as int].1);
        assert(rows@[h + 1].0 <= rows@[h + 1].1);
        assert(all_rows(cs@)[h as int] == (rows@[h as int].0 as int, rows@[h as int].1 as int));
        assert(all_rows(cs@)[h + 1] == (rows@[h + 1].0 as int, rows@[h + 1].1 as int));
        text::contains_char(slice_subrange(cs, rows[h].0, rows[h].1), '|') && is_separator_line(
            slice_subrange(cs, rows[h + 1].0, rows[h + 1].1),
        )
    } else {
        false
    };
    if !ok {
        return code::chunk_code(resource_id, markdown, config, block_seq);
    }
    let head = text::string_of(slice_subrange(cs, rows[h].0, rows[h].1));
    let rule = text::string_of(slice_subrange(cs, rows[h + 1].0, rows[h + 1].1));
    let header = text::concat3(head.as_str(), "\n", rule.as_str());
    let data = rows_from(cs, &rows, h + 2);
    if data.len() == 0 {
        let mut chunks: Vec<ChunkOutput> = Vec::new();
        assert(lines::range_views(data@).len() == 0);
        push_plain(&mut chunks, header, 0, 0, block_seq);
        proof {
            assert(output::chunk_views(chunks@) =~= output::stamped(
                seq![output::plain(header_text(cs@), 0, 0, Seq::empty(), block_seq)],
            ));
        }
        output::finalize_ids(resource_id, &mut chunks);
        return Ok(chunks);
    }
    assert(lines::range_views(data@).len() > 0);
    let mut chunks = pack_rows(
        resource_id,
        cs,
        header.as_str(),
        &data,
        config,
        sizer,
        block_seq,
    );
    output::finalize_ids(resource_id, &mut chunks);
    Ok(chunks)
}

} // verus!
