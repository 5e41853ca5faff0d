//! What chunking promises of a table: which texts are tables, and that no row goes without its
//! header.

use super::code;
use super::lines;
use super::output;
use super::table;
use super::table::TableItem;
use crate::text;
use vstd::prelude::*;

verus! {

// ---------------------------------------------------------------------------
// Separator rows
// ---------------------------------------------------------------------------
/// Cells with a bar between each two of them.
pub open spec fn barred(cells: Seq<Seq<char>>) -> Seq<char>
    decreases cells.len(),
{
    if cells.len() == 0 {
        Seq::empty()
    } else if cells.len() == 1 {
        cells[0]
    } else {
        cells[0] + seq!['|'] + barred(cells.drop_first())
    }
}

/// Whether a cell is made of dashes, at least one, with colons and white space.
pub open spec fn is_ruled(cell: Seq<char>) -> bool {
    &&& cell.contains('-')
    &&& forall|i: int|
        0 <= i < cell.len() ==> (#[trigger] cell[i]) == '-' || cell[i] == ':' || text::white_space(
            cell[i],
        )
}

/// Whether a cell holds no bar.
pub open spec fn has_no_bar(cell: Seq<char>) -> bool {
    forall|i: int| 0 <= i < cell.len() ==> (#[trigger] cell[i]) != '|'
}

proof fn lemma_rule_cell(cell: Seq<char>)
    ensures
        table::is_rule_cell(cell) == is_ruled(cell),
{
    let (a, b) = text::trimming_takes_white_space_only(cell);
    let t = text::trimmed(cell);
    if is_ruled(cell) {
        let k = choose|k: int| 0 <= k < cell.len() && cell[k] == '-';
        assert(!text::white_space('-'));
        assert(a <= k < b);
        assert(t[k - a] == '-');
        assert forall|i: int| 0 <= i < t.len() implies (#[trigger] t[i] == '-' || t[i] == ':'
            || text::white_space(t[i])) by {
            assert(t[i] == cell[a + i]);
        }
    }
    if table::is_rule_cell(cell) {
        let k = choose|k: int| 0 <= k < t.len() && t[k] == '-';
        assert(cell[a + k] == '-');
        assert forall|i: int| 0 <= i < cell.len() implies (#[trigger] cell[i]) == '-' || cell[i]
            == ':' || text::white_space(cell[i]) by {
            if a <= i < b {
                assert(t[i - a] == cell[i]);
            }
        }
    }
}

proof fn lemma_all_rule_cells(s: Seq<char>, from: int, cells: Seq<Seq<char>>)
    requires
        0 <= from <= s.len(),
        cells.len() > 0,
        s.skip(from) == barred(cells),
        forall|i: int| 0 <= i < cells.len() ==> has_no_bar(#[trigger] cells[i]),
    ensures
        table::all_rule_cells(s, from) == (forall|i: int|
            0 <= i < cells.len() ==> is_ruled(#[trigger] cells[i])),
    decreases cells.len(),
{
    let c = cells[0];
    let n = c.len() as int;
    let rest = s.skip(from);
    assert(has_no_bar(c));
    assert(barred(cells).len() >= n);
    assert(rest.len() == s.len() - from);
    assert(rest.take(n) =~= c);
    assert forall|k: int| from <= k < from + n implies (#[trigger] s[k]) != '|' by {
        assert(rest[k - from] == s[k]);
        assert(c[k - from] == rest[k - from]);
    }
    text::lemma_find_from(s, '|', from);
    lemma_rule_cell(c);
    if cells.len() == 1 {
        assert(from + n == s.len());
        assert(text::find_from(s, '|', from) == s.len());
        assert(s.subrange(from, s.len() as int) =~= c);
    } else {
        assert(rest[n] == '|');
        assert(s[from + n] == '|');
        assert(text::find_from(s, '|', from) == from + n);
        assert(s.subrange(from, from + n) =~= c);
        let others = cells.drop_first();
        assert(s.skip(from + n + 1) =~= barred(others)) by {
            assert(rest.skip(n + 1) =~= barred(others));
        }
        assert forall|i: int| 0 <= i < others.len() implies has_no_bar(#[trigger] others[i]) by {
            assert(others[i] == cells[i + 1]);
        }
        lemma_all_rule_cells(s, from + n + 1, others);
        if forall|i: int| 0 <= i < cells.len() ==> is_ruled(#[trigger] cells[i]) {
            assert forall|i: int| 0 <= i < others.len() implies is_ruled(#[trigger] others[i]) by {
                assert(others[i] == cells[i + 1]);
            }
        }
        if is_ruled(c) && forall|i: int|
            0 <= i < others.len() ==> is_ruled(#[trigger] others[i]) {
            assert forall|i: int| 0 <= i < cells.len() implies is_ruled(#[trigger] cells[i]) by {
                if i > 0 {
                    assert(cells[i] == others[i - 1]);
                }
            }
        }
    }
}

proof fn lemma_barred_ends(cells: Seq<Seq<char>>)
    requires
        cells.len() > 0,
        cells[0].len() > 0,
        cells.last().len() > 0,
    ensures
        barred(cells).len() > 0,
        barred(cells)[0] == cells[0][0],
        barred(cells).last() == cells.last().last(),
    decreases cells.len(),
{
    if cells.len() > 1 {
        let rest = cells.drop_first();
        assert(rest.last() == cells.last());
        if rest.len() == 1 {
            assert(barred(rest) == cells.last());
        } else {
            lemma_barred_last(rest);
        }
    }
}

proof fn lemma_barred_last(cells: Seq<Seq<char>>)
    requires
        cells.len() > 0,
        cells.last().len() > 0,
    ensures
        barred(cells).len() > 0,
        barred(cells).last() == cells.last().last(),
    decreases cells.len(),
{
    if cells.len() > 1 {
        assert(cells.drop_first().last() == cells.last());
        lemma_barred_last(cells.drop_first());
    }
}

/// A line of cells between bars is a separator row exactly if every cell is made of dashes, at
/// least one, with colons and white space: `| :--- | ---: |` as well as `|---|---|`.
pub proof fn separator_rows_may_be_aligned(cells: Seq<Seq<char>>)
    requires
        cells.len() > 0,
        cells[0].len() > 0,
        cells.last().len() > 0,
        forall|i: int| 0 <= i < cells.len() ==> has_no_bar(#[trigger] cells[i]),
    ensures
        table::is_separator(seq!['|'] + barred(cells) + seq!['|']) == (forall|i: int|
            0 <= i < cells.len() ==> is_ruled(#[trigger] cells[i])),
{
    let inner = barred(cells);
    let line = seq!['|'] + inner + seq!['|'];
    lemma_barred_ends(cells);
    assert(has_no_bar(cells[0]));
    assert(has_no_bar(cells[cells.len() - 1]));
    assert(inner[0] != '|' && inner.last() != '|');
    assert(!text::white_space('|'));
    text::trimming_keeps_what_has_no_white_space_around(line);
    let (a, b) = text::trimming_takes_only_that_character(line, '|');
    assert(a == 1) by {
        assert(line[0] == '|');
        assert(line[1] == inner[0]);
    }
    assert(b == line.len() - 1) by {
        assert(line[line.len() - 1] == '|');
        assert(line[line.len() - 2] == inner.last());
    }
    assert(line.subrange(a, b) =~= inner);
    assert(inner.skip(0) =~= inner);
    lemma_all_rule_cells(inner, 0, cells);
}

/// The bars at the ends may be missing, where no white space takes their place.
pub proof fn separator_rows_need_no_outer_bars(cells: Seq<Seq<char>>)
    requires
        cells.len() > 0,
        cells[0].len() > 0,
        cells.last().len() > 0,
        !text::white_space(cells[0][0]),
        !text::white_space(cells.last().last()),
        forall|i: int| 0 <= i < cells.len() ==> has_no_bar(#[trigger] cells[i]),
    ensures
        table::is_separator(barred(cells)) == (forall|i: int|
            0 <= i < cells.len() ==> is_ruled(#[trigger] cells[i])),
{
    let inner = barred(cells);
    lemma_barred_ends(cells);
    assert(has_no_bar(cells[0]));
    assert(has_no_bar(cells[cells.len() - 1]));
    text::trimming_keeps_what_has_no_white_space_around(inner);
    let (a, b) = text::trimming_takes_only_that_character(inner, '|');
    assert(a == 0);
    assert(b == inner.len());
    assert(inner.subrange(0, b) =~= inner);
    assert(inner.skip(0) =~= inner);
    lemma_all_rule_cells(inner, 0, cells);
}

proof fn lemma_rule_cells_hold(s: Seq<char>, from: int)
    requires
        0 <= from <= s.len(),
        table::all_rule_cells(s, from),
    ensures
        exists|k: int| from <= k < s.len() && s[k] == '-',
        forall|k: int|
            from <= k < s.len() ==> (#[trigger] s[k]) == '-' || s[k] == ':' || s[k] == '|'
                || text::white_space(s[k]),
    decreases s.len() - from,
{
    text::lemma_find_from(s, '|', from);
    let i = text::find_from(s, '|', from);
    let cell = s.subrange(from, i);
    lemma_rule_cell(cell);
    let k = choose|k: int| 0 <= k < cell.len() && cell[k] == '-';
    assert(s[from + k] == '-');
    assert forall|k: int| from <= k < i implies (#[trigger] s[k]) == '-' || s[k] == ':'
        || text::white_space(s[k]) by {
        assert(cell[k - from] == s[k]);
    }
    if i < s.len() {
        lemma_rule_cells_hold(s, i + 1);
    }
}

/// A separator row holds a dash, and nothing but dashes, colons, bars and white space.
pub proof fn separator_rows_hold_nothing_else(line: Seq<char>)
    requires
        table::is_separator(line),
    ensures
        line.contains('-'),
        forall|k: int|
            0 <= k < line.len() ==> (#[trigger] line[k]) == '-' || line[k] == ':' || line[k] == '|'
                || text::white_space(line[k]),
{
    let t = text::trimmed(line);
    let inner = text::trimmed_of(t, '|');
    let (a, b) = text::trimming_takes_white_space_only(line);
    let (c, d) = text::trimming_takes_only_that_character(t, '|');
    lemma_rule_cells_hold(inner, 0);
    let k = choose|k: int| 0 <= k < inner.len() && inner[k] == '-';
    assert(t[c + k] == '-');
    assert(line[a + c + k] == '-');
    assert forall|k: int| 0 <= k < line.len() implies (#[trigger] line[k]) == '-' || line[k] == ':'
        || line[k] == '|' || text::white_space(line[k]) by {
        if a <= k < b {
            assert(t[k - a] == line[k]);
            if c <= k - a < d {
                assert(inner[k - a - c] == t[k - a]);
            }
        }
    }
}

// ---------------------------------------------------------------------------
// Lines
// ---------------------------------------------------------------------------
/// Lines with a line break between each two of them.
pub open spec fn in_lines(rows: Seq<Seq<char>>) -> Seq<char>
    decreases rows.len(),
{
    if rows.len() == 0 {
        Seq::empty()
    } else if rows.len() == 1 {
        rows[0]
    } else {
        rows[0] + seq!['\n'] + in_lines(rows.drop_first())
    }
}

/// Whether a text is a single line: it holds no line break, and no part of one at its end.
pub open spec fn is_line(row: Seq<char>) -> bool {
    &&& forall|i: int| 0 <= i < row.len() ==> (#[trigger] row[i]) != '\n'
    &&& row.len() > 0 ==> row.last() != '\r'
}

/// Whether texts can be told apart again once they are put in lines.
pub open spec fn are_lines(rows: Seq<Seq<char>>) -> bool {
    &&& rows.len() > 0
    &&& rows.last().len() > 0
    &&& forall|i: int| 0 <= i < rows.len() ==> is_line(#[trigger] rows[i])
}

/// Whether a text holds anything but white space.
pub open spec fn is_filled(row: Seq<char>) -> bool {
    exists|i: int| 0 <= i < row.len() && !text::white_space(#[trigger] row[i])
}

/// The lines that hold anything but white space.
pub open spec fn filled(rows: Seq<Seq<char>>) -> Seq<Seq<char>> {
    rows.filter(|row: Seq<char>| is_filled(row))
}

proof fn lemma_lines(s: Seq<char>, from: int, rows: Seq<Seq<char>>)
    requires
        0 <= from <= s.len(),
        s.skip(from) == in_lines(rows),
        are_lines(rows),
    ensures
        lines::line_ranges(s, from).len() == rows.len(),
        forall|i: int|
            0 <= i < rows.len() ==> {
                let r = #[trigger] lines::line_ranges(s, from)[i];
                from <= r.0 <= r.1 <= s.len() && s.subrange(r.0, r.1) == rows[i]
            },
    decreases rows.len(),
{
    let row = rows[0];
    let n = row.len() as int;
    let rest = s.skip(from);
    assert(is_line(row));
    assert(in_lines(rows).len() >= n);
    assert(rest.len() == s.len() - from);
    assert(rest.take(n) =~= row);
    assert forall|k: int| from <= k < from + n implies (#[trigger] s[k]) != '\n' by {
        assert(rest[k - from] == s[k]);
        assert(row[k - from] == rest[k - from]);
    }
    text::lemma_find_from(s, '\n', from);
    let all = lines::line_ranges(s, from);
    if rows.len() == 1 {
        assert(rows.last() == row);
        assert(from + n == s.len());
        assert(text::find_from(s, '\n', from) == s.len());
        assert(s.subrange(from, s.len() as int) =~= row);
        assert(all =~= seq![(from, s.len() as int)]);
    } else {
        assert(rest[n] == '\n');
        assert(s[from + n] == '\n');
        assert(text::find_from(s, '\n', from) == from + n);
        if n > 0 {
            assert(row.last() == rest[n - 1]);
            assert(s[from + n - 1] == rest[n - 1]);
        }
        assert(lines::content_end(s, from) == from + n);
        assert(s.subrange(from, from + n) =~= row);
        let others = rows.drop_first();
        assert(s.skip(from + n + 1) =~= in_lines(others)) by {
            assert(rest.skip(n + 1) =~= in_lines(others));
        }
        assert(others.last() == rows.last());
        assert forall|i: int| 0 <= i < others.len() implies is_line(#[trigger] others[i]) by {
            assert(others[i] == rows[i + 1]);
        }
        lemma_lines(s, from + n + 1, others);
        let tail = lines::line_ranges(s, from + n + 1);
        assert(all == seq![(from, from + n)] + tail);
        assert forall|i: int| 0 <= i < rows.len() implies {
            let r = #[trigger] all[i];
            from <= r.0 <= r.1 <= s.len() && s.subrange(r.0, r.1) == rows[i]
        } by {
            if i > 0 {
                assert(all[i] == tail[i - 1]);
                assert(others[i - 1] == rows[i]);
            }
        }
    }
}

/// A text is taken apart into its lines, and nothing is lost or added.
pub proof fn texts_are_taken_apart_by_lines(rows: Seq<Seq<char>>, i: int)
    requires
        are_lines(rows),
        0 <= i < rows.len(),
    ensures
        ({
            let s = in_lines(rows);
            let rs = lines::line_ranges(s, 0);
            rs.len() == rows.len() && s.subrange(rs[i].0, rs[i].1) == rows[i]
        }),
{
    let s = in_lines(rows);
    assert(s.skip(0) =~= s);
    lemma_lines(s, 0, rows);
    let r = lines::line_ranges(s, 0)[i];
    assert(s.subrange(r.0, r.1) == rows[i]);
}

proof fn lemma_blank(row: Seq<char>)
    ensures
        (text::trimmed(row).len() == 0) == !is_filled(row),
{
    text::blank_texts_hold_white_space_only(row);
}

proof fn lemma_filled_rows(s: Seq<char>, rows: Seq<Seq<char>>, from: int)
    requires
        table::all_rows(s).len() == rows.len(),
        forall|i: int|
            0 <= i < rows.len() ==> table::row_text(s, #[trigger] table::all_rows(s)[i])
                == rows[i],
        0 <= from <= rows.len(),
    ensures
        table::row_texts(s, table::filled_rows(s, table::all_rows(s), from)) == filled(
            rows.skip(from),
        ),
    decreases rows.len() - from,
{
    let p = |row: Seq<char>| is_filled(row);
    let all = table::all_rows(s);
    let here = table::filled_rows(s, all, from);
    if from == rows.len() {
        assert(rows.skip(from) =~= Seq::empty());
        reveal(Seq::filter);
        assert(table::row_texts(s, here) =~= filled(rows.skip(from)));
    } else {
        lemma_filled_rows(s, rows, from + 1);
        assert(table::row_text(s, all[from]) == rows[from]);
        lemma_blank(rows[from]);
        let one = seq![rows[from]];
        let more = rows.skip(from + 1);
        assert(rows.skip(from) =~= one + more);
        Seq::filter_distributes_over_add(one, more, p);
        assert(one.filter(p) =~= if p(rows[from]) {
            one
        } else {
            Seq::empty()
        }) by {
            reveal(Seq::filter);
            assert(one.drop_last() =~= Seq::empty());
            assert(one.drop_last().filter(p) =~= Seq::empty());
        }
        assert(table::row_texts(s, here) =~= filled(rows.skip(from)));
    }
}

proof fn lemma_in_lines(parts: Seq<Seq<char>>)
    ensures
        text::joined(parts, "\n"@) == in_lines(parts),
    decreases parts.len(),
{
    reveal_strlit("\n");
    let sep = "\n"@;
    assert(sep =~= seq!['\n']);
    if parts.len() > 1 {
        let rest = parts.drop_first();
        lemma_in_lines(rest);
        lemma_in_lines(parts.drop_last());
        if parts.len() == 2 {
            assert(text::joined(parts.drop_last(), sep) == parts[0]);
            assert(in_lines(rest) == parts[1]);
        } else {
            let middle = parts.drop_last().drop_first();
            lemma_in_lines(middle);
            assert(rest.drop_last() =~= middle);
            assert(in_lines(parts.drop_last()) == parts[0] + sep + in_lines(middle));
            assert(text::joined(rest, sep) == text::joined(middle, sep) + sep + parts.last());
            assert(text::joined(parts, sep) =~= parts[0] + sep + text::joined(rest, sep));
        }
    }
}

// ---------------------------------------------------------------------------
// Packing
// ---------------------------------------------------------------------------
/// A table: the header, the separator row and the rows `a..b`, line by line.
pub open spec fn table_of(
    header: Seq<char>,
    separator: Seq<char>,
    rows: Seq<Seq<char>>,
    a: int,
    b: int,
) -> Seq<char> {
    header + seq!['\n'] + separator + seq!['\n'] + in_lines(rows.subrange(a, b))
}

/// Whether a chunk is a table of its own with the rows `a..b`: it begins with the header and
/// the separator row, stays within the target, and has no room for the next row, unless that
/// one fits into no table.
pub open spec fn is_table_chunk(
    c: output::ChunkView,
    header: Seq<char>,
    separator: Seq<char>,
    rows: Seq<Seq<char>>,
    a: int,
    b: int,
    target: nat,
    measure: spec_fn(Seq<char>) -> nat,
) -> bool {
    &&& 0 <= a < b <= rows.len()
    &&& c.text == table_of(header, separator, rows, a, b)
    &&& measure(c.text) <= target
    &&& b < rows.len() ==> measure(table_of(header, separator, rows, a, b + 1)) > target
        || measure(table_of(header, separator, rows, b, b + 1)) > target
}

/// Whether a chunk is the stretch `x..y` of a row that fits into no table.
pub open spec fn is_row_piece(
    c: output::ChunkView,
    header: Seq<char>,
    separator: Seq<char>,
    rows: Seq<Seq<char>>,
    k: int,
    x: int,
    y: int,
    target: nat,
    measure: spec_fn(Seq<char>) -> nat,
) -> bool {
    &&& 0 <= k < rows.len()
    &&& measure(table_of(header, separator, rows, k, k + 1)) > target
    &&& 0 <= x < y <= rows[k].len()
    &&& c.text == rows[k].subrange(x, y)
}

/// Whether each of the rows `a..b` fits into a table of its own.
spec fn fit_alone(
    s: Seq<char>,
    header: Seq<char>,
    rows: Seq<(int, int)>,
    target: nat,
    measure: spec_fn(Seq<char>) -> nat,
    a: int,
    b: int,
) -> bool {
    forall|j: int|
        a <= j < b ==> measure(
            table::batch_text(s, header, #[trigger] rows.subrange(j, j + 1)),
        ) <= target
}

/// Whether a step of a packing is as it should be.
spec fn item_fits(
    s: Seq<char>,
    header: Seq<char>,
    rows: Seq<(int, int)>,
    item: TableItem,
    target: nat,
    measure: spec_fn(Seq<char>) -> nat,
    a: int,
    b: int,
) -> bool {
    match item {
        TableItem::Batch(batch) => {
            &&& 0 <= a < b <= rows.len()
            &&& batch == rows.subrange(a, b)
            &&& measure(table::batch_text(s, header, rows.subrange(a, b))) <= target
            &&& b < rows.len() ==> measure(
                table::batch_text(s, header, rows.subrange(a, b + 1)),
            ) > target || measure(table::batch_text(s, header, rows.subrange(b, b + 1))) > target
            &&& fit_alone(s, header, rows, target, measure, a, b)
        },
        TableItem::Oversized(r) => {
            &&& 0 <= a < rows.len()
            &&& b == a + 1
            &&& r == rows[a]
            &&& measure(table::batch_text(s, header, rows.subrange(a, a + 1))) > target
        },
    }
}

/// Whether a step of the packing has the row at `j`.
spec fn plan_has(
    s: Seq<char>,
    header: Seq<char>,
    rows: Seq<(int, int)>,
    plan: Seq<TableItem>,
    target: nat,
    measure: spec_fn(Seq<char>) -> nat,
    j: int,
) -> bool {
    exists|m: int, a: int, b: int|
        0 <= m < plan.len() && a <= j < b && #[trigger] item_fits(
            s,
            header,
            rows,
            plan[m],
            target,
            measure,
            a,
            b,
        )
}

spec fn item_is_sound(
    s: Seq<char>,
    header: Seq<char>,
    rows: Seq<(int, int)>,
    item: TableItem,
    target: nat,
    measure: spec_fn(Seq<char>) -> nat,
) -> bool {
    exists|a: int, b: int| #[trigger] item_fits(s, header, rows, item, target, measure, a, b)
}

#[verifier::rlimit(30)]
proof fn lemma_plan(
    s: Seq<char>,
    header: Seq<char>,
    rows: Seq<(int, int)>,
    i: int,
    from: int,
    target: nat,
    measure: spec_fn(Seq<char>) -> nat,
)
    requires
        0 <= from <= i <= rows.len(),
        from < i ==> measure(table::batch_text(s, header, rows.subrange(from, i))) <= target,
        fit_alone(s, header, rows, target, measure, from, i),
    ensures
        ({
            let plan = table::table_plan(
                s,
                header,
                rows,
                i,
                rows.subrange(from, i),
                target,
                measure,
            );
            &&& forall|m: int|
                0 <= m < plan.len() ==> item_is_sound(
                    s,
                    header,
                    rows,
                    #[trigger] plan[m],
                    target,
                    measure,
                )
            &&& forall|j: int|
                from <= j < rows.len() ==> #[trigger] plan_has(
                    s,
                    header,
                    rows,
                    plan,
                    target,
                    measure,
                    j,
                )
        }),
    decreases rows.len() - i,
{
    let pending = rows.subrange(from, i);
    let plan = table::table_plan(s, header, rows, i, pending, target, measure);
    let head = table::batch(pending);
    let ends_here = i == rows.len() || measure(
        table::batch_text(s, header, rows.subrange(i, i + 1)),
    ) > target || measure(table::batch_text(s, header, rows.subrange(from, i + 1))) > target;
    if from < i && ends_here {
        assert(item_fits(s, header, rows, TableItem::Batch(pending), target, measure, from, i));
    }
    if i == rows.len() {
        assert(plan == head);
        assert forall|j: int| from <= j < rows.len() implies #[trigger] plan_has(
            s,
            header,
            rows,
            plan,
            target,
            measure,
            j,
        ) by {
            assert(item_fits(s, header, rows, plan[0], target, measure, from, i));
        }
        assert forall|m: int| 0 <= m < plan.len() implies item_is_sound(
            s,
            header,
            rows,
            #[trigger] plan[m],
            target,
            measure,
        ) by {
            assert(item_fits(s, header, rows, plan[m], target, measure, from, i));
        }
    } else {
        let r = rows[i];
        assert(seq![r] =~= rows.subrange(i, i + 1));
        assert(pending.push(r) =~= rows.subrange(from, i + 1));
        if measure(table::batch_text(s, header, seq![r])) > target {
            assert(rows.subrange(i + 1, i + 1) =~= Seq::empty());
            lemma_plan(s, header, rows, i + 1, i + 1, target, measure);
            let rest = table::table_plan(s, header, rows, i + 1, Seq::empty(), target, measure);
            assert(plan == head + seq![TableItem::Oversized(r)] + rest);
            assert(item_fits(
                s,
                header,
                rows,
                TableItem::Oversized(r),
                target,
                measure,
                i,
                i + 1,
            ));
            lemma_plan_sum(s, header, rows, head, TableItem::Oversized(r), rest, target, measure, from, i);
        } else if measure(table::batch_text(s, header, pending.push(r))) <= target {
            lemma_plan(s, header, rows, i + 1, from, target, measure);
            assert(plan == table::table_plan(
                s,
                header,
                rows,
                i + 1,
                rows.subrange(from, i + 1),
                target,
                measure,
            ));
        } else {
            lemma_plan(s, header, rows, i + 1, i, target, measure);
            assert(rows.subrange(i, i + 1) == seq![r]);
            let rest = table::table_plan(s, header, rows, i + 1, seq![r], target, measure);
            assert(plan == head + rest);
            assert forall|m: int| 0 <= m < plan.len() implies item_is_sound(
                s,
                header,
                rows,
                #[trigger] plan[m],
                target,
                measure,
            ) by {
                if m < head.len() {
                    assert(item_fits(s, header, rows, plan[m], target, measure, from, i));
                } else {
                    assert(plan[m] == rest[m - head.len()]);
                }
            }
            assert forall|j: int| from <= j < rows.len() implies #[trigger] plan_has(
                s,
                header,
                rows,
                plan,
                target,
                measure,
                j,
            ) by {
                if j < i {
                    assert(item_fits(s, header, rows, plan[0], target, measure, from, i));
                } else {
                    assert(plan_has(s, header, rows, rest, target, measure, j));
                    let (m, a, b) = choose|m: int, a: int, b: int|
                        0 <= m < rest.len() && a <= j < b && #[trigger] item_fits(
                            s,
                            header,
                            rows,
                            rest[m],
                            target,
                            measure,
                            a,
                            b,
                        );
                    assert(plan[m + head.len()] == rest[m]);
                    assert(item_fits(
                        s,
                        header,
                        rows,
                        plan[m + head.len()],
                        target,
                        measure,
                        a,
                        b,
                    ));
                }
            }
        }
    }
}

#[verifier::rlimit(30)]
proof fn lemma_plan_sum(
    s: Seq<char>,
    header: Seq<char>,
    rows: Seq<(int, int)>,
    head: Seq<TableItem>,
    item: TableItem,
    rest: Seq<TableItem>,
    target: nat,
    measure: spec_fn(Seq<char>) -> nat,
    from: int,
    i: int,
)
    requires
        0 <= from <= i < rows.len(),
        head.len() == 0 ==> from == i,
        head.len() <= 1,
        head.len() == 1 ==> item_fits(s, header, rows, head[0], target, measure, from, i),
        item_fits(s, header, rows, item, target, measure, i, i + 1),
        forall|m: int|
            0 <= m < rest.len() ==> item_is_sound(
                s,
                header,
                rows,
                #[trigger] rest[m],
                target,
                measure,
            ),
        forall|j: int|
            i + 1 <= j < rows.len() ==> #[trigger] plan_has(
                s,
                header,
                rows,
                rest,
                target,
                measure,
                j,
            ),
    ensures
        ({
            let plan = head + seq![item] + rest;
            &&& forall|m: int|
                0 <= m < plan.len() ==> item_is_sound(
                    s,
                    header,
                    rows,
                    #[trigger] plan[m],
                    target,
                    measure,
                )
            &&& forall|j: int|
                from <= j < rows.len() ==> #[trigger] plan_has(
                    s,
                    header,
                    rows,
                    plan,
                    target,
                    measure,
                    j,
                )
        }),
{
    let plan = head + seq![item] + rest;
    let n = head.len() as int;
    assert forall|m: int| 0 <= m < plan.len() implies item_is_sound(
        s,
        header,
        rows,
        #[trigger] plan[m],
        target,
        measure,
    ) by {
        if m < n {
            assert(item_fits(s, header, rows, plan[m], target, measure, from, i));
        } else if m == n {
            assert(item_fits(s, header, rows, plan[m], target, measure, i, i + 1));
        } else {
            assert(plan[m] == rest[m - n - 1]);
        }
    }
    assert forall|j: int| from <= j < rows.len() implies #[trigger] plan_has(
        s,
        header,
        rows,
        plan,
        target,
        measure,
        j,
    ) by {
        if j < i {
            assert(item_fits(s, header, rows, plan[0], target, measure, from, i));
        } else if j == i {
            assert(item_fits(s, header, rows, plan[n], target, measure, i, i + 1));
        } else {
            assert(plan_has(s, header, rows, rest, target, measure, j));
            let (m, a, b) = choose|m: int, a: int, b: int|
                0 <= m < rest.len() && a <= j < b && #[trigger] item_fits(
                    s,
                    header,
                    rows,
                    rest[m],
                    target,
                    measure,
                    a,
                    b,
                );
            assert(plan[m + n + 1] == rest[m]);
            assert(item_fits(s, header, rows, plan[m + n + 1], target, measure, a, b));
        }
    }
}

proof fn lemma_item_of(
    s: Seq<char>,
    header: Seq<char>,
    plan: Seq<TableItem>,
    target: nat,
    block_seq: u32,
    i: int,
) -> (at: (int, int))
    requires
        0 <= i < table::plan_chunks(s, header, plan, target, block_seq).len(),
    ensures
        0 <= at.0 < plan.len(),
        0 <= at.1 < table::item_chunks(s, header, plan[at.0], target, block_seq).len(),
        table::plan_chunks(s, header, plan, target, block_seq)[i] == table::item_chunks(
            s,
            header,
            plan[at.0],
            target,
            block_seq,
        )[at.1],
    decreases plan.len(),
{
    let front = table::plan_chunks(s, header, plan.drop_last(), target, block_seq);
    if i < front.len() {
        lemma_item_of(s, header, plan.drop_last(), target, block_seq, i)
    } else {
        (plan.len() - 1, i - front.len())
    }
}

proof fn lemma_item_place(
    s: Seq<char>,
    header: Seq<char>,
    plan: Seq<TableItem>,
    target: nat,
    block_seq: u32,
    m: int,
    j: int,
) -> (i: int)
    requires
        0 <= m < plan.len(),
        0 <= j < table::item_chunks(s, header, plan[m], target, block_seq).len(),
    ensures
        0 <= i < table::plan_chunks(s, header, plan, target, block_seq).len(),
        table::plan_chunks(s, header, plan, target, block_seq)[i] == table::item_chunks(
            s,
            header,
            plan[m],
            target,
            block_seq,
        )[j],
    decreases plan.len(),
{
    let front = table::plan_chunks(s, header, plan.drop_last(), target, block_seq);
    if m == plan.len() - 1 {
        front.len() + j
    } else {
        lemma_item_place(s, header, plan.drop_last(), target, block_seq, m, j)
    }
}

/// Whether the rows of a table are those of the text's lines.
spec fn rows_match(s: Seq<char>, rows: Seq<(int, int)>, data: Seq<Seq<char>>) -> bool {
    table::row_texts(s, rows) == data
}

proof fn lemma_batch_text(
    s: Seq<char>,
    header: Seq<char>,
    separator: Seq<char>,
    rows: Seq<(int, int)>,
    data: Seq<Seq<char>>,
    a: int,
    b: int,
)
    requires
        rows_match(s, rows, data),
        0 <= a <= b <= rows.len(),
    ensures
        table::batch_text(s, header + "\n"@ + separator, rows.subrange(a, b)) == table_of(
            header,
            separator,
            data,
            a,
            b,
        ),
{
    reveal_strlit("\n");
    assert("\n"@ =~= seq!['\n']);
    let part = table::row_texts(s, rows.subrange(a, b));
    assert(part =~= data.subrange(a, b)) by {
        assert forall|i: int| 0 <= i < b - a implies part[i] == data[a + i] by {
            assert(table::row_texts(s, rows)[a + i] == data[a + i]);
        }
    }
    lemma_in_lines(part);
}

/// Whether the line at `h` is the first one that holds anything but white space.
pub open spec fn is_first_filled(all: Seq<Seq<char>>, h: int) -> bool {
    &&& 0 <= h < all.len()
    &&& is_filled(all[h])
    &&& forall|i: int| 0 <= i < h ==> !is_filled(#[trigger] all[i])
}

proof fn lemma_header_at(s: Seq<char>, all: Seq<Seq<char>>, h: int, from: int)
    requires
        is_first_filled(all, h),
        table::all_rows(s).len() == all.len(),
        forall|i: int|
            0 <= i < all.len() ==> table::row_text(s, #[trigger] table::all_rows(s)[i]) == all[i],
        0 <= from <= h,
    ensures
        table::first_filled(s, table::all_rows(s), from) == h,
    decreases h - from,
{
    lemma_blank(all[from]);
    assert(table::row_text(s, table::all_rows(s)[from]) == all[from]);
    if from < h {
        lemma_header_at(s, all, h, from + 1);
    }
}

/// What the lines of a table come to.
proof fn lemma_table(all: Seq<Seq<char>>, h: int)
    requires
        are_lines(all),
        h + 2 <= all.len(),
        is_first_filled(all, h),
        all[h].contains('|'),
        table::is_separator(all[h + 1]),
    ensures
        ({
            let s = in_lines(all);
            &&& table::is_table(s)
            &&& table::header_text(s) == all[h] + "\n"@ + all[h + 1]
            &&& rows_match(s, table::data_rows(s), filled(all.skip(h + 2)))
            &&& table::data_rows(s).len() == filled(all.skip(h + 2)).len()
            &&& forall|k: int|
                0 <= k < table::data_rows(s).len() ==> {
                    let r = #[trigger] table::data_rows(s)[k];
                    0 <= r.0 <= r.1 <= s.len() && s.subrange(r.0, r.1) == filled(all.skip(h + 2))[k]
                }
        }),
{
    let s = in_lines(all);
    assert(s.skip(0) =~= s);
    lemma_lines(s, 0, all);
    let rs = table::all_rows(s);
    assert forall|i: int| 0 <= i < all.len() implies table::row_text(s, #[trigger] rs[i])
        == all[i] by {}
    assert(table::row_text(s, rs[h]) == all[h]);
    assert(table::row_text(s, rs[h + 1]) == all[h + 1]);
    lemma_header_at(s, all, h, 0);
    assert(table::header_at(s) == h);
    lemma_filled_rows(s, all, h + 2);
    let data = filled(all.skip(h + 2));
    let rows = table::data_rows(s);
    assert(table::row_texts(s, rows) == data);
    assert(rows.len() == table::row_texts(s, rows).len());
    lemma_filled_bounds(s, rs, h + 2);
    assert forall|k: int| 0 <= k < rows.len() implies {
        let r = #[trigger] rows[k];
        0 <= r.0 <= r.1 <= s.len() && s.subrange(r.0, r.1) == data[k]
    } by {
        assert(table::row_texts(s, rows)[k] == data[k]);
    }
}

proof fn lemma_filled_bounds(s: Seq<char>, rs: Seq<(int, int)>, from: int)
    requires
        0 <= from,
        forall|i: int| 0 <= i < rs.len() ==> 0 <= (#[trigger] rs[i]).0 <= rs[i].1 <= s.len(),
    ensures
        forall|k: int|
            0 <= k < table::filled_rows(s, rs, from).len() ==> 0 <= (#[trigger] table::filled_rows(
                s,
                rs,
                from,
            )[k]).0 <= table::filled_rows(s, rs, from)[k].1 <= s.len(),
    decreases rs.len() - from,
{
    if from < rs.len() {
        lemma_filled_bounds(s, rs, from + 1);
        let rest = table::filled_rows(s, rs, from + 1);
        let all = table::filled_rows(s, rs, from);
        assert forall|k: int| 0 <= k < all.len() implies 0 <= (#[trigger] all[k]).0 <= all[k].1
            <= s.len() by {
            if all.len() == rest.len() {
                assert(all[k] == rest[k]);
            } else if k > 0 {
                assert(all[k] == rest[k - 1]);
            } else {
                assert(all[k] == rs[from]);
            }
        }
    }
}

/// Whether a chunk of a table is a table of its own, or a piece of a row that fits into none.
pub open spec fn is_sound(
    c: output::ChunkView,
    header: Seq<char>,
    separator: Seq<char>,
    rows: Seq<Seq<char>>,
    target: nat,
    measure: spec_fn(Seq<char>) -> nat,
) -> bool {
    ||| exists|a: int, b: int|
        #[trigger] is_table_chunk(c, header, separator, rows, a, b, target, measure)
    ||| exists|k: int, x: int, y: int|
        #[trigger] is_row_piece(c, header, separator, rows, k, x, y, target, measure)
}

/// Whether one of the chunks is a table with the row at `k`.
pub open spec fn row_is_in_a_table(
    cs: Seq<output::ChunkView>,
    header: Seq<char>,
    separator: Seq<char>,
    rows: Seq<Seq<char>>,
    k: int,
    target: nat,
    measure: spec_fn(Seq<char>) -> nat,
) -> bool {
    exists|i: int, a: int, b: int|
        0 <= i < cs.len() && a <= k < b && #[trigger] is_table_chunk(
            cs[i],
            header,
            separator,
            rows,
            a,
            b,
            target,
            measure,
        )
}

/// Whether one of the chunks is a piece of the row at `k` with its character at `p`.
pub open spec fn character_is_in_a_piece(
    cs: Seq<output::ChunkView>,
    header: Seq<char>,
    separator: Seq<char>,
    rows: Seq<Seq<char>>,
    k: int,
    p: int,
    target: nat,
    measure: spec_fn(Seq<char>) -> nat,
) -> bool {
    exists|i: int, x: int, y: int|
        0 <= i < cs.len() && x <= p < y && #[trigger] is_row_piece(
            cs[i],
            header,
            separator,
            rows,
            k,
            x,
            y,
            target,
            measure,
        )
}

/// A piece of an oversized row is a stretch of that row.
proof fn lemma_piece(s: Seq<char>, r: (int, int), target: nat, block_seq: u32, j: int)
    requires
        0 <= r.0 <= r.1 <= s.len(),
        0 <= j < code::code_ranges(table::row_text(s, r), target).len(),
    ensures
        ({
            let row = table::row_text(s, r);
            let (x, y) = code::code_ranges(row, target)[j];
            &&& 0 <= x < y <= row.len()
            &&& code::slice_chunks(
                s,
                table::moved(code::code_ranges(row, target), r.0),
                block_seq,
            )[j].text == row.subrange(x, y)
        }),
{
    let row = table::row_text(s, r);
    code::code_ranges_tile_the_text(row, target);
    code::lemma_tiles_bounds(code::code_ranges(row, target), 0, row.len() as int, j);
    let (x, y) = code::code_ranges(row, target)[j];
    assert(s.subrange(x + r.0, y + r.0) =~= row.subrange(x, y));
}

/// The chunk of a step of the packing is what it should be.
#[verifier::rlimit(30)]
proof fn lemma_chunk(
    c: output::ChunkView,
    all: Seq<Seq<char>>,
    h: int,
    item: TableItem,
    target: nat,
    measure: spec_fn(Seq<char>) -> nat,
    block_seq: u32,
    a: int,
    b: int,
    j: int,
)
    requires
        are_lines(all),
        h + 2 <= all.len(),
        is_first_filled(all, h),
        all[h].contains('|'),
        table::is_separator(all[h + 1]),
        ({
            let s = in_lines(all);
            let header = table::header_text(s);
            let chunks = table::item_chunks(s, header, item, target, block_seq);
            &&& item_fits(s, header, table::data_rows(s), item, target, measure, a, b)
            &&& 0 <= j < chunks.len()
            &&& c.text == chunks[j].text
        }),
    ensures
        ({
            let data = filled(all.skip(h + 2));
            &&& is_sound(c, all[h], all[h + 1], data, target, measure)
            &&& item is Batch ==> is_table_chunk(c, all[h], all[h + 1], data, a, b, target, measure)
        }),
{
    let s = in_lines(all);
    let data = filled(all.skip(h + 2));
    let rows = table::data_rows(s);
    lemma_table(all, h);
    match item {
        TableItem::Batch(batch) => {
            lemma_batch_text(s, all[h], all[h + 1], rows, data, a, b);
            if b < rows.len() {
                lemma_batch_text(s, all[h], all[h + 1], rows, data, a, b + 1);
                lemma_batch_text(s, all[h], all[h + 1], rows, data, b, b + 1);
            }
            assert(is_table_chunk(c, all[h], all[h + 1], data, a, b, target, measure));
        },
        TableItem::Oversized(r) => {
            lemma_batch_text(s, all[h], all[h + 1], rows, data, a, a + 1);
            assert(s.subrange(rows[a].0, rows[a].1) == data[a]);
            lemma_piece(s, r, target, block_seq, j);
            let (x, y) = code::code_ranges(table::row_text(s, r), target)[j];
            assert(is_row_piece(c, all[h], all[h + 1], data, a, x, y, target, measure));
        },
    }
}

/// A table is packed row by row, and no row goes without its header. Every chunk is a table of
/// its own that begins with the header and the separator row, with as many rows as fit; only a
/// row that fits into no table is cut into pieces. Every row that fits is in a table, and of
/// one that does not every character is in a piece.
#[verifier::rlimit(30)]
pub proof fn rows_are_packed_below_their_header(
    resource_id: Seq<char>,
    all: Seq<Seq<char>>,
    h: int,
    target: nat,
    measure: spec_fn(Seq<char>) -> nat,
    block_seq: u32,
)
    requires
        are_lines(all),
        h + 2 <= all.len(),
        is_first_filled(all, h),
        all[h].contains('|'),
        table::is_separator(all[h + 1]),
    ensures
        ({
            let cs = table::table_chunks(resource_id, in_lines(all), target, measure, block_seq);
            let data = filled(all.skip(h + 2));
            &&& data.len() == 0 ==> cs.len() == 1 && cs[0].text == all[h] + seq!['\n'] + all[h + 1]
            &&& data.len() > 0 ==> forall|i: int|
                0 <= i < cs.len() ==> is_sound(
                    #[trigger] cs[i],
                    all[h],
                    all[h + 1],
                    data,
                    target,
                    measure,
                )
            &&& forall|k: int|
                0 <= k < data.len() && measure(table_of(all[h], all[h + 1], data, k, k + 1)) <= target
                    ==> #[trigger] row_is_in_a_table(cs, all[h], all[h + 1], data, k, target, measure)
            &&& forall|k: int, p: int|
                0 <= k < data.len() && measure(table_of(all[h], all[h + 1], data, k, k + 1)) > target
                    && 0 <= p < data[k].len() ==> #[trigger] character_is_in_a_piece(
                    cs,
                    all[h],
                    all[h + 1],
                    data,
                    k,
                    p,
                    target,
                    measure,
                )
        }),
{
    let s = in_lines(all);
    let data = filled(all.skip(h + 2));
    let rows = table::data_rows(s);
    let header = table::header_text(s);
    let cs = table::table_chunks(resource_id, s, target, measure, block_seq);
    reveal_strlit("\n");
    assert("\n"@ =~= seq!['\n']);
    lemma_table(all, h);
    if data.len() > 0 {
        let plan = table::table_plan(s, header, rows, 0, Seq::empty(), target, measure);
        assert(rows.subrange(0, 0) =~= Seq::empty());
        lemma_plan(s, header, rows, 0, 0, target, measure);
        let plain = table::plan_chunks(s, header, plan, target, block_seq);
        assert(cs.len() == plain.len());
        assert forall|i: int| 0 <= i < cs.len() implies (#[trigger] cs[i]).text == plain[i].text by {
        }
        assert forall|i: int| 0 <= i < cs.len() implies is_sound(
            #[trigger] cs[i],
            all[h],
            all[h + 1],
            data,
            target,
            measure,
        ) by {
            let (m, j) = lemma_item_of(s, header, plan, target, block_seq, i);
            assert(item_is_sound(s, header, rows, plan[m], target, measure));
            let (a, b) = choose|a: int, b: int|
                #[trigger] item_fits(s, header, rows, plan[m], target, measure, a, b);
            lemma_chunk(cs[i], all, h, plan[m], target, measure, block_seq, a, b, j);
        }
        assert forall|k: int|
            0 <= k < data.len() && measure(table_of(all[h], all[h + 1], data, k, k + 1))
                <= target implies #[trigger] row_is_in_a_table(
            cs,
            all[h],
            all[h + 1],
            data,
            k,
            target,
            measure,
        ) by {
            assert(plan_has(s, header, rows, plan, target, measure, k));
            let (m, a, b) = choose|m: int, a: int, b: int|
                0 <= m < plan.len() && a <= k < b && #[trigger] item_fits(
                    s,
                    header,
                    rows,
                    plan[m],
                    target,
                    measure,
                    a,
                    b,
                );
            lemma_batch_text(s, all[h], all[h + 1], rows, data, k, k + 1);
            let i = lemma_item_place(s, header, plan, target, block_seq, m, 0);
            lemma_chunk(cs[i], all, h, plan[m], target, measure, block_seq, a, b, 0);
            assert(is_table_chunk(cs[i], all[h], all[h + 1], data, a, b, target, measure));
        }
        assert forall|k: int, p: int|
            0 <= k < data.len() && measure(table_of(all[h], all[h + 1], data, k, k + 1)) > target && 0
                <= p < data[k].len() implies #[trigger] character_is_in_a_piece(
            cs,
            all[h],
            all[h + 1],
            data,
            k,
            p,
            target,
            measure,
        ) by {
            assert(plan_has(s, header, rows, plan, target, measure, k));
            let (m, a, b) = choose|m: int, a: int, b: int|
                0 <= m < plan.len() && a <= k < b && #[trigger] item_fits(
                    s,
                    header,
                    rows,
                    plan[m],
                    target,
                    measure,
                    a,
                    b,
                );
            lemma_batch_text(s, all[h], all[h + 1], rows, data, k, k + 1);
            if plan[m] is Batch {
                assert(rows.subrange(k, k + 1).len() == 1);
            }
            assert(plan[m] == TableItem::Oversized(rows[k]));
            let row = table::row_text(s, rows[k]);
            assert(s.subrange(rows[k].0, rows[k].1) == data[k]);
            let ranges = code::code_ranges(row, target);
            code::code_ranges_tile_the_text(row, target);
            let j = code::lemma_tile_of(ranges, row.len() as int, p, ranges.len() as int);
            lemma_piece(s, rows[k], target, block_seq, j);
            let i = lemma_item_place(s, header, plan, target, block_seq, m, j);
            let (x, y) = ranges[j];
            assert(is_row_piece(cs[i], all[h], all[h + 1], data, k, x, y, target, measure));
        }
    }
}

/// Where every row fits into a table, every chunk begins with the header and the separator row.
pub proof fn every_chunk_begins_with_the_header(
    resource_id: Seq<char>,
    all: Seq<Seq<char>>,
    h: int,
    target: nat,
    measure: spec_fn(Seq<char>) -> nat,
    block_seq: u32,
    i: int,
)
    requires
        are_lines(all),
        h + 2 <= all.len(),
        is_first_filled(all, h),
        all[h].contains('|'),
        table::is_separator(all[h + 1]),
        forall|k: int|
            0 <= k < filled(all.skip(h + 2)).len() ==> measure(
                #[trigger] table_of(all[h], all[h + 1], filled(all.skip(h + 2)), k, k + 1),
            ) <= target,
        0 <= i < table::table_chunks(resource_id, in_lines(all), target, measure, block_seq).len(),
    ensures
        text::starts_with(
            table::table_chunks(resource_id, in_lines(all), target, measure, block_seq)[i].text,
            all[h] + seq!['\n'] + all[h + 1],
        ),
{
    rows_are_packed_below_their_header(resource_id, all, h, target, measure, block_seq);
    let data = filled(all.skip(h + 2));
    let c = table::table_chunks(resource_id, in_lines(all), target, measure, block_seq)[i];
    let head = all[h] + seq!['\n'] + all[h + 1];
    if data.len() == 0 {
        assert(c.text.take(head.len() as int) =~= head);
    } else {
        assert(is_sound(c, all[h], all[h + 1], data, target, measure));
        if exists|k: int, x: int, y: int|
            #[trigger] is_row_piece(c, all[h], all[h + 1], data, k, x, y, target, measure) {
            let (k, x, y) = choose|k: int, x: int, y: int|
                #[trigger] is_row_piece(c, all[h], all[h + 1], data, k, x, y, target, measure);
            assert(measure(table_of(all[h], all[h + 1], data, k, k + 1)) <= target);
        }
        let (a, b) = choose|a: int, b: int|
            #[trigger] is_table_chunk(c, all[h], all[h + 1], data, a, b, target, measure);
        assert(is_table_chunk(c, all[h], all[h + 1], data, a, b, target, measure));
        assert(c.text.take(head.len() as int) =~= head);
    }
}

/// A text whose first line that is not blank has no bar, or is not followed by a separator row,
/// is no table, and is cut as code is.
pub proof fn other_texts_are_cut_as_code(
    resource_id: Seq<char>,
    all: Seq<Seq<char>>,
    h: int,
    target: nat,
    measure: spec_fn(Seq<char>) -> nat,
    block_seq: u32,
)
    requires
        are_lines(all),
        is_first_filled(all, h),
        all.len() < h + 2 || !all[h].contains('|') || !table::is_separator(all[h + 1]),
    ensures
        table::table_chunks(resource_id, in_lines(all), target, measure, block_seq)
            == code::code_chunks(resource_id, in_lines(all), target, block_seq),
{
    let s = in_lines(all);
    assert(s.skip(0) =~= s);
    lemma_lines(s, 0, all);
    let rs = table::all_rows(s);
    assert(table::row_text(s, rs[h]) == all[h]);
    lemma_header_at(s, all, h, 0);
    assert(table::header_at(s) == h);
    if all.len() >= h + 2 {
        assert(table::row_text(s, rs[h + 1]) == all[h + 1]);
    }
}

/// Whether a chunk's span says where it stands in the text, or that it does not: a table with a
/// repeated header is no part of the text.
pub open spec fn is_placed(c: output::ChunkView, s: Seq<char>) -> bool {
    output::is_some_slice(s, c) || (c.start == 0 && c.end == 0)
}

proof fn lemma_placed(
    s: Seq<char>,
    header: Seq<char>,
    plan: Seq<TableItem>,
    target: nat,
    block_seq: u32,
    i: int,
)
    requires
        0 <= i < table::plan_chunks(s, header, plan, target, block_seq).len(),
        forall|m: int|
            0 <= m < plan.len() ==> (#[trigger] plan[m] matches TableItem::Oversized(r) ==> 0 <= r.0
                <= r.1 <= s.len()),
    ensures
        ({
            let c = table::plan_chunks(s, header, plan, target, block_seq)[i];
            &&& is_placed(c, s)
            &&& c.block_seq == block_seq
        }),
{
    let (m, j) = lemma_item_of(s, header, plan, target, block_seq, i);
    let c = table::plan_chunks(s, header, plan, target, block_seq)[i];
    match plan[m] {
        TableItem::Batch(rows) => {},
        TableItem::Oversized(r) => {
            let row = table::row_text(s, r);
            let ranges = code::code_ranges(row, target);
            code::code_ranges_tile_the_text(row, target);
            code::lemma_tiles_bounds(ranges, 0, row.len() as int, j);
            let (x, y) = (ranges[j].0 + r.0, ranges[j].1 + r.0);
            assert(table::moved(ranges, r.0)[j] == (x, y));
            assert(c == code::slice_chunk(s, (x, y), block_seq));
            assert(output::is_slice(s, c, x, y));
        },
    }
}

/// The chunks of a table are numbered in order, are of their block, and say where they stand.
#[verifier::rlimit(30)]
pub proof fn chunks_of_a_table_are_numbered_and_placed(
    resource_id: Seq<char>,
    s: Seq<char>,
    target: nat,
    measure: spec_fn(Seq<char>) -> nat,
    block_seq: u32,
    i: int,
)
    requires
        0 <= i < table::table_chunks(resource_id, s, target, measure, block_seq).len(),
    ensures
        ({
            let c = table::table_chunks(resource_id, s, target, measure, block_seq)[i];
            &&& c.seq_in_block == i as u32
            &&& c.id == crate::ids::chunk_id_of(resource_id, c.block_seq, c.text, i as u32)
            &&& c.block_seq == block_seq
            &&& is_placed(c, s)
        }),
{
    let c = table::table_chunks(resource_id, s, target, measure, block_seq)[i];
    if !table::is_table(s) {
        code::code_chunks_are_lossless(resource_id, s, target, block_seq);
        assert(output::is_some_slice(
            s,
            code::code_chunks(resource_id, s, target, block_seq)[i],
        ));
    } else if table::data_rows(s).len() > 0 {
        let header = table::header_text(s);
        let rows = table::data_rows(s);
        let plan = table::table_plan(s, header, rows, 0, Seq::empty(), target, measure);
        let plain = table::plan_chunks(s, header, plan, target, block_seq);
        lemma_ranges(s, 0);
        lemma_first_filled(s, table::all_rows(s), 0);
        lemma_filled_bounds(s, table::all_rows(s), table::header_at(s) + 2);
        assert(rows.subrange(0, 0) =~= Seq::empty());
        lemma_plan(s, header, rows, 0, 0, target, measure);
        assert forall|m: int| 0 <= m < plan.len() implies (
        #[trigger] plan[m] matches TableItem::Oversized(r) ==> 0 <= r.0 <= r.1 <= s.len()) by {
            assert(item_is_sound(s, header, rows, plan[m], target, measure));
            let (a, b) = choose|a: int, b: int|
                #[trigger] item_fits(s, header, rows, plan[m], target, measure, a, b);
        }
        lemma_placed(s, header, plan, target, block_seq, i);
        assert(c.text == plain[i].text && c.start == plain[i].start && c.end == plain[i].end);
        if output::is_some_slice(s, plain[i]) {
            let (x, y) = choose|x: int, y: int| output::is_slice(s, plain[i], x, y);
            assert(output::is_slice(s, c, x, y));
        }
    }
}

proof fn lemma_first_filled(s: Seq<char>, rows: Seq<(int, int)>, from: int)
    requires
        0 <= from,
    ensures
        table::first_filled(s, rows, from) >= 0,
    decreases rows.len() - from,
{
    if from < rows.len() {
        lemma_first_filled(s, rows, from + 1);
    }
}

proof fn lemma_ranges(s: Seq<char>, from: int)
    requires
        0 <= from <= s.len(),
    ensures
        forall|i: int|
            0 <= i < lines::line_ranges(s, from).len() ==> 0 <= (#[trigger] lines::line_ranges(
                s,
                from,
            )[i]).0 <= lines::line_ranges(s, from)[i].1 <= s.len(),
    decreases s.len() - from,
{
    if from < s.len() {
        text::lemma_find_from(s, '\n', from);
        let i = text::find_from(s, '\n', from);
        if i < s.len() {
            lemma_ranges(s, i + 1);
            let rest = lines::line_ranges(s, i + 1);
            let all = lines::line_ranges(s, from);
            assert forall|k: int| 0 <= k < all.len() implies 0 <= (#[trigger] all[k]).0 <= all[k].1
                <= s.len() by {
                if k > 0 {
                    assert(all[k] == rest[k - 1]);
                }
            }
        }
    }
}

} // verus!
