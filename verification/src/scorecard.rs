//! The console triage scorecard: a per-principle table (warning / info counts and
//! the worst module) followed by the worst modules overall and a next-step hint.
//!
//! Ranking modules by metric values (floating point) happens before this layer;
//! what is laid out here is the counted, ordered, text-only part of the report.

use vstd::prelude::*;
use crate::fmt::{
    clip, clip_cell, clips_cleanly, decimal, lemma_clip_one_line, lemma_concat_one_line, lemma_decimal_one_line,
    lemma_newline_count_add, lemma_pad_one_line, lemma_single_line, newline_count, one_line, decimal_chars, pad_left, pad_right, push_pad_left, push_pad_right,
    str_byte_len, byte_len,
};
use crate::focus::{clean_path, in_focus, spec_clean_path, spec_matches_id, FocusPaths, FocusView};
use crate::maps::{join_strings, path_view, spec_join};
use crate::strs::{chars_of, find_chars, find_from, push_all, push_str, split_once, str_eq, string_of};
use crate::text::{find_char, first_index};

verus! {

/// One row of the per-principle table.
pub struct Row {
    pub id: String,
    pub name: String,
    pub warn: usize,
    pub info: usize,
    pub top: String,
}

/// The abstract form of a table row.
pub struct RowView {
    pub id: Seq<char>,
    pub name: Seq<char>,
    pub warn: usize,
    pub info: usize,
    pub top: Seq<char>,
}

impl View for Row {
    type V = RowView;

    open spec fn view(&self) -> RowView {
        RowView { id: self.id@, name: self.name@, warn: self.warn, info: self.info, top: self.top@ }
    }
}

/// The abstract form of a list of rows.
pub open spec fn rows_view(rows: Seq<Row>) -> Seq<RowView> {
    rows.map_values(|r: Row| r@)
}

/// `x` may stand before `y` in the table: `x` has at least as many warnings,
/// and at least as many infos when the warnings tie.
pub open spec fn ranks_at_least(x: RowView, y: RowView) -> bool {
    x.warn > y.warn || (x.warn == y.warn && x.info >= y.info)
}

/// `x` placed into the ranked `sorted` ahead of every row it ranks at least as
/// high as (so an earlier row stays ahead of a tied later one).
pub open spec fn insert_row(sorted: Seq<RowView>, x: RowView) -> Seq<RowView>
    decreases sorted.len(),
{
    if sorted.len() == 0 {
        seq![x]
    } else if ranks_at_least(x, sorted[0]) {
        seq![x] + sorted
    } else {
        seq![sorted[0]] + insert_row(sorted.drop_first(), x)
    }
}

/// The rows ranked by warnings, then infos, both descending; ties keep their
/// input order (a stable sort).
pub open spec fn sort_rows_spec(s: Seq<RowView>) -> Seq<RowView>
    decreases s.len(),
{
    if s.len() == 0 {
        Seq::empty()
    } else {
        insert_row(sort_rows_spec(s.drop_first()), s[0])
    }
}

/// Every row ranks at least as high as every row after it.
pub open spec fn rows_ranked(s: Seq<RowView>) -> bool {
    forall|i: int, j: int| 0 <= i < j < s.len() ==> ranks_at_least(#[trigger] s[i], #[trigger] s[j])
}

proof fn lemma_insert_row_shape(sorted: Seq<RowView>, x: RowView)
    ensures
        insert_row(sorted, x).len() == sorted.len() + 1,
        forall|k: int| 0 <= k < insert_row(sorted, x).len() ==> (#[trigger] insert_row(sorted, x)[k] == x
            || sorted.contains(insert_row(sorted, x)[k])),
    decreases sorted.len(),
{
    if sorted.len() > 0 && !ranks_at_least(x, sorted[0]) {
        lemma_insert_row_shape(sorted.drop_first(), x);
        let r = insert_row(sorted, x);
        assert forall|k: int| 0 <= k < r.len() implies (#[trigger] r[k] == x || sorted.contains(r[k])) by {
            if k == 0 {
                assert(sorted.contains(sorted[0]));
            } else {
                let t = insert_row(sorted.drop_first(), x);
                assert(r[k] == t[k - 1]);
                if t[k - 1] != x {
                    let w = choose|w: int| 0 <= w < sorted.drop_first().len() && sorted.drop_first()[w] == t[k - 1];
                    assert(sorted[w + 1] == t[k - 1]);
                }
            }
        }
    } else if sorted.len() > 0 {
        let r = insert_row(sorted, x);
        assert forall|k: int| 0 <= k < r.len() implies (#[trigger] r[k] == x || sorted.contains(r[k])) by {
            if k > 0 {
                assert(r[k] == sorted[k - 1]);
            }
        }
    }
}

proof fn lemma_insert_row_ranked(sorted: Seq<RowView>, x: RowView)
    requires
        rows_ranked(sorted),
    ensures
        rows_ranked(insert_row(sorted, x)),
    decreases sorted.len(),
{
    if sorted.len() == 0 {
    } else if ranks_at_least(x, sorted[0]) {
        let r = insert_row(sorted, x);
        assert forall|i: int, j: int| 0 <= i < j < r.len() implies ranks_at_least(#[trigger] r[i], #[trigger] r[j]) by {
            if i == 0 {
                assert(r[j] == sorted[j - 1]);
                if j - 1 > 0 {
                    assert(ranks_at_least(sorted[0], sorted[j - 1]));
                }
            } else {
                assert(r[i] == sorted[i - 1] && r[j] == sorted[j - 1]);
            }
        }
    } else {
        let rest = sorted.drop_first();
        assert(rows_ranked(rest)) by {
            assert forall|i: int, j: int| 0 <= i < j < rest.len() implies ranks_at_least(#[trigger] rest[i], #[trigger] rest[j]) by {
                assert(rest[i] == sorted[i + 1] && rest[j] == sorted[j + 1]);
            }
        }
        lemma_insert_row_ranked(rest, x);
        lemma_insert_row_shape(rest, x);
        let t = insert_row(rest, x);
        let r = insert_row(sorted, x);
        assert forall|i: int, j: int| 0 <= i < j < r.len() implies ranks_at_least(#[trigger] r[i], #[trigger] r[j]) by {
            if i == 0 {
                assert(r[j] == t[j - 1]);
                if t[j - 1] == x {
                } else {
                    let w = choose|w: int| 0 <= w < rest.len() && rest[w] == t[j - 1];
                    assert(sorted[w + 1] == t[j - 1]);
                }
            } else {
                assert(r[i] == t[i - 1] && r[j] == t[j - 1]);
            }
        }
    }
}

/// The ranked table is in order: each row has at least as many warnings as the
/// next, and at least as many infos when their warnings tie.
pub proof fn lemma_sort_rows_ranked(s: Seq<RowView>)
    ensures
        rows_ranked(sort_rows_spec(s)),
        sort_rows_spec(s).len() == s.len(),
    decreases s.len(),
{
    if s.len() > 0 {
        lemma_sort_rows_ranked(s.drop_first());
        lemma_insert_row_ranked(sort_rows_spec(s.drop_first()), s[0]);
        lemma_insert_row_shape(sort_rows_spec(s.drop_first()), s[0]);
    }
}

proof fn lemma_insert_row_multiset(sorted: Seq<RowView>, x: RowView)
    ensures
        insert_row(sorted, x).to_multiset() =~= sorted.to_multiset().insert(x),
    decreases sorted.len(),
{
    broadcast use vstd::seq_lib::to_multiset_insert;

    if sorted.len() == 0 {
        assert(seq![x] =~= sorted.insert(0, x));
    } else if ranks_at_least(x, sorted[0]) {
        assert(seq![x] + sorted =~= sorted.insert(0, x));
    } else {
        let rest = sorted.drop_first();
        lemma_insert_row_multiset(rest, x);
        let t = insert_row(rest, x);
        assert(seq![sorted[0]] + t =~= t.insert(0, sorted[0]));
        assert(sorted =~= rest.insert(0, sorted[0]));
    }
}

/// The rows of `s` with `warn` warnings and `info` infos, in order.
pub open spec fn rows_with_counts(s: Seq<RowView>, warn: usize, info: usize) -> Seq<RowView>
    decreases s.len(),
{
    if s.len() == 0 {
        Seq::empty()
    } else {
        let rest = rows_with_counts(s.drop_first(), warn, info);
        if s[0].warn == warn && s[0].info == info { seq![s[0]] + rest } else { rest }
    }
}

proof fn lemma_insert_row_counts(sorted: Seq<RowView>, x: RowView, warn: usize, info: usize)
    ensures
        rows_with_counts(insert_row(sorted, x), warn, info) == if x.warn == warn && x.info == info {
            seq![x] + rows_with_counts(sorted, warn, info)
        } else {
            rows_with_counts(sorted, warn, info)
        },
    decreases sorted.len(),
{
    if sorted.len() == 0 {
        assert(seq![x].drop_first() =~= Seq::<RowView>::empty());
        assert(rows_with_counts(Seq::<RowView>::empty(), warn, info) == Seq::<RowView>::empty());
        assert(seq![x] + Seq::<RowView>::empty() =~= seq![x]);
    } else if ranks_at_least(x, sorted[0]) {
        assert((seq![x] + sorted).drop_first() =~= sorted);
        assert((seq![x] + sorted)[0] == x);
    } else {
        lemma_insert_row_counts(sorted.drop_first(), x, warn, info);
        let t = insert_row(sorted.drop_first(), x);
        let r = seq![sorted[0]] + t;
        assert(r.drop_first() =~= t);
        assert(r[0] == sorted[0]);
        let rs = rows_with_counts(sorted.drop_first(), warn, info);
        if sorted[0].warn == warn && sorted[0].info == info {
            assert(!(x.warn == warn && x.info == info));
            assert(rows_with_counts(r, warn, info) == seq![sorted[0]] + rows_with_counts(t, warn, info));
        } else {
            assert(rows_with_counts(r, warn, info) == rows_with_counts(t, warn, info));
            assert(rows_with_counts(sorted, warn, info) == rs);
        }
    }
}

/// Ranking is stable: the rows with any given warning and info counts keep
/// their input order.
pub proof fn lemma_sort_rows_stable(s: Seq<RowView>, warn: usize, info: usize)
    ensures
        rows_with_counts(sort_rows_spec(s), warn, info) == rows_with_counts(s, warn, info),
    decreases s.len(),
{
    if s.len() > 0 {
        lemma_sort_rows_stable(s.drop_first(), warn, info);
        lemma_insert_row_counts(sort_rows_spec(s.drop_first()), s[0], warn, info);
    }
}

/// Ranking the table only reorders it: the ranked rows are exactly the input
/// rows, each as often as it occurs.
pub proof fn lemma_sort_rows_permutes(s: Seq<RowView>)
    ensures
        sort_rows_spec(s).to_multiset() =~= s.to_multiset(),
    decreases s.len(),
{
    broadcast use vstd::seq_lib::to_multiset_insert;

    if s.len() > 0 {
        lemma_sort_rows_permutes(s.drop_first());
        lemma_insert_row_multiset(sort_rows_spec(s.drop_first()), s[0]);
        let rest = s.drop_first();
        assert(s =~= rest.insert(0, s[0]));
        assert(rest.insert(0, s[0]).to_multiset() == rest.to_multiset().insert(s[0]));
    } else {
        assert(s =~= Seq::<RowView>::empty());
    }
}

/// `insert_row` as a split at the first row that `x` ranks at least as high as.
proof fn lemma_insert_row_at(sorted: Seq<RowView>, x: RowView, i: int)
    requires
        0 <= i <= sorted.len(),
        forall|k: int| 0 <= k < i ==> !ranks_at_least(x, #[trigger] sorted[k]),
        i == sorted.len() || ranks_at_least(x, sorted[i]),
    ensures
        insert_row(sorted, x) == sorted.take(i) + seq![x] + sorted.skip(i),
    decreases i,
{
    if i == 0 {
        assert(sorted.take(0) + seq![x] + sorted.skip(0) =~= seq![x] + sorted);
        if sorted.len() == 0 {
            assert(seq![x] + sorted =~= seq![x]);
        }
    } else {
        let rest = sorted.drop_first();
        assert forall|k: int| 0 <= k < i - 1 implies !ranks_at_least(x, #[trigger] rest[k]) by {
            assert(rest[k] == sorted[k + 1]);
        }
        if i - 1 < rest.len() {
            assert(rest[i - 1] == sorted[i]);
        }
        lemma_insert_row_at(rest, x, i - 1);
        assert(seq![sorted[0]] + (rest.take(i - 1) + seq![x] + rest.skip(i - 1))
            =~= sorted.take(i) + seq![x] + sorted.skip(i));
    }
}

/// Ranks the table rows (see `sort_rows_spec`).
pub fn sort_rows(rows: Vec<Row>) -> (r: Vec<Row>)
    ensures
        rows_view(r@) == sort_rows_spec(rows_view(rows@)),
{
    let ghost orig = rows_view(rows@);
    let mut rest = rows;
    let mut out: Vec<Row> = Vec::new();
    assert(orig.skip(orig.len() as int) =~= Seq::<RowView>::empty());
    assert(rows_view(out@) =~= Seq::<RowView>::empty());
    while rest.len() > 0
        invariant
            rows_view(rest@) == orig.take(rest@.len() as int),
            rows_view(out@) == sort_rows_spec(orig.skip(rest@.len() as int)),
            rest@.len() <= orig.len(),
        decreases rest.len(),
    {
        let k = rest.len();
        let ghost rv = rows_view(rest@);
        let x = rest.pop().unwrap();
        assert(rv[k - 1] == x@);
        assert(x@ == orig[k - 1]);
        assert(rows_view(rest@) =~= orig.take(k - 1));
        let ghost ov = rows_view(out@);
        let mut i: usize = 0;
        while i < out.len() && !(x.warn > out[i].warn || (x.warn == out[i].warn && x.info >= out[i].info))
            invariant
                i <= out@.len(),
                ov == rows_view(out@),
                forall|q: int| 0 <= q < i ==> !ranks_at_least(x@, #[trigger] ov[q]),
            decreases out.len() - i,
        {
            assert(ov[i as int] == out@[i as int]@);
            i = i + 1;
        }
        if i < out.len() {
            assert(ov[i as int] == out@[i as int]@);
        }
        proof {
            lemma_insert_row_at(ov, x@, i as int);
            assert(orig.skip(k - 1).drop_first() =~= orig.skip(k as int));
            assert(orig.skip(k - 1)[0] == x@);
        }
        out.insert(i, x);
        assert(rows_view(out@) =~= ov.take(i as int) + seq![x@] + ov.skip(i as int));
    }
    assert(orig.skip(0) =~= orig);
    out
}

/// The widest table id, in UTF-8 bytes (0 for no rows).
pub open spec fn max_id_bytes(rows: Seq<RowView>) -> nat
    decreases rows.len(),
{
    if rows.len() == 0 {
        0
    } else {
        let m = max_id_bytes(rows.drop_last());
        let b = byte_len(rows.last().id);
        if b > m { b } else { m }
    }
}

/// The widest principle name, in UTF-8 bytes (0 for no rows).
pub open spec fn max_name_bytes(rows: Seq<RowView>) -> nat
    decreases rows.len(),
{
    if rows.len() == 0 {
        0
    } else {
        let m = max_name_bytes(rows.drop_last());
        let b = byte_len(rows.last().name);
        if b > m { b } else { m }
    }
}

/// The id column width: the widest id, at least 6.
pub open spec fn id_width(rows: Seq<RowView>) -> nat {
    let m = max_id_bytes(rows);
    if m > 6 { m } else { 6 }
}

/// The name column width: the widest name, kept within 9 ..= 34.
pub open spec fn name_width(rows: Seq<RowView>) -> nat {
    let m = max_name_bytes(rows);
    if m < 9 {
        9
    } else if m > 34 {
        34
    } else {
        m
    }
}

/// A count column: two spaces, then the count right-aligned in 4.
pub open spec fn count_cell(n: usize) -> Seq<char> {
    "  "@ + pad_left(decimal(n as nat), 4)
}

/// The table header line.
pub open spec fn table_header(iw: nat, nw: nat, want_warning: bool, want_info: bool) -> Seq<char> {
    pad_right("PRESET"@, iw) + "  "@ + pad_right("PRINCIPLE"@, nw)
        + (if want_warning { "  WARN"@ } else { Seq::empty() })
        + (if want_info { "  INFO"@ } else { Seq::empty() })
        + "  TOP MODULE"@ + seq!['\n']
}

/// One table line.
pub open spec fn table_line(r: RowView, iw: nat, nw: nat, want_warning: bool, want_info: bool) -> Seq<char> {
    pad_right(r.id, iw) + "  "@ + pad_right(clip(r.name, nw), nw)
        + (if want_warning { count_cell(r.warn) } else { Seq::empty() })
        + (if want_info { count_cell(r.info) } else { Seq::empty() })
        + "  "@ + r.top + seq!['\n']
}

/// The table lines of `rows`, in order.
pub open spec fn table_lines(rows: Seq<RowView>, iw: nat, nw: nat, want_warning: bool, want_info: bool) -> Seq<char>
    decreases rows.len(),
{
    if rows.len() == 0 {
        Seq::empty()
    } else {
        table_lines(rows.drop_last(), iw, nw, want_warning, want_info) + table_line(rows.last(), iw, nw, want_warning, want_info)
    }
}

/// The whole per-principle table: header and one line per row.
pub open spec fn principle_table(rows: Seq<RowView>, want_warning: bool, want_info: bool) -> Seq<char> {
    table_header(id_width(rows), name_width(rows), want_warning, want_info)
        + table_lines(rows, id_width(rows), name_width(rows), want_warning, want_info)
}

/// Whether no cell of the rows holds a line break.
pub open spec fn cells_one_line(rows: Seq<RowView>) -> bool {
    forall|i: int|
        0 <= i < rows.len() ==> one_line(#[trigger] rows[i].id) && one_line(rows[i].name) && one_line(rows[i].top)
}

proof fn lemma_count_cell_one_line(n: usize)
    ensures
        one_line(count_cell(n)),
{
    reveal_strlit("  ");
    lemma_decimal_one_line(n as nat);
    lemma_pad_one_line(decimal(n as nat), 4);
    lemma_concat_one_line("  "@, pad_left(decimal(n as nat), 4));
}

proof fn lemma_optional_cell_one_line(want: bool, n: usize)
    ensures
        one_line(if want { count_cell(n) } else { Seq::<char>::empty() }),
{
    lemma_count_cell_one_line(n);
}

proof fn lemma_table_line_single(r: RowView, iw: nat, nw: nat, want_warning: bool, want_info: bool)
    requires
        one_line(r.id),
        one_line(r.name),
        one_line(r.top),
        clips_cleanly(r.name, nw),
    ensures
        newline_count(table_line(r, iw, nw, want_warning, want_info)) == 1,
        table_line(r, iw, nw, want_warning, want_info).last() == '\n',
{
    reveal_strlit("  ");
    let sep = "  "@;
    lemma_clip_one_line(r.name, nw);
    lemma_pad_one_line(r.id, iw);
    lemma_pad_one_line(clip(r.name, nw), nw);
    lemma_optional_cell_one_line(want_warning, r.warn);
    lemma_optional_cell_one_line(want_info, r.info);
    let a = pad_right(r.id, iw) + sep;
    lemma_concat_one_line(pad_right(r.id, iw), sep);
    let b = a + pad_right(clip(r.name, nw), nw);
    lemma_concat_one_line(a, pad_right(clip(r.name, nw), nw));
    let c = b + (if want_warning { count_cell(r.warn) } else { Seq::<char>::empty() });
    lemma_concat_one_line(b, if want_warning { count_cell(r.warn) } else { Seq::<char>::empty() });
    let d = c + (if want_info { count_cell(r.info) } else { Seq::<char>::empty() });
    lemma_concat_one_line(c, if want_info { count_cell(r.info) } else { Seq::<char>::empty() });
    let e = d + sep;
    lemma_concat_one_line(d, sep);
    let f = e + r.top;
    lemma_concat_one_line(e, r.top);
    assert(table_line(r, iw, nw, want_warning, want_info) =~= f.push('\n'));
    lemma_single_line(f);
}

proof fn lemma_table_lines_count(rows: Seq<RowView>, iw: nat, nw: nat, want_warning: bool, want_info: bool)
    requires
        cells_one_line(rows),
        forall|i: int| 0 <= i < rows.len() ==> clips_cleanly(#[trigger] rows[i].name, nw),
    ensures
        newline_count(table_lines(rows, iw, nw, want_warning, want_info)) == rows.len(),
        rows.len() > 0 ==> table_lines(rows, iw, nw, want_warning, want_info).last() == '\n',
    decreases rows.len(),
{
    if rows.len() > 0 {
        let init = rows.drop_last();
        assert forall|i: int| 0 <= i < init.len() implies clips_cleanly(#[trigger] init[i].name, nw) by {
            assert(init[i] == rows[i]);
        }
        assert forall|i: int| 0 <= i < init.len() implies one_line(#[trigger] init[i].id) && one_line(init[i].name)
            && one_line(init[i].top) by {
            assert(init[i] == rows[i]);
        }
        lemma_table_lines_count(init, iw, nw, want_warning, want_info);
        let last = rows[rows.len() - 1];
        assert(one_line(last.id) && one_line(last.name) && one_line(last.top));
        assert(clips_cleanly(last.name, nw));
        lemma_table_line_single(last, iw, nw, want_warning, want_info);
        lemma_newline_count_add(
            table_lines(init, iw, nw, want_warning, want_info),
            table_line(last, iw, nw, want_warning, want_info),
        );
    }
}

/// The per-principle table is one header line and then one line per row, in
/// order, each ending with a line break, when no cell holds a line break of
/// its own.
pub proof fn lemma_principle_table_lines(rows: Seq<RowView>, want_warning: bool, want_info: bool)
    requires
        names_clip_cleanly(rows),
        cells_one_line(rows),
    ensures
        newline_count(principle_table(rows, want_warning, want_info)) == rows.len() + 1,
        principle_table(rows, want_warning, want_info).last() == '\n',
        principle_table(rows, want_warning, want_info) == table_header(
            id_width(rows),
            name_width(rows),
            want_warning,
            want_info,
        ) + table_lines(rows, id_width(rows), name_width(rows), want_warning, want_info),
{
    reveal_strlit("PRESET");
    reveal_strlit("PRINCIPLE");
    reveal_strlit("  ");
    reveal_strlit("  WARN");
    reveal_strlit("  INFO");
    reveal_strlit("  TOP MODULE");
    let iw = id_width(rows);
    let nw = name_width(rows);
    let warn_col = if want_warning { "  WARN"@ } else { Seq::<char>::empty() };
    let info_col = if want_info { "  INFO"@ } else { Seq::<char>::empty() };
    assert(one_line("PRESET"@));
    assert(one_line("PRINCIPLE"@));
    assert(one_line("  "@));
    assert(one_line(warn_col));
    assert(one_line(info_col));
    assert(one_line("  TOP MODULE"@));
    lemma_pad_one_line("PRESET"@, iw);
    lemma_pad_one_line("PRINCIPLE"@, nw);
    let a = pad_right("PRESET"@, iw) + "  "@;
    lemma_concat_one_line(pad_right("PRESET"@, iw), "  "@);
    let b = a + pad_right("PRINCIPLE"@, nw);
    lemma_concat_one_line(a, pad_right("PRINCIPLE"@, nw));
    let c = b + warn_col;
    lemma_concat_one_line(b, warn_col);
    let d = c + info_col;
    lemma_concat_one_line(c, info_col);
    let e = d + "  TOP MODULE"@;
    lemma_concat_one_line(d, "  TOP MODULE"@);
    let header = table_header(iw, nw, want_warning, want_info);
    assert(header =~= e.push('\n'));
    lemma_single_line(e);
    lemma_table_lines_count(rows, iw, nw, want_warning, want_info);
    let lines = table_lines(rows, iw, nw, want_warning, want_info);
    lemma_newline_count_add(header, lines);
    if rows.len() == 0 {
        assert(header + lines =~= header);
    } else {
        assert((header + lines).last() == lines.last());
    }
}

/// Every name is cut on a character boundary when it is clipped to the name
/// column (a cut inside a character would panic).
pub open spec fn names_clip_cleanly(rows: Seq<RowView>) -> bool {
    forall|i: int| 0 <= i < rows.len() ==> clips_cleanly(#[trigger] rows[i].name, name_width(rows))
}

fn column_widths(rows: &Vec<Row>) -> (r: (usize, usize))
    ensures
        r.0 == id_width(rows_view(rows@)),
        r.1 == name_width(rows_view(rows@)),
{
    let mut im: usize = 0;
    let mut nm: usize = 0;
    let mut i: usize = 0;
    while i < rows.len()
        invariant
            i <= rows@.len(),
            im == max_id_bytes(rows_view(rows@.take(i as int))),
            nm == max_name_bytes(rows_view(rows@.take(i as int))),
        decreases rows.len() - i,
    {
        assert(rows_view(rows@.take(i + 1)).drop_last() =~= rows_view(rows@.take(i as int)));
        let b = str_byte_len(rows[i].id.as_str());
        if b > im {
            im = b;
        }
        let c = str_byte_len(rows[i].name.as_str());
        if c > nm {
            nm = c;
        }
        i = i + 1;
    }
    assert(rows@.take(rows@.len() as int) =~= rows@);
    let iw = if im > 6 { im } else { 6 };
    let nw = if nm < 9 { 9 } else if nm > 34 { 34 } else { nm };
    (iw, nw)
}

fn push_count_cell(out: &mut Vec<char>, n: usize)
    ensures
        final(out)@ == old(out)@ + count_cell(n),
{
    let ghost start = out@;
    push_str(out, "  ");
    let d = decimal_chars(n);
    push_pad_left(out, &d, 4);
    assert(out@ =~= start + count_cell(n));
}

fn push_table_line(v: &mut Vec<char>, r: &Row, iw: usize, nw: usize, want_warning: bool, want_info: bool)
    requires
        clips_cleanly(r.name@, nw as nat),
    ensures
        final(v)@ == old(v)@ + table_line(r@, iw as nat, nw as nat, want_warning, want_info),
{
    let ghost before = v@;
    let id = chars_of(r.id.as_str());
    push_pad_right(v, &id, iw);
    push_str(v, "  ");
    let name = clip_cell(r.name.as_str(), nw);
    push_pad_right(v, &name, nw);
    if want_warning {
        push_count_cell(v, r.warn);
    }
    if want_info {
        push_count_cell(v, r.info);
    }
    push_str(v, "  ");
    push_str(v, r.top.as_str());
    v.push('\n');
    assert(v@ =~= before + table_line(r@, iw as nat, nw as nat, want_warning, want_info));
}

/// Renders the per-principle table (header and one line per row) onto `out`.
#[verifier::spinoff_prover]
#[verifier::rlimit(30)]
pub fn render_principle_table(out: &mut String, rows: &Vec<Row>, want_warning: bool, want_info: bool)
    requires
        names_clip_cleanly(rows_view(rows@)),
    ensures
        final(out)@ == old(out)@ + principle_table(rows_view(rows@), want_warning, want_info),
{
    let (iw, nw) = column_widths(rows);
    let mut v = chars_of(out.as_str());
    let ghost start = v@;
    let preset = chars_of("PRESET");
    push_pad_right(&mut v, &preset, iw);
    push_str(&mut v, "  ");
    let principle = chars_of("PRINCIPLE");
    push_pad_right(&mut v, &principle, nw);
    if want_warning {
        push_str(&mut v, "  WARN");
    }
    if want_info {
        push_str(&mut v, "  INFO");
    }
    push_str(&mut v, "  TOP MODULE");
    v.push('\n');
    assert(v@ =~= start + table_header(iw as nat, nw as nat, want_warning, want_info));
    let ghost head = v@;
    let mut i: usize = 0;
    while i < rows.len()
        invariant
            i <= rows@.len(),
            iw == id_width(rows_view(rows@)),
            nw == name_width(rows_view(rows@)),
            names_clip_cleanly(rows_view(rows@)),
            v@ == head + table_lines(rows_view(rows@.take(i as int)), iw as nat, nw as nat, want_warning, want_info),
        decreases rows.len() - i,
    {
        assert(rows_view(rows@.take(i + 1)).drop_last() =~= rows_view(rows@.take(i as int)));
        assert(rows_view(rows@)[i as int] == rows@[i as int]@);
        assert(clips_cleanly(rows_view(rows@)[i as int].name, name_width(rows_view(rows@))));
        push_table_line(&mut v, &rows[i], iw, nw, want_warning, want_info);
        i = i + 1;
    }
    assert(rows@.take(rows@.len() as int) =~= rows@);
    *out = string_of(&v);
}

/// The severity tag of a worst-modules row.
#[derive(Clone, Copy, PartialEq, Eq, Structural)]
pub enum Tier {
    Warn,
    Info,
    Below,
}

/// The text a tier is shown as.
pub open spec fn tier_label(t: Tier) -> Seq<char> {
    match t {
        Tier::Warn => "warn"@,
        Tier::Info => "info"@,
        Tier::Below => "—"@,
    }
}

impl Tier {
    /// The text this tier is shown as.
    pub fn label(self) -> (r: &'static str)
        ensures
            r@ == tier_label(self),
    {
        match self {
            Tier::Warn => "warn",
            Tier::Info => "info",
            Tier::Below => "—",
        }
    }
}

/// One row of the worst-modules list: its tier, the module path, the headline
/// metric and the other breached metrics.
pub struct ModRow {
    pub tier: Tier,
    pub path: String,
    pub head: String,
    pub rest: Vec<String>,
}

/// The widest module path, in UTF-8 bytes (0 for no rows).
pub open spec fn max_path_bytes(rows: Seq<ModRow>) -> nat
    decreases rows.len(),
{
    if rows.len() == 0 {
        0
    } else {
        let m = max_path_bytes(rows.drop_last());
        let b = byte_len(rows.last().path@);
        if b > m { b } else { m }
    }
}

/// The line for the row at position `i` (numbered from 1).
pub open spec fn mod_line(i: nat, r: ModRow, pw: nat) -> Seq<char> {
    pad_left(decimal(i + 1), 2) + " "@ + pad_right(tier_label(r.tier), 4) + " "@ + pad_right(r.path@, pw)
        + "  "@ + r.head@
        + (if r.rest@.len() > 0 { "  +"@ + spec_join(path_view(r.rest@), ", "@) } else { Seq::empty() })
        + seq!['\n']
}

/// The numbered lines of `rows`, the path column `pw` characters wide.
pub open spec fn mod_lines(rows: Seq<ModRow>, pw: nat) -> Seq<char>
    decreases rows.len(),
{
    if rows.len() == 0 {
        Seq::empty()
    } else {
        mod_lines(rows.drop_last(), pw) + mod_line((rows.len() - 1) as nat, rows.last(), pw)
    }
}

fn path_width(rows: &Vec<ModRow>) -> (r: usize)
    ensures
        r == max_path_bytes(rows@),
{
    let mut m: usize = 0;
    let mut i: usize = 0;
    while i < rows.len()
        invariant
            i <= rows@.len(),
            m == max_path_bytes(rows@.take(i as int)),
        decreases rows.len() - i,
    {
        assert(rows@.take(i + 1).drop_last() =~= rows@.take(i as int));
        let b = str_byte_len(rows[i].path.as_str());
        if b > m {
            m = b;
        }
        i = i + 1;
    }
    assert(rows@.take(rows@.len() as int) =~= rows@);
    m
}

fn push_mod_line(v: &mut Vec<char>, i: usize, r: &ModRow, pw: usize)
    requires
        i < usize::MAX,
    ensures
        final(v)@ == old(v)@ + mod_line(i as nat, *r, pw as nat),
{
    let ghost before = v@;
    let num = decimal_chars(i + 1);
    push_pad_left(v, &num, 2);
    push_str(v, " ");
    let tier = chars_of(r.tier.label());
    push_pad_right(v, &tier, 4);
    push_str(v, " ");
    let path = chars_of(r.path.as_str());
    push_pad_right(v, &path, pw);
    push_str(v, "  ");
    push_str(v, r.head.as_str());
    if r.rest.len() > 0 {
        push_str(v, "  +");
        let joined = join_strings(&r.rest, ", ");
        push_str(v, joined.as_str());
    }
    v.push('\n');
    assert(v@ =~= before + mod_line(i as nat, *r, pw as nat));
}

/// Renders the worst-modules list (one numbered line per row) onto `out`.
pub fn render_mod_rows(out: &mut String, rows: &Vec<ModRow>)
    ensures
        final(out)@ == old(out)@ + mod_lines(rows@, max_path_bytes(rows@)),
{
    let pw = path_width(rows);
    let mut v = chars_of(out.as_str());
    let ghost head = v@;
    let mut i: usize = 0;
    while i < rows.len()
        invariant
            i <= rows@.len(),
            pw == max_path_bytes(rows@),
            v@ == head + mod_lines(rows@.take(i as int), pw as nat),
        decreases rows.len() - i,
    {
        assert(rows@.take(i + 1).drop_last() =~= rows@.take(i as int));
        push_mod_line(&mut v, i, &rows[i], pw);
        i = i + 1;
    }
    assert(rows@.take(rows@.len() as int) =~= rows@);
    *out = string_of(&v);
}

/// A module of a metric's ranking (worst first), as the worst-modules list
/// shows it.
pub struct RankedModule {
    pub id: String,
    /// The metric value rounded to a whole number, where the module has a
    /// non-zero value (metric values are counts and sizes, never negative).
    pub shown: Option<usize>,
    /// Where the value lands against the metric's warning and info thresholds.
    pub tier: Tier,
}

/// Whether the node `id` falls under the focus set `f` (an empty set restricts
/// nothing).
pub open spec fn focus_covers(f: FocusView, id: Seq<char>) -> bool {
    f.entries.len() == 0 || spec_matches_id(f, id)
}

/// The ranked modules under the focus set, in rank order.
pub open spec fn focused(ranked: Seq<RankedModule>, f: FocusView) -> Seq<RankedModule> {
    ranked.filter(|m: RankedModule| focus_covers(f, m.id@))
}

/// The first `limit` ranked modules under the focus set (all of them where
/// fewer are left).
pub open spec fn focused_top(ranked: Seq<RankedModule>, f: FocusView, limit: nat) -> Seq<RankedModule> {
    let kept = focused(ranked, f);
    if kept.len() <= limit {
        kept
    } else {
        kept.take(limit as int)
    }
}

/// How many modules a metric's list shows: `top`, else 15.
pub open spec fn list_limit(top: Option<usize>) -> nat {
    match top {
        Some(t) => t as nat,
        None => 15,
    }
}

/// The headline of a metric row: the metric's short name, then the value
/// where it is non-zero.
pub open spec fn metric_head(short: Seq<char>, shown: Option<usize>) -> Seq<char> {
    match shown {
        Some(v) => short + seq![' '] + decimal(v as nat),
        None => short,
    }
}

/// Whether `r` is the worst-modules row of the ranked module `m`.
pub open spec fn is_metric_row(short: Seq<char>, m: RankedModule, r: ModRow) -> bool {
    &&& r.tier == m.tier
    &&& r.path@ == spec_clean_path(m.id@)
    &&& r.head@ == metric_head(short, m.shown)
    &&& r.rest@.len() == 0
}

fn metric_row(m: &RankedModule, short: &str) -> (r: ModRow)
    ensures
        is_metric_row(short@, *m, r),
{
    let mut head = chars_of(short);
    match m.shown {
        Some(v) => {
            head.push(' ');
            let d = decimal_chars(v);
            push_all(&mut head, &d);
            assert(head@ =~= short@ + seq![' '] + decimal(v as nat));
        },
        None => {},
    }
    let path = clean_path(m.id.as_str());
    let rest: Vec<String> = Vec::new();
    assert(rest@.len() == 0);
    ModRow { tier: m.tier, path, head: string_of(&head), rest }
}

/// The worst-modules rows under a metric focus: the metric's ranking (worst
/// first) restricted to the focus set and cut to `top` modules, 15 by default.
pub fn metric_mod_rows(ranked: &Vec<RankedModule>, short: &str, focus_paths: &FocusPaths, top: Option<usize>) -> (r:
    Vec<ModRow>)
    ensures
        r.len() == focused_top(ranked@, focus_paths@, list_limit(top)).len(),
        r.len() <= list_limit(top),
        forall|i: int|
            0 <= i < r.len() ==> is_metric_row(
                short@,
                focused_top(ranked@, focus_paths@, list_limit(top))[i],
                #[trigger] r@[i],
            ),
{
    let limit: usize = match top {
        Some(t) => t,
        None => 15,
    };
    let ghost pred = |m: RankedModule| focus_covers(focus_paths@, m.id@);
    let mut out: Vec<ModRow> = Vec::new();
    let mut i: usize = 0;
    while i < ranked.len() && out.len() < limit
        invariant
            i <= ranked.len(),
            limit == list_limit(top),
            pred == (|m: RankedModule| focus_covers(focus_paths@, m.id@)),
            out.len() <= limit,
            out.len() == ranked@.take(i as int).filter(pred).len(),
            forall|k: int|
                0 <= k < out.len() ==> is_metric_row(short@, ranked@.take(i as int).filter(pred)[k], #[trigger] out@[k]),
        decreases ranked.len() - i,
    {
        proof {
            assert(ranked@.take(i + 1) =~= ranked@.take(i as int).push(ranked@[i as int]));
            ranked@.take(i as int).lemma_filter_push(ranked@[i as int], pred);
        }
        if in_focus(ranked[i].id.as_str(), focus_paths) {
            let row = metric_row(&ranked[i], short);
            out.push(row);
        }
        i = i + 1;
    }
    proof {
        let all = ranked@;
        let pre = all.take(i as int);
        assert(all =~= pre + all.skip(i as int));
        Seq::filter_distributes_over_add(pre, all.skip(i as int), pred);
        assert(focused(all, focus_paths@) == all.filter(pred));
        if i == ranked.len() {
            assert(pre =~= all);
        } else {
            assert(all.filter(pred).take(limit as int) =~= pre.filter(pred));
        }
    }
    out
}

/// The empty-list line for a genuinely empty worst-modules list.
pub open spec fn none_note() -> Seq<char> {
    "  (none)\n"@
}

/// The folder hinted at when a `--focus-path` filtered every module out: the
/// first component of the best unfiltered module's path (`src` when empty).
pub open spec fn path_hint(rows: Seq<ModRow>) -> Seq<char> {
    let p = rows[0].path@;
    let first = match first_index(p, '/') {
        Some(j) => p.take(j),
        None => p,
    };
    if first.len() > 0 { first } else { "src"@ }
}

/// The line shown when the worst-modules list is empty: a plain `(none)` when
/// nothing was filtered (no `--focus-path`, the cycle view, or nothing ranked at
/// all), and otherwise a diagnostic naming how many modules the filter hid.
pub open spec fn spec_empty_modules_note(focus_empty: bool, narrow: Option<Seq<char>>, unfiltered: Seq<ModRow>) -> Seq<char> {
    if focus_empty || narrow == Some("cycle"@) || unfiltered.len() == 0 {
        none_note()
    } else {
        let h = path_hint(unfiltered);
        "  (no module matched --focus-path — 0 of "@ + decimal(unfiltered.len()) + " ranked modules.\n   Reported locations look like '"@
            + h + "/…'; did you mean --focus-path '"@ + h
            + "'?  Run once without --focus-path to see the exact form.)\n"@
    }
}

/// The line printed for an empty worst-modules list; `unfiltered` is the same
/// ranking made without the `--focus-path` filter.
pub fn empty_modules_note(focus_paths: &FocusPaths, narrow: Option<&str>, unfiltered: &Vec<ModRow>) -> (r: String)
    ensures
        r@ == spec_empty_modules_note(
            focus_paths@.entries.len() == 0,
            match narrow { Some(n) => Some(n@), None => None },
            unfiltered@,
        ),
{
    let is_cycle = match narrow {
        Some(n) => str_eq(n, "cycle"),
        None => false,
    };
    if focus_paths.is_empty() || is_cycle || unfiltered.len() == 0 {
        return "  (none)\n".to_string();
    }
    let p = chars_of(unfiltered[0].path.as_str());
    assert(p@.skip(0) =~= p@);
    proof {
        crate::text::lemma_first_index_bounds(p@, '/');
    }
    let first = match find_char(&p, 0, '/') {
        Some(j) => crate::strs::slice_chars(&p, 0, j),
        None => p,
    };
    assert(p@.skip(0) =~= p@);
    let hint: Vec<char> = if first.len() > 0 { first } else { chars_of("src") };
    let mut v: Vec<char> = Vec::new();
    push_str(&mut v, "  (no module matched --focus-path — 0 of ");
    let n = decimal_chars(unfiltered.len());
    push_all(&mut v, &n);
    push_str(&mut v, " ranked modules.\n   Reported locations look like '");
    push_all(&mut v, &hint);
    push_str(&mut v, "/…'; did you mean --focus-path '");
    push_all(&mut v, &hint);
    push_str(&mut v, "'?  Run once without --focus-path to see the exact form.)\n");
    string_of(&v)
}

/// The names a metric carries: short header, label, and full name.
pub struct AttrNames {
    pub short: Option<String>,
    pub label: Option<String>,
    pub name: Option<String>,
}

/// The short header label of a metric: its short name, else its label, else
/// the metric key itself.
pub open spec fn spec_attr_short(attr: Option<AttrNames>, m: Seq<char>) -> Seq<char> {
    match attr {
        Some(a) => match a.short {
            Some(s) => s@,
            None => match a.label {
                Some(l) => l@,
                None => m,
            },
        },
        None => m,
    }
}

/// The short header label of metric `metric` (see `spec_attr_short`).
pub fn attr_short<'a>(attr: Option<&'a AttrNames>, metric: &'a str) -> (r: &'a str)
    ensures
        r@ == spec_attr_short(match attr { Some(a) => Some(*a), None => None }, metric@),
{
    match attr {
        Some(a) => match &a.short {
            Some(s) => s.as_str(),
            None => match &a.label {
                Some(l) => l.as_str(),
                None => metric,
            },
        },
        None => metric,
    }
}

/// The header label of a metric lens: the short name (else the label, else the
/// key), followed by ` — ` and the full name when that differs; the `cycle`
/// pseudo-metric has a fixed label.
pub open spec fn spec_metric_focus_label(attr: Option<AttrNames>, m: Seq<char>) -> Seq<char> {
    if m == "cycle"@ {
        "cycle — dependency cycles"@
    } else {
        let label = spec_attr_short(attr, m);
        match attr {
            Some(a) => match a.name {
                Some(n) => if n@ != label { label + " — "@ + n@ } else { label },
                None => label,
            },
            None => label,
        }
    }
}

/// The header label of the metric lens `m` (see `spec_metric_focus_label`).
pub fn metric_focus_label(attr: Option<&AttrNames>, m: &str) -> (r: String)
    ensures
        r@ == spec_metric_focus_label(match attr { Some(a) => Some(*a), None => None }, m@),
{
    if str_eq(m, "cycle") {
        return "cycle — dependency cycles".to_string();
    }
    let label: &str = attr_short(attr, m);
    match attr {
        Some(a) => match &a.name {
            Some(n) => {
                if !str_eq(n.as_str(), label) {
                    let mut v = chars_of(label);
                    push_str(&mut v, " — ");
                    push_str(&mut v, n.as_str());
                    string_of(&v)
                } else {
                    label.to_string()
                }
            },
            None => label.to_string(),
        },
        None => label.to_string(),
    }
}

/// A title without its leading `ID — ` (the text after the first ` — `).
pub open spec fn short_title(t: Seq<char>) -> Seq<char> {
    match split_once(t, " — "@) {
        Some(parts) => parts.1,
        None => t,
    }
}

/// A principle title without its leading `ID — `, to keep a column tight.
pub fn strip_principle_id(title: &str) -> (r: String)
    ensures
        r@ == short_title(title@),
{
    let t = chars_of(title);
    let sep = chars_of(" — ");
    match find_chars(&t, &sep, 0) {
        Some(j) => {
            proof {
                lemma_find_from_bounds(t@, sep@, 0);
            }
            assert(find_from(t@, sep@, 0) == Some(j as int));
            assert(j + sep@.len() <= t@.len());
            let tl = t.len();
            let rest = crate::strs::slice_chars(&t, j + sep.len(), tl);
            assert(rest@ =~= t@.skip(j + sep@.len()));
            string_of(&rest)
        },
        None => string_of(&t),
    }
}

proof fn lemma_find_from_bounds(s: Seq<char>, p: Seq<char>, i: int)
    ensures
        find_from(s, p, i) matches Some(j) ==> i <= j && j + p.len() <= s.len() && 0 <= j,
    decreases s.len() - i,
{
    if !(i < 0 || i >= s.len() || i + p.len() > s.len()) && !crate::strs::occurs_at(s, p, i) {
        lemma_find_from_bounds(s, p, i + 1);
    }
}

/// The worst-ranked module under a principle's metric, and that module's
/// metric value already formatted (`None` when it has no value or it is zero).
pub struct TopModule {
    pub id: String,
    pub value: Option<String>,
}

/// One principle with what the table shows about it: its recommendation
/// counts, the short name of its sort metric, and its worst module.
pub struct PrincipleStat {
    pub id: String,
    pub title: String,
    pub sort_metric: String,
    pub metric_short: String,
    pub warning_count: usize,
    pub info_count: usize,
    pub top: Option<TopModule>,
}

/// The "top module" cell: `—` with no ranked module; the module path with
/// `(cycle)` for the cycle metric, with `(<metric> <value>)` when it has a
/// non-zero value, or bare otherwise.
pub open spec fn spec_top_cell(p: PrincipleStat) -> Seq<char> {
    match p.top {
        None => "—"@,
        Some(t) => if p.sort_metric@ == "cycle"@ {
            crate::focus::spec_clean_path(t.id@) + " (cycle)"@
        } else {
            match t.value {
                Some(v) => crate::focus::spec_clean_path(t.id@) + " ("@ + p.metric_short@ + " "@ + v@ + ")"@,
                None => crate::focus::spec_clean_path(t.id@),
            }
        },
    }
}

/// The "top module" cell of a principle row (see `spec_top_cell`).
pub fn principle_top_module(p: &PrincipleStat) -> (r: String)
    ensures
        r@ == spec_top_cell(*p),
{
    match &p.top {
        None => "—".to_string(),
        Some(t) => {
            let path = crate::focus::clean_path(t.id.as_str());
            let mut v = chars_of(path.as_str());
            if str_eq(p.sort_metric.as_str(), "cycle") {
                push_str(&mut v, " (cycle)");
            } else {
                match &t.value {
                    Some(val) => {
                        push_str(&mut v, " (");
                        push_str(&mut v, p.metric_short.as_str());
                        push_str(&mut v, " ");
                        push_str(&mut v, val.as_str());
                        push_str(&mut v, ")");
                    },
                    None => {},
                }
            }
            string_of(&v)
        },
    }
}

/// The lens a `--focus` picks: a metric, or one principle by id.
pub enum Focus {
    Metric(String),
    Principle(String),
}

/// A selected recommendation severity.
#[derive(Clone, Copy, PartialEq, Eq, Structural)]
pub enum Severity {
    Warning,
    Info,
    Auto,
}

/// Whether the warning tier is selected (`warning` or `auto`).
pub open spec fn wants_warning(sevs: Seq<Severity>) -> bool {
    exists|i: int| 0 <= i < sevs.len() && (sevs[i] == Severity::Warning || sevs[i] == Severity::Auto)
}

/// Whether the info tier is selected (`info` or `auto`).
pub open spec fn wants_info(sevs: Seq<Severity>) -> bool {
    exists|i: int| 0 <= i < sevs.len() && (sevs[i] == Severity::Info || sevs[i] == Severity::Auto)
}

fn wanted_tiers(sevs: &Vec<Severity>) -> (r: (bool, bool))
    ensures
        r.0 == wants_warning(sevs@),
        r.1 == wants_info(sevs@),
{
    let mut w = false;
    let mut f = false;
    let mut i: usize = 0;
    while i < sevs.len()
        invariant
            i <= sevs@.len(),
            w == exists|k: int| 0 <= k < i && (sevs@[k] == Severity::Warning || sevs@[k] == Severity::Auto),
            f == exists|k: int| 0 <= k < i && (sevs@[k] == Severity::Info || sevs@[k] == Severity::Auto),
        decreases sevs.len() - i,
    {
        let s = sevs[i];
        if s == Severity::Warning || s == Severity::Auto {
            w = true;
        }
        if s == Severity::Info || s == Severity::Auto {
            f = true;
        }
        i = i + 1;
    }
    (w, f)
}

/// Whether a principle is shown under the lens: none under a metric lens, the
/// named one under a principle lens, all without a lens.
pub open spec fn is_shown(focus: Option<Focus>, p: PrincipleStat) -> bool {
    match focus {
        Some(Focus::Metric(_)) => false,
        Some(Focus::Principle(id)) => p.id@ == id@,
        None => true,
    }
}

/// The first principle with id `id`.
pub open spec fn first_with_id(ps: Seq<PrincipleStat>, id: Seq<char>, i: int) -> Option<int>
    decreases ps.len() - i,
{
    if i < 0 || i >= ps.len() {
        None
    } else if ps[i].id@ == id {
        Some(i)
    } else {
        first_with_id(ps, id, i + 1)
    }
}

/// The metric the worst-modules list ranks by: the lens metric, or the sort
/// metric of the lens principle, or none (a breach-ranked list).
pub open spec fn focus_narrow(focus: Option<Focus>, ps: Seq<PrincipleStat>) -> Option<Seq<char>> {
    match focus {
        Some(Focus::Metric(m)) => Some(m@),
        Some(Focus::Principle(id)) => match first_with_id(ps, id@, 0) {
            Some(i) => Some(ps[i].sort_metric@),
            None => None,
        },
        None => None,
    }
}

/// A principle has something in the selected tiers.
pub open spec fn in_scope(p: PrincipleStat, want_warning: bool, want_info: bool) -> bool {
    (want_warning && p.warning_count > 0) || (want_info && p.info_count > 0)
}

/// The table row of a principle.
pub open spec fn stat_row(p: PrincipleStat) -> RowView {
    RowView {
        id: p.id@,
        name: short_title(p.title@),
        warn: p.warning_count,
        info: p.info_count,
        top: spec_top_cell(p),
    }
}

/// The table rows, in principle order: each shown principle, skipping one with
/// nothing in the selected tiers unless the list is narrowed to a metric.
pub open spec fn spec_principle_rows(
    ps: Seq<PrincipleStat>,
    focus: Option<Focus>,
    narrowed: bool,
    want_warning: bool,
    want_info: bool,
) -> Seq<RowView>
    decreases ps.len(),
{
    if ps.len() == 0 {
        Seq::empty()
    } else {
        let prev = spec_principle_rows(ps.drop_last(), focus, narrowed, want_warning, want_info);
        let p = ps.last();
        if is_shown(focus, p) && (narrowed || in_scope(p, want_warning, want_info)) {
            prev.push(stat_row(p))
        } else {
            prev
        }
    }
}

fn focus_matches(focus: &Option<Focus>, p: &PrincipleStat) -> (r: bool)
    ensures
        r == is_shown(*focus, *p),
{
    match focus {
        Some(Focus::Metric(_)) => false,
        Some(Focus::Principle(id)) => str_eq(p.id.as_str(), id.as_str()),
        None => true,
    }
}

/// The table rows for the shown principles (see `spec_principle_rows`).
pub fn principle_rows(
    ps: &Vec<PrincipleStat>,
    focus: &Option<Focus>,
    narrowed: bool,
    want_warning: bool,
    want_info: bool,
) -> (r: Vec<Row>)
    ensures
        rows_view(r@) == spec_principle_rows(ps@, *focus, narrowed, want_warning, want_info),
{
    let mut rows: Vec<Row> = Vec::new();
    let mut i: usize = 0;
    while i < ps.len()
        invariant
            i <= ps@.len(),
            rows_view(rows@) == spec_principle_rows(ps@.take(i as int), *focus, narrowed, want_warning, want_info),
        decreases ps.len() - i,
    {
        assert(ps@.take(i + 1).drop_last() =~= ps@.take(i as int));
        let p = &ps[i];
        let scoped = (want_warning && p.warning_count > 0) || (want_info && p.info_count > 0);
        if focus_matches(focus, p) && (narrowed || scoped) {
            let ghost before = rows_view(rows@);
            let row = Row {
                id: p.id.clone(),
                name: strip_principle_id(p.title.as_str()),
                warn: p.warning_count,
                info: p.info_count,
                top: principle_top_module(p),
            };
            rows.push(row);
            assert(rows_view(rows@) =~= before.push(stat_row(*p)));
        }
        i = i + 1;
    }
    assert(ps@.take(ps@.len() as int) =~= ps@);
    rows
}

/// The metric the worst-modules list ranks by under a lens (see `focus_narrow`).
pub fn scorecard_lens(focus: &Option<Focus>, ps: &Vec<PrincipleStat>) -> (r: Option<String>)
    ensures
        crate::strs::opt_view(r) == focus_narrow(*focus, ps@),
{
    match focus {
        Some(Focus::Metric(m)) => Some(m.clone()),
        Some(Focus::Principle(id)) => {
            let mut i: usize = 0;
            while i < ps.len()
                invariant
                    i <= ps@.len(),
                    first_with_id(ps@, id@, i as int) == first_with_id(ps@, id@, 0),
                    focus_narrow(*focus, ps@) == match first_with_id(ps@, id@, 0) {
                        Some(k) => Some(ps@[k].sort_metric@),
                        None => None::<Seq<char>>,
                    },
                decreases ps.len() - i,
            {
                if str_eq(ps[i].id.as_str(), id.as_str()) {
                    assert(first_with_id(ps@, id@, i as int) == Some(i as int));
                    let m = ps[i].sort_metric.clone();
                    assert(m@ == ps@[i as int].sort_metric@);
                    return Some(m);
                }
                i = i + 1;
            }
            None
        },
        None => None,
    }
}

/// The ranked per-principle rows of a scorecard.
pub open spec fn scorecard_rows(ps: Seq<PrincipleStat>, sevs: Seq<Severity>, focus: Option<Focus>) -> Seq<RowView> {
    sort_rows_spec(
        spec_principle_rows(ps, focus, focus_narrow(focus, ps) is Some, wants_warning(sevs), wants_info(sevs)),
    )
}

/// The scorecard table shows exactly the principles in scope, one row each,
/// ranked by warnings then infos (both descending), ties in catalog order.
pub proof fn lemma_scorecard_rows_ordered(ps: Seq<PrincipleStat>, sevs: Seq<Severity>, focus: Option<Focus>)
    ensures
        rows_ranked(scorecard_rows(ps, sevs, focus)),
        scorecard_rows(ps, sevs, focus).to_multiset() =~= spec_principle_rows(
            ps, focus, focus_narrow(focus, ps) is Some, wants_warning(sevs), wants_info(sevs),
        ).to_multiset(),
        forall|w: usize, i: usize| #[trigger] rows_with_counts(scorecard_rows(ps, sevs, focus), w, i)
            == rows_with_counts(
                spec_principle_rows(ps, focus, focus_narrow(focus, ps) is Some, wants_warning(sevs), wants_info(sevs)),
                w,
                i,
            ),
{
    let shown = spec_principle_rows(ps, focus, focus_narrow(focus, ps) is Some, wants_warning(sevs), wants_info(sevs));
    lemma_sort_rows_ranked(shown);
    lemma_sort_rows_permutes(shown);
    assert forall|w: usize, i: usize| #[trigger] rows_with_counts(scorecard_rows(ps, sevs, focus), w, i)
        == rows_with_counts(shown, w, i) by {
        lemma_sort_rows_stable(shown, w, i);
    }
}

/// The scorecard heading: plugin and file count, and the metric a metric lens
/// is focused on.
pub open spec fn scorecard_head(plugin: Seq<char>, file_count: usize, focus: Option<Focus>, attr: Option<AttrNames>) -> Seq<char> {
    "scorecard  ("@ + plugin + ", "@ + decimal(file_count as nat) + " files)\n\n"@ + match focus {
        Some(Focus::Metric(m)) => "focus: "@ + spec_metric_focus_label(attr, m@) + "\n"@,
        _ => Seq::empty(),
    }
}

/// The closing hint pointing at the fix-prompt for this plugin.
pub open spec fn next_step_hint(plugin: Seq<char>) -> Seq<char> {
    "\n→ code-ranker report . --plugins "@ + plugin + " --prompt <PRINCIPLE|METRIC>   (AI fix-prompt to stdout)\n"@
}

/// The whole scorecard. Without a lens and with no principle in the selected
/// tiers it is the heading and a one-line all-clear; otherwise the heading, the
/// ranked table (when it has rows), the worst-modules section (its optional
/// heading line, then its rows or the empty-list note) and the closing hint.
pub open spec fn scorecard_text(
    plugin: Seq<char>,
    file_count: usize,
    ps: Seq<PrincipleStat>,
    sevs: Seq<Severity>,
    focus: Option<Focus>,
    attr: Option<AttrNames>,
    focus_empty: bool,
    mod_heading: Seq<char>,
    mod_rows: Seq<ModRow>,
    unfiltered: Seq<ModRow>,
) -> Seq<char> {
    let rows = scorecard_rows(ps, sevs, focus);
    let head = scorecard_head(plugin, file_count, focus, attr);
    if rows.len() == 0 && focus is None {
        head + "No threshold breaches for the selected severity.\n"@
    } else {
        head + (if rows.len() > 0 { principle_table(rows, wants_warning(sevs), wants_info(sevs)) } else { Seq::empty() })
            + "\nWORST MODULES\n"@ + mod_heading + (if mod_rows.len() == 0 {
            spec_empty_modules_note(focus_empty, focus_narrow(focus, ps), unfiltered)
        } else {
            mod_lines(mod_rows, max_path_bytes(mod_rows))
        }) + next_step_hint(plugin)
    }
}

fn scorecard_heading(plugin: &str, file_count: usize, focus: &Option<Focus>, focus_attr: Option<&AttrNames>) -> (r: Vec<char>)
    ensures
        r@ == scorecard_head(plugin@, file_count, *focus, match focus_attr { Some(a) => Some(*a), None => None }),
{
    let mut v: Vec<char> = Vec::new();
    push_str(&mut v, "scorecard  (");
    push_str(&mut v, plugin);
    push_str(&mut v, ", ");
    let n = decimal_chars(file_count);
    push_all(&mut v, &n);
    push_str(&mut v, " files)\n\n");
    match focus {
        Some(Focus::Metric(m)) => {
            let ghost before = v@;
            push_str(&mut v, "focus: ");
            let label = metric_focus_label(focus_attr, m.as_str());
            push_str(&mut v, label.as_str());
            push_str(&mut v, "\n");
            assert(v@ =~= before + ("focus: "@ + label@ + "\n"@));
        },
        _ => {
            assert(v@ =~= v@ + Seq::<char>::empty());
        },
    }
    v
}

/// The worst-modules section: its title, the optional heading line, then the
/// rows or the empty-list note.
pub open spec fn modules_section(
    mod_heading: Seq<char>,
    mod_rows: Seq<ModRow>,
    note: Seq<char>,
) -> Seq<char> {
    "\nWORST MODULES\n"@ + mod_heading + (if mod_rows.len() == 0 { note } else { mod_lines(mod_rows, max_path_bytes(mod_rows)) })
}

fn worst_modules(
    narrow: &Option<String>,
    focus_paths: &FocusPaths,
    mod_heading: &str,
    mod_rows: &Vec<ModRow>,
    unfiltered: &Vec<ModRow>,
) -> (r: String)
    ensures
        r@ == modules_section(
            mod_heading@,
            mod_rows@,
            spec_empty_modules_note(focus_paths@.entries.len() == 0, crate::strs::opt_view(*narrow), unfiltered@),
        ),
{
    let mut w: Vec<char> = Vec::new();
    push_str(&mut w, "\nWORST MODULES\n");
    push_str(&mut w, mod_heading);
    let mut out = string_of(&w);
    if mod_rows.len() == 0 {
        let note = match narrow {
            Some(m) => empty_modules_note(focus_paths, Some(m.as_str()), unfiltered),
            None => empty_modules_note(focus_paths, None, unfiltered),
        };
        let mut x = chars_of(out.as_str());
        push_str(&mut x, note.as_str());
        out = string_of(&x);
    } else {
        render_mod_rows(&mut out, mod_rows);
    }
    out
}

fn hint_line(plugin: &str) -> (r: Vec<char>)
    ensures
        r@ == next_step_hint(plugin@),
{
    let mut y: Vec<char> = Vec::new();
    push_str(&mut y, "\n→ code-ranker report . --plugins ");
    push_str(&mut y, plugin);
    push_str(&mut y, " --prompt <PRINCIPLE|METRIC>   (AI fix-prompt to stdout)\n");
    y
}

#[verifier::rlimit(50)]
#[verifier::spinoff_prover]
/// Renders the console triage scorecard. `mod_rows` is the worst-modules
/// ranking under the lens (its optional heading line in `mod_heading`), and
/// `unfiltered` the same ranking made without the `--focus-path` filter.
pub fn render_scorecard(
    plugin: &str,
    file_count: usize,
    principles: &Vec<PrincipleStat>,
    severities: &Vec<Severity>,
    focus: &Option<Focus>,
    focus_attr: Option<&AttrNames>,
    focus_paths: &FocusPaths,
    mod_heading: &str,
    mod_rows: &Vec<ModRow>,
    unfiltered: &Vec<ModRow>,
) -> (r: String)
    requires
        names_clip_cleanly(scorecard_rows(principles@, severities@, *focus)),
    ensures
        r@ == scorecard_text(
            plugin@,
            file_count,
            principles@,
            severities@,
            *focus,
            match focus_attr { Some(a) => Some(*a), None => None },
            focus_paths@.entries.len() == 0,
            mod_heading@,
            mod_rows@,
            unfiltered@,
        ),
{
    let (want_warning, want_info) = wanted_tiers(severities);
    let narrow = scorecard_lens(focus, principles);
    let unsorted = principle_rows(principles, focus, narrow.is_some(), want_warning, want_info);
    let rows = sort_rows(unsorted);
    let mut v = scorecard_heading(plugin, file_count, focus, focus_attr);
    if rows.len() == 0 && focus.is_none() {
        push_str(&mut v, "No threshold breaches for the selected severity.\n");
        return string_of(&v);
    }
    let mut out = string_of(&v);
    if rows.len() > 0 {
        render_principle_table(&mut out, &rows, want_warning, want_info);
    }
    let section = worst_modules(&narrow, focus_paths, mod_heading, mod_rows, unfiltered);
    let hint = hint_line(plugin);
    let mut z = chars_of(out.as_str());
    push_str(&mut z, section.as_str());
    push_all(&mut z, &hint);
    string_of(&z)
}

/// The first line and blank line of every scorecard.
pub open spec fn scorecard_title(plugin: Seq<char>, file_count: usize) -> Seq<char> {
    "scorecard  ("@ + plugin + ", "@ + decimal(file_count as nat) + " files)\n\n"@
}

proof fn lemma_prefix_of_concat(a: Seq<char>, b: Seq<char>)
    ensures
        a.is_prefix_of(a + b),
{
    assert(a =~= (a + b).subrange(0, a.len() as int));
}

proof fn lemma_suffix_of_concat(a: Seq<char>, b: Seq<char>)
    ensures
        b.is_suffix_of(a + b),
{
    assert(b =~= (a + b).subrange(a.len() as int, (a + b).len() as int));
}

/// The shape of every scorecard: it opens with its title; it is then either
/// the one-line all-clear, or it holds the worst-modules section and closes
/// with the next-step hint. Without a lens and with no principle in the
/// selected tiers it is exactly the title and the all-clear.
#[verifier::spinoff_prover]
#[verifier::rlimit(40)]
pub proof fn lemma_scorecard_shape(
    plugin: Seq<char>,
    file_count: usize,
    ps: Seq<PrincipleStat>,
    sevs: Seq<Severity>,
    focus: Option<Focus>,
    attr: Option<AttrNames>,
    focus_empty: bool,
    mod_heading: Seq<char>,
    mod_rows: Seq<ModRow>,
    unfiltered: Seq<ModRow>,
)
    ensures
        ({
            let t = scorecard_text(plugin, file_count, ps, sevs, focus, attr, focus_empty, mod_heading, mod_rows, unfiltered);
            let title = scorecard_title(plugin, file_count);
            &&& title.is_prefix_of(t)
            &&& t == title + "No threshold breaches for the selected severity.\n"@ || {
                &&& next_step_hint(plugin).is_suffix_of(t)
                &&& exists|i: int| 0 <= i <= t.len() - 15 && #[trigger] t.subrange(i, i + 15) == "\nWORST MODULES\n"@
            }
            &&& focus is None && scorecard_rows(ps, sevs, focus).len() == 0 ==> t == title
                + "No threshold breaches for the selected severity.\n"@
        }),
{
    reveal_strlit("\nWORST MODULES\n");
    let t = scorecard_text(plugin, file_count, ps, sevs, focus, attr, focus_empty, mod_heading, mod_rows, unfiltered);
    let title = scorecard_title(plugin, file_count);
    let head = scorecard_head(plugin, file_count, focus, attr);
    let lens = match focus {
        Some(Focus::Metric(m)) => "focus: "@ + spec_metric_focus_label(attr, m@) + "\n"@,
        _ => Seq::empty(),
    };
    assert(head =~= title + lens);
    let rows = scorecard_rows(ps, sevs, focus);
    if rows.len() == 0 && focus is None {
        assert(lens =~= Seq::<char>::empty());
        assert(t =~= title + "No threshold breaches for the selected severity.\n"@);
        lemma_prefix_of_concat(title, "No threshold breaches for the selected severity.\n"@);
    } else {
        let table = if rows.len() > 0 {
            principle_table(rows, wants_warning(sevs), wants_info(sevs))
        } else {
            Seq::empty()
        };
        let body = if mod_rows.len() == 0 {
            spec_empty_modules_note(focus_empty, focus_narrow(focus, ps), unfiltered)
        } else {
            mod_lines(mod_rows, max_path_bytes(mod_rows))
        };
        let w = "\nWORST MODULES\n"@;
        let before = head + table;
        let rest = w + mod_heading + body + next_step_hint(plugin);
        assert(t =~= title + (lens + table + rest));
        lemma_prefix_of_concat(title, lens + table + rest);
        assert(t =~= (before + w + mod_heading + body) + next_step_hint(plugin));
        lemma_suffix_of_concat(before + w + mod_heading + body, next_step_hint(plugin));
        let i = before.len() as int;
        assert(t.subrange(i, i + 15) =~= w);
    }
}

} // verus!
