//! Markdown building blocks: pipe tables, descriptions and index lists.

use vstd::prelude::*;
use vstd::string::*;
use crate::text::{
    contains_seq, is_substring_at, join_seqs, lemma_join_contains_part, lemma_substring_extend, push_char, replace_char,
    replace_char_seq, trim, trimmed, utf8_len, views, lemma_utf8_len_append, lemma_ascii_width,
};

verus! {

/// `n` copies of `c`.
pub open spec fn repeat_char(c: char, n: nat) -> Seq<char> {
    Seq::new(n, |i: int| c)
}

pub fn repeat(c: char, n: usize) -> (r: String)
    ensures
        r@ == repeat_char(c, n as nat),
{
    let mut r = String::new();
    let mut i: usize = 0;
    while i < n
        invariant
            i <= n,
            r@ == repeat_char(c, i as nat),
        decreases n - i,
    {
        push_char(&mut r, c);
        assert(repeat_char(c, i as nat).push(c) =~= repeat_char(c, (i + 1) as nat));
        i += 1;
    }
    r
}

/// The concatenation of a list of character sequences.
pub open spec fn concat_all(parts: Seq<Seq<char>>) -> Seq<char>
    decreases parts.len(),
{
    if parts.len() == 0 {
        seq![]
    } else {
        concat_all(parts.drop_last()) + parts.last()
    }
}

/// Each part occurs in the concatenation of the parts.
pub proof fn lemma_concat_all_contains(parts: Seq<Seq<char>>, k: int)
    requires
        0 <= k < parts.len(),
    ensures
        contains_seq(concat_all(parts), parts[k]),
    decreases parts.len(),
{
    let pre = concat_all(parts.drop_last());
    if k == parts.len() - 1 {
        assert((pre + parts.last()).subrange(pre.len() as int, (pre.len() + parts[k].len()) as int) =~= parts[k]);
        assert(is_substring_at(concat_all(parts), parts[k], pre.len() as int));
    } else {
        lemma_concat_all_contains(parts.drop_last(), k);
        assert(parts.drop_last()[k] == parts[k]);
        let i = choose|i: int| is_substring_at(pre, parts[k], i);
        lemma_substring_extend(pre, parts.last(), parts[k], i);
        assert(is_substring_at(concat_all(parts), parts[k], i));
    }
}

/// The total length of the first `k` parts.
pub open spec fn lens_before(parts: Seq<Seq<char>>, k: int) -> int
    decreases k,
{
    if k <= 0 || k > parts.len() {
        0
    } else {
        lens_before(parts, k - 1) + parts[k - 1].len()
    }
}

proof fn lemma_lens_before_prefix(parts: Seq<Seq<char>>, k: int)
    requires
        0 <= k < parts.len(),
    ensures
        lens_before(parts.drop_last(), k) == lens_before(parts, k),
    decreases k,
{
    if k > 0 {
        lemma_lens_before_prefix(parts, k - 1);
    }
}

/// The parts stand one after another in their concatenation: the `k`-th right after the
/// first `k`, and nothing else is there.
pub proof fn lemma_concat_all_layout(parts: Seq<Seq<char>>)
    ensures
        concat_all(parts).len() == lens_before(parts, parts.len() as int),
        forall|k: int| 0 <= k < parts.len() ==> concat_all(parts).subrange(
            lens_before(parts, k),
            lens_before(parts, k) + parts[k].len(),
        ) == #[trigger] parts[k],
    decreases parts.len(),
{
    if parts.len() > 0 {
        let pre = parts.drop_last();
        lemma_concat_all_layout(pre);
        let c = concat_all(parts);
        let cp = concat_all(pre);
        assert(c == cp + parts.last());
        let n = parts.len() - 1;
        lemma_lens_before_prefix(parts, n);
        assert forall|k: int| 0 <= k < parts.len() implies c.subrange(
            lens_before(parts, k),
            lens_before(parts, k) + parts[k].len(),
        ) == #[trigger] parts[k] by {
            if k < n {
                lemma_lens_before_prefix(parts, k);
                assert(pre[k] == parts[k]);
                assert(lens_before(parts, k + 1) == lens_before(parts, k) + parts[k].len());
                assert(lens_before(parts, k) + parts[k].len() <= lens_before(parts, n)) by {
                    lemma_lens_before_mono(parts, k + 1, n);
                }
                assert(cp.len() == lens_before(parts, n));
                assert(0 <= lens_before(parts, k)) by {
                    lemma_lens_before_mono(parts, 0, k);
                }
                assert(c.subrange(lens_before(parts, k), lens_before(parts, k) + parts[k].len()) =~= cp.subrange(
                    lens_before(pre, k),
                    lens_before(pre, k) + pre[k].len(),
                ));
            } else {
                assert(c.subrange(lens_before(parts, k), lens_before(parts, k) + parts[k].len()) =~= parts.last());
            }
        }
    }
}

proof fn lemma_lens_before_mono(parts: Seq<Seq<char>>, j: int, k: int)
    requires
        0 <= j <= k <= parts.len(),
    ensures
        lens_before(parts, j) <= lens_before(parts, k),
    decreases k - j,
{
    if j < k {
        lemma_lens_before_mono(parts, j, k - 1);
    }
}

/// A markdown pipe table under construction: padded header cells and finished rows.
pub struct Table {
    pub header_cells: Vec<String>,
    pub rows: Vec<String>,
}

/// The header line of a table: `|` then each cell followed by `|`.
pub open spec fn header_line(cells: Seq<Seq<char>>) -> Seq<char> {
    "|"@ + concat_all(cells.map_values(|c: Seq<char>| c + "|"@))
}

/// The width of the separator under a header cell: its byte length, at least 2.
pub open spec fn separator_width(cell: Seq<char>) -> nat {
    let n = (utf8_len(cell) as usize) as nat;
    if n < 2 { 2 } else { n }
}

/// The separator line of a table: a run of `-` as wide as each header cell.
pub open spec fn separator_line(cells: Seq<Seq<char>>) -> Seq<char> {
    "|"@ + concat_all(cells.map_values(|c: Seq<char>| repeat_char('-', separator_width(c)) + "|"@))
}

/// One table row: `|` then ` cell |` for each cell, then a newline.
pub open spec fn row_line(cells: Seq<Seq<char>>) -> Seq<char> {
    "|"@ + concat_all(cells.map_values(|c: Seq<char>| " "@ + c + " |"@)) + "\n"@
}

/// The whole table: header, separator, rows, and a blank line.
pub open spec fn table_text(header: Seq<Seq<char>>, rows: Seq<Seq<char>>) -> Seq<char> {
    header_line(header) + "\n"@ + separator_line(header) + "\n"@ + concat_all(rows) + "\n"@
}

pub proof fn lemma_concat_all_push(parts: Seq<Seq<char>>, p: Seq<char>)
    ensures
        concat_all(parts.push(p)) == concat_all(parts) + p,
{
    assert(parts.push(p).drop_last() =~= parts);
}

/// Column names padded with a space on both sides, as table headers hold them.
pub open spec fn padded(headers: Seq<Seq<char>>) -> Seq<Seq<char>> {
    headers.map_values(|h: Seq<char>| " "@ + h + " "@)
}

pub open spec fn str_views(v: Seq<&str>) -> Seq<Seq<char>> {
    v.map_values(|c: &str| c@)
}

/// A table with the given column names and rows of cells.
pub open spec fn table_spec(headers: Seq<Seq<char>>, rows: Seq<Seq<Seq<char>>>) -> Seq<char> {
    table_text(padded(headers), rows.map_values(|r: Seq<Seq<char>>| row_line(r)))
}

/// A table laid out: the header line with each column name between spaces, the separator
/// line with a run of `-` two longer than each name (in bytes), one line per row, and a blank
/// line.
pub open spec fn table_layout(headers: Seq<Seq<char>>, rows: Seq<Seq<Seq<char>>>) -> Seq<char> {
    "|"@ + concat_all(headers.map_values(|h: Seq<char>| " "@ + h + " |"@))
        + "\n|"@ + concat_all(headers.map_values(|h: Seq<char>| repeat_char('-', utf8_len(h) + 2) + "|"@))
        + "\n"@ + concat_all(rows.map_values(|r: Seq<Seq<char>>| row_line(r))) + "\n"@
}

/// Whether the column names fit the width arithmetic of a table.
pub open spec fn headers_fit(headers: Seq<Seq<char>>) -> bool {
    forall|i: int| 0 <= i < headers.len() ==> utf8_len(#[trigger] headers[i]) + 2 <= usize::MAX
}

/// The table of the given column names and rows is laid out as [`table_layout`] says.
pub proof fn lemma_table_layout(headers: Seq<Seq<char>>, rows: Seq<Seq<Seq<char>>>)
    requires
        headers_fit(headers),
    ensures
        table_spec(headers, rows) == table_layout(headers, rows),
{
    reveal_strlit(" ");
    reveal_strlit(" |");
    reveal_strlit("|");
    reveal_strlit("\n");
    reveal_strlit("\n|");
    let p = padded(headers);
    let a = p.map_values(|c: Seq<char>| c + "|"@);
    let b = headers.map_values(|h: Seq<char>| " "@ + h + " |"@);
    assert forall|i: int| 0 <= i < a.len() implies a[i] == b[i] by {
        assert(" "@ + headers[i] + " "@ + "|"@ =~= " "@ + headers[i] + " |"@);
    }
    assert(a =~= b);
    let c = p.map_values(|c: Seq<char>| repeat_char('-', separator_width(c)) + "|"@);
    let d = headers.map_values(|h: Seq<char>| repeat_char('-', utf8_len(h) + 2) + "|"@);
    assert forall|i: int| 0 <= i < c.len() implies c[i] == d[i] by {
        let h = headers[i];
        lemma_ascii_width(' ');
        assert(" "@ =~= seq![' ']);
        lemma_utf8_len_append(" "@, h);
        lemma_utf8_len_append(" "@ + h, " "@);
        assert(utf8_len(p[i]) == utf8_len(h) + 2);
        assert(separator_width(p[i]) == utf8_len(h) + 2);
    }
    assert(c =~= d);
    assert("\n"@ + "|"@ =~= "\n|"@);
    let rs = rows.map_values(|r: Seq<Seq<char>>| row_line(r));
    assert(table_spec(headers, rows) == header_line(p) + "\n"@ + separator_line(p) + "\n"@ + concat_all(rs) + "\n"@);
    assert(header_line(p) + "\n"@ + separator_line(p) =~= "|"@ + concat_all(b) + "\n|"@ + concat_all(d));
}

/// A table of `columns` blank column names, as `Table::unlabeled` makes it: each header cell
/// a single space and each separator `--`.
pub open spec fn unlabeled_layout(columns: nat, rows: Seq<Seq<Seq<char>>>) -> Seq<char> {
    "|"@ + concat_all(Seq::new(columns, |i: int| " |"@)) + "\n|"@ + concat_all(Seq::new(columns, |i: int| "--|"@))
        + "\n"@ + concat_all(rows.map_values(|r: Seq<Seq<char>>| row_line(r))) + "\n"@
}

/// The unlabeled table with the given rows is laid out as [`unlabeled_layout`] says.
pub proof fn lemma_unlabeled_layout(columns: nat, rows: Seq<Seq<Seq<char>>>)
    ensures
        table_text(Seq::new(columns, |i: int| " "@), rows.map_values(|r: Seq<Seq<char>>| row_line(r)))
            == unlabeled_layout(columns, rows),
{
    reveal_strlit(" ");
    reveal_strlit(" |");
    reveal_strlit("|");
    reveal_strlit("--|");
    reveal_strlit("\n");
    reveal_strlit("\n|");
    let cells = Seq::new(columns, |i: int| " "@);
    lemma_ascii_width(' ');
    assert(" "@ =~= seq![' ']);
    assert(" "@ + "|"@ =~= " |"@);
    assert(repeat_char('-', 2) + "|"@ =~= "--|"@);
    assert(separator_width(" "@) == 2);
    let a = cells.map_values(|c: Seq<char>| c + "|"@);
    assert forall|i: int| 0 <= i < columns implies #[trigger] a[i] == " |"@ by {
        assert(cells[i] == " "@);
    }
    assert(a =~= Seq::new(columns, |i: int| " |"@));
    let b = cells.map_values(|c: Seq<char>| repeat_char('-', separator_width(c)) + "|"@);
    assert forall|i: int| 0 <= i < columns implies #[trigger] b[i] == "--|"@ by {
        assert(cells[i] == " "@);
    }
    assert(b =~= Seq::new(columns, |i: int| "--|"@));
    assert("\n"@ + "|"@ =~= "\n|"@);
}

/// What a table holds after `Table::new(headers)` and one `row` for each of `rows`, in order.
pub open spec fn built_from(t: Table, headers: Seq<Seq<char>>, rows: Seq<Seq<Seq<char>>>) -> bool {
    &&& views(t.header_cells@) == padded(headers)
    &&& views(t.rows@) == rows.map_values(|r: Seq<Seq<char>>| row_line(r))
}

impl Table {
    /// A table with the given column names, each padded with a space on both sides.
    pub fn new(headers: &[&str]) -> (t: Table)
        ensures
            views(t.header_cells@) == headers@.map_values(|h: &str| " "@ + h@ + " "@),
            views(t.header_cells@) == padded(str_views(headers@)),
            t.rows@.len() == 0,
            built_from(t, str_views(headers@), seq![]),
    {
        let mut cells: Vec<String> = Vec::new();
        let mut i: usize = 0;
        while i < headers.len()
            invariant
                i <= headers@.len(),
                views(cells@) == headers@.take(i as int).map_values(|h: &str| " "@ + h@ + " "@),
            decreases headers@.len() - i,
        {
            let mut c = String::from_str(" ");
            c.append(headers[i]);
            c.append(" ");
            let ghost old_cells = cells@;
            cells.push(c);
            assert(views(cells@) =~= views(old_cells).push(c@));
            assert(headers@.take(i + 1) =~= headers@.take(i as int).push(headers@[i as int]));
            assert(views(cells@) =~= headers@.take(i + 1).map_values(|h: &str| " "@ + h@ + " "@));
            i += 1;
        }
        assert(headers@.take(headers@.len() as int) =~= headers@);
        assert(views(cells@) =~= padded(str_views(headers@)));
        let t = Table::with_header_cells(cells);
        assert(views(t.rows@) =~= Seq::<Seq<Seq<char>>>::empty().map_values(|r: Seq<Seq<char>>| row_line(r)));
        t
    }

    /// A table with no column names, used for the key/value layout of endpoint info tables.
    pub fn unlabeled(columns: usize) -> (t: Table)
        ensures
            views(t.header_cells@) == Seq::new(columns as nat, |i: int| " "@),
            t.rows@.len() == 0,
    {
        let mut cells: Vec<String> = Vec::new();
        let mut i: usize = 0;
        while i < columns
            invariant
                i <= columns,
                views(cells@) == Seq::new(i as nat, |k: int| " "@),
            decreases columns - i,
        {
            let c = String::from_str(" ");
            let ghost old_cells = cells@;
            cells.push(c);
            assert(views(cells@) =~= views(old_cells).push(c@));
            assert(views(cells@) =~= Seq::new((i + 1) as nat, |k: int| " "@));
            i += 1;
        }
        Table::with_header_cells(cells)
    }

    pub fn with_header_cells(header_cells: Vec<String>) -> (t: Table)
        ensures
            t.header_cells == header_cells,
            t.rows@.len() == 0,
    {
        Table { header_cells, rows: Vec::new() }
    }

    /// Appends a row of cells.
    pub fn row(&mut self, cells: &[&str])
        ensures
            final(self).header_cells == old(self).header_cells,
            views(final(self).rows@) == views(old(self).rows@).push(
                row_line(cells@.map_values(|c: &str| c@)),
            ),
            views(final(self).rows@) == views(old(self).rows@).push(row_line(str_views(cells@))),
            forall|hs: Seq<Seq<char>>, rs: Seq<Seq<Seq<char>>>| #[trigger] built_from(*old(self), hs, rs)
                ==> built_from(*final(self), hs, rs.push(str_views(cells@))),
    {
        let mut line = String::from_str("|");
        let ghost cs = cells@.map_values(|c: &str| c@);
        let mut i: usize = 0;
        while i < cells.len()
            invariant
                i <= cells@.len(),
                cs == cells@.map_values(|c: &str| c@),
                line@ == "|"@ + concat_all(cs.take(i as int).map_values(|c: Seq<char>| " "@ + c + " |"@)),
            decreases cells@.len() - i,
        {
            line.append(" ");
            line.append(cells[i]);
            line.append(" |");
            proof {
                let f = |c: Seq<char>| " "@ + c + " |"@;
                assert(cs.take(i + 1).map_values(f) =~= cs.take(i as int).map_values(f).push(f(cs[i as int])));
                lemma_concat_all_push(cs.take(i as int).map_values(f), f(cs[i as int]));
            }
            i += 1;
        }
        assert(cs.take(cells@.len() as int) =~= cs);
        line.append("\n");
        let ghost old_rows = self.rows@;
        let ghost old_table = *self;
        self.rows.push(line);
        assert(views(self.rows@) =~= views(old_rows).push(line@));
        proof {
            assert forall|hs: Seq<Seq<char>>, rs: Seq<Seq<Seq<char>>>| #[trigger] built_from(old_table, hs, rs)
                implies built_from(*self, hs, rs.push(str_views(cells@))) by {
                assert(rs.push(str_views(cells@)).map_values(|r: Seq<Seq<char>>| row_line(r)) =~= rs.map_values(
                    |r: Seq<Seq<char>>| row_line(r),
                ).push(row_line(str_views(cells@))));
            }
        }
    }

    /// The rendered table.
    pub fn finish(self) -> (r: String)
        ensures
            r@ == table_text(views(self.header_cells@), views(self.rows@)),
            forall|hs: Seq<Seq<char>>, rs: Seq<Seq<Seq<char>>>| #[trigger] built_from(self, hs, rs) && headers_fit(hs)
                ==> r@ == table_layout(hs, rs),
    {
        let ghost hs = views(self.header_cells@);
        let mut out = String::from_str("|");
        let mut i: usize = 0;
        while i < self.header_cells.len()
            invariant
                i <= self.header_cells@.len(),
                hs == views(self.header_cells@),
                out@ == "|"@ + concat_all(hs.take(i as int).map_values(|c: Seq<char>| c + "|"@)),
            decreases self.header_cells@.len() - i,
        {
            out.append(self.header_cells[i].as_str());
            out.append("|");
            proof {
                let f = |c: Seq<char>| c + "|"@;
                assert(hs.take(i + 1).map_values(f) =~= hs.take(i as int).map_values(f).push(f(hs[i as int])));
                lemma_concat_all_push(hs.take(i as int).map_values(f), f(hs[i as int]));
            }
            i += 1;
        }
        assert(hs.take(hs.len() as int) =~= hs);
        let ghost head = out@;
        out.append("\n");
        out.append("|");
        let mut sep = String::new();
        let mut j: usize = 0;
        while j < self.header_cells.len()
            invariant
                j <= self.header_cells@.len(),
                hs == views(self.header_cells@),
                sep@ == concat_all(hs.take(j as int).map_values(|c: Seq<char>| repeat_char('-', separator_width(c)) + "|"@)),
            decreases self.header_cells@.len() - j,
        {
            let n = self.header_cells[j].as_str().len();
            let w = if n < 2 { 2 } else { n };
            let dashes = repeat('-', w);
            sep.append(dashes.as_str());
            sep.append("|");
            proof {
                let f = |c: Seq<char>| repeat_char('-', separator_width(c)) + "|"@;
                assert(hs.take(j + 1).map_values(f) =~= hs.take(j as int).map_values(f).push(f(hs[j as int])));
                lemma_concat_all_push(hs.take(j as int).map_values(f), f(hs[j as int]));
            }
            j += 1;
        }
        assert(hs.take(hs.len() as int) =~= hs);
        assert(sep@ == concat_all(hs.map_values(|c: Seq<char>| repeat_char('-', separator_width(c)) + "|"@)));
        out.append(sep.as_str());
        out.append("\n");
        assert(out@ =~= header_line(hs) + "\n"@ + separator_line(hs) + "\n"@);
        let ghost rs = views(self.rows@);
        let mut rows_text = String::new();
        let mut k: usize = 0;
        while k < self.rows.len()
            invariant
                k <= self.rows@.len(),
                rs == views(self.rows@),
                rows_text@ == concat_all(rs.take(k as int)),
            decreases self.rows@.len() - k,
        {
            rows_text.append(self.rows[k].as_str());
            proof {
                assert(rs.take(k + 1) =~= rs.take(k as int).push(rs[k as int]));
                lemma_concat_all_push(rs.take(k as int), rs[k as int]);
            }
            k += 1;
        }
        assert(rs.take(rs.len() as int) =~= rs);
        out.append(rows_text.as_str());
        out.append("\n");
        proof {
            assert forall|hs: Seq<Seq<char>>, rs: Seq<Seq<Seq<char>>>| #[trigger] built_from(self, hs, rs) && headers_fit(hs)
                implies out@ == table_layout(hs, rs) by {
                lemma_table_layout(hs, rs);
            }
        }
        out
    }
}

/// A description with newlines turned into spaces, then trimmed.
pub open spec fn normalized_desc(s: Seq<char>) -> Seq<char> {
    trimmed(replace_char_seq(s, '\n', ' '))
}

/// Collapses newlines to spaces and trims a spec description for markdown output.
pub fn normalize_desc(s: &str) -> (r: String)
    ensures
        r@ == normalized_desc(s@),
{
    let replaced = replace_char(s, '\n', ' ');
    trim(replaced.as_str())
}

proof fn lemma_trimmed_within(s: Seq<char>)
    ensures
        forall|i: int| 0 <= i < trimmed(s).len() ==> s.contains(#[trigger] trimmed(s)[i]),
    decreases s.len(),
{
    let t = trimmed(s);
    if s.len() > 0 && crate::text::unicode_white_space(s[0]) {
        let d = s.drop_first();
        lemma_trimmed_within(d);
        assert(t == trimmed(d));
        assert forall|i: int| 0 <= i < t.len() implies s.contains(#[trigger] t[i]) by {
            assert(d.contains(trimmed(d)[i]));
            let k = choose|k: int| 0 <= k < d.len() && d[k] == t[i];
            assert(s[k + 1] == t[i]);
        }
    } else if s.len() > 0 && crate::text::unicode_white_space(s.last()) {
        let d = s.drop_last();
        lemma_trimmed_within(d);
        assert(t == trimmed(d));
        assert forall|i: int| 0 <= i < t.len() implies s.contains(#[trigger] t[i]) by {
            assert(d.contains(trimmed(d)[i]));
            let k = choose|k: int| 0 <= k < d.len() && d[k] == t[i];
            assert(s[k] == t[i]);
        }
    } else {
        assert forall|i: int| 0 <= i < t.len() implies s.contains(#[trigger] t[i]) by {
            assert(s[i] == t[i]);
        }
    }
}

/// A normalized description holds no line break, so it never splits a table row or a list
/// line.
pub proof fn lemma_normalized_desc_single_line(s: Seq<char>)
    ensures
        !normalized_desc(s).contains('\n'),
{
    let r = replace_char_seq(s, '\n', ' ');
    lemma_trimmed_within(r);
    if normalized_desc(s).contains('\n') {
        let i = choose|i: int| 0 <= i < normalized_desc(s).len() && normalized_desc(s)[i] == '\n';
        assert(r.contains(normalized_desc(s)[i]));
        let k = choose|k: int| 0 <= k < r.len() && r[k] == '\n';
        assert(r[k] == (if s[k] == '\n' { ' ' } else { s[k] }));
    }
}

pub open spec fn desc_paragraph_spec(description: Option<Seq<char>>) -> Seq<char> {
    match description {
        Some(d) if normalized_desc(d).len() > 0 => normalized_desc(d) + "\n\n"@,
        _ => seq![],
    }
}

/// Renders a description as its own paragraph, or nothing when absent or blank.
pub fn desc_paragraph(description: Option<&str>) -> (r: String)
    ensures
        r@ == desc_paragraph_spec(match description { Some(d) => Some(d@), None => None }),
{
    match description {
        Some(d) => {
            let mut n = normalize_desc(d);
            if n.unicode_len() > 0 {
                n.append("\n\n");
                n
            } else {
                String::new()
            }
        },
        None => String::new(),
    }
}

pub open spec fn desc_cell_spec(description: Option<Seq<char>>) -> Seq<char> {
    match description {
        Some(d) if trimmed(d).len() > 0 => normalized_desc(d),
        _ => "-"@,
    }
}

/// Renders a description for a table cell, falling back to `-` when absent or blank.
pub fn desc_cell(description: Option<&str>) -> (r: String)
    ensures
        r@ == desc_cell_spec(match description { Some(d) => Some(d@), None => None }),
{
    match description {
        Some(d) => {
            let t = trim(d);
            if t.unicode_len() > 0 {
                normalize_desc(d)
            } else {
                String::from_str("-")
            }
        },
        None => String::from_str("-"),
    }
}

/// One index entry: `- [name](./file)`.
pub open spec fn index_line(file: Seq<char>, name: Seq<char>) -> Seq<char> {
    "- ["@ + name + "](./"@ + file + ")"@
}

/// The index lines joined by newlines, with a final newline.
pub open spec fn index_text(links: Seq<(Seq<char>, Seq<char>)>) -> Seq<char> {
    crate::text::join_seqs(links.map_values(|l: (Seq<char>, Seq<char>)| index_line(l.0, l.1)), "\n"@) + "\n"@
}

/// An index lists each of its links: the entry of the `k`-th link occurs in the index text.
pub proof fn lemma_index_lists_link(links: Seq<(Seq<char>, Seq<char>)>, k: int)
    requires
        0 <= k < links.len(),
    ensures
        contains_seq(index_text(links), index_line(links[k].0, links[k].1)),
{
    let lines = links.map_values(|l: (Seq<char>, Seq<char>)| index_line(l.0, l.1));
    lemma_join_contains_part(lines, "\n"@, k);
    let joined = join_seqs(lines, "\n"@);
    let i = choose|i: int| is_substring_at(joined, lines[k], i);
    assert((joined + "\n"@).subrange(i, i + lines[k].len()) =~= joined.subrange(i, i + lines[k].len()));
    assert(is_substring_at(joined + "\n"@, lines[k], i));
}

pub open spec fn pair_views(v: Seq<(String, String)>) -> Seq<(Seq<char>, Seq<char>)> {
    v.map_values(|p: (String, String)| (p.0@, p.1@))
}

/// A markdown bullet list linking each `(file, name)`.
pub fn build_index(links: &[(String, String)]) -> (r: String)
    ensures
        r@ == index_text(pair_views(links@)),
{
    let mut lines: Vec<String> = Vec::new();
    let ghost ls = pair_views(links@);
    let mut i: usize = 0;
    while i < links.len()
        invariant
            i <= links@.len(),
            ls == pair_views(links@),
            views(lines@) == ls.take(i as int).map_values(|l: (Seq<char>, Seq<char>)| index_line(l.0, l.1)),
        decreases links@.len() - i,
    {
        let mut line = String::from_str("- [");
        line.append(links[i].1.as_str());
        line.append("](./");
        line.append(links[i].0.as_str());
        line.append(")");
        let ghost old_lines = lines@;
        lines.push(line);
        assert(views(lines@) =~= views(old_lines).push(line@));
        assert(ls.take(i + 1) =~= ls.take(i as int).push(ls[i as int]));
        assert(views(lines@) =~= ls.take(i + 1).map_values(|l: (Seq<char>, Seq<char>)| index_line(l.0, l.1)));
        i += 1;
    }
    assert(ls.take(ls.len() as int) =~= ls);
    let mut r = crate::text::join(&lines, "\n");
    r.append("\n");
    r
}

} // verus!
