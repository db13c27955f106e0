//! What the script engine decides around the calls into a script: which
//! files are scripts, how a row is appended, and how the rows of a script
//! become the rows of its CSV.
use crate::order::{lemma_sorted_map, lemma_sorted_permutes, sort, sorted, HasKey, Keyed};
use crate::paths::{extension_of, join, joined, path_extension, path_file_stem, stem_of};
use crate::text::{blank, chars_of, ends_with, has_suffix, is_blank, texts, trim, trimmed};
use vstd::prelude::*;
use vstd::string::StringExecFns;

verus! {

/// The file at `path` is written in the script language: its extension is
/// `rhai`.
pub open spec fn rhai_file(path: Seq<char>) -> bool {
    path_extension(path) == Some("rhai"@)
}

/// The file at `path` is a module: a script file whose stem ends in
/// `.module`. Modules are imported by scripts and never run alone.
pub open spec fn module_file(path: Seq<char>) -> bool {
    rhai_file(path) && match path_file_stem(path) {
        Some(stem) => ends_with(stem, ".module"@),
        None => false,
    }
}

/// The file at `path` is a script that is run.
pub open spec fn script_file(path: Seq<char>) -> bool {
    rhai_file(path) && !module_file(path)
}

/// Whether the file at `path` is written in the script language.
pub fn is_rhai_file(path: &str) -> (r: bool)
    ensures
        r == rhai_file(path@),
{
    match extension_of(path) {
        Some(extension) => extension.as_str().eq("rhai"),
        None => false,
    }
}

/// Whether the file at `path` is a module.
pub fn is_module(path: &str) -> (r: bool)
    ensures
        r == module_file(path@),
{
    is_rhai_file(path) && match stem_of(path) {
        Some(stem) => has_suffix(&chars_of(stem.as_str()), &chars_of(".module")),
        None => false,
    }
}

/// Whether the file at `path` is a script that is run.
pub fn is_script(path: &str) -> (r: bool)
    ensures
        r == script_file(path@),
{
    is_rhai_file(path) && !is_module(path)
}

/// Where the CSV of the script at `script` is written below `directory`:
/// under the script's stem, with the extension `csv`.
pub open spec fn csv_target(script: Seq<char>, directory: Seq<char>) -> Option<Seq<char>> {
    match path_file_stem(script) {
        Some(stem) => Some(joined(directory, stem + ".csv"@)),
        None => None,
    }
}

/// Where the CSV of a script is written.
pub fn csv_destination(script: &str, directory: &str) -> (r: Option<String>)
    ensures
        crate::paths::some_text(r) == csv_target(script@, directory@),
{
    match stem_of(script) {
        Some(stem) => {
            let mut name = stem;
            name.append(".csv");
            Some(join(directory, name.as_str()))
        },
        None => None,
    }
}

/// The place of the first column that is named `sort_by`.
pub open spec fn column_of(columns: Seq<Seq<char>>, sort_by: Seq<char>) -> Option<int>
    decreases columns.len(),
{
    if columns.len() == 0 {
        None
    } else if columns.first() == sort_by {
        Some(0)
    } else {
        match column_of(columns.drop_first(), sort_by) {
            Some(i) => Some(i + 1),
            None => None,
        }
    }
}

/// The place of the column by which the rows of a script are sorted:
/// `None` where no column has the name.
pub fn sort_by_column(columns: &Vec<String>, sort_by: &str) -> (r: Option<usize>)
    ensures
        match r {
            Some(i) => column_of(texts(columns@), sort_by@) == Some(i as int) && i < columns.len(),
            None => column_of(texts(columns@), sort_by@) is None,
        },
{
    let mut i: usize = 0;
    assert(texts(columns@).skip(0) == texts(columns@));
    while i < columns.len()
        invariant
            i <= columns.len(),
            match column_of(texts(columns@).skip(i as int), sort_by@) {
                Some(k) => column_of(texts(columns@), sort_by@) == Some(k + i),
                None => column_of(texts(columns@), sort_by@) is None,
            },
        decreases columns.len() - i,
    {
        assert(texts(columns@).skip(i as int).drop_first() == texts(columns@).skip(i + 1));
        if columns[i].as_str().eq(sort_by) {
            return Some(i);
        }
        i += 1;
    }
    None
}

/// The cells of `row`, each without the white space at its ends.
pub open spec fn trimmed_row(row: Seq<Seq<char>>) -> Seq<Seq<char>> {
    Seq::new(row.len(), |i: int| trimmed(row[i]))
}

/// Every cell of `row` is blank.
pub open spec fn blank_row(row: Seq<Seq<char>>) -> bool {
    forall|i: int| 0 <= i < row.len() ==> blank(#[trigger] row[i])
}

/// The rows of a list of rows, as plain mathematical values.
pub open spec fn row_texts(rows: Seq<Vec<String>>) -> Seq<Seq<Seq<char>>> {
    Seq::new(rows.len(), |i: int| texts(rows[i]@))
}

/// Appends `row` to `rows`, each cell without the white space at its
/// ends; a row of blank cells only is dropped.
pub fn append_row(rows: &mut Vec<Vec<String>>, row: &Vec<String>)
    ensures
        row_texts(final(rows)@) == if blank_row(texts(row@)) {
            row_texts(old(rows)@)
        } else {
            row_texts(old(rows)@).push(trimmed_row(texts(row@)))
        },
{
    let mut cells: Vec<String> = Vec::new();
    let mut empty = true;
    let mut i: usize = 0;
    while i < row.len()
        invariant
            i <= row.len(),
            cells.len() == i,
            forall|k: int| 0 <= k < i ==> (#[trigger] cells[k])@ == trimmed(row[k]@),
            empty == forall|k: int| 0 <= k < i ==> blank(#[trigger] texts(row@)[k]),
        decreases row.len() - i,
    {
        if !is_blank(row[i].as_str()) {
            empty = false;
            assert(!blank(texts(row@)[i as int]));
        }
        cells.push(trim(row[i].as_str()));
        i += 1;
    }
    if !empty {
        let ghost before = rows@;
        rows.push(cells);
        assert(texts(cells@) =~= trimmed_row(texts(row@)));
        assert(row_texts(rows@) =~= row_texts(before).push(trimmed_row(texts(row@))));
    }
}


/// `a` stands before `b` in the order of strings: character by character,
/// by code point, a proper prefix first.
pub open spec fn text_less(a: Seq<char>, b: Seq<char>) -> bool
    decreases a.len(),
{
    if b.len() == 0 {
        false
    } else if a.len() == 0 {
        true
    } else if (a[0] as u32) < (b[0] as u32) {
        true
    } else if (b[0] as u32) < (a[0] as u32) {
        false
    } else {
        text_less(a.skip(1), b.skip(1))
    }
}

/// `a` stands before `b` in the order of rows: cell by cell, in the order
/// of strings, a proper prefix first.
pub open spec fn row_less(a: Seq<Seq<char>>, b: Seq<Seq<char>>) -> bool
    decreases a.len(),
{
    if b.len() == 0 {
        false
    } else if a.len() == 0 {
        true
    } else if text_less(a[0], b[0]) {
        true
    } else if text_less(b[0], a[0]) {
        false
    } else {
        row_less(a.skip(1), b.skip(1))
    }
}

/// Where `x` enters the rows `s`: behind the last row that it does not
/// stand before.
pub open spec fn row_point(s: Seq<Seq<Seq<char>>>, x: Seq<Seq<char>>) -> int
    decreases s.len(),
{
    if s.len() > 0 && row_less(x, s.last()) {
        row_point(s.drop_last(), x)
    } else {
        s.len() as int
    }
}

/// The rows `s` with `x` among them: a row that is there already is not
/// entered again.
pub open spec fn with_row(s: Seq<Seq<Seq<char>>>, x: Seq<Seq<char>>) -> Seq<Seq<Seq<char>>> {
    if s.contains(x) {
        s
    } else {
        s.insert(row_point(s, x), x)
    }
}

/// The rows as an ordered set holds them: each row once, in the order of
/// rows.
pub open spec fn ordered_set(rows: Seq<Seq<Seq<char>>>) -> Seq<Seq<Seq<char>>>
    decreases rows.len(),
{
    if rows.len() == 0 {
        rows
    } else {
        with_row(ordered_set(rows.drop_last()), rows.last())
    }
}

/// A row together with the place of the cell by which it is sorted.
pub struct RowKey {
    pub cells: Seq<Seq<char>>,
    pub column: usize,
}

impl HasKey for RowKey {
    open spec fn key(&self) -> Seq<char> {
        if self.column < self.cells.len() {
            self.cells[self.column as int]
        } else {
            Seq::empty()
        }
    }
}

/// The rows, each with the place of the cell by which it is sorted.
pub open spec fn keyed_rows(rows: Seq<Seq<Seq<char>>>, column: usize) -> Seq<RowKey> {
    Seq::new(rows.len(), |i: int| RowKey { cells: rows[i], column })
}

/// The rows of a list of keyed rows.
pub open spec fn cells_of(keyed: Seq<RowKey>) -> Seq<Seq<Seq<char>>> {
    Seq::new(keyed.len(), |i: int| keyed[i].cells)
}

/// The rows of the CSV of a script: the rows that the script returned,
/// each once, in the order of rows, and then sorted by the cell at
/// `column` in the alphanumeric order.
pub open spec fn aggregated(rows: Seq<Seq<Seq<char>>>, column: usize) -> Seq<Seq<Seq<char>>> {
    cells_of(sorted(keyed_rows(ordered_set(rows), column)))
}

/// The insertion point of a row lies within the rows.
pub proof fn lemma_row_point_bounds(s: Seq<Seq<Seq<char>>>, x: Seq<Seq<char>>)
    ensures
        0 <= row_point(s, x) <= s.len(),
    decreases s.len(),
{
    if s.len() > 0 && row_less(x, s.last()) {
        lemma_row_point_bounds(s.drop_last(), x);
    }
}

/// An ordered set holds no row twice, and holds the rows it was made of
/// and no others.
pub proof fn lemma_ordered_set(rows: Seq<Seq<Seq<char>>>)
    ensures
        ordered_set(rows).no_duplicates(),
        forall|x: Seq<Seq<char>>| ordered_set(rows).contains(x) <==> rows.contains(x),
    decreases rows.len(),
{
    if rows.len() > 0 {
        let init = rows.drop_last();
        let x = rows.last();
        let s = ordered_set(init);
        lemma_ordered_set(init);
        lemma_row_point_bounds(s, x);
        let j = row_point(s, x);
        let t = with_row(s, x);
        if !s.contains(x) {
            assert forall|a: int, b: int|
                0 <= a < t.len() && 0 <= b < t.len() && a != b implies t[a] != t[b] by {
                let a0 = if a < j {
                    a
                } else {
                    a - 1
                };
                let b0 = if b < j {
                    b
                } else {
                    b - 1
                };
                if a == j {
                    assert(t[b] == s[b0]);
                    assert(s.contains(s[b0]));
                } else if b == j {
                    assert(t[a] == s[a0]);
                    assert(s.contains(s[a0]));
                } else {
                    assert(t[a] == s[a0] && t[b] == s[b0]);
                }
            }
        }
        assert forall|y: Seq<Seq<char>>| t.contains(y) <==> rows.contains(y) by {
            if t.contains(y) {
                let k = choose|k: int| 0 <= k < t.len() && t[k] == y;
                if s.contains(x) || k != j {
                    let k0 = if s.contains(x) || k < j {
                        k
                    } else {
                        k - 1
                    };
                    assert(s[k0] == y);
                    assert(s.contains(y));
                    assert(init.contains(y));
                    let m = choose|m: int| 0 <= m < init.len() && init[m] == y;
                    assert(rows[m] == y);
                } else {
                    assert(rows[rows.len() - 1] == y);
                }
            }
            if rows.contains(y) {
                let m = choose|m: int| 0 <= m < rows.len() && rows[m] == y;
                if m < init.len() {
                    assert(init[m] == y);
                    assert(init.contains(y));
                    assert(s.contains(y));
                    let k = choose|k: int| 0 <= k < s.len() && s[k] == y;
                    if s.contains(x) {
                        assert(t[k] == y);
                    } else if k < j {
                        assert(t[k] == y);
                    } else {
                        assert(t[k + 1] == y);
                    }
                } else {
                    if s.contains(x) {
                    } else {
                        assert(t[j] == y);
                    }
                }
            }
        }
    }
}

/// The CSV of a script holds no two identical rows.
pub proof fn lemma_aggregated_rows_differ(rows: Seq<Seq<Seq<char>>>, column: usize)
    ensures
        aggregated(rows, column).no_duplicates(),
{
    let u = ordered_set(rows);
    lemma_ordered_set(rows);
    let k = keyed_rows(u, column);
    assert(k.no_duplicates()) by {
        assert forall|a: int, b: int|
            0 <= a < k.len() && 0 <= b < k.len() && a != b implies k[a] != k[b] by {
            assert(k[a].cells == u[a] && k[b].cells == u[b]);
        }
    }
    let s = sorted(k);
    lemma_sorted_permutes(k);
    k.lemma_multiset_has_no_duplicates();
    s.lemma_multiset_has_no_duplicates_conv();
    let r = cells_of(s);
    assert forall|a: int, b: int|
        0 <= a < r.len() && 0 <= b < r.len() && a != b implies r[a] != r[b] by {
        broadcast use vstd::seq_lib::group_to_multiset_ensures;
        assert(s.to_multiset().contains(s[a]));
        assert(s.to_multiset().contains(s[b]));
        assert(k.to_multiset().contains(s[a]));
        assert(k.to_multiset().contains(s[b]));
        assert(k.contains(s[a]));
        assert(k.contains(s[b]));
        assert(s[a].column == column);
        assert(s[b].column == column);
        assert(s[a] != s[b]);
    }
}

/// An ordered set of rows of which none was returned twice holds as many
/// rows as were returned.
pub proof fn lemma_ordered_set_of_distinct(rows: Seq<Seq<Seq<char>>>)
    requires
        rows.no_duplicates(),
    ensures
        ordered_set(rows).len() == rows.len(),
    decreases rows.len(),
{
    if rows.len() > 0 {
        let init = rows.drop_last();
        let x = rows.last();
        assert(init.no_duplicates()) by {
            assert forall|a: int, b: int|
                0 <= a < init.len() && 0 <= b < init.len() && a != b implies init[a] != init[b] by {
                assert(init[a] == rows[a] && init[b] == rows[b]);
            }
        }
        lemma_ordered_set_of_distinct(init);
        lemma_ordered_set(init);
        let s = ordered_set(init);
        if s.contains(x) {
            assert(init.contains(x));
            let m = choose|m: int| 0 <= m < init.len() && init[m] == x;
            assert(rows[m] == rows[rows.len() - 1]);
        }
        lemma_row_point_bounds(s, x);
    }
}

/// The CSV of a script holds the rows that the script returned and no
/// others; where the script returned no row twice, it holds as many rows
/// as were returned.
pub proof fn lemma_aggregated_rows_kept(rows: Seq<Seq<Seq<char>>>, column: usize)
    ensures
        forall|x: Seq<Seq<char>>| aggregated(rows, column).contains(x) <==> rows.contains(x),
        rows.no_duplicates() ==> aggregated(rows, column).len() == rows.len(),
{
    broadcast use vstd::seq_lib::group_to_multiset_ensures;
    let u = ordered_set(rows);
    lemma_ordered_set(rows);
    let k = keyed_rows(u, column);
    let s = sorted(k);
    lemma_sorted_permutes(k);
    let r = cells_of(s);
    assert(r == aggregated(rows, column));
    assert forall|x: Seq<Seq<char>>| r.contains(x) <==> rows.contains(x) by {
        if r.contains(x) {
            let i = choose|i: int| 0 <= i < r.len() && r[i] == x;
            assert(s.to_multiset().contains(s[i]));
            assert(k.to_multiset().contains(s[i]));
            assert(k.contains(s[i]));
            let j = choose|j: int| 0 <= j < k.len() && k[j] == s[i];
            assert(u[j] == x);
            assert(u.contains(x));
        }
        if rows.contains(x) {
            assert(u.contains(x));
            let j = choose|j: int| 0 <= j < u.len() && u[j] == x;
            assert(k[j].cells == x);
            assert(k.to_multiset().contains(k[j]));
            assert(s.to_multiset().contains(k[j]));
            assert(s.contains(k[j]));
            let i = choose|i: int| 0 <= i < s.len() && s[i] == k[j];
            assert(r[i] == x);
        }
    }
    if rows.no_duplicates() {
        lemma_ordered_set_of_distinct(rows);
    }
}

/// The cells at `column`, row by row.
pub open spec fn column_of_rows(rows: Seq<Seq<Seq<char>>>, column: usize) -> Seq<Seq<char>> {
    Seq::new(rows.len(), |i: int| rows[i][column as int])
}

/// Places that grow from each to the next and stay below their number are
/// at least their own index.
pub proof fn lemma_growing_from_below(m: Seq<int>, i: int)
    requires
        0 <= i < m.len(),
        forall|k: int| 0 <= k < m.len() ==> 0 <= #[trigger] m[k] < m.len(),
        forall|k: int| 0 <= k < m.len() - 1 ==> #[trigger] m[k] < m[k + 1],
    ensures
        m[i] >= i,
    decreases i,
{
    if i > 0 {
        lemma_growing_from_below(m, i - 1);
        assert(m[i - 1] < m[i - 1 + 1]);
    }
}

/// Places that grow from each to the next and stay below their number are
/// at most their own index.
pub proof fn lemma_growing_from_above(m: Seq<int>, i: int)
    requires
        0 <= i < m.len(),
        forall|k: int| 0 <= k < m.len() ==> 0 <= #[trigger] m[k] < m.len(),
        forall|k: int| 0 <= k < m.len() - 1 ==> #[trigger] m[k] < m[k + 1],
    ensures
        m[i] <= i,
    decreases m.len() - i,
{
    if i < m.len() - 1 {
        lemma_growing_from_above(m, i + 1);
        assert(m[i] < m[i + 1]);
    }
}

/// Where the alphanumeric rank is that of an order on the cells of the
/// sort column, and each of these cells precedes those of the rows behind
/// it, the CSV of a script holds the rows as the script returned them.
pub proof fn lemma_aggregated_of_increasing(rows: Seq<Seq<Seq<char>>>, column: usize)
    requires
        forall|i: int| 0 <= i < rows.len() ==> column < (#[trigger] rows[i]).len(),
        crate::order::ranks_as_order(column_of_rows(rows, column)),
        forall|i: int, j: int|
            0 <= i < j < rows.len() ==> crate::order::precedes(
                #[trigger] column_of_rows(rows, column)[i],
                #[trigger] column_of_rows(rows, column)[j],
            ),
    ensures
        aggregated(rows, column) == rows,
{
    broadcast use vstd::seq_lib::group_to_multiset_ensures;
    let ks = column_of_rows(rows, column);
    let n = rows.len() as int;
    assert forall|i: int, j: int| 0 <= i < n && 0 <= j < n && i != j implies rows[i] != rows[j] by {
        let a = if i < j { i } else { j };
        let b = if i < j { j } else { i };
        if rows[i] == rows[j] {
            assert(ks[a] == ks[b]);
            assert(crate::order::precedes(ks[a], ks[b]));
            assert((crate::order::alphanumeric_rank(ks[a], ks[a]) == crate::order::Rank::Greater)
                == (crate::order::alphanumeric_rank(ks[a], ks[a]) == crate::order::Rank::Less));
        }
    }
    assert(rows.no_duplicates());
    let r = aggregated(rows, column);
    lemma_aggregated_rows_kept(rows, column);
    lemma_aggregated_rows_differ(rows, column);
    let u = ordered_set(rows);
    let k = keyed_rows(u, column);
    let s = sorted(k);
    lemma_sorted_permutes(k);
    crate::order::lemma_sorted_ordered(k);
    assert(r == cells_of(s));
    let m = Seq::new(n as nat, |i: int| choose|p: int| 0 <= p < n && rows[p] == r[i]);
    assert forall|i: int| 0 <= i < n implies 0 <= #[trigger] m[i] < n && rows[m[i]] == r[i] by {
        assert(r.contains(r[i]));
        assert(rows.contains(r[i]));
    }
    assert forall|i: int| 0 <= i < n implies crate::order::keys(s)[i] == ks[#[trigger] m[i]] by {
        assert(s.to_multiset().contains(s[i]));
        assert(k.to_multiset().contains(s[i]));
        assert(k.contains(s[i]));
        assert(s[i].column == column);
        assert(s[i].cells == r[i]);
        assert(rows[m[i]] == r[i]);
    }
    assert forall|i: int| 0 <= i < m.len() - 1 implies #[trigger] m[i] < m[i + 1] by {
        let a = ks[m[i]];
        let b = ks[m[i + 1]];
        assert(crate::order::in_order(crate::order::keys(s)[i], crate::order::keys(s)[i + 1]));
        assert(crate::order::in_order(a, b));
        if m[i] == m[i + 1] {
            assert(r[i] == r[i + 1]);
        }
        if m[i + 1] < m[i] {
            assert(crate::order::precedes(ks[m[i + 1]], ks[m[i]]));
            assert((crate::order::alphanumeric_rank(ks[m[i + 1]], ks[m[i]])
                == crate::order::Rank::Greater) == (crate::order::alphanumeric_rank(
                ks[m[i]],
                ks[m[i + 1]],
            ) == crate::order::Rank::Less));
        }
    }
    assert forall|i: int| 0 <= i < n implies r[i] == rows[i] by {
        lemma_growing_from_below(m, i);
        lemma_growing_from_above(m, i);
        assert(rows[m[i]] == r[i]);
    }
    assert(r =~= rows);
}

/// Whether `a` stands before `b` in the order of strings.
pub fn text_precedes(a: &str, b: &str) -> (r: bool)
    ensures
        r == text_less(a@, b@),
{
    let x = chars_of(a);
    let y = chars_of(b);
    let mut i: usize = 0;
    assert(x@.skip(0) == x@ && y@.skip(0) == y@);
    while i < x.len() && i < y.len()
        invariant
            i <= x.len(),
            i <= y.len(),
            x@ == a@,
            y@ == b@,
            text_less(a@, b@) == text_less(x@.skip(i as int), y@.skip(i as int)),
        decreases x.len() - i,
    {
        assert(x@.skip(i as int).skip(1) == x@.skip(i + 1));
        assert(y@.skip(i as int).skip(1) == y@.skip(i + 1));
        if (x[i] as u32) < (y[i] as u32) {
            return true;
        }
        if (y[i] as u32) < (x[i] as u32) {
            return false;
        }
        i += 1;
    }
    i < y.len()
}

/// Whether `a` stands before `b` in the order of rows.
pub fn row_precedes(a: &Vec<String>, b: &Vec<String>) -> (r: bool)
    ensures
        r == row_less(texts(a@), texts(b@)),
{
    let mut i: usize = 0;
    assert(texts(a@).skip(0) == texts(a@) && texts(b@).skip(0) == texts(b@));
    while i < a.len() && i < b.len()
        invariant
            i <= a.len(),
            i <= b.len(),
            row_less(texts(a@), texts(b@)) == row_less(
                texts(a@).skip(i as int),
                texts(b@).skip(i as int),
            ),
        decreases a.len() - i,
    {
        assert(texts(a@).skip(i as int).skip(1) == texts(a@).skip(i + 1));
        assert(texts(b@).skip(i as int).skip(1) == texts(b@).skip(i + 1));
        if text_precedes(a[i].as_str(), b[i].as_str()) {
            return true;
        }
        if text_precedes(b[i].as_str(), a[i].as_str()) {
            return false;
        }
        i += 1;
    }
    i < b.len()
}

/// Whether two rows hold the same cells.
pub fn same_row(a: &Vec<String>, b: &Vec<String>) -> (r: bool)
    ensures
        r == (texts(a@) == texts(b@)),
{
    if a.len() != b.len() {
        assert(texts(a@).len() != texts(b@).len());
        return false;
    }
    let mut i: usize = 0;
    while i < a.len()
        invariant
            i <= a.len(),
            a.len() == b.len(),
            forall|k: int| 0 <= k < i ==> a[k]@ == b[k]@,
        decreases a.len() - i,
    {
        if !a[i].as_str().eq(b[i].as_str()) {
            assert(texts(a@)[i as int] != texts(b@)[i as int]);
            return false;
        }
        i += 1;
    }
    assert(texts(a@) =~= texts(b@));
    true
}

/// Enters `row` into the ordered set `rows`.
pub fn insert_row(rows: &mut Vec<Vec<String>>, row: Vec<String>)
    ensures
        row_texts(final(rows)@) == with_row(row_texts(old(rows)@), texts(row@)),
{
    let mut k: usize = 0;
    while k < rows.len()
        invariant
            k <= rows.len(),
            rows@ == old(rows)@,
            forall|m: int| 0 <= m < k ==> row_texts(rows@)[m] != texts(row@),
        decreases rows.len() - k,
    {
        if same_row(&rows[k], &row) {
            assert(row_texts(rows@)[k as int] == texts(row@));
            return;
        }
        k += 1;
    }
    let mut j: usize = rows.len();
    assert(row_texts(rows@).take(j as int) == row_texts(rows@));
    while j > 0 && row_precedes(&row, &rows[j - 1])
        invariant
            j <= rows.len(),
            rows@ == old(rows)@,
            row_point(row_texts(rows@), texts(row@)) == row_point(
                row_texts(rows@).take(j as int),
                texts(row@),
            ),
        decreases j,
    {
        assert(row_texts(rows@).take(j as int).drop_last() == row_texts(rows@).take(j - 1));
        assert(row_texts(rows@).take(j as int).last() == texts(rows@[j - 1]@));
        j -= 1;
    }
    proof {
        if j > 0 {
            assert(row_texts(rows@).take(j as int).last() == texts(rows@[j - 1]@));
        }
    }
    rows.insert(j, row);
    assert(row_texts(rows@) =~= row_texts(old(rows)@).insert(j as int, texts(row@)));
}

/// The rows as an ordered set holds them.
pub fn deduplicate(rows: Vec<Vec<String>>) -> (r: Vec<Vec<String>>)
    ensures
        row_texts(r@) == ordered_set(row_texts(rows@)),
{
    let ghost all = rows@;
    let mut stack = crate::order::reversed(rows);
    let mut r: Vec<Vec<String>> = Vec::new();
    assert(row_texts(all).take(0) =~= Seq::empty());
    assert(row_texts(r@) =~= Seq::empty());
    while stack.len() > 0
        invariant
            stack.len() <= all.len(),
            forall|k: int| 0 <= k < stack.len() ==> stack@[k] == all[all.len() - 1 - k],
            row_texts(r@) == ordered_set(row_texts(all).take(all.len() - stack.len())),
        decreases stack.len(),
    {
        let ghost n = all.len() - stack.len();
        let row = stack.pop().unwrap();
        assert(row_texts(all).take(n + 1).drop_last() == row_texts(all).take(n));
        assert(row_texts(all).take(n + 1).last() == texts(row@));
        insert_row(&mut r, row);
    }
    assert(row_texts(all).take(all.len() as int) == row_texts(all));
    r
}

/// A row with the place of the cell by which it is sorted.
pub struct SortRow {
    pub cells: Vec<String>,
    pub column: usize,
}

impl View for SortRow {
    type V = RowKey;

    open spec fn view(&self) -> RowKey {
        RowKey { cells: texts(self.cells@), column: self.column }
    }
}

impl HasKey for SortRow {
    open spec fn key(&self) -> Seq<char> {
        self@.key()
    }
}

impl Keyed for SortRow {
    fn key_str(&self) -> (k: &str) {
        if self.column < self.cells.len() {
            self.cells[self.column].as_str()
        } else {
            proof {
                reveal_strlit("");
                assert(""@ =~= Seq::<char>::empty());
            }
            ""
        }
    }
}

/// The views of a list of rows that are to be sorted.
pub open spec fn sort_row_views(rows: Seq<SortRow>) -> Seq<RowKey> {
    Seq::new(rows.len(), |i: int| rows[i]@)
}

/// The rows of the CSV of a script: each row once, sorted by the cell at
/// `sort_by_column` in the alphanumeric order; rows whose cells there do
/// not precede one another stand in the order of rows.
pub fn aggregate_rows(rows: Vec<Vec<String>>, sort_by_column: usize) -> (r: Vec<Vec<String>>)
    ensures
        row_texts(r@) == aggregated(row_texts(rows@), sort_by_column),
        row_texts(r@).no_duplicates(),
{
    let ghost input = row_texts(rows@);
    let unique = deduplicate(rows);
    let ghost set = row_texts(unique@);
    let mut stack = crate::order::reversed(unique);
    let mut keyed: Vec<SortRow> = Vec::new();
    assert(sort_row_views(keyed@) =~= keyed_rows(set.take(0), sort_by_column));
    while stack.len() > 0
        invariant
            stack.len() <= set.len(),
            forall|k: int|
                0 <= k < stack.len() ==> texts((#[trigger] stack@[k])@) == set[set.len() - 1 - k],
            sort_row_views(keyed@) == keyed_rows(
                set.take(set.len() - stack.len()),
                sort_by_column,
            ),
        decreases stack.len(),
    {
        let ghost n = set.len() - stack.len();
        let ghost before = keyed@;
        let cells = stack.pop().unwrap();
        let made = SortRow { cells, column: sort_by_column };
        keyed.push(made);
        assert(sort_row_views(keyed@) =~= sort_row_views(before).push(made@));
        assert(keyed_rows(set.take(n + 1), sort_by_column) =~= keyed_rows(
            set.take(n),
            sort_by_column,
        ).push(made@));
    }
    assert(set.take(set.len() as int) == set);
    let ghost unsorted = keyed@;
    let in_order = sort(keyed);
    proof {
        let f = |row: SortRow| row@;
        lemma_sorted_map(unsorted, f);
        assert(unsorted.map_values(f) =~= sort_row_views(unsorted));
        assert(sorted(unsorted).map_values(f) =~= sort_row_views(sorted(unsorted)));
    }
    let ghost target = sorted(keyed_rows(set, sort_by_column));
    let mut stack = crate::order::reversed(in_order);
    let mut r: Vec<Vec<String>> = Vec::new();
    assert(row_texts(r@) =~= cells_of(target.take(0)));
    while stack.len() > 0
        invariant
            stack.len() <= target.len(),
            forall|k: int|
                0 <= k < stack.len() ==> (#[trigger] stack@[k])@ == target[target.len() - 1 - k],
            row_texts(r@) == cells_of(target.take(target.len() - stack.len())),
        decreases stack.len(),
    {
        let ghost n = target.len() - stack.len();
        let ghost before = r@;
        let row = stack.pop().unwrap();
        r.push(row.cells);
        assert(row_texts(r@) =~= row_texts(before).push(texts(row.cells@)));
        assert(cells_of(target.take(n + 1)) =~= cells_of(target.take(n)).push(texts(row.cells@)));
    }
    proof {
        assert(target.take(target.len() as int) == target);
        lemma_aggregated_rows_differ(input, sort_by_column);
    }
    r
}


/// What the calls into one script gave: the columns and the name of the
/// column to sort by, from `headers()`, and the rows of all objects, from
/// `rows(pid)`, in the order of the calls.
pub struct ScriptOutput {
    pub columns: Vec<String>,
    pub sort_by: String,
    pub rows: Vec<Vec<String>>,
}

/// The CSV of a script: its header and its rows.
pub struct Table {
    pub header: Vec<String>,
    pub rows: Vec<Vec<String>>,
}

impl Table {
    /// The table is the CSV of a script that gave `columns` and `rows` and
    /// is sorted by the column at `column`.
    pub open spec fn is_csv_of(self, columns: Seq<Seq<char>>, rows: Seq<Seq<Seq<char>>>, column: int) -> bool {
        &&& texts(self.header@) == columns
        &&& row_texts(self.rows@) == aggregated(rows, column as usize)
    }
}

/// Makes the CSV of a script of what the calls into it gave: the header
/// as it is, and the rows each once and sorted by the column that
/// `sort_by` names. `None` where no column has that name.
pub fn execute_script(output: ScriptOutput) -> (r: Option<Table>)
    ensures
        match column_of(texts(output.columns@), output.sort_by@) {
            Some(column) => r matches Some(table) && table.is_csv_of(
                texts(output.columns@),
                row_texts(output.rows@),
                column,
            ) && row_texts(table.rows@).no_duplicates(),
            None => r is None,
        },
{
    let ScriptOutput { columns, sort_by, rows } = output;
    match sort_by_column(&columns, sort_by.as_str()) {
        Some(column) => {
            let rows = aggregate_rows(rows, column);
            Some(Table { header: columns, rows })
        },
        None => None,
    }
}

/// What `execute_script` makes of `output`.
pub open spec fn executed(output: ScriptOutput, table: Option<Table>) -> bool {
    match column_of(texts(output.columns@), output.sort_by@) {
        Some(column) => table matches Some(t) && t.is_csv_of(
            texts(output.columns@),
            row_texts(output.rows@),
            column,
        ),
        None => table is None,
    }
}

/// Makes the CSV of each script, one for one.
pub fn execute_scripts(outputs: Vec<ScriptOutput>) -> (r: Vec<Option<Table>>)
    ensures
        r.len() == outputs.len(),
        forall|i: int| 0 <= i < r.len() ==> executed(outputs[i], #[trigger] r[i]),
{
    let ghost all = outputs@;
    let mut stack = crate::order::reversed(outputs);
    let mut r: Vec<Option<Table>> = Vec::new();
    while stack.len() > 0
        invariant
            stack.len() <= all.len(),
            forall|k: int| 0 <= k < stack.len() ==> stack@[k] == all[all.len() - 1 - k],
            r.len() == all.len() - stack.len(),
            forall|i: int| 0 <= i < r.len() ==> executed(all[i], #[trigger] r[i]),
        decreases stack.len(),
    {
        let output = stack.pop().unwrap();
        r.push(execute_script(output));
    }
    r
}

} // verus!
