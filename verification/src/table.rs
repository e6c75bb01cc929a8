//! Aligned tables. Every row has the same number of cells; each cell is padded
//! to the width of its column, and the padded cells of a row are joined by a
//! separator. Widths count characters.
//!
//! A table is modelled as a `Seq<Seq<Seq<char>>>`: rows of cells of characters.

use crate::text::{pad_right, padded_right};
use vstd::prelude::*;
use vstd::string::*;

verus! {

// ---------------------------------------------------------------------------
// Model
// ---------------------------------------------------------------------------

/// Every row of `rows` has `arity` cells.
pub open spec fn has_arity(rows: Seq<Seq<Seq<char>>>, arity: nat) -> bool {
    forall|i: int| 0 <= i < rows.len() ==> (#[trigger] rows[i]).len() == arity
}

/// The width of column `j`: the length of the longest cell in it.
pub open spec fn column_width(rows: Seq<Seq<Seq<char>>>, j: int) -> nat
    decreases rows.len(),
{
    if rows.len() == 0 {
        0
    } else {
        let above = column_width(rows.drop_last(), j);
        let here = rows.last()[j].len();
        if here > above {
            here
        } else {
            above
        }
    }
}

/// The widths of the first `arity` columns.
pub open spec fn column_widths(rows: Seq<Seq<Seq<char>>>, arity: nat) -> Seq<nat> {
    Seq::new(arity, |j: int| column_width(rows, j))
}

/// The cells of `row`, each padded on the right to the width of its column.
pub open spec fn padded_cells(row: Seq<Seq<char>>, widths: Seq<nat>) -> Seq<Seq<char>> {
    Seq::new(row.len(), |j: int| padded_right(row[j], widths[j]))
}

/// The texts of `parts` in order, with `sep` between each two neighbours.
pub open spec fn joined(parts: Seq<Seq<char>>, sep: Seq<char>) -> Seq<char>
    decreases parts.len(),
{
    if parts.len() == 0 {
        Seq::empty()
    } else if parts.len() == 1 {
        parts[0]
    } else {
        joined(parts.drop_last(), sep) + sep + parts.last()
    }
}

/// Row `i` of the table as one text: its padded cells, joined by `sep`.
pub open spec fn row_text(rows: Seq<Seq<Seq<char>>>, i: int, sep: Seq<char>) -> Seq<char> {
    joined(padded_cells(rows[i], column_widths(rows, rows[i].len())), sep)
}

/// Where column `j` starts in a row text: after the columns before it, each
/// followed by a separator of `sep_len` characters.
pub open spec fn column_start(widths: Seq<nat>, sep_len: nat, j: int) -> nat
    decreases j,
{
    if j <= 0 {
        0
    } else {
        column_start(widths, sep_len, j - 1) + widths[j - 1] + sep_len
    }
}

/// The numbers of `s` as mathematical naturals.
pub open spec fn as_nats(s: Seq<usize>) -> Seq<nat> {
    Seq::new(s.len(), |j: int| s[j] as nat)
}

// ---------------------------------------------------------------------------
// Laws
// ---------------------------------------------------------------------------

/// No cell of a column is longer than the column is wide.
pub proof fn lemma_column_width_bounds(rows: Seq<Seq<Seq<char>>>, j: int, i: int)
    requires
        0 <= i < rows.len(),
    ensures
        rows[i][j].len() <= column_width(rows, j),
    decreases rows.len(),
{
    if i < rows.len() - 1 {
        lemma_column_width_bounds(rows.drop_last(), j, i);
    }
}

/// A column of a table with rows is as wide as one of its cells is long.
pub proof fn lemma_column_width_attained(rows: Seq<Seq<Seq<char>>>, j: int) -> (i: int)
    requires
        rows.len() > 0,
    ensures
        0 <= i < rows.len(),
        rows[i][j].len() == column_width(rows, j),
    decreases rows.len(),
{
    if rows.len() == 1 {
        assert(column_width(rows.drop_last(), j) == 0);
        0
    } else if rows.last()[j].len() > column_width(rows.drop_last(), j) {
        rows.len() - 1
    } else {
        lemma_column_width_attained(rows.drop_last(), j)
    }
}

/// Where the parts have the lengths `widths`, part `j` of the joined text
/// stands at `column_start(widths, sep.len(), j)`, whole.
pub proof fn lemma_joined_part(parts: Seq<Seq<char>>, widths: Seq<nat>, sep: Seq<char>, j: int)
    requires
        parts.len() == widths.len(),
        forall|k: int| 0 <= k < parts.len() ==> (#[trigger] parts[k]).len() == widths[k],
        0 <= j < parts.len(),
    ensures
        joined(parts, sep).len() == column_start(widths, sep.len(), parts.len() - 1) + widths[parts.len()
            - 1],
        column_start(widths, sep.len(), j) + widths[j] <= joined(parts, sep).len(),
        joined(parts, sep).subrange(
            column_start(widths, sep.len(), j) as int,
            (column_start(widths, sep.len(), j) + widths[j]) as int,
        ) == parts[j],
    decreases parts.len(),
{
    let n = parts.len() as int;
    if n > 1 {
        let front = parts.drop_last();
        let front_widths = widths.drop_last();
        lemma_column_start_prefix(widths, front_widths, sep.len(), n - 2);
        lemma_joined_part(front, front_widths, sep, n - 2);
        if j < n - 1 {
            lemma_column_start_prefix(widths, front_widths, sep.len(), j);
            lemma_joined_part(front, front_widths, sep, j);
            lemma_column_start_monotonic(widths, sep.len(), j, n - 1);
        }
    }
}

/// Column starts depend on the widths of the columns before only.
pub proof fn lemma_column_start_prefix(a: Seq<nat>, b: Seq<nat>, sep_len: nat, j: int)
    requires
        forall|k: int| 0 <= k < j ==> a[k] == b[k],
    ensures
        column_start(a, sep_len, j) == column_start(b, sep_len, j),
    decreases j,
{
    if j > 0 {
        lemma_column_start_prefix(a, b, sep_len, j - 1);
    }
}

/// A later column starts after an earlier one ends.
pub proof fn lemma_column_start_monotonic(widths: Seq<nat>, sep_len: nat, j: int, k: int)
    requires
        0 <= j < k,
    ensures
        column_start(widths, sep_len, j) + widths[j] + sep_len <= column_start(widths, sep_len, k),
    decreases k,
{
    if j < k - 1 {
        lemma_column_start_monotonic(widths, sep_len, j, k - 1);
    }
}

/// Column alignment: in the text of every row, cell `j` stands at the same
/// place, `column_start(widths, sep.len(), j)`, and fills the width of its
/// column exactly.
pub proof fn lemma_columns_aligned(
    rows: Seq<Seq<Seq<char>>>,
    arity: nat,
    sep: Seq<char>,
    i: int,
    j: int,
)
    requires
        has_arity(rows, arity),
        0 <= i < rows.len(),
        0 <= j < arity,
    ensures
        ({
            let widths = column_widths(rows, arity);
            let start = column_start(widths, sep.len(), j);
            let line = row_text(rows, i, sep);
            &&& start + widths[j] <= line.len()
            &&& line.subrange(start as int, (start + widths[j]) as int) == padded_right(
                rows[i][j],
                widths[j],
            )
            &&& padded_right(rows[i][j], widths[j]).len() == widths[j]
            &&& line.len() == column_start(widths, sep.len(), arity - 1) + widths[arity - 1]
        }),
{
    let widths = column_widths(rows, arity);
    let parts = padded_cells(rows[i], widths);
    assert forall|k: int| 0 <= k < parts.len() implies (#[trigger] parts[k]).len() == widths[k] by {
        lemma_column_width_bounds(rows, k, i);
    }
    lemma_joined_part(parts, widths, sep, j);
}

/// Rows held as arrays of `N` cells have `N` cells each.
pub proof fn lemma_rows_have_arity<const N: usize>(entries: Vec<[String; N]>)
    ensures
        has_arity(entries.deep_view(), N as nat),
{
    assert forall|i: int| 0 <= i < entries.deep_view().len() implies (
    #[trigger] entries.deep_view()[i]).len() == N by {}
}

// ---------------------------------------------------------------------------
// Functions
// ---------------------------------------------------------------------------

/// Measures the columns of `entries`.
pub fn measure_columns<const N: usize>(entries: &Vec<[String; N]>) -> (widths: [usize; N])
    ensures
        as_nats(widths@) == column_widths(entries.deep_view(), N as nat),
{
    let ghost rows = entries.deep_view();
    let mut widths: [usize; N] = [0usize; N];
    let mut i: usize = 0;
    while i < entries.len()
        invariant
            i <= entries.len(),
            rows == entries.deep_view(),
            forall|k: int| 0 <= k < N ==> widths@[k] == column_width(rows.take(i as int), k),
        decreases entries.len() - i,
    {
        let ghost upto = rows.take(i as int);
        let ghost with_row = rows.take(i + 1);
        let mut j: usize = 0;
        while j < N
            invariant
                j <= N,
                i < entries.len(),
                rows == entries.deep_view(),
                upto == rows.take(i as int),
                with_row == rows.take(i + 1),
                with_row.drop_last() == upto,
                with_row.last() == rows[i as int],
                forall|k: int| 0 <= k < j ==> widths@[k] == column_width(with_row, k),
                forall|k: int| j <= k < N ==> widths@[k] == column_width(upto, k),
            decreases N - j,
        {
            let len: usize = entries[i][j].as_str().unicode_len();
            if len > widths[j] {
                widths[j] = len;
            }
            proof {
                assert(column_width(with_row, j as int) == if rows[i as int][j as int].len()
                    > column_width(upto, j as int) {
                    rows[i as int][j as int].len()
                } else {
                    column_width(upto, j as int)
                });
            }
            j += 1;
        }
        i += 1;
    }
    proof {
        assert(rows.take(entries.len() as int) =~= rows);
    }
    widths
}

/// Writes one row: its cells padded to `widths` and joined by `sep`.
pub fn format_row<const N: usize>(row: &[String; N], widths: &[usize; N], sep: &str) -> (r: String)
    ensures
        r@ == joined(padded_cells(row.deep_view(), as_nats(widths@)), sep@),
{
    let ghost parts = padded_cells(row.deep_view(), as_nats(widths@));
    let mut out = String::new();
    let mut j: usize = 0;
    while j < N
        invariant
            j <= N,
            parts == padded_cells(row.deep_view(), as_nats(widths@)),
            parts.len() == N,
            out@ == joined(parts.take(j as int), sep@),
        decreases N - j,
    {
        let cell = pad_right(row[j].as_str(), widths[j]);
        proof {
            let now = parts.take(j + 1);
            assert(now.drop_last() =~= parts.take(j as int));
        }
        if j > 0 {
            out.append(sep);
        }
        out.append(cell.as_str());
        j += 1;
    }
    proof {
        assert(parts.take(N as int) =~= parts);
    }
    out
}

} // verus!
