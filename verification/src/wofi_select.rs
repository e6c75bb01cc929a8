//! The menu whose lines end with their row number.
//!
//! A line is the cells of the row, each padded to the width of its column and
//! joined by `"  |  "`, then `" ::index:"` and the row number:
//!
//! ```text
//! GitHub   |  alice  |  https://github.com ::index:0
//! Mail     |  bob    |                     ::index:1
//! ```
//!
//! Decoding is the inverse: what follows the last `::index:` of the line is the
//! row number, and a line without `::index:` is refused. No cell can get in
//! the way, whatever it holds, because a row number holds no `:`, so the last
//! `::index:` of a line is always the one that was written after the cells.

use crate::error::{result_text, Error};
use crate::table::{
    as_nats, column_start, column_widths, format_row, has_arity, lemma_columns_aligned,
    measure_columns, row_text,
};
use crate::text::{
    chars_of, decimal, decimal_string, find_last, is_digit, last_occurrence,
    lemma_decimal_digits, lemma_last_occurrence_upto, lemma_leading_whitespace_bound,
    lemma_parse_decimal, leading_whitespace, occurs_at, padded_right, parse_usize, parsed_usize,
    trimmed,
};
use vstd::prelude::*;
use vstd::string::*;

verus! {

// ---------------------------------------------------------------------------
// Model
// ---------------------------------------------------------------------------

/// What stands between two cells.
pub open spec fn separator() -> Seq<char> {
    "  |  "@
}

/// What announces the row number.
pub open spec fn marker() -> Seq<char> {
    "::index:"@
}

/// Line `i` of the menu of `rows`.
pub open spec fn table_line(rows: Seq<Seq<Seq<char>>>, i: int) -> Seq<char> {
    row_text(rows, i, separator()) + seq![' '] + marker() + decimal(i as nat)
}

/// The menu of `rows`: one line for each row, in order.
pub open spec fn table(rows: Seq<Seq<Seq<char>>>) -> Seq<Seq<char>> {
    Seq::new(rows.len(), |i: int| table_line(rows, i))
}

/// The row that the line `raw` stands for in a menu of `row_count` rows: the
/// number that follows the last marker of the line. A line without a marker
/// stands for no row.
pub open spec fn decoded(raw: Seq<char>, row_count: nat) -> Result<usize, Error> {
    let at = last_occurrence(raw, marker());
    if at < 0 {
        Err(Error::MalformedSelection)
    } else {
        match parsed_usize(raw.skip(at + marker().len())) {
            None => Err(Error::MalformedSelection),
            Some(n) => if n < row_count {
                Ok(n)
            } else {
                Err(Error::IndexOutOfRange)
            },
        }
    }
}

/// The row chosen from a menu of `row_count` rows, given what the picker run
/// came to.
pub open spec fn selected(row_count: nat, presented: Result<Seq<char>, Error>) -> Result<
    usize,
    Error,
> {
    if row_count == 0 {
        Err(Error::EmptyTable)
    } else {
        match presented {
            Err(e) => Err(e),
            Ok(line) => decoded(line, row_count),
        }
    }
}

// ---------------------------------------------------------------------------
// Functions
// ---------------------------------------------------------------------------

/// Writes the menu of `entries`. A table without rows has no menu.
pub fn table_lines<const N: usize>(entries: &Vec<[String; N]>) -> (r: Result<Vec<String>, Error>)
    ensures
        match r {
            Ok(lines) => {
                &&& entries.len() > 0
                &&& lines.deep_view() == table(entries.deep_view())
                &&& forall|i: int|
                    0 <= i < lines.len() ==> decoded((#[trigger] lines@[i])@, entries.len() as nat)
                        == Ok::<usize, Error>(i as usize)
            },
            Err(e) => entries.len() == 0 && e == Error::EmptyTable,
        },
{
    if entries.len() == 0 {
        return Err(Error::EmptyTable);
    }
    let ghost rows = entries.deep_view();
    let widths = measure_columns(entries);
    let mut lines: Vec<String> = Vec::new();
    let mut i: usize = 0;
    while i < entries.len()
        invariant
            i <= entries.len(),
            rows == entries.deep_view(),
            as_nats(widths@) == column_widths(rows, N as nat),
            lines.len() == i,
            forall|k: int| 0 <= k < i ==> (#[trigger] lines@[k])@ == table_line(rows, k),
        decreases entries.len() - i,
    {
        let mut line = format_row(&entries[i], &widths, "  |  ");
        line.append(" ::index:");
        let number = decimal_string(i);
        line.append(number.as_str());
        proof {
            reveal_strlit(" ::index:");
            reveal_strlit("::index:");
        }
        lines.push(line);
        i += 1;
    }
    proof {
        assert forall|i: int| 0 <= i < lines.len() implies decoded(
            (#[trigger] lines@[i])@,
            entries.len() as nat,
        ) == Ok::<usize, Error>(i as usize) by {
            lemma_round_trip(rows, i);
        }
    }
    Ok(lines)
}

/// Reads the row number off a line of a menu of `row_count` rows.
pub fn decode(raw: &str, row_count: usize) -> (r: Result<usize, Error>)
    ensures
        r == decoded(raw@, row_count as nat),
{
    let chars = chars_of(raw);
    let pattern = chars_of("::index:");
    match find_last(&chars, &pattern) {
        None => Err(Error::MalformedSelection),
        Some(at) => match parse_usize(&chars, at + pattern.len(), chars.len()) {
            None => Err(Error::MalformedSelection),
            Some(n) => if n < row_count {
                Ok(n)
            } else {
                Err(Error::IndexOutOfRange)
            },
        },
    }
}

/// The row chosen from the menu of `entries`, given what the picker run came
/// to: its failure, or the line it handed back.
pub fn wofi_select_table<const N: usize>(
    entries: &Vec<[String; N]>,
    presented: &Result<String, Error>,
) -> (r: Result<usize, Error>)
    ensures
        r == selected(entries.len() as nat, result_text(*presented)),
{
    if entries.len() == 0 {
        return Err(Error::EmptyTable);
    }
    match presented {
        Err(e) => Err(*e),
        Ok(line) => decode(line.as_str(), entries.len()),
    }
}

// ---------------------------------------------------------------------------
// Laws
// ---------------------------------------------------------------------------

/// A line that ends with the marker and a number decodes to that number,
/// whatever stands before the marker, where the menu has such a row, and is
/// refused as out of range where it has not.
pub proof fn lemma_decoded_shape(front: Seq<char>, i: nat, row_count: nat)
    requires
        i <= usize::MAX,
    ensures
        decoded(front + marker() + decimal(i), row_count) == if i < row_count {
            Ok::<usize, Error>(i as usize)
        } else {
            Err::<usize, Error>(Error::IndexOutOfRange)
        },
{
    reveal_strlit("::index:");
    let m = marker();
    let number = decimal(i);
    let raw = front + m + number;
    let at = front.len() as int;
    let top = raw.len() - m.len();
    lemma_decimal_digits(i);
    assert(m =~= seq![':', ':', 'i', 'n', 'd', 'e', 'x', ':']);
    assert(raw.subrange(at, at + m.len()) =~= m);
    // The marker starts with two colons. After its own start the line holds
    // no two colons in a row: the marker has its third colon at its end, and
    // what follows is a digit.
    assert forall|j: int| at < j <= top implies !occurs_at(raw, m, j) by {
        if occurs_at(raw, m, j) {
            let window = raw.subrange(j, j + m.len());
            assert(window[0] == raw[j]);
            assert(window[1] == raw[j + 1]);
            let o = j - at;
            if o < 8 {
                assert(raw[j] == m[o]);
                if o == 7 {
                    assert(raw[j + 1] == number[0]);
                    assert(is_digit(number[0]));
                } else {
                    assert(raw[j + 1] == m[o + 1]);
                }
            } else {
                assert(raw[j] == number[o - 8]);
                assert(is_digit(number[o - 8]));
            }
        }
    }
    lemma_last_occurrence_upto(raw, m, top, at);
    assert(last_occurrence(raw, m) == at);
    assert(raw.skip(at + m.len()) =~= number);
    lemma_parse_decimal(i);
}

/// A line that holds no colon holds no marker, and stands for no row: a bare
/// number is refused.
pub proof fn lemma_decoded_without_marker(raw: Seq<char>, row_count: nat)
    requires
        forall|j: int| 0 <= j < raw.len() ==> #[trigger] raw[j] != ':',
    ensures
        decoded(raw, row_count) == Err::<usize, Error>(Error::MalformedSelection),
{
    reveal_strlit("::index:");
    let m = marker();
    let top = raw.len() - m.len();
    if top >= 0 {
        assert forall|j: int| -1 < j <= top implies !occurs_at(raw, m, j) by {
            if occurs_at(raw, m, j) {
                let window = raw.subrange(j, j + m.len());
                assert(window[0] == raw[j]);
            }
        }
        lemma_last_occurrence_upto(raw, m, top, -1);
    }
}

/// Round trip: every line of a menu decodes to the number of its row, as it
/// was written and also after trimming.
pub proof fn lemma_round_trip(rows: Seq<Seq<Seq<char>>>, i: int)
    requires
        0 <= i < rows.len() <= usize::MAX,
    ensures
        decoded(table_line(rows, i), rows.len()) == Ok::<usize, Error>(i as usize),
        decoded(trimmed(table_line(rows, i)), rows.len()) == Ok::<usize, Error>(i as usize),
{
    reveal_strlit("::index:");
    let m = marker();
    let number = decimal(i as nat);
    let front = row_text(rows, i, separator()) + seq![' '];
    let line = table_line(rows, i);
    lemma_decimal_digits(i as nat);
    lemma_decoded_shape(front, i as nat, rows.len());

    assert(line =~= front + (m + number));
    lemma_leading_whitespace_bound(front, m + number);
    let lead = leading_whitespace(line) as int;
    let rest = line.skip(lead);
    assert(rest =~= front.skip(lead) + m + number);
    assert(rest.take(rest.len() as int) =~= rest);
    lemma_decoded_shape(front.skip(lead), i as nat, rows.len());
}

/// Column alignment: in every line of a menu cell `j` stands at the same
/// place, padded to the width of its column.
pub proof fn lemma_table_aligned(rows: Seq<Seq<Seq<char>>>, arity: nat, i: int, j: int)
    requires
        has_arity(rows, arity),
        0 <= i < rows.len(),
        0 <= j < arity,
    ensures
        ({
            let widths = column_widths(rows, arity);
            let start = column_start(widths, separator().len(), j);
            let line = table_line(rows, i);
            &&& start + widths[j] <= line.len()
            &&& line.subrange(start as int, (start + widths[j]) as int) == padded_right(
                rows[i][j],
                widths[j],
            )
        }),
{
    lemma_columns_aligned(rows, arity, separator(), i, j);
}

} // verus!
