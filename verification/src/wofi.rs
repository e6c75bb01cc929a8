//! The menu whose lines start with their row number.
//!
//! A line is the row number, right-aligned in a field as wide as the number
//! of rows is long, then `" | "`, then the cells of the row, each padded to
//! the width of its column and joined by `" | "`:
//!
//! ```text
//!  9 | password | ********
//! 10 | note     | hi
//! ```
//!
//! Decoding is the inverse: the text before the first `|`, trimmed, is the
//! row number. No cell can get in the way, whatever it holds, because the
//! first `|` of a line is always the one that ends the number.

use crate::error::{result_text, Error};
use crate::table::{
    as_nats, column_start, column_widths, format_row, has_arity, lemma_columns_aligned,
    measure_columns, row_text,
};
use crate::text::{
    chars_of, decimal, decimal_string, find_char, first_index, is_whitespace,
    lemma_decimal_digits, lemma_decimal_len_monotonic, lemma_first_index,
    lemma_leading_whitespace, lemma_parse_decimal, lemma_trailing_whitespace,
    lemma_trailing_whitespace_bound, pad_left, padded_left, padded_right, padding, parse_usize,
    parsed_usize, spaces, trailing_whitespace, trim_bounds, trimmed,
};
use vstd::prelude::*;
use vstd::string::*;

verus! {

// ---------------------------------------------------------------------------
// Model
// ---------------------------------------------------------------------------

/// What stands between the row number and the cells, and between two cells.
pub open spec fn separator() -> Seq<char> {
    " | "@
}

/// The width of the row-number field of a menu of `count` rows.
pub open spec fn index_width(count: nat) -> nat {
    decimal(count).len()
}

/// Line `i` of the menu of `rows`.
pub open spec fn menu_line(rows: Seq<Seq<Seq<char>>>, i: int) -> Seq<char> {
    padded_left(decimal(i as nat), index_width(rows.len())) + separator() + row_text(
        rows,
        i,
        separator(),
    )
}

/// The menu of `rows`: one line for each row, in order.
pub open spec fn menu(rows: Seq<Seq<Seq<char>>>) -> Seq<Seq<char>> {
    Seq::new(rows.len(), |i: int| menu_line(rows, i))
}

/// The row that the line `raw` stands for in a menu of `row_count` rows.
pub open spec fn decoded(raw: Seq<char>, row_count: nat) -> Result<usize, Error> {
    let bar = first_index(raw, '|');
    if bar >= raw.len() {
        Err(Error::MalformedSelection)
    } else {
        match parsed_usize(trimmed(raw.take(bar as int))) {
            None => Err(Error::MalformedSelection),
            Some(n) => if n < row_count {
                Ok(n)
            } else {
                Err(Error::IndexOutOfRange)
            },
        }
    }
}

/// The row chosen from a menu of `row_count` rows, given what the picker run
/// came to.
pub open spec fn selected(row_count: nat, presented: Result<Seq<char>, Error>) -> Result<
    usize,
    Error,
> {
    if row_count == 0 {
        Err(Error::EmptyTable)
    } else {
        match presented {
            Err(e) => Err(e),
            Ok(line) => decoded(line, row_count),
        }
    }
}

// ---------------------------------------------------------------------------
// Functions
// ---------------------------------------------------------------------------

/// Writes the menu of `entries`. A table without rows has no menu.
pub fn select_lines<const N: usize>(entries: &Vec<[String; N]>) -> (r: Result<Vec<String>, Error>)
    ensures
        match r {
            Ok(lines) => {
                &&& entries.len() > 0
                &&& lines.deep_view() == menu(entries.deep_view())
                &&& forall|i: int|
                    0 <= i < lines.len() ==> decoded((#[trigger] lines@[i])@, entries.len() as nat)
                        == Ok::<usize, Error>(i as usize)
            },
            Err(e) => entries.len() == 0 && e == Error::EmptyTable,
        },
{
    if entries.len() == 0 {
        return Err(Error::EmptyTable);
    }
    let ghost rows = entries.deep_view();
    let widths = measure_columns(entries);
    let count = decimal_string(entries.len());
    let index_field: usize = count.as_str().unicode_len();
    let mut lines: Vec<String> = Vec::new();
    let mut i: usize = 0;
    while i < entries.len()
        invariant
            i <= entries.len(),
            rows == entries.deep_view(),
            as_nats(widths@) == column_widths(rows, N as nat),
            index_field == index_width(rows.len()),
            lines.len() == i,
            forall|k: int| 0 <= k < i ==> (#[trigger] lines@[k])@ == menu_line(rows, k),
        decreases entries.len() - i,
    {
        let number = decimal_string(i);
        let mut line = pad_left(number.as_str(), index_field);
        line.append(" | ");
        let row = format_row(&entries[i], &widths, " | ");
        line.append(row.as_str());
        lines.push(line);
        i += 1;
    }
    proof {
        assert forall|i: int| 0 <= i < lines.len() implies decoded(
            (#[trigger] lines@[i])@,
            entries.len() as nat,
        ) == Ok::<usize, Error>(i as usize) by {
            lemma_round_trip(rows, i);
        }
    }
    Ok(lines)
}

/// Reads the row number off a line of a menu of `row_count` rows.
pub fn decode(raw: &str, row_count: usize) -> (r: Result<usize, Error>)
    ensures
        r == decoded(raw@, row_count as nat),
{
    let chars = chars_of(raw);
    proof {
        assert(chars@.subrange(0, chars.len() as int) =~= raw@);
    }
    let bar: usize = find_char(&chars, 0, chars.len(), '|');
    if bar >= chars.len() {
        return Err(Error::MalformedSelection);
    }
    let (a, b) = trim_bounds(&chars, 0, bar);
    match parse_usize(&chars, a, b) {
        None => Err(Error::MalformedSelection),
        Some(n) => if n < row_count {
            Ok(n)
        } else {
            Err(Error::IndexOutOfRange)
        },
    }
}

/// The row chosen from the menu of `entries`, given what the picker run came
/// to: its failure, or the line it handed back.
pub fn select<const N: usize>(entries: &Vec<[String; N]>, presented: &Result<String, Error>) -> (r:
    Result<usize, Error>)
    ensures
        r == selected(entries.len() as nat, result_text(*presented)),
{
    if entries.len() == 0 {
        return Err(Error::EmptyTable);
    }
    match presented {
        Err(e) => Err(*e),
        Ok(line) => decode(line.as_str(), entries.len()),
    }
}

// ---------------------------------------------------------------------------
// Laws
// ---------------------------------------------------------------------------

/// A line made of spaces, a number, a space and a bar, and then anything,
/// decodes to that number where the menu has such a row, and is refused as
/// out of range where it has not.
pub proof fn lemma_decoded_shape(lead: nat, i: nat, tail: Seq<char>, row_count: nat)
    requires
        i <= usize::MAX,
    ensures
        decoded(spaces(lead) + decimal(i) + seq![' ', '|'] + tail, row_count) == if i < row_count {
            Ok::<usize, Error>(i as usize)
        } else {
            Err::<usize, Error>(Error::IndexOutOfRange)
        },
{
    let number = decimal(i);
    let raw = spaces(lead) + number + seq![' ', '|'] + tail;
    lemma_decimal_digits(i);
    // Before the bar stand spaces, digits and one space.
    let bar: int = (lead + number.len() + 1) as int;
    assert forall|j: int| 0 <= j < bar implies #[trigger] raw[j] != '|' by {}
    lemma_first_index(raw, '|', bar);
    let token = raw.take(bar);
    lemma_leading_whitespace(token, lead as int);
    let rest = token.skip(lead as int);
    lemma_trailing_whitespace(rest, 1);
    assert(trimmed(token) =~= number);
    lemma_parse_decimal(i);
}

/// Round trip: every line of a menu decodes to the number of its row, as it
/// was written and also after trimming.
pub proof fn lemma_round_trip(rows: Seq<Seq<Seq<char>>>, i: int)
    requires
        0 <= i < rows.len() <= usize::MAX,
    ensures
        decoded(menu_line(rows, i), rows.len()) == Ok::<usize, Error>(i as usize),
        decoded(trimmed(menu_line(rows, i)), rows.len()) == Ok::<usize, Error>(i as usize),
{
    reveal_strlit(" | ");
    let number = decimal(i as nat);
    let lead = padding(number.len(), index_width(rows.len()));
    let row = row_text(rows, i, separator());
    let line = menu_line(rows, i);
    let head = number + seq![' ', '|'];
    let tail = seq![' '] + row;
    lemma_decimal_digits(i as nat);
    assert(line =~= spaces(lead) + number + seq![' ', '|'] + tail);
    lemma_decoded_shape(lead, i as nat, tail, rows.len());

    assert forall|j: int| 0 <= j < lead implies is_whitespace(#[trigger] line[j]) by {}
    lemma_leading_whitespace(line, lead as int);
    let rest = line.skip(lead as int);
    assert(rest =~= head + tail);
    lemma_trailing_whitespace_bound(head, tail);
    let kept = tail.take(tail.len() - trailing_whitespace(rest));
    assert(trimmed(line) =~= spaces(0) + number + seq![' ', '|'] + kept);
    lemma_decoded_shape(0, i as nat, kept, rows.len());
}

/// Column alignment: in every line of a menu the row number fills the first
/// `index_width` characters, and cell `j` stands at the same place, padded to
/// the width of its column.
pub proof fn lemma_menu_aligned(rows: Seq<Seq<Seq<char>>>, arity: nat, i: int, j: int)
    requires
        has_arity(rows, arity),
        0 <= i < rows.len(),
        0 <= j < arity,
    ensures
        ({
            let widths = column_widths(rows, arity);
            let field = index_width(rows.len());
            let start = field + separator().len() + column_start(widths, separator().len(), j);
            let line = menu_line(rows, i);
            &&& line.subrange(0, field as int) == padded_left(decimal(i as nat), field)
            &&& start + widths[j] <= line.len()
            &&& line.subrange(start as int, (start + widths[j]) as int) == padded_right(
                rows[i][j],
                widths[j],
            )
        }),
{
    lemma_decimal_len_monotonic(i as nat, rows.len());
    lemma_columns_aligned(rows, arity, separator(), i, j);
}

} // verus!
