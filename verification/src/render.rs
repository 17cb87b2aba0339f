//! The printed form of a table, line by line.

use vstd::prelude::*;
use vstd::string::StringExecFns;
use crate::number::{decimal_text, format_i64};
use crate::table::Table;

verus! {

/// The line of one entry: the integer in decimal, or `None` for a missing
/// value.
pub open spec fn entry_line(entry: Option<i64>) -> Seq<char> {
    match entry {
        Some(v) => decimal_text(v as int),
        None => seq!['N', 'o', 'n', 'e'],
    }
}

/// The line that heads a column: its name in square brackets.
pub open spec fn heading_line(name: Seq<char>) -> Seq<char> {
    seq!['['] + name + seq![']']
}

/// The lines of one column: its heading, then a line for each entry.
pub open spec fn column_lines(name: Seq<char>, entries: Seq<Option<i64>>) -> Seq<Seq<char>> {
    seq![heading_line(name)] + entries.map_values(|entry: Option<i64>| entry_line(entry))
}

/// The lines of the first `upto` columns, column after column.
pub open spec fn table_lines(
    names: Seq<Seq<char>>,
    values: Seq<Seq<Option<i64>>>,
    upto: int,
) -> Seq<Seq<char>>
    decreases upto,
{
    if upto <= 0 {
        Seq::empty()
    } else {
        table_lines(names, values, upto - 1) + column_lines(names[upto - 1], values[upto - 1])
    }
}

/// The line of one entry.
fn entry_text(entry: Option<i64>) -> (line: String)
    ensures
        line@ == entry_line(entry),
{
    match entry {
        Some(v) => format_i64(v),
        None => {
            proof {
                reveal_strlit("None");
            }
            String::from_str("None")
        },
    }
}

/// The line that heads the column `name`.
fn heading_text(name: &str) -> (line: String)
    ensures
        line@ == heading_line(name@),
{
    proof {
        reveal_strlit("[");
        reveal_strlit("]");
    }
    let mut line: String = String::from_str("[");
    line.append(name);
    line.append("]");
    line
}

/// Appends the lines of one column to `lines`.
fn push_column(lines: &mut Vec<String>, name: &str, entries: &Vec<Option<i64>>)
    ensures
        final(lines).deep_view() == old(lines).deep_view() + column_lines(name@, entries@),
{
    let ghost done = lines.deep_view();
    lines.push(heading_text(name));
    let mut at: usize = 0;
    while at < entries.len()
        invariant
            at <= entries.len(),
            lines.deep_view() == done + column_lines(name@, entries@.take(at as int)),
        decreases entries.len() - at,
    {
        let ghost prior = lines.deep_view();
        lines.push(entry_text(entries[at]));
        assert(lines.deep_view() =~= prior.push(entry_line(entries@[at as int])));
        at = at + 1;
    }
}

/// The lines that print the table, its columns in the order of their names:
/// for each column its name in square brackets, then its entries, each on a
/// line of its own.
pub fn render(table: &Table) -> (lines: Vec<String>)
    ensures
        lines.deep_view() == table_lines(
            table.names(),
            table.values(),
            table.names().len() as int,
        ),
{
    let mut lines: Vec<String> = Vec::new();
    let count: usize = table.len();
    let mut at: usize = 0;
    while at < count
        invariant
            at <= count,
            count == table.names().len(),
            count == table.values().len(),
            lines.deep_view() == table_lines(table.names(), table.values(), at as int),
        decreases count - at,
    {
        push_column(&mut lines, table.name(at), table.column(at));
        at = at + 1;
    }
    lines
}

} // verus!
