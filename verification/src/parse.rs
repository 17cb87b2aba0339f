//! Reading a whole input: from bytes to a table, or to a structural error.

use vstd::prelude::*;
use crate::columns::{table_after, table_of};
use crate::error::StructuralError;
use crate::quoting::{ends_in_open_quote, stops_in_open_quote};
use crate::reader::{csv_records, outcomes_view, read_records};
use crate::table::Table;

verus! {

/// Whether the tokeniser read every record.
pub open spec fn all_read(outcomes: Seq<Option<Seq<Seq<char>>>>) -> bool {
    forall|i: int| 0 <= i < outcomes.len() ==> (#[trigger] outcomes[i]) is Some
}

/// The records that the tokeniser read.
pub open spec fn records_of(outcomes: Seq<Option<Seq<Seq<char>>>>) -> Seq<Seq<Seq<char>>> {
    outcomes.map_values(|outcome: Option<Seq<Seq<char>>>| outcome->0)
}

/// What a result holds, with the table as the map that it stands for.
pub open spec fn columns_of(result: Result<Table, StructuralError>) -> Result<
    Map<Seq<char>, Seq<Option<i64>>>,
    StructuralError,
> {
    match result {
        Ok(table) => Ok(table@),
        Err(error) => Err(error),
    }
}

/// What records come to: the first is the header and the others are the
/// rows; without a first there is no table.
pub open spec fn tabulate_outcome(records: Seq<Seq<Seq<char>>>) -> Result<
    Map<Seq<char>, Seq<Option<i64>>>,
    StructuralError,
> {
    if records.len() == 0 {
        Err(StructuralError::MissingHeader)
    } else {
        Ok(table_of(records[0], records.skip(1)))
    }
}

/// What an input comes to, given what the tokeniser yields for it.
pub open spec fn parse_outcome(data: Seq<u8>, outcomes: Seq<Option<Seq<Seq<char>>>>) -> Result<
    Map<Seq<char>, Seq<Option<i64>>>,
    StructuralError,
> {
    if ends_in_open_quote(data) {
        Err(StructuralError::UnterminatedQuote)
    } else if !all_read(outcomes) {
        Err(StructuralError::Malformed)
    } else {
        tabulate_outcome(records_of(outcomes))
    }
}

/// Structural failure: an input without any record, and an input that stops
/// inside a quoted field, come to an error and to no table. So does an input
/// in which the tokeniser reports an error, and no other input does.
pub proof fn lemma_structural_failure(data: Seq<u8>, outcomes: Seq<Option<Seq<Seq<char>>>>)
    ensures
        outcomes.len() == 0 ==> parse_outcome(data, outcomes) is Err,
        ends_in_open_quote(data) ==> parse_outcome(data, outcomes) == Err::<
            Map<Seq<char>, Seq<Option<i64>>>,
            StructuralError,
        >(StructuralError::UnterminatedQuote),
        parse_outcome(data, outcomes) is Err <==> ends_in_open_quote(data) || !all_read(outcomes)
            || outcomes.len() == 0,
{
}

/// Builds the table of records that are already split into fields: the first
/// record is the header, each other record is a row.
pub fn tabulate(records: &Vec<Vec<String>>) -> (result: Result<Table, StructuralError>)
    ensures
        result matches Ok(table) ==> table.wf(),
        columns_of(result) == tabulate_outcome(records.deep_view()),
{
    if records.len() == 0 {
        return Err(StructuralError::MissingHeader);
    }
    let header: &Vec<String> = &records[0];
    let ghost names = header.deep_view();
    let ghost rows = records.deep_view().skip(1);
    let mut table: Table = Table::from_header(header);
    let mut next: usize = 1;
    while next < records.len()
        invariant
            header == &records@[0],
            names == header.deep_view(),
            rows == records.deep_view().skip(1),
            1 <= next <= records.len(),
            table.wf(),
            table@ == table_after(names, rows, next - 1),
        decreases records.len() - next,
    {
        table.add_row(header, &records[next]);
        next = next + 1;
    }
    Ok(table)
}

/// Keeps the records of what the tokeniser yielded, unless it reported an
/// error.
fn gather(outcomes: Vec<Result<Vec<String>, csv::Error>>) -> (result: Result<
    Vec<Vec<String>>,
    StructuralError,
>)
    ensures
        match result {
            Ok(records) => all_read(outcomes_view(outcomes@)) && records.deep_view() == records_of(
                outcomes_view(outcomes@),
            ),
            Err(error) => !all_read(outcomes_view(outcomes@)) && error
                == StructuralError::Malformed,
        },
{
    let ghost all = outcomes_view(outcomes@);
    let mut records: Vec<Vec<String>> = Vec::new();
    for outcome in it: outcomes
        invariant
            outcomes_view(it.seq()) == all,
            it.seq().len() == all.len(),
            records@.len() == it.index(),
            forall|i: int|
                0 <= i < it.index() ==> all[i] == Some(#[trigger] records@[i].deep_view()),
    {
        match outcome {
            Ok(fields) => {
                records.push(fields);
            },
            Err(_) => {
                assert(all[it.index()] is None);
                return Err(StructuralError::Malformed);
            },
        }
    }
    proof {
        assert forall|i: int| 0 <= i < all.len() implies (#[trigger] all[i]) is Some by {
            assert(all[i] == Some(records@[i].deep_view()));
        }
    }
    Ok(records)
}

/// Reads CSV text into a table. The first record is the header: each of its
/// fields names a column. Every later record is a row: each of its cells is
/// read as a 64-bit integer and appended, as that integer or as a missing
/// value, to the column under which it stands.
///
/// Reading fails as a whole where the input stops inside a quoted field,
/// where the tokeniser reports an error, and where there is no header. It
/// fails in no other case, and then hands out the table of `table_of`.
pub fn parse(data: &[u8]) -> (result: Result<Table, StructuralError>)
    ensures
        result matches Ok(table) ==> table.wf(),
        columns_of(result) == parse_outcome(data@, csv_records(data@)),
{
    if stops_in_open_quote(data) {
        return Err(StructuralError::UnterminatedQuote);
    }
    match gather(read_records(data)) {
        Ok(records) => tabulate(&records),
        Err(error) => Err(error),
    }
}

} // verus!
