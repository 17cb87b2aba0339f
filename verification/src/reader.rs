//! Tokenising, which the csv crate does: the bytes of the input go in, and
//! the records, each a row of text fields, come out.
//!
//! Nothing in this file is proved. The rest of the library rests on what is
//! stated here.

use vstd::prelude::*;

verus! {

/// The error type of the csv crate.
#[verifier::external_type_specification]
#[verifier::external_body]
pub struct ExCsvError(csv::Error);

/// What the csv crate's reader yields for the input `data`, record by record
/// from the first line on: the fields of a record, or nothing in the place of
/// a record that it reports as an error.
///
/// The reader is the one that `read_records` builds: commas between fields,
/// `"` for quoting, any line end between records, the first record yielded
/// like the others, and records of any number of fields allowed.
pub uninterp spec fn csv_records(data: Seq<u8>) -> Seq<Option<Seq<Seq<char>>>>;

/// One item of the reader's output as plain values.
pub open spec fn outcome_view(outcome: Result<Vec<String>, csv::Error>) -> Option<Seq<Seq<char>>> {
    match outcome {
        Ok(fields) => Some(fields.deep_view()),
        Err(_) => None,
    }
}

/// The reader's output as plain values.
pub open spec fn outcomes_view(outcomes: Seq<Result<Vec<String>, csv::Error>>) -> Seq<
    Option<Seq<Seq<char>>>,
> {
    outcomes.map_values(|outcome: Result<Vec<String>, csv::Error>| outcome_view(outcome))
}

/// Runs `csv::Reader::records` over `data` to its end, with a reader from
/// `csv::ReaderBuilder` that has no header row of its own and is flexible.
/// Each record is handed out as its fields, each error as it came.
///
/// The contract claims only that what comes out is what `csv_records` names:
/// that the reader's output depends on the bytes of the input and on nothing
/// else.
#[verifier::external_body]
pub(crate) fn read_records(data: &[u8]) -> (outcomes: Vec<Result<Vec<String>, csv::Error>>)
    ensures
        outcomes_view(outcomes@) == csv_records(data@),
{
    let mut reader = csv::ReaderBuilder::new().has_headers(false).flexible(true).from_reader(data);
    reader
        .records()
        .map(|outcome| outcome.map(|record| record.iter().map(|field| field.to_string()).collect()))
        .collect()
}

} // verus!
