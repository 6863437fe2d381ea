//! A whole run: from the bytes of a table to the reports per user.
//!
//! The bytes are split into records by the `csv` crate. Everything after
//! that — finding the columns, decoding the rows, grouping and arranging
//! the result — is this library's own and verified.

use vstd::prelude::*;
use crate::engine::{accepted, group_records, rejected, RecordView};
use crate::grouping::groups;
use crate::parser::Schema;
use crate::report::{assemble, listing, presents, RunResult, RunResultView};

verus! {

/// The header of a table: the fields of its first record, or nothing where
/// that record is not text.
pub uninterp spec fn csv_header(data: Seq<u8>) -> Option<Seq<Seq<char>>>;

/// The records of a table after its header, in order: for each the fields,
/// or nothing where the reader reports an error in place of the record.
pub uninterp spec fn csv_records(data: Seq<u8>) -> Seq<Option<Seq<Seq<char>>>>;

/// Calls `csv::Reader::headers` on a reader with the default settings over
/// the given bytes. The contract only gives the result its name: what
/// `headers` returns for given bytes, with an error turned into `None`. It
/// reads from memory, so the same bytes give the same header.
#[verifier::external_body]
fn read_header(data: &[u8]) -> (header: Option<Vec<String>>)
    ensures
        header.deep_view() == csv_header(data@),
{
    let mut reader = csv::Reader::from_reader(data);
    reader.headers().ok().map(|fields| fields.iter().map(String::from).collect())
}

/// Calls `csv::Reader::records` on a reader with the default settings over
/// the given bytes and walks the iterator to its end. The contract only
/// gives the result its name: the items that the iterator yields for given
/// bytes, each record as its fields and each error as `None`. With the
/// default settings the reader reports a record whose number of fields
/// differs from that of the first record, or which is not valid UTF-8, as
/// an error and goes on with the next record.
#[verifier::external_body]
fn read_records(data: &[u8]) -> (records: Vec<Option<Vec<String>>>)
    ensures
        records.deep_view() == csv_records(data@),
{
    let mut reader = csv::Reader::from_reader(data);
    reader.records().map(
        |item| item.ok().map(|fields| fields.iter().map(String::from).collect()),
    ).collect()
}

/// The schema that a header settles. Without a header no column is known.
pub open spec fn schema_for(header: Option<Seq<Seq<char>>>) -> Schema {
    match header {
        Some(fields) => Schema::of_header(fields),
        None => Schema::of_header(Seq::empty()),
    }
}

/// What the result of a run over a header and records is: the reports list
/// the grouping of the records that decode, one report per user with its
/// dates ascending, and the failures are the records that do not decode.
pub open spec fn outcome_of(
    result: RunResultView,
    header: Option<Seq<Seq<char>>>,
    records: Seq<RecordView>,
) -> bool {
    &&& groups(listing(result.users), accepted(schema_for(header), records))
    &&& presents(result.users, listing(result.users))
    &&& result.failures == rejected(schema_for(header), records)
}

/// Runs over a table that has been split into records already.
pub fn aggregate(header: &Option<Vec<String>>, records: &Vec<Option<Vec<String>>>) -> (result:
    RunResult)
    ensures
        outcome_of(result@, header.deep_view(), records.deep_view()),
{
    let schema = match header {
        Some(fields) => Schema::from_header(fields),
        None => Schema::empty(),
    };
    let engine = group_records(schema, records);
    let (buckets, failures) = engine.finish();
    assemble(&buckets, failures)
}

/// Runs over the bytes of a table whose first record is the header.
pub fn read_stream(data: &[u8]) -> (result: RunResult)
    ensures
        outcome_of(result@, csv_header(data@), csv_records(data@)),
{
    let header = read_header(data);
    let records = read_records(data);
    aggregate(&header, &records)
}

} // verus!
