//! The log file: comma-separated records under a header, one reading each.

use crate::timestamp::{parse_rfc3339, rfc3339_timestamp, Timestamp};
use crate::weight::{Weight, WeightLogEntry};
use vstd::prelude::*;
use vstd::string::*;

verus! {

/// Why a log file could not be read.
#[derive(Clone, Copy, Debug, PartialEq, Eq, Structural)]
pub enum ParseError {
    /// The text is not well-formed comma-separated text.
    Csv,
    /// The first record is missing or does not name `weight` and `timestamp`.
    Header,
    /// A record below the header does not have exactly two fields.
    Record,
    /// A weight is no literal of kilograms with at most one decimal.
    Weight,
    /// A timestamp is not RFC 3339.
    Timestamp,
}

/// What the csv crate's reader makes of a text when it is told to take no
/// record for a header and to let records differ in length: the records in
/// order, each as the texts of its fields, or `None` where the reader reports
/// an error. Its rules on quotes, line ends and empty lines are not written
/// out here.
pub uninterp spec fn csv_records(input: Seq<u8>) -> Option<Seq<Seq<Seq<char>>>>;

/// Reads all records of `input` with `csv::Reader::records`, on a reader
/// built by `csv::ReaderBuilder` with `has_headers(false)` and
/// `flexible(true)`. Trusted: the result is what that reader makes of exactly
/// these bytes, the same on every call; nothing is claimed of what it holds.
#[verifier::external_body]
pub(crate) fn read_records(input: &[u8]) -> (records: Option<Vec<Vec<String>>>)
    ensures
        csv_records(input@) == records.deep_view(),
{
    let mut reader = csv::ReaderBuilder::new().has_headers(false).flexible(true).from_reader(input);
    reader.records().map(
        |record| record.map(|fields| fields.iter().map(String::from).collect::<Vec<String>>()),
    ).collect::<Result<Vec<Vec<String>>, csv::Error>>().ok()
}

/// Whether a record is the header of a log file: the two names, in this
/// order.
pub open spec fn is_header(record: Seq<Seq<char>>) -> bool {
    record.len() == 2 && record[0] == "weight"@ && record[1] == "timestamp"@
}

/// The reading of one record below the header, given what its second field
/// was read as: the first failure is that of the number of fields, then that
/// of the weight, then that of the timestamp.
pub open spec fn entry_of_fields(
    record: Seq<Seq<char>>,
    stamp: Option<Timestamp>,
) -> Result<WeightLogEntry, ParseError> {
    if record.len() != 2 {
        Err(ParseError::Record)
    } else {
        match (Weight::of_literal(record[0]), stamp) {
            (None, _) => Err(ParseError::Weight),
            (Some(_), None) => Err(ParseError::Timestamp),
            (Some(weight), Some(timestamp)) => Ok(WeightLogEntry { weight, timestamp }),
        }
    }
}

/// The reading of one record below the header.
pub open spec fn entry_of_record(record: Seq<Seq<char>>) -> Result<WeightLogEntry, ParseError> {
    entry_of_fields(
        record,
        if record.len() == 2 {
            rfc3339_timestamp(record[1])
        } else {
            None
        },
    )
}

/// The readings of the records below a header, in their order, or the
/// failure of the first record that has one.
pub open spec fn entries_of_records(records: Seq<Seq<Seq<char>>>) -> Result<
    Seq<WeightLogEntry>,
    ParseError,
>
    decreases records.len(),
{
    if records.len() == 0 {
        Ok(Seq::empty())
    } else {
        match entries_of_records(records.drop_last()) {
            Err(error) => Err(error),
            Ok(entries) => match entry_of_record(records.last()) {
                Err(error) => Err(error),
                Ok(entry) => Ok(entries.push(entry)),
            },
        }
    }
}

/// The readings of a log file's records: the first must be the header, each
/// of the others gives one reading.
pub open spec fn log_of_records(records: Seq<Seq<Seq<char>>>) -> Result<
    Seq<WeightLogEntry>,
    ParseError,
> {
    if records.len() == 0 || !is_header(records[0]) {
        Err(ParseError::Header)
    } else {
        entries_of_records(records.skip(1))
    }
}

/// The readings of a log file, from what the reader made of its text.
pub open spec fn log_of_csv(records: Option<Seq<Seq<Seq<char>>>>) -> Result<
    Seq<WeightLogEntry>,
    ParseError,
> {
    match records {
        None => Err(ParseError::Csv),
        Some(records) => log_of_records(records),
    }
}

/// Decides `is_header`.
pub fn header_matches(record: &Vec<String>) -> (matches: bool)
    ensures
        matches == is_header(record.deep_view()),
{
    if record.len() != 2 {
        return false;
    }
    let weight = String::from_str("weight");
    let timestamp = String::from_str("timestamp");
    record[0] == weight && record[1] == timestamp
}

/// Builds the reading of one record below the header. `stamp` is what the
/// record's second field was read as.
pub fn entry_from_fields(record: &Vec<String>, stamp: Option<Timestamp>) -> (entry: Result<
    WeightLogEntry,
    ParseError,
>)
    ensures
        entry == entry_of_fields(record.deep_view(), stamp),
{
    if record.len() != 2 {
        return Err(ParseError::Record);
    }
    match Weight::parse(record[0].as_str()) {
        None => Err(ParseError::Weight),
        Some(weight) => match stamp {
            None => Err(ParseError::Timestamp),
            Some(timestamp) => Ok(WeightLogEntry { weight, timestamp }),
        },
    }
}

/// Builds the reading of one record below the header.
pub fn entry_from_record(record: &Vec<String>) -> (entry: Result<WeightLogEntry, ParseError>)
    ensures
        entry == entry_of_record(record.deep_view()),
{
    let stamp = if record.len() == 2 {
        let parsed = parse_rfc3339(record[1].as_str());
        assert(parsed == rfc3339_timestamp(record.deep_view()[1]));
        parsed
    } else {
        None
    };
    entry_from_fields(record, stamp)
}

} // verus!
