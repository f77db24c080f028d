//! The boundary to the csv crate: CSV text goes in, records of cells come
//! out. Everything after this boundary is verified against the record view.
use vstd::prelude::*;
use crate::error::ChartError;

verus! {

/// The records that CSV tokenization yields on `s`, header line included:
/// each record is the sequence of its cell texts, in order.
pub uninterp spec fn csv_records_of(s: Seq<char>) -> Seq<Seq<Seq<char>>>;

/// Whether CSV tokenization of `s` succeeds. Over in-memory text a
/// non-flexible reader has exactly one fault, the deterministic
/// unequal-field-count error, so success is a function of the text alone.
pub uninterp spec fn csv_text_ok(s: Seq<char>) -> bool;

/// One parsed record as the contracts see it: the cells' character strings.
pub open spec fn row_view(row: Vec<String>) -> Seq<Seq<char>> {
    row@.map_values(|cell: String| cell@)
}

/// All parsed records as the contracts see them.
pub open spec fn rows_view(r: Seq<Vec<String>>) -> Seq<Seq<Seq<char>>> {
    r.map_values(|row: Vec<String>| row_view(row))
}

#[verifier::external_type_specification]
#[verifier::external_body]
pub struct ExCsvError(csv::Error);

/// Relies on csv::ReaderBuilder and Reader::records: tokenizes the text
/// into records of cells; a reader left non-flexible reports an error on a
/// record whose field count differs from the first record's, and on an
/// in-memory byte slice of valid UTF-8 it can report nothing else.
#[verifier::external_body]
fn records_from_text(text: &str) -> (r: Result<Vec<Vec<String>>, csv::Error>)
    ensures
        r matches Ok(recs) ==> rows_view(recs@) == csv_records_of(text@),
        r is Ok <==> csv_text_ok(text@),
{
    let mut rdr = csv::ReaderBuilder::new().has_headers(false).from_reader(text.as_bytes());
    let mut out: Vec<Vec<String>> = Vec::new();
    for rec in rdr.records() {
        match rec {
            Ok(r) => out.push(r.iter().map(|cell| cell.to_string()).collect()),
            Err(e) => return Err(e),
        }
    }
    Ok(out)
}

/// Relies on csv::Error's Display implementation for the fault's text.
#[verifier::external_body]
fn csv_error_text(e: &csv::Error) -> (r: String) {
    format!("{}", e)
}

/// Splits CSV text into records, mapping a tokenizer fault to the
/// library's error.
pub fn parse_records(text: &str) -> (r: Result<Vec<Vec<String>>, ChartError>)
    ensures
        r is Ok <==> csv_text_ok(text@),
        r matches Ok(recs) ==> rows_view(recs@) == csv_records_of(text@),
        r matches Err(e) ==> e is Malformed,
{
    match records_from_text(text) {
        Ok(v) => Ok(v),
        Err(e) => Err(ChartError::Malformed { detail: csv_error_text(&e) }),
    }
}

} // verus!
