//! Range export of logged rows: parse a user-entered time range, build a
//! guarded query over a named table, and turn the resulting row stream into
//! grouped, comma-joined output lines (one line per run of equal timestamps).

pub mod datetime;
pub mod digits;
pub mod export;
pub mod table;

use vstd::prelude::*;

verus! {

/// The errors the export operation can report. Each maps to one
/// user-visible status string.
#[derive(Clone, Copy, PartialEq, Eq, Structural, Debug)]
pub enum ExportError {
    /// A start or end date-time string did not match `DD/MM/YYYY HH:MM:SS`.
    DateParse,
    /// The database file could not be opened.
    Connection,
    /// The table name was rejected or the query could not be prepared.
    QueryPrepare,
    /// A row could not be read from the cursor.
    RowRead,
    /// The output file could not be opened or created.
    FileOpen,
    /// A line could not be appended to the output file.
    FileWrite,
}

/// Everything the database layer needs to run one range export: the guarded
/// query text and the inclusive timestamp bounds, to be bound as parameters.
pub struct ExportQuery {
    pub sql: String,
    pub start: i64,
    pub end: i64,
}

/// Validates an export request. The date strings must match
/// `DD/MM/YYYY HH:MM:SS` (checked first, as one condition), and the table
/// name must be a plain identifier; the query text never holds anything else
/// of the user's input.
pub fn prepare_export(start_date: &str, end_date: &str, table: &str) -> (r: Result<
    ExportQuery,
    ExportError,
>)
    ensures
        r is Ok <==> datetime::datetime_parses(start_date@) && datetime::datetime_parses(end_date@)
            && table::valid_table_name(table@),
        r is Ok ==> r->Ok_0.sql@ == table::query_text(table@) && r->Ok_0.start
            == datetime::parsed_timestamp(start_date@) && r->Ok_0.end == datetime::parsed_timestamp(
            end_date@,
        ),
        r is Err ==> (r->Err_0 == ExportError::DateParse <==> !(datetime::datetime_parses(
            start_date@,
        ) && datetime::datetime_parses(end_date@))),
        r is Err ==> (r->Err_0 == ExportError::QueryPrepare <==> datetime::datetime_parses(
            start_date@,
        ) && datetime::datetime_parses(end_date@) && !table::valid_table_name(table@)),
{
    let start = match datetime::parse_datetime(start_date) {
        Ok(t) => t,
        Err(e) => { return Err(e) },
    };
    let end = match datetime::parse_datetime(end_date) {
        Ok(t) => t,
        Err(e) => { return Err(e) },
    };
    let sql = match table::build_query(table) {
        Ok(q) => q,
        Err(e) => { return Err(e) },
    };
    Ok(ExportQuery { sql, start, end })
}

} // verus!
