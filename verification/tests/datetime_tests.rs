use log_export::datetime::parse_datetime;
use log_export::table::{build_query, validate_table_name};
use log_export::{prepare_export, ExportError};

#[test]
fn parses_start_of_2025() {
    assert_eq!(parse_datetime("01/01/2025 00:00:00"), Ok(1735689600));
}

#[test]
fn rejects_iso_formatted_date() {
    assert_eq!(parse_datetime("2025-01-01"), Err(ExportError::DateParse));
}

#[test]
fn parses_epoch_and_arbitrary_times() {
    assert_eq!(parse_datetime("01/01/1970 00:00:00"), Ok(0));
    assert_eq!(parse_datetime("01/01/1970 00:01:40"), Ok(100));
    // 2024-02-29 12:00:00 UTC, a leap day
    assert_eq!(parse_datetime("29/02/2024 12:00:00"), Ok(1709208000));
}

#[test]
fn parses_dates_before_the_epoch() {
    assert_eq!(parse_datetime("01/01/1960 00:00:00"), Ok(-315619200));
}

#[test]
fn rejects_nonexistent_dates() {
    assert_eq!(parse_datetime("29/02/2025 00:00:00"), Err(ExportError::DateParse));
    assert_eq!(parse_datetime("31/04/2025 00:00:00"), Err(ExportError::DateParse));
    assert_eq!(parse_datetime("00/01/2025 00:00:00"), Err(ExportError::DateParse));
    assert_eq!(parse_datetime("01/13/2025 00:00:00"), Err(ExportError::DateParse));
}

#[test]
fn rejects_invalid_times_and_shapes() {
    assert_eq!(parse_datetime("01/01/2025 24:00:00"), Err(ExportError::DateParse));
    assert_eq!(parse_datetime("01/01/2025 00:60:00"), Err(ExportError::DateParse));
    assert_eq!(parse_datetime("01/01/2025 00:00:60"), Err(ExportError::DateParse));
    assert_eq!(parse_datetime("01/01/2025 00:00:0"), Err(ExportError::DateParse));
    assert_eq!(parse_datetime(""), Err(ExportError::DateParse));
    assert_eq!(parse_datetime("01-01-2025 00:00:00"), Err(ExportError::DateParse));
    assert_eq!(parse_datetime("0a/01/2025 00:00:00"), Err(ExportError::DateParse));
}

#[test]
fn table_names_are_whitelisted() {
    assert!(validate_table_name("S7_1200"));
    assert!(validate_table_name("logs2"));
    assert!(!validate_table_name(""));
    assert!(!validate_table_name("logs;drop"));
    assert!(!validate_table_name("lo'gs"));
    assert!(!validate_table_name("lo\"gs"));
    assert!(!validate_table_name("logs table"));
}

#[test]
fn build_query_interpolates_only_clean_names() {
    let q = build_query("S7_1200").unwrap();
    assert_eq!(q, "SELECT * FROM S7_1200 WHERE timestamp BETWEEN ?1 AND ?2");
    assert_eq!(build_query("S7_1200; DROP TABLE x"), Err(ExportError::QueryPrepare));
    assert_eq!(build_query("name'--"), Err(ExportError::QueryPrepare));
}

#[test]
fn prepare_export_checks_dates_then_table() {
    let q = prepare_export("01/01/2025 00:00:00", "02/01/2025 00:00:00", "S7_1200").unwrap();
    assert_eq!(q.sql, "SELECT * FROM S7_1200 WHERE timestamp BETWEEN ?1 AND ?2");
    assert_eq!(q.start, 1735689600);
    assert_eq!(q.end, 1735776000);
    // a bad date is reported even when the table name is also bad
    assert!(matches!(
        prepare_export("2025-01-01", "02/01/2025 00:00:00", "bad;name"),
        Err(ExportError::DateParse)
    ));
    assert!(matches!(
        prepare_export("01/01/2025 00:00:00", "02/01/2025 00:00:00", "bad;name"),
        Err(ExportError::QueryPrepare)
    ));
}

#[test]
fn reversed_range_is_allowed_and_selects_nothing() {
    // start > end is not an input error: the inclusive BETWEEN range is
    // simply empty, so the writer sees no rows and flushes no lines.
    let q = prepare_export("02/01/2025 00:00:00", "01/01/2025 00:00:00", "S7_1200").unwrap();
    assert!(q.start > q.end);
}
