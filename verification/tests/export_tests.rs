use log_export::export::{export_lines, group_rows, status_message, Row};
use log_export::ExportError;

fn row(id: u64, timestamp: u64, value: &str) -> Row {
    Row {
        id,
        timestamp,
        tag: String::from("tag"),
        description: String::from("description"),
        value: String::from(value),
    }
}

#[test]
fn three_rows_two_groups_round_trip() {
    let rows = vec![row(1, 100, "1.0"), row(2, 100, "2.0"), row(3, 200, "3.0")];
    let lines = export_lines(&rows);
    assert_eq!(lines.len(), 2);
    assert_eq!(lines[0], "1,100,01/01/70,00:01:40,1.0,2.0\r\n");
    assert_eq!(lines[1], "2,200,01/01/70,00:03:20,3.0\r\n");
}

#[test]
fn empty_stream_yields_no_lines() {
    let rows: Vec<Row> = Vec::new();
    let lines = export_lines(&rows);
    assert_eq!(lines.len(), 0);
}

#[test]
fn final_group_is_flushed() {
    let rows = vec![row(1, 50, "7.5")];
    let lines = export_lines(&rows);
    assert_eq!(lines.len(), 1);
    assert_eq!(lines[0], "1,50,01/01/70,00:00:50,7.5\r\n");
}

#[test]
fn sorted_stream_one_line_per_distinct_timestamp() {
    let rows = vec![
        row(1, 10, "a1"),
        row(2, 10, "a2"),
        row(3, 20, "b1"),
        row(4, 20, "b2"),
        row(5, 30, "c1"),
    ];
    let lines = export_lines(&rows);
    assert_eq!(lines.len(), 3);
    assert_eq!(lines[0], "1,10,01/01/70,00:00:10,a1,a2\r\n");
    assert_eq!(lines[1], "2,20,01/01/70,00:00:20,b1,b2\r\n");
    assert_eq!(lines[2], "3,30,01/01/70,00:00:30,c1\r\n");
}

#[test]
fn unsorted_stream_groups_runs_only() {
    // Grouping is by runs of equal timestamps: a timestamp seen again after
    // a different one starts a new group.
    let rows = vec![row(1, 10, "a"), row(2, 20, "b"), row(3, 10, "c")];
    let lines = export_lines(&rows);
    assert_eq!(lines.len(), 3);
    assert_eq!(lines[0], "1,10,01/01/70,00:00:10,a\r\n");
    assert_eq!(lines[1], "2,20,01/01/70,00:00:20,b\r\n");
    assert_eq!(lines[2], "3,10,01/01/70,00:00:10,c\r\n");
}

#[test]
fn groups_carry_timestamp_and_values() {
    let rows = vec![row(1, 5, "x"), row(2, 5, "y"), row(3, 6, "z")];
    let groups = group_rows(&rows);
    assert_eq!(groups.len(), 2);
    assert_eq!(groups[0].timestamp, 5);
    assert_eq!(groups[0].values, vec!["x".to_string(), "y".to_string()]);
    assert_eq!(groups[1].timestamp, 6);
    assert_eq!(groups[1].values, vec!["z".to_string()]);
}

#[test]
fn timestamp_zero_renders_epoch_date() {
    let rows = vec![row(1, 0, "0.5")];
    let lines = export_lines(&rows);
    assert_eq!(lines[0], "1,0,01/01/70,00:00:00,0.5\r\n");
}

#[test]
fn leap_day_renders_correctly() {
    // 2024-02-29 12:00:00 UTC
    let rows = vec![row(1, 1709208000, "9")];
    let lines = export_lines(&rows);
    assert_eq!(lines[0], "1,1709208000,29/02/24,12:00:00,9\r\n");
}

#[test]
fn status_reports_flushed_line_count() {
    let s = status_message(&Ok(2));
    assert_eq!(s, "2 rows extracted.");
    let s = status_message(&Ok(0));
    assert_eq!(s, "0 rows extracted.");
}

#[test]
fn status_reports_each_error() {
    assert_eq!(
        status_message(&Err(ExportError::DateParse)),
        "Could not read the time and date values."
    );
    assert_eq!(
        status_message(&Err(ExportError::Connection)),
        "Could not open the database."
    );
    assert_eq!(
        status_message(&Err(ExportError::QueryPrepare)),
        "Could not prepare the database query."
    );
    assert_eq!(
        status_message(&Err(ExportError::RowRead)),
        "Error reading database rows."
    );
    assert_eq!(
        status_message(&Err(ExportError::FileOpen)),
        "Could not open or create file."
    );
    assert_eq!(
        status_message(&Err(ExportError::FileWrite)),
        "Could not write to file."
    );
}
