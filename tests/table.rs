use beeline::{
    encode_table, read_datapoints_tsv, reconcile, same_number, scan_table, Datapoint,
    EditableDatapoint, Number, RowError, TableError, TableRow,
};

const T1: i64 = 1_600_000_000;

fn number(v: f64) -> Number {
    Number { bits: v.to_bits(), text: v.to_string() }
}

fn point(id: &str, t: i64, v: f64, comment: Option<&str>) -> Datapoint {
    Datapoint {
        id: id.to_string(),
        timestamp: t,
        value: number(v),
        comment: comment.map(|c| c.to_string()),
    }
}

fn values_of(rows: &[Result<TableRow, RowError>]) -> Vec<Option<u64>> {
    rows.iter()
        .map(|r| match r {
            Ok(row) => row.value_text.parse::<f64>().ok().map(f64::to_bits),
            Err(_) => None,
        })
        .collect()
}

fn decode(text: &str, offset: i32) -> Result<Vec<EditableDatapoint>, TableError> {
    let rows = scan_table(text, offset);
    let values = values_of(&rows);
    read_datapoints_tsv(&rows, &values)
}

#[test]
fn encodes_header_and_rows() {
    let dps = vec![point("a1", T1, 1.5, Some("hi")), point("b2", T1 + 86_400, 2.0, None)];
    let text = encode_table(&dps, 0).unwrap();
    assert_eq!(
        text,
        "TIMESTAMP\tVALUE\tCOMMENT\tID\n2020-09-13 12:26:40\t1.5\thi\ta1\n2020-09-14 12:26:40\t2\t\tb2\n"
    );
}

#[test]
fn encodes_local_time() {
    let text = encode_table(&vec![point("a", T1, 1.0, None)], 3600).unwrap();
    assert!(text.contains("2020-09-13 13:26:40\t1\t\ta\n"));
}

#[test]
fn encodes_empty_table_as_header() {
    assert_eq!(encode_table(&Vec::new(), 0).unwrap(), "TIMESTAMP\tVALUE\tCOMMENT\tID\n");
}

#[test]
fn unrenderable_timestamp_is_reported() {
    let dps = vec![point("a", T1, 1.0, None), point("b", i64::MAX, 1.0, None)];
    assert_eq!(encode_table(&dps, 0), Err(TableError::UnrenderableTimestamp { row: 1 }));
}

#[test]
fn decodes_fields() {
    let text = "TIMESTAMP\tVALUE\tCOMMENT\tID\n2020-09-13 13:26:40\t4.25\tnote\tabc\n";
    let rows = decode(text, 3600).unwrap();
    assert_eq!(rows.len(), 1);
    assert_eq!(rows[0].id.as_deref(), Some("abc"));
    assert_eq!(rows[0].timestamp, Some(T1));
    assert_eq!(rows[0].value.as_ref().map(|n| n.bits), Some(4.25f64.to_bits()));
    assert_eq!(rows[0].comment.as_deref(), Some("note"));
}

#[test]
fn missing_comment_and_id_default() {
    let text = "header\n2020-09-13 12:26:40\t3\n2020-09-13 12:26:40\t3\tc\t\n";
    let rows = decode(text, 0).unwrap();
    assert_eq!(rows.len(), 2);
    assert_eq!(rows[0].comment.as_deref(), Some(""));
    assert_eq!(rows[0].id, None);
    assert_eq!(rows[1].comment.as_deref(), Some("c"));
    assert_eq!(rows[1].id, None);
}

#[test]
fn crlf_line_endings_are_read() {
    let text = "header\r\n2020-09-13 12:26:40\t3\tc\tid7\r\n";
    let rows = decode(text, 0).unwrap();
    assert_eq!(rows[0].id.as_deref(), Some("id7"));
}

#[test]
fn header_only_table_is_empty() {
    assert!(decode("TIMESTAMP\tVALUE\tCOMMENT\tID\n", 0).unwrap().is_empty());
    assert!(decode("", 0).unwrap().is_empty());
}

#[test]
fn missing_value_rejects_whole_table() {
    let text = "header\n2020-09-13 12:26:40\t3\tok\ta\n2020-09-13 12:26:40\n";
    assert_eq!(decode(text, 0).unwrap_err(), TableError::MissingValue { row: 1 });
}

#[test]
fn blank_line_rejects_table() {
    let text = "header\n\n2020-09-13 12:26:40\t3\tok\ta\n";
    assert_eq!(decode(text, 0).unwrap_err(), TableError::MissingValue { row: 0 });
}

#[test]
fn bad_timestamp_rejects_table() {
    let text = "header\n2020-09-13 12:26\t3\tok\ta\n";
    assert_eq!(decode(text, 0).unwrap_err(), TableError::BadTimestamp { row: 0 });
}

#[test]
fn bad_value_rejects_table() {
    let text = "header\n2020-09-13 12:26:40\tthree\tok\ta\n2020-09-13 12:26\t3\n";
    assert_eq!(decode(text, 0).unwrap_err(), TableError::BadValue { row: 0 });
}

#[test]
fn round_trip_asks_for_nothing() {
    let dps = vec![
        point("a", T1, 1.0, Some("first")),
        point("b", T1 + 3_600, 0.1, None),
        point("c", T1 + 7_200, -2.5e10, Some("third one")),
    ];
    for offset in [0, 3600, -18_000] {
        let text = encode_table(&dps, offset).unwrap();
        let after = decode(&text, offset).unwrap();
        let plan = reconcile(&dps, &after);
        assert!(plan.operations.is_empty());
        assert!(plan.orphans.is_empty());
    }
}

#[test]
fn compares_numbers_as_doubles() {
    assert!(same_number(1.0f64.to_bits(), 1.0f64.to_bits()));
    assert!(same_number(0.0f64.to_bits(), (-0.0f64).to_bits()));
    assert!(!same_number(f64::NAN.to_bits(), f64::NAN.to_bits()));
    assert!(!same_number(1.0f64.to_bits(), 2.0f64.to_bits()));
    assert!(same_number(f64::INFINITY.to_bits(), f64::INFINITY.to_bits()));
}

#[test]
fn local_table_starts_with_header() {
    match beeline::write_datapoints_tsv(&vec![point("a", T1, 1.0, None)]) {
        Ok(text) => {
            assert!(text.starts_with("TIMESTAMP\tVALUE\tCOMMENT\tID\n"));
            assert!(text.ends_with("\t1\t\ta\n"));
        }
        Err(e) => assert_eq!(e, TableError::NoLocalOffset),
    }
}

#[test]
fn local_scan_reads_rows() {
    match beeline::scan_table_local("header\n2020-09-13 12:26:40\t3\tc\tid\n") {
        Ok(rows) => assert_eq!(rows.len(), 1),
        Err(e) => assert_eq!(e, TableError::NoLocalOffset),
    }
}
