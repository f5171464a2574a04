use pq_utils::csv_format::{csv_header_line, csv_row_line, to_csv};
use pq_utils::model::{ColumnDescriptor, FieldValue, FloatValue, PhysicalType};

fn id_name_cols() -> Vec<ColumnDescriptor> {
    vec![
        ColumnDescriptor {
            name: "id".to_string(),
            physical: PhysicalType::Int64,
            logical: None,
        },
        ColumnDescriptor {
            name: "name".to_string(),
            physical: PhysicalType::ByteArray,
            logical: Some("String".to_string()),
        },
    ]
}

fn id_name_rows() -> Vec<Vec<FieldValue>> {
    vec![
        vec![FieldValue::Long(1), FieldValue::Str("alice".to_string())],
        vec![FieldValue::Long(2), FieldValue::Str("bob".to_string())],
        vec![FieldValue::Long(3), FieldValue::Str("carol".to_string())],
    ]
}

#[test]
fn cat_csv_two_columns_three_rows() {
    let out = to_csv(&id_name_cols(), &id_name_rows(), None);
    assert_eq!(out, "id,name\n1,alice\n2,bob\n3,carol\n");
}

#[test]
fn csv_line_count_is_rows_plus_header() {
    let out = to_csv(&id_name_cols(), &id_name_rows(), None);
    assert_eq!(out.lines().count(), 4);
    let header = csv_header_line(&id_name_cols());
    assert_eq!(header.matches(',').count() + 1, 2);
}

#[test]
fn head_limit_below_row_count() {
    let out = to_csv(&id_name_cols(), &id_name_rows(), Some(2));
    assert_eq!(out, "id,name\n1,alice\n2,bob\n");
}

#[test]
fn head_limit_above_row_count() {
    let out = to_csv(&id_name_cols(), &id_name_rows(), Some(10));
    assert_eq!(out, "id,name\n1,alice\n2,bob\n3,carol\n");
}

#[test]
fn head_limit_zero_keeps_header_only() {
    let out = to_csv(&id_name_cols(), &id_name_rows(), Some(0));
    assert_eq!(out, "id,name\n");
}

#[test]
fn csv_quotes_separator_quote_and_line_break() {
    let row = vec![
        FieldValue::Str("with,comma".to_string()),
        FieldValue::Str("say \"hi\"".to_string()),
        FieldValue::Str("line\nbreak".to_string()),
        FieldValue::Str("plain".to_string()),
    ];
    let line = csv_row_line(&row);
    assert_eq!(line, "\"with,comma\",\"say \"\"hi\"\"\",\"line\nbreak\",plain\n");
}

#[test]
fn csv_single_empty_field_is_quoted() {
    let line = csv_row_line(&vec![FieldValue::Str(String::new())]);
    assert_eq!(line, "\"\"\n");
    let two = csv_row_line(&vec![FieldValue::Str(String::new()), FieldValue::Str(String::new())]);
    assert_eq!(two, ",\n");
}

#[test]
fn csv_non_string_tags_use_display_text() {
    let row = vec![
        FieldValue::Int(-2147483648),
        FieldValue::Long(-9223372036854775808),
        FieldValue::Bool(true),
        FieldValue::Bool(false),
        FieldValue::Float(FloatValue { text: "0.25".to_string(), json_text: Some("0.25".to_string()) }),
        FieldValue::Other("[1, 2]".to_string()),
    ];
    let line = csv_row_line(&row);
    assert_eq!(line, "-2147483648,-9223372036854775808,true,false,0.25,\"[1, 2]\"\n");
}

#[test]
fn csv_matches_reference_writer() {
    let cells = vec![
        "plain".to_string(),
        "with,comma".to_string(),
        "say \"hi\"".to_string(),
        "line\nbreak".to_string(),
        "cr\rhere".to_string(),
    ];
    let row: Vec<FieldValue> = cells.iter().map(|s| FieldValue::Str(s.clone())).collect();
    let line = csv_row_line(&row);

    let mut wtr = csv::Writer::from_writer(Vec::new());
    wtr.write_record(&cells).unwrap();
    let reference = String::from_utf8(wtr.into_inner().unwrap()).unwrap();
    assert_eq!(line, reference);
}

#[test]
fn round_trip_through_csv_reader() {
    let cells = vec![
        "plain".to_string(),
        "with,comma".to_string(),
        "say \"hi\"".to_string(),
        "line\nbreak".to_string(),
        String::new(),
    ];
    let row: Vec<FieldValue> = cells.iter().map(|s| FieldValue::Str(s.clone())).collect();
    let line = csv_row_line(&row);

    let mut rdr = csv::ReaderBuilder::new().has_headers(false).from_reader(line.as_bytes());
    let records: Vec<csv::StringRecord> = rdr.records().map(|r| r.unwrap()).collect();
    assert_eq!(records.len(), 1);
    let rec = &records[0];
    assert_eq!(rec.len(), cells.len());
    for (i, cell) in cells.iter().enumerate() {
        assert_eq!(&rec[i], cell.as_str());
    }
}

#[test]
fn header_round_trips_through_csv_reader() {
    let cols = vec![
        ColumnDescriptor {
            name: "plain".to_string(),
            physical: PhysicalType::Int32,
            logical: None,
        },
        ColumnDescriptor {
            name: "odd,name".to_string(),
            physical: PhysicalType::Boolean,
            logical: None,
        },
    ];
    let header = csv_header_line(&cols);
    let mut rdr = csv::ReaderBuilder::new().has_headers(false).from_reader(header.as_bytes());
    let records: Vec<csv::StringRecord> = rdr.records().map(|r| r.unwrap()).collect();
    assert_eq!(records.len(), 1);
    assert_eq!(records[0].len(), 2);
    assert_eq!(&records[0][0], "plain");
    assert_eq!(&records[0][1], "odd,name");
}

#[test]
fn empty_file_gives_header_only() {
    let out = to_csv(&id_name_cols(), &Vec::new(), None);
    assert_eq!(out, "id,name\n");
}
