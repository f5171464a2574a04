use pq_utils::model::{bool_string, ColumnDescriptor, FieldValue, OutputFormat, PhysicalType};
use pq_utils::schema_format::schema_table_rows;
use pq_utils::text::i64_string;
use pq_utils::csv_format::csv_row_line;

#[test]
fn schema_table_has_header_and_one_row_per_column() {
    let cols = vec![
        ColumnDescriptor {
            name: "id".to_string(),
            physical: PhysicalType::Int64,
            logical: None,
        },
        ColumnDescriptor {
            name: "name".to_string(),
            physical: PhysicalType::ByteArray,
            logical: Some("String".to_string()),
        },
    ];
    let rows = schema_table_rows(&cols);
    assert_eq!(rows.len(), 3);
    assert_eq!(rows[0], vec!["Column name", "Physical type", "Logical type"]);
    assert_eq!(rows[1], vec!["id", "INT64", ""]);
    assert_eq!(rows[2], vec!["name", "BYTE_ARRAY", "String"]);
}

#[test]
fn schema_table_of_no_columns_is_header_only() {
    let rows = schema_table_rows(&Vec::new());
    assert_eq!(rows.len(), 1);
    assert_eq!(rows[0], vec!["Column name", "Physical type", "Logical type"]);
}

#[test]
fn physical_type_names() {
    assert_eq!(PhysicalType::Boolean.name(), "BOOLEAN");
    assert_eq!(PhysicalType::Int32.name(), "INT32");
    assert_eq!(PhysicalType::Int64.name(), "INT64");
    assert_eq!(PhysicalType::Int96.name(), "INT96");
    assert_eq!(PhysicalType::Float.name(), "FLOAT");
    assert_eq!(PhysicalType::Double.name(), "DOUBLE");
    assert_eq!(PhysicalType::ByteArray.name(), "BYTE_ARRAY");
    assert_eq!(PhysicalType::FixedLenByteArray.name(), "FIXED_LEN_BYTE_ARRAY");
}

#[test]
fn output_format_from_name() {
    assert_eq!(OutputFormat::from_name("csv"), Some(OutputFormat::Csv));
    assert_eq!(OutputFormat::from_name("json"), Some(OutputFormat::Json));
    assert_eq!(OutputFormat::from_name("CSV"), None);
    assert_eq!(OutputFormat::from_name(""), None);
    assert_eq!(OutputFormat::from_name("table"), None);
}

#[test]
fn integer_rendering_covers_extremes() {
    assert_eq!(i64_string(0), "0");
    assert_eq!(i64_string(10), "10");
    assert_eq!(i64_string(-7), "-7");
    assert_eq!(i64_string(9223372036854775807), "9223372036854775807");
    assert_eq!(i64_string(-9223372036854775808), "-9223372036854775808");
}

#[test]
fn bool_rendering() {
    assert_eq!(bool_string(true), "true");
    assert_eq!(bool_string(false), "false");
}

#[test]
fn display_projection_keeps_strings_verbatim() {
    let line = csv_row_line(&vec![FieldValue::Str("no escaping here".to_string())]);
    assert_eq!(line, "no escaping here\n");
}
