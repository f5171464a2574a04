use pq_utils::json_format::{to_json, JsonError};
use pq_utils::model::{ColumnDescriptor, FieldValue, FloatValue, PhysicalType};

fn id_name_cols() -> Vec<ColumnDescriptor> {
    vec![
        ColumnDescriptor {
            name: "id".to_string(),
            physical: PhysicalType::Int64,
            logical: None,
        },
        ColumnDescriptor {
            name: "name".to_string(),
            physical: PhysicalType::ByteArray,
            logical: Some("String".to_string()),
        },
    ]
}

fn id_name_rows() -> Vec<Vec<FieldValue>> {
    vec![
        vec![FieldValue::Long(1), FieldValue::Str("alice".to_string())],
        vec![FieldValue::Long(2), FieldValue::Str("bob".to_string())],
        vec![FieldValue::Long(3), FieldValue::Str("carol".to_string())],
    ]
}

#[test]
fn head_two_rows_as_json() {
    let out = to_json(&id_name_cols(), &id_name_rows(), Some(2)).unwrap();
    assert_eq!(out, "[{\"id\":1,\"name\":\"alice\"},{\"id\":2,\"name\":\"bob\"}]");
}

#[test]
fn json_limit_zero_gives_empty_array() {
    let out = to_json(&id_name_cols(), &id_name_rows(), Some(0)).unwrap();
    assert_eq!(out, "[]");
}

#[test]
fn json_no_limit_takes_all_rows() {
    let out = to_json(&id_name_cols(), &id_name_rows(), None).unwrap();
    assert_eq!(
        out,
        "[{\"id\":1,\"name\":\"alice\"},{\"id\":2,\"name\":\"bob\"},{\"id\":3,\"name\":\"carol\"}]"
    );
}

#[test]
fn json_output_parses_as_array_of_objects() {
    let out = to_json(&id_name_cols(), &id_name_rows(), None).unwrap();
    let v: serde_json::Value = serde_json::from_str(&out).unwrap();
    let arr = v.as_array().unwrap();
    assert_eq!(arr.len(), 3);
    for obj in arr {
        let m = obj.as_object().unwrap();
        assert_eq!(m.len(), 2);
        assert!(m.contains_key("id"));
        assert!(m.contains_key("name"));
    }
    assert_eq!(arr[0]["id"], serde_json::Value::Number(1.into()));
    assert_eq!(arr[2]["name"], serde_json::Value::String("carol".to_string()));
}

#[test]
fn json_string_escaping_matches_reference_serializer() {
    let tricky = "a\"b\\c\nd\u{1}e\tf\u{1f}";
    let cols = vec![ColumnDescriptor {
        name: "s".to_string(),
        physical: PhysicalType::ByteArray,
        logical: None,
    }];
    let rows = vec![vec![FieldValue::Str(tricky.to_string())]];
    let out = to_json(&cols, &rows, None).unwrap();

    let mut m = serde_json::Map::new();
    m.insert(
        "s".to_string(),
        serde_json::Value::String(tricky.to_string()),
    );
    let reference = serde_json::to_string(&serde_json::Value::Object(m)).unwrap();
    assert_eq!(out, format!("[{}]", reference));
}

#[test]
fn json_escapes_control_characters() {
    let cols = vec![ColumnDescriptor {
        name: "s".to_string(),
        physical: PhysicalType::ByteArray,
        logical: None,
    }];
    let rows = vec![vec![FieldValue::Str("a\"b\\c\nd\u{1}".to_string())]];
    let out = to_json(&cols, &rows, None).unwrap();
    assert_eq!(out, "[{\"s\":\"a\\\"b\\\\c\\nd\\u0001\"}]");
}

#[test]
fn json_numbers_and_booleans_keep_native_types() {
    let cols = vec![
        ColumnDescriptor {
            name: "i".to_string(),
            physical: PhysicalType::Int32,
            logical: None,
        },
        ColumnDescriptor {
            name: "b".to_string(),
            physical: PhysicalType::Boolean,
            logical: None,
        },
        ColumnDescriptor {
            name: "x".to_string(),
            physical: PhysicalType::Double,
            logical: None,
        },
        ColumnDescriptor {
            name: "o".to_string(),
            physical: PhysicalType::Int96,
            logical: None,
        },
    ];
    let n = serde_json::Number::from_f64(f64::from(0.1f32)).unwrap();
    let rows = vec![vec![
        FieldValue::Int(-5),
        FieldValue::Bool(false),
        FieldValue::Float(FloatValue { text: "0.1".to_string(), json_text: Some(n.to_string()) }),
        FieldValue::Other("1970-01-01".to_string()),
    ]];
    let out = to_json(&cols, &rows, None).unwrap();
    assert_eq!(
        out,
        format!("[{{\"i\":-5,\"b\":false,\"x\":{},\"o\":\"1970-01-01\"}}]", n)
    );
}

#[test]
fn non_finite_float_fails_whole_emission() {
    let cols = vec![
        ColumnDescriptor {
            name: "id".to_string(),
            physical: PhysicalType::Int64,
            logical: None,
        },
        ColumnDescriptor {
            name: "x".to_string(),
            physical: PhysicalType::Double,
            logical: None,
        },
    ];
    let bad = FloatValue { text: "NaN".to_string(), json_text: None };
    let rows = vec![
        vec![FieldValue::Long(1), FieldValue::Double(FloatValue {
            text: "1.5".to_string(),
            json_text: Some("1.5".to_string()),
        })],
        vec![FieldValue::Long(2), FieldValue::Double(bad)],
    ];
    let err = to_json(&cols, &rows, None).unwrap_err();
    assert_eq!(err, JsonError { row: 1, column: 1 });
}

#[test]
fn non_finite_float_past_limit_does_not_fail() {
    let cols = vec![ColumnDescriptor {
        name: "x".to_string(),
        physical: PhysicalType::Float,
        logical: None,
    }];
    let rows = vec![
        vec![FieldValue::Float(FloatValue {
            text: "2.0".to_string(),
            json_text: Some("2.0".to_string()),
        })],
        vec![FieldValue::Float(FloatValue { text: "inf".to_string(), json_text: None })],
    ];
    let out = to_json(&cols, &rows, Some(1)).unwrap();
    assert_eq!(out, "[{\"x\":2.0}]");
    assert!(to_json(&cols, &rows, None).is_err());
}
