use protoflow_blocks::csv_codec::{csv_fields, decode_csv, encode_value_to_csv};
use protoflow_blocks::value::{Kind, ListValue, Value};

fn string_value(s: &str) -> Value {
    Value { kind: Some(Kind::StringValue(s.to_string())) }
}

fn list(values: Vec<Value>) -> Value {
    Value { kind: Some(Kind::ListValue(ListValue { values })) }
}

fn strings_in(v: &Value) -> Vec<String> {
    match &v.kind {
        Some(Kind::ListValue(lv)) => lv
            .values
            .iter()
            .map(|x| match &x.kind {
                Some(Kind::StringValue(s)) => s.clone(),
                _ => panic!("not a string"),
            })
            .collect(),
        _ => panic!("not a list"),
    }
}

#[test]
fn test_encode_value_to_csv_valid_header() {
    let value = list(vec![string_value("col1"), string_value("col2"), string_value("col3")]);
    let bytes = encode_value_to_csv(&value).expect("Encoding should succeed");
    assert_eq!(String::from_utf8(bytes.to_vec()).unwrap(), "col1,col2,col3\n");
}

#[test]
fn test_encode_value_to_csv_empty_row() {
    let value = list(vec![]);
    let bytes = encode_value_to_csv(&value).expect("Encoding should succeed");
    assert_eq!(String::from_utf8(bytes.to_vec()).unwrap(), "\"\"\n");
}

#[test]
fn test_encode_value_to_csv_ignores_non_string_values() {
    let value = list(vec![
        string_value("valid"),
        Value { kind: None },
        Value { kind: Some(Kind::NumberValue(42.0f64.to_bits())) },
    ]);
    let bytes = encode_value_to_csv(&value).expect("Encoding should succeed");
    assert_eq!(String::from_utf8(bytes.to_vec()).unwrap(), "valid\n");
}

#[test]
fn test_encode_value_to_csv_invalid_value() {
    let value = Value { kind: None };
    let bytes = encode_value_to_csv(&value).expect("Encoding should succeed");
    assert_eq!(String::from_utf8(bytes.to_vec()).unwrap(), "");
}

#[test]
fn encode_csv_quotes_fields_that_need_it() {
    let value = list(vec![string_value("a,b"), string_value("say \"hi\""), string_value("plain")]);
    let bytes = encode_value_to_csv(&value).unwrap();
    assert_eq!(String::from_utf8(bytes).unwrap(), "\"a,b\",\"say \"\"hi\"\"\",plain\n");
}

#[test]
fn encode_csv_single_empty_field_is_quoted() {
    let value = list(vec![string_value("")]);
    let bytes = encode_value_to_csv(&value).unwrap();
    assert_eq!(String::from_utf8(bytes).unwrap(), "\"\"\n");
}

#[test]
fn encode_csv_of_a_non_list_is_empty() {
    let bytes = encode_value_to_csv(&string_value("x")).unwrap();
    assert!(bytes.is_empty());
}

#[test]
fn csv_fields_keep_only_strings() {
    let value = list(vec![
        string_value("a"),
        Value { kind: Some(Kind::BoolValue(true)) },
        string_value("b"),
    ]);
    assert_eq!(csv_fields(&value), Some(vec!["a".to_string(), "b".to_string()]));
    assert_eq!(csv_fields(&Value { kind: None }), None);
}

#[test]
fn decode_csv_reads_header_and_rows() {
    let input = b"Name,Age,Score\nAlice,25,90\nBob,30,85\nCharlie,22,95".to_vec();
    let decoded = decode_csv(&input);
    assert!(decoded.error.is_none());
    let header = decoded.header.expect("a header");
    assert_eq!(strings_in(&header), vec!["Name", "Age", "Score"]);
    assert_eq!(decoded.rows.len(), 3);
    assert_eq!(strings_in(&decoded.rows[0]), vec!["Alice", "25", "90"]);
    assert_eq!(strings_in(&decoded.rows[1]), vec!["Bob", "30", "85"]);
    assert_eq!(strings_in(&decoded.rows[2]), vec!["Charlie", "22", "95"]);
}

#[test]
fn decode_csv_stops_at_a_bad_record() {
    let input = b"a,b\n1,2\n3\n4,5\n".to_vec();
    let decoded = decode_csv(&input);
    assert!(decoded.error.is_some());
    assert_eq!(strings_in(decoded.header.as_ref().unwrap()), vec!["a", "b"]);
    assert_eq!(decoded.rows.len(), 1);
    assert_eq!(strings_in(&decoded.rows[0]), vec!["1", "2"]);
}

#[test]
fn decode_csv_fails_on_a_bad_header() {
    let input = vec![0xffu8, b',', b'a', b'\n', b'1', b',', b'2', b'\n'];
    let decoded = decode_csv(&input);
    assert!(decoded.header.is_none());
    assert!(decoded.rows.is_empty());
    assert!(decoded.error.is_some());
}

#[test]
fn csv_roundtrip_through_encoding() {
    let header = list(vec![string_value("Name"), string_value("Age")]);
    let row = list(vec![string_value("Alice"), string_value("25")]);
    let mut bytes = encode_value_to_csv(&header).unwrap();
    bytes.extend(encode_value_to_csv(&row).unwrap());
    let decoded = decode_csv(&bytes);
    assert_eq!(strings_in(decoded.header.as_ref().unwrap()), vec!["Name", "Age"]);
    assert_eq!(decoded.rows.len(), 1);
    assert_eq!(strings_in(&decoded.rows[0]), vec!["Alice", "25"]);
}

#[test]
fn csv_roundtrip_keeps_special_fields() {
    let table = vec![
        vec!["name", "note", ""],
        vec!["a,b", "say \"hi\"", "line\nbreak"],
        vec!["", "", ""],
        vec![" padded ", "cr\r", "é"],
    ];
    let mut bytes = Vec::new();
    for row in &table {
        bytes.extend(encode_value_to_csv(&list(row.iter().map(|s| string_value(s)).collect())).unwrap());
    }
    let decoded = decode_csv(&bytes);
    assert!(decoded.error.is_none());
    assert_eq!(strings_in(decoded.header.as_ref().unwrap()), table[0]);
    assert_eq!(decoded.rows.len(), table.len() - 1);
    for (row, expected) in decoded.rows.iter().zip(table.iter().skip(1)) {
        assert_eq!(&strings_in(row), expected);
    }
}

#[test]
fn csv_roundtrip_of_single_empty_fields() {
    let mut bytes = Vec::new();
    for _ in 0..3 {
        bytes.extend(encode_value_to_csv(&list(vec![string_value("")])).unwrap());
    }
    let decoded = decode_csv(&bytes);
    assert!(decoded.error.is_none());
    assert_eq!(strings_in(decoded.header.as_ref().unwrap()), vec![""]);
    assert_eq!(decoded.rows.len(), 2);
    assert_eq!(strings_in(&decoded.rows[1]), vec![""]);
}
