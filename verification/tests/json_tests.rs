use protoflow_blocks::json::{encode_writes, write_number, JsonWrite};
use protoflow_blocks::json_decode::{
    is_well_formed, JsonDecodeError, JsonDecoder, JsonEvent, JsonRead, JsonStep, JsonType,
};
use protoflow_blocks::value::{Kind, ListValue, Struct, Value};
use struson::reader::{JsonReader, JsonStreamReader, ValueType};
use struson::writer::{JsonStreamWriter, JsonWriter};

/// Runs the decoder against a struson reader over `input`.
fn read_value(input: &str) -> Result<Value, String> {
    let mut json = JsonStreamReader::new(input.as_bytes());
    let (mut decoder, mut read) = JsonDecoder::new();
    loop {
        let event = match read {
            JsonRead::Peek => JsonEvent::Peeked(match json.peek().map_err(|e| e.to_string())? {
                ValueType::Null => JsonType::Null,
                ValueType::Boolean => JsonType::Boolean,
                ValueType::Number => JsonType::Number,
                ValueType::String => JsonType::String,
                ValueType::Array => JsonType::Array,
                ValueType::Object => JsonType::Object,
            }),
            JsonRead::ReadNull => {
                json.next_null().map_err(|e| e.to_string())?;
                JsonEvent::Null
            }
            JsonRead::ReadBool => JsonEvent::Bool(json.next_bool().map_err(|e| e.to_string())?),
            JsonRead::ReadNumber => {
                let text = json.next_number_as_string().map_err(|e| e.to_string())?;
                let parsed = text.parse::<f64>().ok().map(f64::to_bits);
                JsonEvent::Number(text, parsed)
            }
            JsonRead::ReadString => JsonEvent::Str(json.next_string().map_err(|e| e.to_string())?),
            JsonRead::BeginArray => {
                json.begin_array().map_err(|e| e.to_string())?;
                JsonEvent::Began
            }
            JsonRead::BeginObject => {
                json.begin_object().map_err(|e| e.to_string())?;
                JsonEvent::Began
            }
            JsonRead::HasNextItem => JsonEvent::HasNext(json.has_next().unwrap()),
            JsonRead::HasNextMember => {
                JsonEvent::HasNext(json.has_next().map_err(|e| e.to_string())?)
            }
            JsonRead::ReadName => JsonEvent::Name(json.next_name_owned().map_err(|e| e.to_string())?),
            JsonRead::EndArray => {
                json.end_array().map_err(|e| e.to_string())?;
                JsonEvent::Ended
            }
            JsonRead::EndObject => {
                json.end_object().map_err(|e| e.to_string())?;
                JsonEvent::Ended
            }
        };
        match decoder.on_event(event) {
            JsonStep::Read(next) => read = next,
            JsonStep::Done(value) => return Ok(value),
            JsonStep::Failed(e) => return Err(format!("{:?}", e)),
        }
    }
}

/// Writes the value with a struson writer, as the writes say.
fn write_value(value: &Value) -> String {
    let mut buffer = Vec::<u8>::new();
    {
        let mut json = JsonStreamWriter::new(&mut buffer);
        assert!(is_well_formed(value));
        for w in encode_writes(value) {
            match w {
                JsonWrite::Null => json.null_value().unwrap(),
                JsonWrite::Bool(b) => json.bool_value(b).unwrap(),
                JsonWrite::Number(bits) => json.fp_number_value(f64::from_bits(bits)).unwrap(),
                JsonWrite::Str(s) => json.string_value(&s).unwrap(),
                JsonWrite::Name(s) => json.name(&s).unwrap(),
                JsonWrite::BeginArray => json.begin_array().unwrap(),
                JsonWrite::EndArray => json.end_array().unwrap(),
                JsonWrite::BeginObject => json.begin_object().unwrap(),
                JsonWrite::EndObject => json.end_object().unwrap(),
            }
        }
        json.finish_document().unwrap();
    }
    String::from_utf8(buffer).unwrap()
}

fn to_value(kind: Kind) -> Value {
    Value { kind: Some(kind) }
}

fn number(x: f64) -> Kind {
    Kind::NumberValue(x.to_bits())
}

fn same(a: &Value, b: &Value) -> bool {
    format!("{:?}", a) == format!("{:?}", b)
}

#[test]
fn test_decode() {
    assert!(same(&to_value(Kind::NullValue(0)), &read_value("null").unwrap()));
    assert!(same(&to_value(Kind::BoolValue(false)), &read_value("false").unwrap()));
    assert!(same(&to_value(Kind::BoolValue(true)), &read_value("true").unwrap()));
    assert!(same(&to_value(number(0.)), &read_value("0").unwrap()));
    assert!(same(&to_value(number(1.)), &read_value("1").unwrap()));
    assert!(same(&to_value(number(1.)), &read_value("1").unwrap()));
    assert!(same(&to_value(number(1.)), &read_value("1.0").unwrap()));
    assert!(same(&to_value(number(1.123)), &read_value("1.123").unwrap()));
    assert!(same(&to_value(number(-1.123)), &read_value("-1.123").unwrap()));
    assert!(same(&to_value(number(100.)), &read_value("100").unwrap()));
    assert!(same(&to_value(number(1000.)), &read_value("1e3").unwrap()));

    assert!(same(
        &to_value(Kind::StringValue("Hello world".to_string())),
        &read_value(r#""Hello world""#).unwrap()
    ));

    assert!(same(
        &to_value(Kind::ListValue(ListValue { values: vec![] })),
        &read_value(r#"[]"#).unwrap()
    ));

    let expected = to_value(Kind::ListValue(ListValue {
        values: vec![
            Kind::NullValue(0),
            Kind::BoolValue(false),
            Kind::BoolValue(true),
            number(1.),
            Kind::StringValue("foo".to_string()),
            Kind::ListValue(ListValue {
                values: vec![to_value(Kind::StringValue("nested".to_string()))],
            }),
            Kind::StructValue(structure(vec![
                    ("bar".to_string(), to_value(Kind::BoolValue(true))),
                    ("foo".to_string(), to_value(number(1.))),
                ])),
        ]
        .into_iter()
        .map(to_value)
        .collect(),
    }));
    assert!(same(
        &expected,
        &read_value(r#"[null, false, true, 1, "foo", ["nested"], {"foo": 1, "bar": true}]"#)
            .unwrap()
    ));
}

#[test]
fn decode_keeps_the_last_of_repeated_names() {
    let expected = to_value(Kind::StructValue(structure(vec![
            ("a".to_string(), to_value(number(3.))),
            ("b".to_string(), to_value(number(2.))),
        ])));
    assert!(same(&expected, &read_value(r#"{"b": 2, "a": 1, "a": 3}"#).unwrap()));
}

#[test]
fn decoder_rejects_an_unexpected_event() {
    let (mut decoder, read) = JsonDecoder::new();
    assert_eq!(read, JsonRead::Peek);
    match decoder.on_event(JsonEvent::Null) {
        JsonStep::Failed(JsonDecodeError::UnexpectedEvent) => {}
        other => panic!("unexpected step {:?}", other),
    }
    assert_eq!(decoder.awaiting(), None);
}

#[test]
fn decoder_names_of_non_finite_numbers() {
    let (mut decoder, _) = JsonDecoder::new();
    decoder.on_event(JsonEvent::Peeked(JsonType::Number));
    match decoder.on_event(JsonEvent::Number("-Infinity".to_string(), None)) {
        JsonStep::Done(v) => assert!(same(&v, &to_value(number(f64::NEG_INFINITY)))),
        other => panic!("unexpected step {:?}", other),
    }
    let (mut decoder, _) = JsonDecoder::new();
    decoder.on_event(JsonEvent::Peeked(JsonType::Number));
    match decoder.on_event(JsonEvent::Number("NaN".to_string(), None)) {
        JsonStep::Done(Value { kind: Some(Kind::NumberValue(bits)) }) => {
            assert!(f64::from_bits(bits).is_nan())
        }
        other => panic!("unexpected step {:?}", other),
    }
}

#[test]
fn decoder_fails_on_an_unparsed_number() {
    let (mut decoder, _) = JsonDecoder::new();
    decoder.on_event(JsonEvent::Peeked(JsonType::Number));
    match decoder.on_event(JsonEvent::Number("1e999x".to_string(), None)) {
        JsonStep::Failed(JsonDecodeError::UnsupportedNumber(t)) => assert_eq!(t, "1e999x"),
        other => panic!("unexpected step {:?}", other),
    }
}

#[test]
fn write_number_names_non_finite_values() {
    assert!(matches!(write_number(f64::NAN.to_bits()), JsonWrite::Str(s) if s == "NaN"));
    assert!(matches!(write_number(f64::INFINITY.to_bits()), JsonWrite::Str(s) if s == "Infinity"));
    assert!(
        matches!(write_number(f64::NEG_INFINITY.to_bits()), JsonWrite::Str(s) if s == "-Infinity")
    );
    assert!(matches!(write_number(2.5f64.to_bits()), JsonWrite::Number(b) if b == 2.5f64.to_bits()));
}

#[test]
fn encode_writes_nested_values() {
    let value = to_value(Kind::StructValue(structure(vec![
            ("Age".to_string(), to_value(number(25.))),
            (
                "Tags".to_string(),
                to_value(Kind::ListValue(ListValue {
                    values: vec![
                        to_value(Kind::StringValue("x".to_string())),
                        to_value(Kind::NullValue(0)),
                        to_value(number(f64::NAN)),
                    ],
                })),
            ),
        ])));
    assert_eq!(write_value(&value), r#"{"Age":25,"Tags":["x",null,"NaN"]}"#);
}

#[test]
fn json_sanitize_roundtrip() {
    let input = r#"{
            "Name": "Alice",
            "Age": 25,
            "Score": 90
        }"#;
    let value = read_value(input).unwrap();
    assert_eq!(write_value(&value), r#"{"Age":25,"Name":"Alice","Score":90}"#);
    let again = read_value(&write_value(&value)).unwrap();
    assert!(same(&value, &again));
}

#[test]
fn structure_fields_are_kept_in_name_order() {
    let value = to_value(Kind::StructValue(structure(vec![
        ("b".to_string(), to_value(number(1.))),
        ("a".to_string(), to_value(number(2.))),
        ("b".to_string(), to_value(number(3.))),
    ])));
    assert!(is_well_formed(&value));
    assert_eq!(write_value(&value), r#"{"a":2,"b":3}"#);
    match &value.kind {
        Some(Kind::StructValue(st)) => {
            let names: Vec<&str> = st.fields().iter().map(|(k, _)| k.as_str()).collect();
            assert_eq!(names, vec!["a", "b"]);
        }
        _ => panic!("a structure"),
    }
    assert!(!is_well_formed(&to_value(Kind::StructValue(structure(vec![(
        "a".to_string(),
        Value { kind: None },
    )])))));
}

/// A structure with the given fields, set one by one.
fn structure(fields: Vec<(String, Value)>) -> Struct {
    let mut st = Struct::new();
    for (name, value) in fields {
        st.insert(name, value);
    }
    st
}
