use xmlrpc_value::de::{deserialize, deserialize_with_depth, DeError, ParseError};
use xmlrpc_value::event::XmlEvent;
use xmlrpc_value::ser::serialize;
use xmlrpc_value::value::{insert_member, try_collect_value, Value};

fn kind(r: Result<Value, ParseError>) -> Result<Value, DeError> {
    r.map_err(|e| e.kind)
}

fn start(t: &str) -> XmlEvent {
    XmlEvent::Start(t.to_string())
}

fn end(t: &str) -> XmlEvent {
    XmlEvent::End(t.to_string())
}

fn text(t: &str) -> XmlEvent {
    XmlEvent::Text(t.to_string())
}

fn scalar_doc(tag: &str, body: &str) -> Vec<XmlEvent> {
    vec![start("value"), start(tag), text(body), end(tag), end("value")]
}

fn member(name: &str, tag: &str, body: &str) -> Vec<XmlEvent> {
    let mut v = vec![start("member"), start("name"), text(name), end("name")];
    v.extend(scalar_doc(tag, body));
    v.push(end("member"));
    v
}

fn nested_structs(levels: usize) -> Value {
    let mut v = Value::Int(7);
    for _ in 0..levels {
        v = Value::Struct(vec![("inner".to_string(), v)]);
    }
    v
}

#[test]
fn test_tuple_destructure() {
    let vec = vec![Value::Int(1), Value::String("2".into())];

    let (a, b): (i32, String) = try_collect_value(&vec).unwrap();
    assert_eq!(a, 1);
    assert_eq!(b, "2");
}

#[test]
fn tuple_destructure_fails_on_mismatch() {
    let vec = vec![Value::String("x".into()), Value::Int(1)];
    let r: Option<(i32, String)> = try_collect_value(&vec);
    assert!(r.is_none());
}

#[test]
fn tuple_destructure_fails_when_short() {
    let vec = vec![Value::Int(1)];
    let r: Option<(i32, String)> = try_collect_value(&vec);
    assert!(r.is_none());
}

#[test]
fn accessors_are_variant_exact() {
    assert_eq!(Value::Int(5).as_i64(), None);
    assert_eq!(Value::Int64(5).as_i32(), None);
    assert_eq!(Value::Int(5).as_i32(), Some(5));
    assert_eq!(Value::Int64(-5).as_i64(), Some(-5));
    assert_eq!(Value::Bool(true).as_bool(), Some(true));
    assert_eq!(Value::Nil.as_bool(), None);
    assert_eq!(Value::String("s".into()).as_str(), Some("s"));
    assert_eq!(Value::Int(1).as_str(), None);
    assert_eq!(Value::Base64(vec![1, 2]).as_bytes(), Some(&[1u8, 2][..]));
    assert_eq!(Value::Double("1.5".into()).as_double_literal(), Some("1.5"));
    assert!(Value::Array(vec![]).as_array().is_some());
    assert!(Value::Array(vec![]).as_struct().is_none());
}

#[test]
fn serialize_int_exact_events() {
    assert_eq!(serialize(&Value::Int(-42)), scalar_doc("i4", "-42"));
    assert_eq!(serialize(&Value::Int64(i64::MIN)), scalar_doc("i8", "-9223372036854775808"));
    assert_eq!(serialize(&Value::Bool(false)), scalar_doc("boolean", "0"));
    assert_eq!(
        serialize(&Value::Nil),
        vec![start("value"), start("nil"), end("nil"), end("value")]
    );
}

#[test]
fn serialize_base64_encodes() {
    assert_eq!(serialize(&Value::Base64(vec![1, 2, 3])), scalar_doc("base64", "AQID"));
}

#[test]
fn array_order_preserved() {
    let v = Value::Array(vec![Value::Int(1), Value::String("2".into()), Value::Bool(true)]);
    assert_eq!(kind(deserialize(&serialize(&v))), Ok(v));
}

#[test]
fn round_trip_mixed_values() {
    let v = Value::Struct(vec![
        ("a".to_string(), Value::Int64(9_000_000_000)),
        ("b".to_string(), Value::Double("-1.25e3".into())),
        ("c".to_string(), Value::Base64(vec![0, 255, 7, 8])),
        ("d".to_string(), Value::Array(vec![Value::Nil, Value::String(String::new())])),
        ("e".to_string(), Value::String("a < b & c".into())),
    ]);
    assert_eq!(kind(deserialize(&serialize(&v))), Ok(v));
}

#[test]
fn struct_keys_survive_round_trip() {
    let v = Value::Struct(vec![
        ("x".to_string(), Value::Int(1)),
        ("y".to_string(), Value::Int(2)),
        ("z".to_string(), Value::Int(3)),
    ]);
    let back = deserialize(&serialize(&v)).unwrap();
    assert_eq!(back.as_struct().unwrap().len(), 3);
    assert_eq!(back, v);
}

#[test]
fn boolean_rejects_words() {
    assert_eq!(kind(deserialize(&scalar_doc("boolean", "true"))), Err(DeError::BooleanFormat));
    assert_eq!(kind(deserialize(&scalar_doc("boolean", " 1 "))), Ok(Value::Bool(true)));
}

#[test]
fn base64_rejects_garbage() {
    assert_eq!(kind(deserialize(&scalar_doc("base64", "!!!"))), Err(DeError::Base64Format));
    assert_eq!(kind(deserialize(&scalar_doc("base64", "AQ\nID"))), Ok(Value::Base64(vec![1, 2, 3])));
}

#[test]
fn integer_errors() {
    assert_eq!(kind(deserialize(&scalar_doc("int", "12x"))), Err(DeError::IntegerFormat));
    assert_eq!(kind(deserialize(&scalar_doc("i4", "2147483648"))), Err(DeError::IntegerFormat));
    assert_eq!(kind(deserialize(&scalar_doc("i4", "-2147483648"))), Ok(Value::Int(i32::MIN)));
    assert_eq!(kind(deserialize(&scalar_doc("i8", "2147483648"))), Ok(Value::Int64(2147483648)));
    assert_eq!(kind(deserialize(&scalar_doc("int", " +17 "))), Ok(Value::Int(17)));
}

#[test]
fn double_errors() {
    assert_eq!(kind(deserialize(&scalar_doc("double", "abc"))), Err(DeError::DoubleFormat));
    assert_eq!(kind(deserialize(&scalar_doc("double", " 2.5 "))), Ok(Value::Double("2.5".into())));
}

#[test]
fn datetime_parses_and_rejects() {
    let v = deserialize(&scalar_doc("dateTime.iso8601", "2024-01-02T03:04:05Z")).unwrap();
    let d = v.as_datetime().unwrap();
    assert_eq!(d.time.hour, 3);
    assert_eq!(d.time.second, 5);
    assert_eq!(
        kind(deserialize(&scalar_doc("dateTime.iso8601", "not a date"))),
        Err(DeError::DateTimeFormat)
    );
}

#[test]
fn datetime_serializes_as_iso_text() {
    let v = deserialize(&scalar_doc("dateTime.iso8601", "2024-01-02T03:04:05Z")).unwrap();
    let events = serialize(&v);
    assert_eq!(events[2], text("2024-01-02T03:04:05.000+00:00"));
    assert_eq!(kind(deserialize(&events)), Ok(v));
}

#[test]
fn bare_text_is_string() {
    let doc = vec![start("value"), text("plain"), end("value")];
    assert_eq!(kind(deserialize(&doc)), Ok(Value::String("plain".into())));
    let empty = vec![start("value"), end("value")];
    assert_eq!(kind(deserialize(&empty)), Ok(Value::String(String::new())));
    let empty_string = vec![start("value"), start("string"), end("string"), end("value")];
    assert_eq!(kind(deserialize(&empty_string)), Ok(Value::String(String::new())));
}

#[test]
fn unknown_tag_and_missing_element() {
    assert_eq!(kind(deserialize(&scalar_doc("float", "1"))), Err(DeError::UnknownTag));
    let doc = vec![start("value"), start("int"), text("1"), end("value")];
    assert_eq!(kind(deserialize(&doc)), Err(DeError::MissingElement));
}

#[test]
fn member_without_name_is_struct_format() {
    let mut doc = vec![start("value"), start("struct"), start("member")];
    doc.extend(scalar_doc("int", "1"));
    doc.extend(vec![end("member"), end("struct"), end("value")]);
    assert_eq!(kind(deserialize(&doc)), Err(DeError::StructFormat));
}

#[test]
fn depth_bound_is_enforced() {
    let deep = nested_structs(5);
    let events = serialize(&deep);
    assert_eq!(kind(deserialize_with_depth(&events, 4)), Err(DeError::DepthExceeded));
    assert_eq!(kind(deserialize_with_depth(&events, 5)), Ok(deep));
    let too_deep = serialize(&nested_structs(65));
    assert_eq!(kind(deserialize(&too_deep)), Err(DeError::DepthExceeded));
}

#[test]
fn duplicate_member_last_wins() {
    let mut doc = vec![start("value"), start("struct")];
    doc.extend(member("x", "int", "1"));
    doc.extend(member("y", "int", "2"));
    doc.extend(member("x", "int", "3"));
    doc.extend(vec![end("struct"), end("value")]);
    let v = deserialize(&doc).unwrap();
    let expected = Value::Struct(vec![
        ("x".to_string(), Value::Int(3)),
        ("y".to_string(), Value::Int(2)),
    ]);
    assert_eq!(v, expected);
}

#[test]
fn insert_member_replaces_in_place() {
    let mut m = vec![("a".to_string(), Value::Int(1)), ("b".to_string(), Value::Int(2))];
    insert_member(&mut m, "a".to_string(), Value::Nil);
    insert_member(&mut m, "c".to_string(), Value::Bool(true));
    assert_eq!(
        m,
        vec![
            ("a".to_string(), Value::Nil),
            ("b".to_string(), Value::Int(2)),
            ("c".to_string(), Value::Bool(true)),
        ]
    );
}

#[test]
fn double_literal_constructor() {
    assert!(Value::double_from_literal("abc".to_string()).is_none());
    assert!(Value::double_from_literal(" 1.0".to_string()).is_none());
    assert_eq!(
        Value::double_from_literal("-1.5e3".to_string()),
        Some(Value::Double("-1.5e3".to_string()))
    );
    assert!(Value::double_from_literal(".5".to_string()).is_some());
    assert!(Value::double_from_literal("1e".to_string()).is_none());
}

#[test]
fn struct_constructor_keeps_last_of_each_name() {
    let v = Value::struct_from_members(vec![
        ("k".to_string(), Value::Int(1)),
        ("j".to_string(), Value::Int(2)),
        ("k".to_string(), Value::Int(3)),
    ]);
    assert_eq!(
        v,
        Value::Struct(vec![("k".to_string(), Value::Int(3)), ("j".to_string(), Value::Int(2))])
    );
}

#[test]
fn errors_name_the_offending_event() {
    let err = deserialize(&scalar_doc("boolean", "true")).unwrap_err();
    assert_eq!(err, ParseError { kind: DeError::BooleanFormat, position: 1 });
    let doc = vec![start("value"), start("int"), text("1"), end("value")];
    let err = deserialize(&doc).unwrap_err();
    assert_eq!(err, ParseError { kind: DeError::MissingElement, position: 3 });
}
