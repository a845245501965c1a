use json_fragments::parse_json;
use json_fragments::FlattenError;
use json_fragments::JsonValue;

fn from_serde(v: &serde_json::Value) -> JsonValue {
    match v {
        serde_json::Value::Null => JsonValue::Null,
        serde_json::Value::Bool(b) => JsonValue::Bool(*b),
        serde_json::Value::Number(n) => JsonValue::Number(n.as_i64().expect("integral number")),
        serde_json::Value::String(s) => JsonValue::String(s.clone()),
        serde_json::Value::Array(elems) => JsonValue::Array(elems.iter().map(from_serde).collect()),
        serde_json::Value::Object(members) => JsonValue::Object(
            members.iter().map(|(k, v)| (k.clone(), from_serde(v))).collect(),
        ),
    }
}

#[test]
fn hello_world_json_parse_test() {
    let str = "{ \"hello\": \"world\" }";
    let json: serde_json::Value =
        serde_json::from_str(str).expect("failed to parse json using serde library");
    let json_data = parse_json(&from_serde(&json)).expect("failed to parse json");

    assert!(json_data.fragments.len() > 0);
}

#[test]
fn scenario_scalar_null() {
    let data = parse_json(&JsonValue::Null).unwrap();
    assert_eq!(data.fragments.len(), 1);
    let f = &data.fragments[0];
    assert_eq!(f.data, b"null".to_vec());
    assert_eq!(f.flags, 0x01);
    assert_eq!(f.index, 0);
    assert_eq!(f.parent, None);
    assert_eq!(f.hash.len(), 32);
}

#[test]
fn scenario_flat_object() {
    let v = JsonValue::Object(vec![(
        "hello".to_string(),
        JsonValue::String("world".to_string()),
    )]);
    let data = parse_json(&v).unwrap();
    assert_eq!(data.fragments.len(), 2);

    let root = &data.fragments[0];
    assert_eq!(root.index, 0);
    assert_eq!(root.parent, None);
    assert_eq!(root.flags, 0x20);
    assert_eq!(root.data, b"{\"hello\":\"world\"}".to_vec());

    let child = &data.fragments[1];
    assert_eq!(child.index, 1);
    assert_eq!(child.parent, Some(0));
    assert_eq!(child.flags, 0x08);
    assert_eq!(child.data, b"\"world\"".to_vec());
}

#[test]
fn scenario_nested_array() {
    let v = JsonValue::Array(vec![
        JsonValue::Number(1),
        JsonValue::Array(vec![JsonValue::Number(2), JsonValue::Number(3)]),
    ]);
    let data = parse_json(&v).unwrap();
    assert_eq!(data.fragments.len(), 5);

    let expected: Vec<(&[u8], u128, u8, Option<u8>)> = vec![
        (b"[1,[2,3]]", 0x10, 0, None),
        (b"1", 0x04, 1, Some(0)),
        (b"[2,3]", 0x10, 2, Some(0)),
        (b"2", 0x04, 3, Some(2)),
        (b"3", 0x04, 4, Some(2)),
    ];
    for (f, (data_bytes, flags, index, parent)) in data.fragments.iter().zip(expected) {
        assert_eq!(f.data, data_bytes.to_vec());
        assert_eq!(f.flags, flags);
        assert_eq!(f.index, index);
        assert_eq!(f.parent, parent);
    }
}

#[test]
fn scenario_empty_object() {
    let data = parse_json(&JsonValue::Object(vec![])).unwrap();
    assert_eq!(data.fragments.len(), 1);
    let f = &data.fragments[0];
    assert_eq!(f.flags, 0x20);
    assert_eq!(f.data, b"{}".to_vec());
    assert_eq!(f.parent, None);
}

#[test]
fn scenario_empty_array() {
    let data = parse_json(&JsonValue::Array(vec![])).unwrap();
    assert_eq!(data.fragments.len(), 1);
    let f = &data.fragments[0];
    assert_eq!(f.flags, 0x10);
    assert_eq!(f.data, b"[]".to_vec());
    assert_eq!(f.parent, None);
}

#[test]
fn negative_number_and_bool_data() {
    let v = JsonValue::Array(vec![
        JsonValue::Number(-5),
        JsonValue::Number(42),
        JsonValue::Bool(true),
        JsonValue::Bool(false),
    ]);
    let data = parse_json(&v).unwrap();
    assert_eq!(data.fragments[0].data, b"[-5,42,true,false]".to_vec());
    assert_eq!(data.fragments[1].data, b"-5".to_vec());
    assert_eq!(data.fragments[2].data, b"42".to_vec());
    assert_eq!(data.fragments[3].data, b"true".to_vec());
    assert_eq!(data.fragments[4].data, b"false".to_vec());
}

#[test]
fn extreme_numbers() {
    let data = parse_json(&JsonValue::Number(i64::MIN)).unwrap();
    assert_eq!(data.fragments[0].data, b"-9223372036854775808".to_vec());
    let data = parse_json(&JsonValue::Number(i64::MAX)).unwrap();
    assert_eq!(data.fragments[0].data, b"9223372036854775807".to_vec());
    let data = parse_json(&JsonValue::Number(0)).unwrap();
    assert_eq!(data.fragments[0].data, b"0".to_vec());
}

#[test]
fn largest_document_that_fits() {
    let v = JsonValue::Array((0..255).map(|_| JsonValue::Number(7)).collect());
    let data = parse_json(&v).unwrap();
    assert_eq!(data.fragments.len(), 256);
    assert_eq!(data.fragments[255].index, 255);
    assert_eq!(data.fragments[255].parent, Some(0));
}

#[test]
fn index_overflow_fails_whole_call() {
    let v = JsonValue::Array((0..256).map(|_| JsonValue::Number(7)).collect());
    let r = parse_json(&v);
    assert!(matches!(r, Err(FlattenError::IndexOverflow)));
}
