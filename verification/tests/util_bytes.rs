use json_fragments::append_as_bytes;
use json_fragments::flags_to_vec;
use json_fragments::parse_json;
use json_fragments::IntoBytes;
use json_fragments::JsonValue;

#[test]
fn u8_into_bytes() {
    assert_eq!(7u8.into_bytes(), vec![7u8]);
}

#[test]
fn i32_into_bytes_little_endian() {
    assert_eq!(0x01020304i32.into_bytes(), vec![4u8, 3, 2, 1]);
    assert_eq!((-1i32).into_bytes(), vec![0xffu8, 0xff, 0xff, 0xff]);
    assert_eq!(i32::MIN.into_bytes(), vec![0u8, 0, 0, 0x80]);
}

#[test]
fn u128_into_bytes_little_endian() {
    let mut expected = vec![1u8];
    expected.resize(16, 0);
    assert_eq!(1u128.into_bytes(), expected);
    assert_eq!(0x20u128.into_bytes(), 0x20u128.to_le_bytes().to_vec());
}

#[test]
fn str_and_string_into_bytes() {
    assert_eq!("abc".into_bytes(), b"abc".to_vec());
    assert_eq!(IntoBytes::into_bytes("abc".to_string()), b"abc".to_vec());
}

#[test]
fn vec_into_bytes() {
    let v = vec![1u8, 2, 3];
    assert_eq!((&v).into_bytes(), v.clone());
    assert_eq!(v.as_slice().into_bytes(), vec![1u8, 2, 3]);
    assert_eq!(IntoBytes::into_bytes(v), vec![1u8, 2, 3]);
}

#[test]
fn append_keeps_prefix() {
    let mut buf = b"ab".to_vec();
    append_as_bytes(&mut buf, 5u8);
    append_as_bytes(&mut buf, "cd");
    assert_eq!(buf, vec![97u8, 98, 5, 99, 100]);
}

#[test]
fn flag_names_in_fixed_order() {
    assert_eq!(flags_to_vec(0x00), Vec::<String>::new());
    assert_eq!(flags_to_vec(0x01), vec!["null".to_string()]);
    assert_eq!(flags_to_vec(0x02), vec!["bool".to_string()]);
    assert_eq!(flags_to_vec(0x04), vec!["number".to_string()]);
    assert_eq!(flags_to_vec(0x08), vec!["string".to_string()]);
    assert_eq!(flags_to_vec(0x10), vec!["array".to_string()]);
    assert_eq!(flags_to_vec(0x20), vec!["object".to_string()]);
    assert_eq!(
        flags_to_vec(0x21),
        vec!["null".to_string(), "object".to_string()]
    );
}

#[test]
fn data_preview_truncates() {
    let data = parse_json(&JsonValue::Bool(false)).unwrap();
    let f = &data.fragments[0];
    let (bytes, truncated) = f.data_preview(3);
    assert_eq!(bytes, b"fal".to_vec());
    assert!(truncated);
    let (bytes, truncated) = f.data_preview(10);
    assert_eq!(bytes, b"false".to_vec());
    assert!(!truncated);
}

#[test]
fn string_escaping_through_serializer() {
    let v = JsonValue::String("a\"b\\c".to_string());
    let data = parse_json(&v).unwrap();
    assert_eq!(data.fragments[0].data, b"\"a\\\"b\\\\c\"".to_vec());
}
