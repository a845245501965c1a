use json_fragments::get_flags;
use json_fragments::hash_bytes;
use json_fragments::parse_json;
use json_fragments::JsonValue;

fn sample_document() -> JsonValue {
    JsonValue::Object(vec![
        ("a".to_string(), JsonValue::Null),
        (
            "b".to_string(),
            JsonValue::Array(vec![
                JsonValue::Number(1),
                JsonValue::Object(vec![("c".to_string(), JsonValue::Bool(true))]),
            ]),
        ),
        ("d".to_string(), JsonValue::String("x".to_string())),
    ])
}

#[test]
fn node_count_matches_fragments() {
    // root + a + b + 1 + {c:..} + true + d = 7 nodes
    let data = parse_json(&sample_document()).unwrap();
    assert_eq!(data.fragments.len(), 7);
}

#[test]
fn indices_distinct_and_increasing() {
    let data = parse_json(&sample_document()).unwrap();
    for (k, f) in data.fragments.iter().enumerate() {
        assert_eq!(f.index as usize, k);
    }
    for pair in data.fragments.windows(2) {
        assert!(pair[0].index < pair[1].index);
    }
}

#[test]
fn parents_point_to_earlier_fragments() {
    let data = parse_json(&sample_document()).unwrap();
    for f in data.fragments.iter().skip(1) {
        let p = f.parent.expect("non-root fragment has a parent");
        assert!(p < f.index);
        let parent = data
            .fragments
            .iter()
            .find(|g| g.index == p)
            .expect("parent index names a fragment");
        // the parent's serialized subtree contains the child's
        assert!(parent
            .data
            .windows(f.data.len().max(1))
            .any(|w| w == f.data.as_slice()));
    }
}

#[test]
fn exactly_one_root() {
    let data = parse_json(&sample_document()).unwrap();
    let roots: Vec<_> = data.fragments.iter().filter(|f| f.parent.is_none()).collect();
    assert_eq!(roots.len(), 1);
    assert_eq!(roots[0].index, 0);
}

#[test]
fn one_type_bit_per_fragment() {
    let data = parse_json(&sample_document()).unwrap();
    let expected = vec![0x20u128, 0x01, 0x10, 0x04, 0x20, 0x02, 0x08];
    for (f, flags) in data.fragments.iter().zip(expected) {
        assert_eq!(f.flags.count_ones(), 1);
        assert_eq!(f.flags, flags);
    }
}

#[test]
fn classification_bits_exact() {
    assert_eq!(get_flags(&JsonValue::Null), 0x01);
    assert_eq!(get_flags(&JsonValue::Bool(false)), 0x02);
    assert_eq!(get_flags(&JsonValue::Number(0)), 0x04);
    assert_eq!(get_flags(&JsonValue::String(String::new())), 0x08);
    assert_eq!(get_flags(&JsonValue::Array(vec![])), 0x10);
    assert_eq!(get_flags(&JsonValue::Object(vec![])), 0x20);
}

#[test]
fn classification_idempotent() {
    let v = JsonValue::Array(vec![JsonValue::Bool(true)]);
    assert_eq!(get_flags(&v), get_flags(&v));
    let n = JsonValue::Number(-3);
    assert_eq!(get_flags(&n), get_flags(&n));
}

#[test]
fn hash_deterministic() {
    let buf = b"some bytes".to_vec();
    assert_eq!(hash_bytes(&buf), hash_bytes(&buf));

    // the same value flattened twice carries the same hash
    let d1 = parse_json(&sample_document()).unwrap();
    let d2 = parse_json(&sample_document()).unwrap();
    for (f1, f2) in d1.fragments.iter().zip(d2.fragments.iter()) {
        assert_eq!(f1.hash, f2.hash);
    }
}

#[test]
fn hash_changes_with_input() {
    assert_ne!(hash_bytes(b"null"), hash_bytes(b"nulk"));
    assert_ne!(hash_bytes(b""), hash_bytes(b"\0"));
}

#[test]
fn hash_known_digests() {
    assert_eq!(hash_bytes(b""), "d41d8cd98f00b204e9800998ecf8427e".to_string());
    assert_eq!(hash_bytes(b"abc"), "900150983cd24fb0d6963f7d28e17f72".to_string());
}

#[test]
fn fragment_hash_recomputable() {
    // hash == digest of data followed by the 16 little-endian flag bytes
    let data = parse_json(&sample_document()).unwrap();
    for f in data.fragments.iter() {
        let mut buf = f.data.clone();
        buf.extend_from_slice(&f.flags.to_le_bytes());
        assert_eq!(f.hash, hash_bytes(&buf));
        assert_eq!(f.hash.len(), 32);
        assert!(f.hash.chars().all(|c| c.is_ascii_hexdigit()));
    }
}
