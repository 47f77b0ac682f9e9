use artisan_http::json::{JsonMap, JsonValue, KeyOrder, compare_keys};

fn s(x: &str) -> JsonValue {
    JsonValue::String(x.to_string())
}

fn keys(m: &JsonMap) -> Vec<String> {
    (0..m.len()).map(|i| m.entry_at(i).0.clone()).collect()
}

#[test]
fn keys_are_kept_in_byte_order() {
    let mut m = JsonMap::new();
    for k in ["name", "age", "Zed", "é", "z", ""] {
        m.insert(k.to_string(), s(k));
    }
    assert_eq!(keys(&m), vec!["", "Zed", "age", "name", "z", "é"]);
}

#[test]
fn insertion_order_does_not_matter() {
    let mut a = JsonMap::new();
    a.insert("c".to_string(), s("3"));
    a.insert("a".to_string(), s("1"));
    a.insert("b".to_string(), s("2"));
    let mut b = JsonMap::new();
    b.insert("b".to_string(), s("2"));
    b.insert("c".to_string(), s("3"));
    b.insert("a".to_string(), s("1"));
    assert_eq!(a, b);
}

#[test]
fn insert_then_get_and_overwrite() {
    let mut m = JsonMap::new();
    assert_eq!(m.insert("k".to_string(), s("v1")), None);
    assert_eq!(m.get("k"), Some(&s("v1")));
    assert_eq!(m.insert("k".to_string(), s("v2")), Some(s("v1")));
    assert_eq!(m.get("k"), Some(&s("v2")));
    assert_eq!(m.len(), 1);
    assert!(m.contains_key("k"));
    assert!(!m.contains_key("K"));
    assert!(m.get("missing").is_none());
}

#[test]
fn duplicate_is_equal() {
    let mut inner = JsonMap::new();
    inner.insert("x".to_string(), JsonValue::Array(vec![JsonValue::Null, JsonValue::Bool(true)]));
    let v = JsonValue::Object(inner);
    assert_eq!(v.duplicate(), v);
    if let JsonValue::Object(m) = &v {
        assert_eq!(&m.duplicate(), m);
    }
}

#[test]
fn key_comparison_is_by_utf8_bytes() {
    assert_eq!(compare_keys("a", "b"), KeyOrder::Less);
    assert_eq!(compare_keys("b", "a"), KeyOrder::Greater);
    assert_eq!(compare_keys("ab", "ab"), KeyOrder::Equal);
    assert_eq!(compare_keys("a", "ab"), KeyOrder::Less);
    assert_eq!(compare_keys("Z", "a"), KeyOrder::Less);
    assert_eq!(compare_keys("é", "z"), KeyOrder::Greater);
}
