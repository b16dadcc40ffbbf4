use pufferfish::TypeMap;

#[test]
fn store_round_trip() {
    let mut m: TypeMap<i64> = TypeMap::new();
    assert_eq!(m.insert(7, 42), None);
    assert_eq!(m.get(7), Some(&42));
    assert!(m.contains(7));
}

#[test]
fn store_replacement_releases_first_exactly_once() {
    let mut m: TypeMap<String> = TypeMap::new();
    assert_eq!(m.insert(1, "first".to_string()), None);
    let displaced = m.insert(1, "second".to_string());
    assert_eq!(displaced, Some("first".to_string()));
    assert_eq!(m.get(1), Some(&"second".to_string()));
}

#[test]
fn store_missing_token() {
    let m: TypeMap<i64> = TypeMap::new();
    assert_eq!(m.get(3), None);
    assert!(!m.contains(3));
}

#[test]
fn store_distinct_tokens_independent() {
    let mut m: TypeMap<i64> = TypeMap::new();
    m.insert(1, 10);
    m.insert(2, 20);
    assert_eq!(m.get(1), Some(&10));
    assert_eq!(m.get(2), Some(&20));
    m.insert(1, 11);
    assert_eq!(m.get(1), Some(&11));
    assert_eq!(m.get(2), Some(&20));
}
