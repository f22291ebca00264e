use taproot::strmap::StrMap;

#[test]
fn insert_then_get() {
    let mut m = StrMap::new();
    assert!(m.is_empty());
    assert_eq!(m.insert("b".into(), "1".into()), None);
    assert_eq!(m.insert("a".into(), "2".into()), None);
    assert_eq!(m.insert("b".into(), "3".into()), Some("1".to_string()));
    assert_eq!(m.get("b").unwrap(), "3");
    assert_eq!(m.get("a").unwrap(), "2");
    assert!(m.get("c").is_none());
    assert_eq!(m.len(), 2);
    assert_eq!(m.key_at(0), "a");
    assert_eq!(m.value_at(1), "3");
    assert_eq!(
        m.to_pairs(),
        vec![("a".to_string(), "2".to_string()), ("b".to_string(), "3".to_string())]
    );
}

#[test]
fn from_pairs_later_wins_and_sorts() {
    let m = StrMap::from_pairs(vec![
        ("z".to_string(), "1".to_string()),
        ("a".to_string(), "2".to_string()),
        ("z".to_string(), "3".to_string()),
    ]);
    assert_eq!(m.to_pairs(), vec![("a".to_string(), "2".to_string()), ("z".to_string(), "3".to_string())]);
    assert_eq!(m.clone(), m);
}
