//! The string map: insertion order, overwrite semantics, and layering.

use ran::StrMap;

#[test]
fn empty_map_has_nothing() {
    let m = StrMap::new();
    assert_eq!(m.len(), 0);
    assert!(m.is_empty());
    assert_eq!(m.get("k"), None);
    assert!(!m.has_key("k"));
}

#[test]
fn insert_and_get() {
    let mut m = StrMap::new();
    m.insert("a".to_string(), "1".to_string());
    m.insert("b".to_string(), "2".to_string());
    assert_eq!(m.len(), 2);
    assert_eq!(m.get("a"), Some(&"1".to_string()));
    assert_eq!(m.get("b"), Some(&"2".to_string()));
    assert_eq!(m.get("c"), None);
    assert!(m.has_key("a"));
}

#[test]
fn insert_existing_key_overwrites_in_place() {
    let mut m = StrMap::new();
    m.insert("a".to_string(), "1".to_string());
    m.insert("b".to_string(), "2".to_string());
    m.insert("a".to_string(), "3".to_string());
    assert_eq!(m.len(), 2);
    assert_eq!(m.get("a"), Some(&"3".to_string()));
    // The overwritten key keeps its position.
    assert_eq!(m.key_at(0), &"a".to_string());
    assert_eq!(m.key_at(1), &"b".to_string());
    assert_eq!(m.val_at(0), &"3".to_string());
}

#[test]
fn keys_keep_insertion_order() {
    let mut m = StrMap::new();
    m.insert("z".to_string(), "1".to_string());
    m.insert("a".to_string(), "2".to_string());
    m.insert("m".to_string(), "3".to_string());
    assert_eq!(m.key_at(0), &"z".to_string());
    assert_eq!(m.key_at(1), &"a".to_string());
    assert_eq!(m.key_at(2), &"m".to_string());
}

#[test]
fn extend_prefers_the_other_map() {
    let mut base = StrMap::new();
    base.insert("a".to_string(), "1".to_string());
    base.insert("b".to_string(), "2".to_string());
    let mut over = StrMap::new();
    over.insert("b".to_string(), "20".to_string());
    over.insert("c".to_string(), "30".to_string());
    base.extend_from(&over);
    assert_eq!(base.len(), 3);
    assert_eq!(base.get("a"), Some(&"1".to_string()));
    assert_eq!(base.get("b"), Some(&"20".to_string()));
    assert_eq!(base.get("c"), Some(&"30".to_string()));
}
