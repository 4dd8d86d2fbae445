use wasmcloud_host::store::{KvStore, StoreError};

#[test]
fn increment_counts_from_zero_and_accumulates() {
    let mut s = KvStore::new();
    assert!(matches!(s.increment("n", 5), Ok(5)));
    assert!(matches!(s.increment("n", 3), Ok(8)));
    assert!(matches!(s.increment("n", -10), Ok(-2)));
}

#[test]
fn increment_overflow_fails_and_keeps_value() {
    let mut s = KvStore::new();
    assert!(matches!(s.increment("n", i32::MAX), Ok(_)));
    assert!(matches!(s.increment("n", 1), Err(StoreError::Overflow)));
    assert!(matches!(s.increment("n", 0), Ok(v) if v == i32::MAX));
}

#[test]
fn increment_on_text_is_a_wrong_type() {
    let mut s = KvStore::new();
    s.set("k", "v", 0);
    assert!(matches!(s.increment("k", 1), Err(StoreError::WrongType)));
}

#[test]
fn get_distinguishes_absent_from_empty() {
    let mut s = KvStore::new();
    assert!(matches!(s.get("k"), Ok(None)));
    s.set("k", "", 0);
    assert!(matches!(s.get("k"), Ok(Some(v)) if v == ""));
    s.set("k", "value", 600);
    assert!(matches!(s.get("k"), Ok(Some(v)) if v == "value"));
}

#[test]
fn get_on_number_is_a_wrong_type() {
    let mut s = KvStore::new();
    assert!(matches!(s.increment("k", 1), Ok(1)));
    assert!(matches!(s.get("k"), Err(StoreError::WrongType)));
}

#[test]
fn del_reports_whether_something_was_removed() {
    let mut s = KvStore::new();
    s.set("k", "v", 0);
    assert!(s.contains("k"));
    assert_eq!(s.del("k"), 1);
    assert!(!s.contains("k"));
    assert_eq!(s.del("k"), 0);
}

#[test]
fn set_overwrites_any_kind() {
    let mut s = KvStore::new();
    assert!(matches!(s.increment("k", 2), Ok(2)));
    s.set("k", "text", 0);
    assert!(matches!(s.get("k"), Ok(Some(v)) if v == "text"));
}

#[test]
fn list_add_returns_new_size() {
    let mut s = KvStore::new();
    assert!(matches!(s.list_add("l", "a"), Ok(1)));
    assert!(matches!(s.list_add("l", "b"), Ok(2)));
    assert!(matches!(s.list_add("l", "a"), Ok(3)));
}

#[test]
fn list_del_removes_first_occurrence_only() {
    let mut s = KvStore::new();
    s.list_add("l", "a").unwrap_or_default();
    s.list_add("l", "b").unwrap_or_default();
    s.list_add("l", "a").unwrap_or_default();
    assert!(matches!(s.list_del("l", "a"), Ok(1)));
    assert!(matches!(s.list_range("l", 0, 10), Ok(v) if v == vec!["b".to_string(), "a".to_string()]));
    assert!(matches!(s.list_del("l", "zzz"), Ok(0)));
}

#[test]
fn list_emptied_by_removal_leaves_no_entry() {
    let mut s = KvStore::new();
    s.list_add("l", "only").unwrap_or_default();
    assert!(matches!(s.list_del("l", "only"), Ok(1)));
    assert!(!s.contains("l"));
    assert!(matches!(s.list_del("l", "only"), Ok(0)));
}

#[test]
fn list_range_is_inclusive_and_clamped() {
    let mut s = KvStore::new();
    for v in ["a", "b", "c"] {
        s.list_add("l", v).unwrap_or_default();
    }
    let all = ["a", "b", "c"].map(String::from).to_vec();
    assert!(matches!(s.list_range("l", 0, 2), Ok(v) if v == all));
    // A stop beyond the end returns everything from start to the true end.
    assert!(matches!(s.list_range("l", 1, 10), Ok(v) if v == vec!["b".to_string(), "c".to_string()]));
    // A start beyond the stop returns an empty sequence.
    assert!(matches!(s.list_range("l", 2, 1), Ok(v) if v.is_empty()));
    // A start beyond the end returns an empty sequence.
    assert!(matches!(s.list_range("l", 7, 9), Ok(v) if v.is_empty()));
    assert!(matches!(s.list_range("missing", 0, 3), Ok(v) if v.is_empty()));
}

#[test]
fn list_ops_on_text_are_wrong_type() {
    let mut s = KvStore::new();
    s.set("k", "v", 0);
    assert!(matches!(s.list_add("k", "a"), Err(StoreError::WrongType)));
    assert!(matches!(s.list_del("k", "a"), Err(StoreError::WrongType)));
    assert!(matches!(s.list_range("k", 0, 1), Err(StoreError::WrongType)));
}

#[test]
fn set_add_counts_only_new_members() {
    let mut s = KvStore::new();
    assert!(matches!(s.set_add("s", "a"), Ok(1)));
    assert!(matches!(s.set_add("s", "a"), Ok(0)));
    assert!(matches!(s.set_add("s", "b"), Ok(1)));
    let members = s.set_query("s").unwrap_or_default();
    assert_eq!(members.len(), 2);
    assert!(members.contains(&"a".to_string()));
    assert!(members.contains(&"b".to_string()));
}

#[test]
fn set_del_counts_removed_members_and_empties_cleanly() {
    let mut s = KvStore::new();
    s.set_add("s", "a").unwrap_or_default();
    s.set_add("s", "b").unwrap_or_default();
    assert!(matches!(s.set_del("s", "a"), Ok(1)));
    assert!(matches!(s.set_del("s", "a"), Ok(0)));
    assert!(matches!(s.set_del("s", "b"), Ok(1)));
    assert!(!s.contains("s"));
}

#[test]
fn set_query_of_missing_key_is_empty() {
    let s = KvStore::new();
    assert!(matches!(s.set_query("s"), Ok(v) if v.is_empty()));
}

#[test]
fn set_intersection_keeps_common_members() {
    let mut s = KvStore::new();
    for v in ["a", "b", "c"] {
        s.set_add("s1", v).unwrap_or_default();
    }
    for v in ["b", "c", "d"] {
        s.set_add("s2", v).unwrap_or_default();
    }
    let keys = vec!["s1".to_string(), "s2".to_string()];
    let mut both = s.set_intersection(&keys).unwrap_or_default();
    both.sort();
    assert_eq!(both, vec!["b".to_string(), "c".to_string()]);
    // Intersecting with a missing key leaves nothing.
    let with_missing = vec!["s1".to_string(), "nosuch".to_string()];
    assert!(matches!(s.set_intersection(&with_missing), Ok(v) if v.is_empty()));
}

#[test]
fn set_union_merges_members_without_duplicates() {
    let mut s = KvStore::new();
    for v in ["a", "b"] {
        s.set_add("s1", v).unwrap_or_default();
    }
    for v in ["b", "c"] {
        s.set_add("s2", v).unwrap_or_default();
    }
    let keys = vec!["s1".to_string(), "s2".to_string()];
    let mut all = s.set_union(&keys).unwrap_or_default();
    all.sort();
    assert_eq!(all, vec!["a".to_string(), "b".to_string(), "c".to_string()]);
}

#[test]
fn set_ops_on_list_are_wrong_type() {
    let mut s = KvStore::new();
    s.list_add("l", "a").unwrap_or_default();
    assert!(matches!(s.set_add("l", "x"), Err(StoreError::WrongType)));
    assert!(matches!(s.set_del("l", "x"), Err(StoreError::WrongType)));
    assert!(matches!(s.set_query("l"), Err(StoreError::WrongType)));
    let keys = vec!["l".to_string()];
    assert!(matches!(s.set_intersection(&keys), Err(StoreError::WrongType)));
    assert!(matches!(s.set_union(&keys), Err(StoreError::WrongType)));
}

#[test]
fn operations_touch_only_their_key() {
    let mut s = KvStore::new();
    s.set("t", "text", 0);
    s.list_add("l", "a").unwrap_or_default();
    s.set_add("s", "m").unwrap_or_default();
    assert!(matches!(s.increment("n", 4), Ok(4)));
    assert_eq!(s.del("l"), 1);
    assert!(matches!(s.get("t"), Ok(Some(v)) if v == "text"));
    assert!(matches!(s.set_query("s"), Ok(v) if v == vec!["m".to_string()]));
    assert!(matches!(s.increment("n", 0), Ok(4)));
}
