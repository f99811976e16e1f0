use keywords_reply_bot::store::KeywordStore;

#[test]
fn upsert_reports_insert_then_update_and_keeps_the_latest_reply() {
    let mut s = KeywordStore::new();
    assert_eq!(s.upsert(1, "greet", "hello"), false);
    assert_eq!(s.upsert(1, "greet", "hello"), true);
    assert_eq!(s.upsert(1, "greet", "good day"), true);
    let got = s.find_match(1, "greetings all").expect("a stored reply");
    assert_eq!(got, "good day");
    assert_eq!(s.list_keywords(1), vec!["greet".to_string()]);
}

#[test]
fn same_keyword_in_two_groups_is_two_rows() {
    let mut s = KeywordStore::new();
    assert_eq!(s.upsert(1, "ip", "one"), false);
    assert_eq!(s.upsert(2, "ip", "two"), false);
    assert_eq!(s.find_match(1, "my ip please").unwrap(), "one");
    assert_eq!(s.find_match(2, "my ip please").unwrap(), "two");
}

#[test]
fn delete_reports_whether_a_row_existed() {
    let mut s = KeywordStore::new();
    s.upsert(1, "ip", "addr");
    assert_eq!(s.delete(1, "ip"), true);
    assert_eq!(s.delete(1, "ip"), false);
    assert_eq!(s.delete(2, "ip"), false);
    assert!(s.find_match(1, "ip").is_none());
}

#[test]
fn delete_all_counts_rows_and_empties_the_group() {
    let mut s = KeywordStore::new();
    s.upsert(5, "a", "ra");
    s.upsert(5, "b", "rb");
    s.upsert(5, "c", "rc");
    s.upsert(6, "d", "rd");
    assert_eq!(s.delete_all(5), 3);
    assert!(s.list_keywords(5).is_empty());
    assert_eq!(s.delete_all(5), 0);
    // The other group is untouched.
    assert_eq!(s.list_keywords(6), vec!["d".to_string()]);
}

#[test]
fn keyword_matching_is_substring_containment() {
    let mut s = KeywordStore::new();
    s.upsert(9, "ip", "your address");
    assert_eq!(s.find_match(9, "what is my ip address").unwrap(), "your address");
    assert!(s.find_match(9, "no match here").is_none());
    // Containment, not word equality.
    assert_eq!(s.find_match(9, "shipment").unwrap(), "your address");
}

#[test]
fn first_match_in_store_order_wins() {
    let mut s = KeywordStore::new();
    s.upsert(3, "ab", "first");
    s.upsert(3, "abc", "second");
    assert_eq!(s.find_match(3, "xxabcxx").unwrap(), "first");
}

#[test]
fn list_keywords_keeps_insertion_order() {
    let mut s = KeywordStore::new();
    s.upsert(4, "one", "1");
    s.upsert(4, "two", "2");
    s.upsert(7, "other", "x");
    s.upsert(4, "three", "3");
    assert_eq!(
        s.list_keywords(4),
        vec!["one".to_string(), "two".to_string(), "three".to_string()]
    );
}
