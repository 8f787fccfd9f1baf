use libs_tools::strmap::{compare_text, StrMap, TextOrder};

#[test]
fn text_orders_as_std_does() {
    for (a, b) in [("a", "b"), ("b", "a"), ("ab", "a"), ("", "a"), ("Zed", "apple"), ("same", "same")] {
        let expected = match a.cmp(b) {
            std::cmp::Ordering::Less => TextOrder::Less,
            std::cmp::Ordering::Equal => TextOrder::Equal,
            std::cmp::Ordering::Greater => TextOrder::Greater,
        };
        assert_eq!(compare_text(a, b), expected);
    }
}

#[test]
fn a_read_gives_back_the_last_write() {
    let mut m: StrMap<usize> = StrMap::new();
    m.insert("b".to_string(), 1);
    m.insert("a".to_string(), 2);
    m.insert("b".to_string(), 3);
    assert_eq!(m.get("b").copied(), Some(3));
    assert_eq!(m.get("a").copied(), Some(2));
    assert_eq!(m.get("c"), None);
    assert!(m.contains_key("a"));
    assert_eq!(m.len(), 2);
}

#[test]
fn entries_stay_in_key_order() {
    let mut m: StrMap<usize> = StrMap::new();
    for (i, k) in ["pear", "apple", "fig", "Banana"].iter().enumerate() {
        m.insert(k.to_string(), i);
    }
    let keys: Vec<String> = (0..m.len()).map(|i| m.entry_at(i).0.clone()).collect();
    assert_eq!(keys, vec!["Banana", "apple", "fig", "pear"]);
}

#[test]
fn removing_takes_out_one_key() {
    let mut m: StrMap<usize> = StrMap::new();
    m.insert("a".to_string(), 1);
    m.insert("b".to_string(), 2);
    assert_eq!(m.remove("a"), Some(1));
    assert_eq!(m.remove("a"), None);
    assert_eq!(m.get("b").copied(), Some(2));
    assert_eq!(m.len(), 1);
}
