use rustream::store::TextMap;

fn entries(map: &TextMap) -> Vec<(String, String)> {
    (0..map.len()).map(|i| (map.key_at(i).clone(), map.value_at(i).clone())).collect()
}

fn pairs(list: &[(&str, &str)]) -> Vec<(String, String)> {
    list.iter().map(|(k, v)| (k.to_string(), v.to_string())).collect()
}

#[test]
fn new_map_is_empty() {
    let map = TextMap::new();
    assert!(map.is_empty());
    assert_eq!(map.len(), 0);
    assert_eq!(map.get("a"), None);
    assert!(!map.contains_key("a"));
}

#[test]
fn insert_puts_new_keys_at_the_end_and_keeps_known_keys_in_place() {
    let mut map = TextMap::new();
    map.insert(String::from("b"), String::from("1"));
    map.insert(String::from("a"), String::from("2"));
    map.insert(String::from("c"), String::from("3"));
    assert_eq!(entries(&map), pairs(&[("b", "1"), ("a", "2"), ("c", "3")]));
    map.insert(String::from("a"), String::from("4"));
    assert_eq!(entries(&map), pairs(&[("b", "1"), ("a", "4"), ("c", "3")]));
    assert_eq!(map.get("a"), Some(&String::from("4")));
    assert_eq!(map.len(), 3);
}

#[test]
fn remove_keeps_the_order_of_the_other_entries() {
    let mut map = TextMap::new();
    map.insert(String::from("b"), String::from("1"));
    map.insert(String::from("a"), String::from("2"));
    map.insert(String::from("c"), String::from("3"));
    assert_eq!(map.remove("a"), Some(String::from("2")));
    assert_eq!(entries(&map), pairs(&[("b", "1"), ("c", "3")]));
    assert_eq!(map.remove("a"), None);
    assert_eq!(entries(&map), pairs(&[("b", "1"), ("c", "3")]));
    assert!(!map.contains_key("a"));
}
