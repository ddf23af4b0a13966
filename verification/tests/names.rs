use metriki_core::NameMap;

#[test]
fn empty_map() {
    let map: NameMap<u32> = NameMap::new();
    assert_eq!(map.len(), 0);
    assert!(map.is_empty());
    assert_eq!(map.get("a"), None);
    assert_eq!(map.position("a"), None);
    assert!(!map.contains_key("a"));
}

#[test]
fn insert_keeps_first_come_order() {
    let mut map: NameMap<u32> = NameMap::new();
    map.insert("b".to_owned(), 2);
    map.insert("a".to_owned(), 1);
    map.insert("c".to_owned(), 3);
    assert_eq!(map.len(), 3);
    assert!(!map.is_empty());
    assert_eq!(map.name_at(0), "b");
    assert_eq!(map.name_at(1), "a");
    assert_eq!(map.name_at(2), "c");
    assert_eq!(*map.value_at(0), 2);
    assert_eq!(*map.value_at(1), 1);
    assert_eq!(*map.value_at(2), 3);
    assert_eq!(map.position("a"), Some(1));
    assert_eq!(map.position("c"), Some(2));
    assert_eq!(map.position("d"), None);
    assert_eq!(map.get("b"), Some(&2));
    assert!(map.contains_key("c"));
    assert!(!map.contains_key("bc"));
    assert!(!map.contains_key(""));
}

#[test]
fn insert_again_replaces_in_place() {
    let mut map: NameMap<u32> = NameMap::new();
    map.insert("a".to_owned(), 1);
    map.insert("b".to_owned(), 2);
    map.insert("a".to_owned(), 10);
    assert_eq!(map.len(), 2);
    assert_eq!(map.name_at(0), "a");
    assert_eq!(*map.value_at(0), 10);
    assert_eq!(map.get("a"), Some(&10));
    assert_eq!(map.get("b"), Some(&2));
}

#[test]
fn remove_keeps_the_order_of_the_rest() {
    let mut map: NameMap<u32> = NameMap::new();
    map.insert("a".to_owned(), 1);
    map.insert("b".to_owned(), 2);
    map.insert("c".to_owned(), 3);
    assert_eq!(map.remove("b"), Some(2));
    assert_eq!(map.len(), 2);
    assert_eq!(map.name_at(0), "a");
    assert_eq!(map.name_at(1), "c");
    assert_eq!(map.get("b"), None);
    assert_eq!(map.remove("b"), None);
    assert_eq!(map.remove("zz"), None);
    assert_eq!(map.len(), 2);
    assert_eq!(map.remove("a"), Some(1));
    assert_eq!(map.remove("c"), Some(3));
    assert!(map.is_empty());
}

#[test]
fn names_are_compared_by_their_characters() {
    let mut map: NameMap<u32> = NameMap::new();
    map.insert("l1.tomcat".to_owned(), 1);
    map.insert("l1.tomcat.request".to_owned(), 2);
    map.insert("L1.tomcat".to_owned(), 3);
    map.insert("é".to_owned(), 4);
    assert_eq!(map.len(), 4);
    assert_eq!(map.get("l1.tomcat"), Some(&1));
    assert_eq!(map.get("l1.tomcat.request"), Some(&2));
    assert_eq!(map.get("L1.tomcat"), Some(&3));
    assert_eq!(map.get("é"), Some(&4));
    assert_eq!(map.get("e"), None);
    assert_eq!(map.get("l1.tomca"), None);
}
