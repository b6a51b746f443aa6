use terraform_module_data::ordered::StringMap;

fn filled() -> StringMap<u64> {
    let mut m = StringMap::new();
    m.insert(String::from("b"), 2);
    m.insert(String::from("a"), 1);
    m.insert(String::from("c"), 3);
    m.insert(String::from("b"), 20);
    m
}

#[test]
fn a_map_keeps_its_entries_sorted() {
    let m = filled();
    assert_eq!(m.len(), 3);
    assert_eq!(m.key_at(0), "a");
    assert_eq!(m.key_at(2), "c");
    assert_eq!(*m.value_at(1), 20);
    m.sorted();
    assert_eq!(
        m.into_items(),
        vec![(String::from("a"), 1), (String::from("b"), 20), (String::from("c"), 3)]
    );
    assert_eq!(filled().into_values(), vec![1, 20, 3]);
}

#[test]
fn a_map_finds_its_keys() {
    let m = filled();
    assert_eq!(m.get("a"), Some(&1));
    assert_eq!(m.get("b"), Some(&20));
    assert_eq!(m.get("bb"), None);
    assert_eq!(m.get(""), None);
    assert_eq!(m.position("c"), Some(2));
    assert_eq!(m.position("d"), None);
    assert!(m.contains_key("a"));
    assert!(!m.contains_key("A"));
}

#[test]
fn a_value_is_replaced_in_place() {
    let mut m = filled();
    assert_eq!(m.replace_at(1, 7), 20);
    assert_eq!(m.get("b"), Some(&7));
    assert_eq!(m.len(), 3);
}

#[test]
fn an_empty_map_is_empty() {
    let m: StringMap<u64> = StringMap::new();
    assert_eq!(m.len(), 0);
    assert_eq!(m.get("a"), None);
    assert_eq!(m.into_items(), vec![]);
}

#[test]
fn many_keys_stay_sorted() {
    let mut m: StringMap<u64> = StringMap::new();
    let mut expected = std::collections::BTreeMap::new();
    let mut seed: u64 = 12345;
    for _ in 0..500 {
        seed = seed.wrapping_mul(6364136223846793005).wrapping_add(1442695040888963407);
        let key = format!("k{}", (seed >> 33) % 200);
        m.insert(key.clone(), seed);
        expected.insert(key, seed);
    }
    let expected: Vec<(String, u64)> = expected.into_iter().collect();
    assert_eq!(m.into_items(), expected);
}
