use anthropic_proxy::name_map::NameMap;

fn map(pairs: &[(&str, &str)]) -> NameMap<String> {
    NameMap::from_pairs(pairs.iter().map(|(a, b)| (a.to_string(), b.to_string())).collect())
}

fn entries(map: &NameMap<String>) -> Vec<(String, String)> {
    (0..map.len()).map(|i| (map.name(i).clone(), map.value(i).clone())).collect()
}

#[test]
fn maps_are_walked_in_the_order_of_the_names() {
    let m = map(&[("b", "1"), ("a", "2"), ("c", "3"), ("b", "4")]);
    let expected: std::collections::BTreeMap<String, String> =
        [("b", "1"), ("a", "2"), ("c", "3"), ("b", "4")]
            .iter()
            .map(|(a, b)| (a.to_string(), b.to_string()))
            .collect();
    assert_eq!(entries(&m), expected.into_iter().collect::<Vec<_>>());
    assert_eq!(m.len(), 3);
    assert_eq!(m.get("b"), Some(&"4".to_string()));
    assert_eq!(m.get("d"), None);
}

#[test]
fn inserting_replaces_or_adds() {
    let mut m = NameMap::new();
    assert!(m.is_empty());
    m.insert("x".to_string(), "1".to_string());
    m.insert("w".to_string(), "2".to_string());
    m.insert("x".to_string(), "3".to_string());
    assert_eq!(
        entries(&m),
        vec![("w".to_string(), "2".to_string()), ("x".to_string(), "3".to_string())]
    );
}

#[test]
fn extending_prefers_the_other_map() {
    let mut m = map(&[("a", "1"), ("c", "1")]);
    m.extend(map(&[("b", "2"), ("c", "2")]));
    assert_eq!(entries(&m), entries(&map(&[("a", "1"), ("b", "2"), ("c", "2")])));
}

#[test]
fn copies_have_the_same_entries() {
    let m = map(&[("a", "1"), ("b", "2")]);
    assert_eq!(entries(&m.duplicate()), entries(&m));
    assert_eq!(entries(&m.clone()), entries(&m));
}
