use nicstats::name_map::compare_names;
use nicstats::name_map::same_name;
use nicstats::name_map::NameMap;
use nicstats::name_map::NameOrder;
use nicstats::text::chars_of;
use nicstats::text::find_from;
use nicstats::text::parse_number;
use nicstats::text::starts_with;

#[test]
fn entries_stand_in_the_order_of_their_names() {
    let mut map = NameMap::new();
    map.insert("eth1".to_string(), 1);
    map.insert("lo".to_string(), 2);
    map.insert("eth0".to_string(), 3);
    map.insert("eth10".to_string(), 4);
    map.insert("Eth0".to_string(), 5);
    assert_eq!(map.len(), 5);
    let names: Vec<&str> = (0..map.len()).map(|i| map.name_at(i).as_str()).collect();
    assert_eq!(names, vec!["Eth0", "eth0", "eth1", "eth10", "lo"]);
    let values: Vec<i32> = (0..map.len()).map(|i| *map.value_at(i)).collect();
    assert_eq!(values, vec![5, 3, 1, 4, 2]);
}

#[test]
fn a_name_holds_one_value() {
    let mut map = NameMap::new();
    assert!(map.is_empty());
    map.insert("a".to_string(), 1);
    map.insert("a".to_string(), 2);
    assert!(!map.is_empty());
    assert_eq!(map.len(), 1);
    assert_eq!(map.get("a"), Some(&2));
    assert_eq!(map.get("b"), None);
    assert_eq!(map.get(""), None);
    assert!(map.contains_key("a"));
    assert!(!map.contains_key("A"));
}

#[test]
fn equal_maps_are_equal_whatever_the_order_of_insertion() {
    let mut a = NameMap::new();
    a.insert("x".to_string(), 1);
    a.insert("y".to_string(), 2);
    let mut b = NameMap::new();
    b.insert("y".to_string(), 2);
    b.insert("x".to_string(), 0);
    b.insert("x".to_string(), 1);
    assert_eq!(a, b);
    assert_eq!(a.clone(), b);
    let empty: NameMap<u8> = NameMap::default();
    assert_eq!(empty, NameMap::new());
}

#[test]
fn names_are_compared_by_their_bytes() {
    assert_eq!(compare_names("a", "b"), NameOrder::Before);
    assert_eq!(compare_names("b", "a"), NameOrder::After);
    assert_eq!(compare_names("a", "a"), NameOrder::Same);
    assert_eq!(compare_names("", ""), NameOrder::Same);
    assert_eq!(compare_names("", "a"), NameOrder::Before);
    assert_eq!(compare_names("ab", "a"), NameOrder::After);
    assert_eq!(compare_names("Z", "a"), NameOrder::Before);
    assert_eq!(compare_names("z", "ä"), NameOrder::Before);
    assert!(same_name("tx_timeout", "tx_timeout"));
    assert!(!same_name("tx_timeout", "tx_timeouts"));
}

#[test]
fn numbers_are_digits_only() {
    let chars = chars_of("q_0042_x");
    assert_eq!(chars, vec!['q', '_', '0', '0', '4', '2', '_', 'x']);
    assert_eq!(find_from(&chars, 0, '_'), 1);
    assert_eq!(find_from(&chars, 2, '_'), 6);
    assert_eq!(find_from(&chars, 7, '_'), 8);
    assert_eq!(find_from(&chars, 8, '_'), 8);
    assert_eq!(parse_number(&chars, 2, 6), Some(42));
    assert_eq!(parse_number(&chars, 2, 2), None);
    assert_eq!(parse_number(&chars, 1, 6), None);
    assert_eq!(parse_number(&chars, 5, 8), None);
    let big = chars_of("18446744073709551615");
    assert_eq!(parse_number(&big, 0, big.len()), Some(usize::MAX));
    let bigger = chars_of("18446744073709551616");
    assert_eq!(parse_number(&bigger, 0, bigger.len()), None);
    assert!(starts_with(&chars, &chars_of("q_")));
    assert!(starts_with(&chars, &chars_of("")));
    assert!(!starts_with(&chars_of("q"), &chars_of("q_")));
}
