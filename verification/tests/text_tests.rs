use neuralnet::collections::StrMap;
use neuralnet::text::{
    decimal_string,
    hex16_string,
    join_strings,
    normalize_key,
    text_less,
    trim_str,
};

#[test]
fn text_helpers_match_std() {
    assert_eq!(trim_str("  a b \t"), "a b");
    assert_eq!(normalize_key("  MiXeD "), "mixed");
    assert_eq!(decimal_string(0), "0");
    assert_eq!(decimal_string(18446744073709551615), "18446744073709551615");
    assert_eq!(hex16_string(255), "00000000000000ff");
    assert_eq!(join_strings(&vec!["a".to_string(), "b".to_string()], ", "), "a, b");
}

#[test]
fn text_order_matches_string_order() {
    let words = ["", "a", "ab", "b", "Z", "é", "ba"];
    for x in words {
        for y in words {
            let cx: Vec<char> = x.chars().collect();
            let cy: Vec<char> = y.chars().collect();
            assert_eq!(text_less(&cx, &cy), x < y, "{x} < {y}");
        }
    }
}

#[test]
fn str_map_keeps_first_insertion_order() {
    let mut map: StrMap<u32> = StrMap::new();
    map.insert("b".to_string(), 1);
    map.insert("a".to_string(), 2);
    map.insert("b".to_string(), 3);
    assert_eq!(map.len(), 2);
    assert_eq!(map.get("b"), Some(&3));
    assert_eq!(map.keys(), vec!["b".to_string(), "a".to_string()]);
    let copy = map.clone();
    assert_eq!(copy.get("a"), Some(&2));
    assert_eq!(map.remove("b"), Some(3));
    assert_eq!(map.remove("b"), None);
    assert_eq!(map.get("b"), None);
    assert_eq!(map.len(), 1);
    assert_eq!(map.take_entries(), vec![("a".to_string(), 2)]);
    assert_eq!(map.len(), 0);
    assert_eq!(copy.entries().len(), 2);
}

#[test]
fn normalizing_a_normalized_key_changes_nothing() {
    for text in ["  Animal_Cat\t", "dog", "", " \u{2003}MiXeD Case \n", "ÄBC"] {
        let once = neuralnet::text::normalize_key(text);
        assert_eq!(neuralnet::text::normalize_key(&once), once);
    }
}
