use common_collections::hash_maps::{
    from_pairs, hash_map_stuff, insert_if_absent, insert_or_replace, lookup,
};
use std::collections::HashMap;

#[test]
fn reinserting_a_key_replaces_its_value() {
    let mut map: HashMap<isize, String> = HashMap::new();
    assert_eq!(insert_or_replace(&mut map, 1, String::from("one")), None);
    assert_eq!(
        insert_or_replace(&mut map, 1, String::from("new_value")),
        Some(String::from("one"))
    );
    assert_eq!(lookup(&map, 1), Some(&String::from("new_value")));
    assert_eq!(map.len(), 1);
}

#[test]
fn reinserting_a_key_is_as_good_as_inserting_the_last_value() {
    let mut twice: HashMap<isize, char> = HashMap::from([(7, 'x'), (8, 'y')]);
    let mut once = twice.clone();
    insert_or_replace(&mut twice, 8, 'a');
    insert_or_replace(&mut twice, 8, 'b');
    insert_or_replace(&mut once, 8, 'b');
    assert_eq!(twice, once);
    insert_or_replace(&mut twice, 9, 'a');
    insert_or_replace(&mut twice, 9, 'b');
    insert_or_replace(&mut once, 9, 'b');
    assert_eq!(twice, once);
}

#[test]
fn insert_if_absent_on_a_present_key_changes_nothing() {
    let mut map: HashMap<isize, String> = HashMap::new();
    insert_or_replace(&mut map, 1, String::from("one"));
    insert_or_replace(&mut map, 1, String::from("new_value"));
    let before = map.clone();
    insert_if_absent(&mut map, 1, String::from("x"));
    assert_eq!(lookup(&map, 1), Some(&String::from("new_value")));
    assert_eq!(map, before);
}

#[test]
fn insert_if_absent_on_an_absent_key_inserts() {
    let mut map: HashMap<isize, String> = HashMap::new();
    insert_or_replace(&mut map, 1, String::from("one"));
    insert_if_absent(&mut map, 4, String::from("four"));
    assert_eq!(lookup(&map, 4), Some(&String::from("four")));
    assert_eq!(lookup(&map, 1), Some(&String::from("one")));
    assert_eq!(map.len(), 2);
}

#[test]
fn lookup_tells_present_from_absent() {
    let mut map: HashMap<isize, String> = HashMap::new();
    insert_or_replace(&mut map, 1, String::from("one"));
    insert_or_replace(&mut map, 2, String::from("two"));
    insert_or_replace(&mut map, 3, String::from("three"));
    assert_eq!(lookup(&map, 1), Some(&String::from("one")));
    assert_eq!(lookup(&map, 1000), None);
    assert_eq!(lookup(&map, -1), None);
}

#[test]
fn lookup_in_an_empty_map_is_absent() {
    let map: HashMap<isize, u8> = HashMap::new();
    assert_eq!(lookup(&map, 0), None);
}

#[test]
fn from_pairs_maps_each_key_to_its_value() {
    let map = from_pairs(vec![(4, String::from("four")), (5, String::from("five"))]);
    assert_eq!(map.len(), 2);
    assert_eq!(lookup(&map, 4), Some(&String::from("four")));
    assert_eq!(lookup(&map, 5), Some(&String::from("five")));
    assert_eq!(
        map,
        HashMap::from([(4, String::from("four")), (5, String::from("five"))])
    );
}

#[test]
fn from_pairs_lets_the_later_pair_count() {
    let map = from_pairs(vec![(1, 'a'), (2, 'b'), (1, 'c')]);
    assert_eq!(map.len(), 2);
    assert_eq!(lookup(&map, 1), Some(&'c'));
    assert_eq!(lookup(&map, 2), Some(&'b'));
    assert_eq!(map, HashMap::from([(1, 'a'), (2, 'b'), (1, 'c')]));
}

#[test]
fn from_pairs_of_nothing_is_empty() {
    let map: HashMap<isize, String> = from_pairs(Vec::new());
    assert!(map.is_empty());
}

#[test]
fn hash_map_stuff_meets_the_expected_values() {
    let steps = hash_map_stuff();
    assert_eq!(
        steps.inserted,
        HashMap::from([
            (1, String::from("one")),
            (2, String::from("two")),
            (3, String::from("three")),
        ])
    );
    assert_eq!(
        steps.from_map,
        HashMap::from([(4, String::from("four")), (5, String::from("five"))])
    );
    assert_eq!(steps.successful_get, Some(String::from("one")));
    assert_eq!(steps.failed_get, None);
    assert_eq!(
        steps.replaced,
        HashMap::from([
            (1, String::from("new_value")),
            (2, String::from("two")),
            (3, String::from("three")),
        ])
    );
    assert_eq!(
        steps.with_entries,
        HashMap::from([
            (1, String::from("new_value")),
            (2, String::from("two")),
            (3, String::from("three")),
            (4, String::from("four")),
        ])
    );
    assert_eq!(steps.word_counts.get("hello"), Some(1));
    assert_eq!(steps.word_counts.get("world"), Some(2));
    assert_eq!(steps.word_counts.get("wonderful"), Some(1));
    assert_eq!(steps.word_counts.entries().len(), 3);
}
