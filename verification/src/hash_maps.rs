//! Key-unique mappings from integer keys to values.

use std::collections::HashMap;
use vstd::prelude::*;
use vstd::std_specs::hash::*;
use crate::words::{frequencies, word_frequencies, words_of, WordCounts};

verus! {

broadcast use group_hash_axioms;

/// The values that `hash_map_stuff` meets on its way, in the order in which
/// it meets them.
pub struct HashMapSteps {
    /// A map filled by inserting the keys 1, 2 and 3.
    pub inserted: HashMap<isize, String>,
    /// A map built directly from two pairs.
    pub from_map: HashMap<isize, String>,
    /// Checked lookup of key 1 in `inserted`.
    pub successful_get: Option<String>,
    /// Checked lookup of key 1000 in `inserted`.
    pub failed_get: Option<String>,
    /// `inserted` after key 1 was inserted again with another value.
    pub replaced: HashMap<isize, String>,
    /// `replaced` after key 1, which is present, and key 4, which is not,
    /// were inserted only if absent.
    pub with_entries: HashMap<isize, String>,
    /// How often each word of a short sentence occurs in it.
    pub word_counts: WordCounts,
}

/// A map of texts, seen as a map of their characters.
pub open spec fn texts(map: Map<isize, String>) -> Map<isize, Seq<char>> {
    map.map_values(|text: String| text@)
}

/// Checked lookup: the value that `key` maps to, or `None` where the map has
/// no such key.
pub fn lookup<'a, V>(map: &'a HashMap<isize, V>, key: isize) -> (found: Option<&'a V>)
    ensures
        map@.contains_key(key) ==> found == Some(&map@[key]),
        !map@.contains_key(key) ==> found is None,
{
    map.get(&key)
}

/// Maps `key` to `value`. A value that the key had before is replaced, and
/// handed back.
pub fn insert_or_replace<V>(
    map: &mut HashMap<isize, V>,
    key: isize,
    value: V,
) -> (replaced: Option<V>)
    ensures
        final(map)@ == old(map)@.insert(key, value),
        old(map)@.contains_key(key) ==> replaced == Some(old(map)@[key]),
        !old(map)@.contains_key(key) ==> replaced is None,
{
    map.insert(key, value)
}

/// Inserting a key twice is as good as inserting it once with the second
/// value: whatever the first insertion brought is replaced.
pub proof fn lemma_reinsert_replaces<V>(map: Map<isize, V>, key: isize, first: V, second: V)
    ensures
        map.insert(key, first).insert(key, second) == map.insert(key, second),
        map.insert(key, first).insert(key, second)[key] == second,
{
}

/// Maps `key` to `value` only where the map has no such key yet; a key that
/// is present keeps its value.
pub fn insert_if_absent<V>(map: &mut HashMap<isize, V>, key: isize, value: V)
    ensures
        final(map)@ == if old(map)@.contains_key(key) {
            old(map)@
        } else {
            old(map)@.insert(key, value)
        },
{
    map.entry(key).or_insert(value);
}

/// The map that a list of pairs describes: each pair maps its key to its
/// value, and of two pairs with the same key the later one counts.
pub open spec fn map_of_pairs<V>(pairs: Seq<(isize, V)>) -> Map<isize, V>
    decreases pairs.len(),
{
    if pairs.len() == 0 {
        Map::empty()
    } else {
        map_of_pairs(pairs.drop_last()).insert(pairs.last().0, pairs.last().1)
    }
}

/// The keys of the map that a list of pairs describes are the keys of the
/// pairs, and each pair that no later pair of the same key follows gives its
/// key's value.
pub proof fn lemma_map_of_pairs<V>(pairs: Seq<(isize, V)>)
    ensures
        forall|key: isize|
            map_of_pairs(pairs).contains_key(key) <==> exists|i: int|
                0 <= i < pairs.len() && (#[trigger] pairs[i]).0 == key,
        forall|i: int|
            0 <= i < pairs.len() && (forall|j: int| i < j < pairs.len() ==> (#[trigger] pairs[j]).0
                != pairs[i].0) ==> map_of_pairs(pairs)[(#[trigger] pairs[i]).0] == pairs[i].1,
    decreases pairs.len(),
{
    if pairs.len() > 0 {
        let earlier = pairs.drop_last();
        lemma_map_of_pairs(earlier);
        assert forall|key: isize|
            map_of_pairs(pairs).contains_key(key) <==> exists|i: int|
                0 <= i < pairs.len() && (#[trigger] pairs[i]).0 == key by {
            if map_of_pairs(earlier).contains_key(key) {
                let i = choose|i: int| 0 <= i < earlier.len() && (#[trigger] earlier[i]).0 == key;
                assert(pairs[i].0 == key);
            }
            if exists|i: int| 0 <= i < pairs.len() && (#[trigger] pairs[i]).0 == key {
                let i = choose|i: int| 0 <= i < pairs.len() && (#[trigger] pairs[i]).0 == key;
                if i < earlier.len() {
                    assert(earlier[i].0 == key);
                }
            }
        }
        assert forall|i: int|
            0 <= i < pairs.len() && (forall|j: int|
                i < j < pairs.len() ==> (#[trigger] pairs[j]).0 != pairs[i].0) implies map_of_pairs(
            pairs,
        )[(#[trigger] pairs[i]).0] == pairs[i].1 by {
            if i < earlier.len() {
                assert(earlier[i] == pairs[i]);
                assert forall|j: int| i < j < earlier.len() implies (#[trigger] earlier[j]).0
                    != earlier[i].0 by {
                    assert(pairs[j].0 != pairs[i].0);
                }
            }
        }
    }
}

/// Builds a map directly from a list of key-value pairs.
pub fn from_pairs<V>(pairs: Vec<(isize, V)>) -> (map: HashMap<isize, V>)
    ensures
        map@ == map_of_pairs(pairs@),
{
    let ghost listed = pairs@;
    let mut map: HashMap<isize, V> = HashMap::new();
    for pair in iter: pairs
        invariant
            iter.seq() == listed,
            map@ == map_of_pairs(listed.take(iter.index())),
    {
        proof {
            let next = listed.take(iter.index() + 1);
            assert(next.drop_last() =~= listed.take(iter.index()));
        }
        map.insert(pair.0, pair.1);
    }
    proof {
        assert(listed.take(listed.len() as int) =~= listed);
    }
    map
}

/// Walks through the operations of a hash map: fills one by insertion and
/// one from a list of pairs, looks up a present and an absent key, replaces a
/// value by inserting its key again, inserts only if absent, and counts the
/// words of a sentence.
pub fn hash_map_stuff() -> (steps: HashMapSteps)
    ensures
        texts(steps.inserted@) == map![1isize => "one"@, 2isize => "two"@, 3isize => "three"@],
        texts(steps.from_map@) == map![4isize => "four"@, 5isize => "five"@],
        steps.successful_get matches Some(text) && text@ == "one"@,
        steps.failed_get is None,
        texts(steps.replaced@) == map![
            1isize => "new_value"@,
            2isize => "two"@,
            3isize => "three"@,
        ],
        texts(steps.with_entries@) == map![
            1isize => "new_value"@,
            2isize => "two"@,
            3isize => "three"@,
            4isize => "four"@,
        ],
        steps.word_counts@ == frequencies(words_of("hello world wonderful world"@)),
{
    let mut unordered_map: HashMap<isize, String> = HashMap::new();
    insert_or_replace(&mut unordered_map, 1, String::from_str("one"));
    insert_or_replace(&mut unordered_map, 2, String::from_str("two"));
    insert_or_replace(&mut unordered_map, 3, String::from_str("three"));
    let inserted = unordered_map.clone();

    let mut pairs: Vec<(isize, String)> = Vec::new();
    pairs.push((4, String::from_str("four")));
    pairs.push((5, String::from_str("five")));
    proof {
        reveal_with_fuel(map_of_pairs, 3);
    }
    let from_map = from_pairs(pairs);

    let successful_get = match lookup(&unordered_map, 1) {
        Some(text) => Some(text.clone()),
        None => None,
    };
    let failed_get = match lookup(&unordered_map, 1000) {
        Some(text) => Some(text.clone()),
        None => None,
    };

    insert_or_replace(&mut unordered_map, 1, String::from_str("new_value"));
    let replaced = unordered_map.clone();

    insert_if_absent(&mut unordered_map, 1, String::from_str("String did not exist"));
    insert_if_absent(&mut unordered_map, 4, String::from_str("four"));

    let word_counts = word_frequencies("hello world wonderful world");

    HashMapSteps {
        inserted,
        from_map,
        successful_get,
        failed_get,
        replaced,
        with_entries: unordered_map,
        word_counts,
    }
}

} // verus!
