use crater_report::snapshot::CrateGroupSnapshot;
use crater_report::serialize::{hashmap_deterministic_serialize, key_le, sort_vec, SortKey};

fn next(state: &mut u64) -> u64 {
    *state = state
        .wrapping_mul(6364136223846793005)
        .wrapping_add(1442695040888963407);
    *state >> 33
}

fn alphanumeric(count: usize, seed: u64) -> Vec<char> {
    let letters: Vec<char> = ('a'..='z').chain('A'..='Z').chain('0'..='9').collect();
    let mut state = seed;
    (0..count)
        .map(|_| letters[(next(&mut state) % letters.len() as u64) as usize])
        .collect()
}

#[test]
fn test_serialize_hashmap() {
    let random = alphanumeric(10000, 7);
    let mut keys: Vec<String> = random.chunks(10).map(|v| v.iter().collect::<String>()).collect();
    keys.sort();
    keys.dedup();
    let mut stored = keys.clone();
    let mut state = 11;
    for i in (1..stored.len()).rev() {
        let j = (next(&mut state) % (i as u64 + 1)) as usize;
        stored.swap(i, j);
    }
    let entries: Vec<CrateGroupSnapshot> = stored
        .iter()
        .map(|key| CrateGroupSnapshot { key: key.clone(), crates: Vec::new() })
        .collect();

    let written = hashmap_deterministic_serialize(entries);
    let elems: Vec<String> = written.iter().map(|entry| entry.key.clone()).collect();
    let mut sorted = elems.clone();
    sorted.sort();

    assert_eq!(sorted, elems);
    assert_eq!(elems, keys);
}

#[test]
fn test_serialize_vec() {
    let unsorted: Vec<u32> = (0..10).rev().collect();
    let expected: Vec<u32> = (0..10).collect();

    assert_eq!(sort_vec(unsorted), sort_vec(expected.clone()));
    assert_eq!(sort_vec(expected.clone()), expected);
}

#[test]
fn strings_sort_as_the_standard_library_sorts_them() {
    let words = vec![
        "b", "a", "", "ab", "aa", "a", "B", "é", "e", "z", "zz", "~", "0", "10", "9",
        "\u{10000}", "\u{ffff}", "a\u{0}", "a b", "a-b", "ab ",
    ];
    let data: Vec<String> = words.iter().map(|w| w.to_string()).collect();
    let mut expected = data.clone();
    expected.sort();
    assert_eq!(sort_vec(data), expected);
}

#[test]
fn a_text_comes_before_every_longer_text_that_begins_with_it() {
    let sorted = sort_vec(vec!["abc".to_string(), "ab".to_string(), "a".to_string()]);
    assert_eq!(sorted, vec!["a", "ab", "abc"]);
}

#[test]
fn sorting_keeps_every_value() {
    let data: Vec<u32> = vec![5, 3, 5, 1, 3, 5, 0];
    assert_eq!(sort_vec(data), vec![0, 1, 3, 3, 5, 5, 5]);
    assert_eq!(sort_vec(Vec::<u32>::new()), Vec::<u32>::new());
    assert_eq!(sort_vec(vec![4u32]), vec![4]);
}

#[test]
fn entries_with_one_key_keep_their_order() {
    let group = |key: &str, n: usize| CrateGroupSnapshot {
        key: key.to_string(),
        crates: Vec::with_capacity(n),
    };
    let first = group("same", 1);
    let second = group("same", 2);
    let sorted = hashmap_deterministic_serialize(vec![group("z", 0), first, second, group("a", 0)]);
    let keys: Vec<&str> = sorted.iter().map(|g| g.key.as_str()).collect();
    assert_eq!(keys, vec!["a", "same", "same", "z"]);
    assert_eq!(sorted[1].crates.capacity(), 1);
    assert_eq!(sorted[2].crates.capacity(), 2);
}

#[test]
fn key_of_a_text() {
    assert_eq!("".to_string().sort_key(), vec![0]);
    assert_eq!("ab".to_string().sort_key(), vec![98, 99, 0]);
    assert_eq!(7u32.sort_key(), vec![7]);
}

#[test]
fn order_of_keys() {
    assert!(key_le(&vec![], &vec![]));
    assert!(key_le(&vec![], &vec![0]));
    assert!(!key_le(&vec![0], &vec![]));
    assert!(key_le(&vec![1, 2], &vec![1, 2]));
    assert!(key_le(&vec![1, 2], &vec![1, 3]));
    assert!(!key_le(&vec![1, 3], &vec![1, 2]));
    assert!(key_le(&vec![1, 9, 9], &vec![2]));
    assert!(key_le(&vec![1], &vec![1, 0]));
    assert!(!key_le(&vec![1, 0], &vec![1]));
}

#[test]
fn sorting_does_not_depend_on_the_stored_order() {
    let one: Vec<String> = vec!["c", "a", "b", "d"].into_iter().map(String::from).collect();
    let other: Vec<String> = vec!["d", "b", "c", "a"].into_iter().map(String::from).collect();
    assert_eq!(sort_vec(one), sort_vec(other));
}

#[test]
fn many_keys_are_sorted() {
    let random = alphanumeric(160000, 3);
    let data: Vec<String> = random.chunks(8).map(|v| v.iter().collect::<String>()).collect();
    assert_eq!(data.len(), 20000);
    let mut expected = data.clone();
    expected.sort();
    assert_eq!(sort_vec(data), expected);
}
