//! Sorting, searching and the predicates that state their results.

use tpt_formal_lab::verified_algorithms::predicates::{is_permutation, is_sorted};
use tpt_formal_lab::verified_algorithms::search::verified_binary_search;
use tpt_formal_lab::verified_algorithms::sort::verified_sort;

#[test]
fn is_sorted_basics() {
    assert!(is_sorted(&[1usize, 2, 3]));
    assert!(is_sorted(&[2usize, 2, 2]));
    assert!(is_sorted(&[] as &[i32; 0]));
    assert!(is_sorted(&[1i32]));
    assert!(!is_sorted(&[3i32, 1, 2]));
}

#[test]
fn is_permutation_basics() {
    assert!(is_permutation(&[1, 2, 3], &[3, 1, 2]));
    assert!(is_permutation(&[1, 1, 2], &[2, 1, 1]));
    assert!(!is_permutation(&[1, 2, 3], &[1, 2, 4]));
    assert!(!is_permutation(&[1, 2], &[1, 2, 3]));
}

#[test]
fn sort_empty() {
    let mut data: [i32; 0] = [];
    verified_sort(&mut data);
    assert!(is_sorted(&data));
}

#[test]
fn sort_single() {
    let mut data = [42];
    verified_sort(&mut data);
    assert_eq!(data, [42]);
}

#[test]
fn sort_duplicates() {
    let mut data = [5, 2, 5, 1, 2];
    let original = data;
    verified_sort(&mut data);
    assert!(is_sorted(&data));
    assert!(is_permutation(&original, &data));
}

#[test]
fn sort_reverse() {
    let mut data = [5, 4, 3, 2, 1];
    let original = data;
    verified_sort(&mut data);
    assert_eq!(data, [1, 2, 3, 4, 5]);
    assert!(is_permutation(&original, &data));
}

#[test]
fn sort_randomish() {
    let mut data = [9, 3, 7, 1, 8, 2, 6, 4, 5, 0];
    let original = data;
    verified_sort(&mut data);
    assert!(is_sorted(&data));
    assert!(is_permutation(&original, &data));
}

#[test]
fn binary_search_hit() {
    let data = [1, 2, 3, 4, 5];
    for (expected, key) in data.iter().enumerate() {
        assert_eq!(verified_binary_search(&data, key), Some(expected));
    }
}

#[test]
fn binary_search_miss() {
    let data = [2, 4, 6, 8, 10];
    assert_eq!(verified_binary_search(&data, &1), None);
    assert_eq!(verified_binary_search(&data, &5), None);
    assert_eq!(verified_binary_search(&data, &11), None);
    assert_eq!(verified_binary_search(&data, &7), None);
}

#[test]
fn binary_search_empty() {
    let data: [i32; 0] = [];
    assert_eq!(verified_binary_search(&data, &1), None);
}

// ── Further cases ──────────────────────────────────────────────────────────

#[test]
fn sort_keeps_duplicates_and_strings() {
    let mut words = ["pear", "apple", "fig", "apple"];
    verified_sort(&mut words);
    assert_eq!(words, ["apple", "apple", "fig", "pear"]);
    let mut v: Vec<i64> = vec![3, -1, 3, i64::MIN, 0];
    verified_sort(&mut v);
    assert_eq!(v, vec![i64::MIN, -1, 0, 3, 3]);
}

#[test]
fn binary_search_with_duplicates_finds_an_equal_element() {
    let data = [1, 3, 3, 3, 9];
    let i = verified_binary_search(&data, &3).unwrap();
    assert_eq!(data[i], 3);
    assert_eq!(verified_binary_search(&data, &2), None);
}

#[test]
fn permutation_counts_multiplicity() {
    assert!(!is_permutation(&[1, 1, 2], &[1, 2, 2]));
    assert!(is_permutation::<i32>(&[], &[]));
}

#[derive(Debug, Clone)]
struct Keyed {
    key: u32,
    tag: char,
}

impl PartialEq for Keyed {
    fn eq(&self, other: &Self) -> bool {
        self.key == other.key
    }
}

impl Eq for Keyed {}

impl PartialOrd for Keyed {
    fn partial_cmp(&self, other: &Self) -> Option<std::cmp::Ordering> {
        Some(self.cmp(other))
    }
}

impl Ord for Keyed {
    fn cmp(&self, other: &Self) -> std::cmp::Ordering {
        self.key.cmp(&other.key)
    }
}

#[test]
fn sort_is_stable_for_equal_keys() {
    let mut data = vec![
        Keyed { key: 2, tag: 'a' },
        Keyed { key: 1, tag: 'b' },
        Keyed { key: 2, tag: 'c' },
        Keyed { key: 1, tag: 'd' },
        Keyed { key: 0, tag: 'e' },
        Keyed { key: 2, tag: 'f' },
    ];
    verified_sort(&mut data);
    let tags: String = data.iter().map(|k| k.tag).collect();
    let keys: Vec<u32> = data.iter().map(|k| k.key).collect();
    assert_eq!(keys, vec![0, 1, 1, 2, 2, 2]);
    assert_eq!(tags, "ebdacf");
}

#[test]
fn permutation_by_eq_and_examples() {
    assert!(is_permutation(&[1, 1, 2], &[2, 1, 1]));
    assert!(!is_permutation(&[1, 2, 3], &[1, 2, 4]));
    assert!(!is_permutation(&[1, 2], &[1, 2, 3]));
    let a = [Keyed { key: 1, tag: 'a' }, Keyed { key: 2, tag: 'b' }];
    let b = [Keyed { key: 2, tag: 'x' }, Keyed { key: 1, tag: 'y' }];
    assert!(is_permutation(&a, &b));
    let c = [Keyed { key: 2, tag: 'x' }, Keyed { key: 2, tag: 'y' }];
    assert!(!is_permutation(&a, &c));
}
