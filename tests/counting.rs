use std::collections::HashMap;

use counter::count::CountValue;
use counter::counter::Counter;

fn chars(s: &str) -> Vec<char> {
    s.chars().collect()
}

#[test]
fn empty_counter_has_no_entries() {
    let c: Counter<char> = Counter::new();
    assert_eq!(c.len(), 0);
    assert!(c.is_empty());
    assert_eq!(c.get(&'a'), 0);
    assert_eq!(c.into_map(), HashMap::new());
}

#[test]
fn default_counter_is_empty() {
    let c: Counter<u64, i64> = Counter::default();
    assert!(c.is_empty());
    assert_eq!(c.get(&7), 0);
}

#[test]
fn empty_inputs_give_empty_counters() {
    let a: Counter<char> = Counter::from_items(Vec::new());
    let b: Counter<char, u64> = Counter::from_pairs(Vec::new());
    assert!(a.is_empty());
    assert!(b.is_empty());
    assert_eq!(b.get(&'z'), 0);
}

#[test]
fn items_are_counted() {
    let c: Counter<char> = Counter::from_items(chars("abbccc"));
    let expect: HashMap<char, usize> = [('a', 1), ('b', 2), ('c', 3)].into_iter().collect();
    assert_eq!(c.len(), 3);
    assert_eq!(c.get(&'b'), 2);
    assert_eq!(c.get(&'d'), 0);
    assert_eq!(c.into_map(), expect);
}

#[test]
fn pairs_are_summed() {
    let c: Counter<char> = Counter::from_pairs(vec![('a', 1), ('b', 2), ('c', 3), ('a', 4)]);
    let expect: HashMap<char, usize> = [('a', 5), ('b', 2), ('c', 3)].into_iter().collect();
    assert_eq!(c.into_map(), expect);
}

#[test]
fn item_order_does_not_matter() {
    let a: Counter<char, u64> = Counter::from_items(chars("abbccc"));
    let b: Counter<char, u64> = Counter::from_items(chars("cbcacb"));
    assert_eq!(a.into_map(), b.into_map());
}

#[test]
fn pair_order_does_not_matter() {
    let a: Counter<char, i64> = Counter::from_pairs(vec![('a', 1), ('b', -2), ('a', 4), ('c', 3)]);
    let b: Counter<char, i64> = Counter::from_pairs(vec![('c', 3), ('a', 4), ('b', -2), ('a', 1)]);
    assert_eq!(a.into_map(), b.into_map());
}

#[test]
fn zero_count_pair_gives_an_entry() {
    let c: Counter<char> = Counter::from_pairs(vec![('a', 0)]);
    assert_eq!(c.len(), 1);
    assert_eq!(c.get(&'a'), 0);
    assert_eq!(c.get(&'b'), 0);
    let m = c.into_map();
    assert_eq!(m.get(&'a'), Some(&0));
    assert_eq!(m.get(&'b'), None);
}

#[test]
fn counts_summing_to_zero_keep_their_entry() {
    let c: Counter<&str, i64> = Counter::from_pairs(vec![("x", 1), ("y", 2), ("x", -1)]);
    let expect: HashMap<&str, i64> = [("x", 0), ("y", 2)].into_iter().collect();
    assert_eq!(c.into_map(), expect);
}

#[test]
fn pairs_in_two_batches_match_one_pass() {
    let mut running: Counter<char, u64> = Counter::from_pairs(vec![('a', 7)]);
    running.update_pairs(vec![('a', 7)]);
    assert_eq!(running.get(&'a'), 14);
    let once: Counter<char, u64> = Counter::from_pairs(vec![('a', 7), ('a', 7)]);
    assert_eq!(running.into_map(), once.into_map());
}

#[test]
fn items_in_two_batches_match_one_pass() {
    let mut running: Counter<char> = Counter::from_items(chars("abb"));
    running.update(chars("bca"));
    let once: Counter<char> = Counter::from_items(chars("abbbca"));
    assert_eq!(running.get(&'b'), 3);
    assert_eq!(running.into_map(), once.into_map());
}

#[test]
fn copies_match_a_single_pair() {
    let items: Counter<char> = Counter::from_items(vec!['x'; 4]);
    let pair: Counter<char> = Counter::from_pairs(vec![('x', 4)]);
    assert_eq!(items.get(&'x'), 4);
    assert_eq!(items.into_map(), pair.into_map());
}

#[test]
fn items_on_top_of_pairs() {
    let mut c: Counter<u32, i64> = Counter::from_pairs(vec![(1, -3), (2, 5)]);
    c.update(vec![1, 1, 3]);
    let expect: HashMap<u32, i64> = [(1, -1), (2, 5), (3, 1)].into_iter().collect();
    assert_eq!(c.into_map(), expect);
}

#[test]
fn largest_count_fits() {
    let c: Counter<char, u64> = Counter::from_pairs(vec![('a', u64::MAX - 1), ('a', 1)]);
    assert_eq!(c.get(&'a'), u64::MAX);
    let d: Counter<char, i64> = Counter::from_pairs(vec![('a', i64::MIN + 1), ('a', -1)]);
    assert_eq!(d.get(&'a'), i64::MIN);
}

#[test]
fn count_values_have_zero_and_one() {
    assert_eq!(<u64 as CountValue>::zero(), 0);
    assert_eq!(<u64 as CountValue>::one(), 1);
    assert_eq!(<usize as CountValue>::zero(), 0);
    assert_eq!(<usize as CountValue>::one(), 1);
    assert_eq!(<i64 as CountValue>::zero(), 0);
    assert_eq!(<i64 as CountValue>::one(), 1);
    let mut n: i64 = 5;
    n.add_to(-7);
    assert_eq!(n, -2);
}
