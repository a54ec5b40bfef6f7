//! The counter itself: construction from items and from `(item, count)` pairs.
use std::collections::HashMap;
use std::hash::Hash;

use vstd::prelude::*;
use vstd::std_specs::hash::obeys_key_model;

use crate::count::CountValue;

verus! {

broadcast use {
    vstd::std_specs::hash::group_hash_axioms,
    vstd::seq_lib::group_to_multiset_ensures,
    vstd::multiset::group_multiset_axioms,
};

/// The count that `m` gives to `k`, where a key that is absent counts zero.
pub open spec fn count_in<T>(m: Map<T, int>, k: T) -> int {
    if m.contains_key(k) {
        m[k]
    } else {
        0
    }
}

/// How often `k` occurs in `items`.
pub open spec fn occurrences<T>(items: Seq<T>, k: T) -> int {
    items.to_multiset().count(k) as int
}

/// The counts of `base` after one more occurrence of each of `items`:
/// every item seen gets an entry.
pub open spec fn with_items<T>(base: Map<T, int>, items: Seq<T>) -> Map<T, int> {
    Map::new(
        |k: T| base.contains_key(k) || items.contains(k),
        |k: T| count_in(base, k) + occurrences(items, k),
    )
}

/// The counts of a fresh counter built from `items`: each distinct item maps
/// to the number of times it occurs, and nothing else has an entry.
pub open spec fn item_counts<T>(items: Seq<T>) -> Map<T, int> {
    with_items(Map::empty(), items)
}

/// Whether some pair of `pairs` names the item `k`.
pub open spec fn names_item<T, N>(pairs: Seq<(T, N)>, k: T) -> bool {
    exists|i: int| 0 <= i < pairs.len() && #[trigger] pairs[i].0 == k
}

/// The sum of the counts that `pairs` gives for `k`, in the order given.
pub open spec fn pair_total<T, N: CountValue>(pairs: Seq<(T, N)>, k: T) -> int
    decreases pairs.len(),
{
    if pairs.len() == 0 {
        0
    } else {
        pair_total(pairs.drop_last(), k) + if pairs.last().0 == k {
            pairs.last().1.value()
        } else {
            0
        }
    }
}

/// An item that no pair names sums to zero.
pub proof fn lemma_unnamed_total<T, N: CountValue>(pairs: Seq<(T, N)>, k: T)
    requires
        !names_item(pairs, k),
    ensures
        pair_total(pairs, k) == 0,
    decreases pairs.len(),
{
    if pairs.len() > 0 {
        let rest = pairs.drop_last();
        if names_item(rest, k) {
            let j = choose|j: int| 0 <= j < rest.len() && #[trigger] rest[j].0 == k;
            assert(pairs[j].0 == k);
        }
        assert(pairs[pairs.len() - 1].0 != k);
        lemma_unnamed_total(rest, k);
    }
}

/// The counts of `base` after adding each pair's count to its item: every
/// item named by a pair gets an entry, even where its counts sum to zero.
pub open spec fn with_pairs<T, N: CountValue>(base: Map<T, int>, pairs: Seq<(T, N)>) -> Map<
    T,
    int,
> {
    Map::new(
        |k: T| base.contains_key(k) || names_item(pairs, k),
        |k: T| count_in(base, k) + pair_total(pairs, k),
    )
}

/// The counts of a fresh counter built from `pairs`.
pub open spec fn pair_counts<T, N: CountValue>(pairs: Seq<(T, N)>) -> Map<T, int> {
    with_pairs(Map::empty(), pairs)
}

/// Counting `items` on top of `base` keeps every count within `N`'s range.
pub open spec fn items_fit<T, N: CountValue>(base: Map<T, int>, items: Seq<T>) -> bool {
    forall|k: T| #[trigger] count_in(base, k) + occurrences(items, k) <= N::max_value()
}

/// Adding the counts of `pairs` to `base` one pair at a time, in order, keeps
/// every running total within `N`'s range.
pub open spec fn pairs_fit<T, N: CountValue>(base: Map<T, int>, pairs: Seq<(T, N)>) -> bool {
    forall|i: int, k: T|
        0 <= i <= pairs.len() ==> N::min_value() <= count_in(base, k) + #[trigger] pair_total(
            pairs.take(i),
            k,
        ) <= N::max_value()
}

/// A mapping from distinct items to counts. An item without an entry counts
/// zero.
pub struct Counter<T, N = usize> {
    map: HashMap<T, N>,
    zero: N,
}

impl<T, N: CountValue> View for Counter<T, N> {
    type V = Map<T, int>;

    closed spec fn view(&self) -> Map<T, int> {
        self.map@.map_values(|n: N| n.value())
    }
}

/// Builds `r` with `r@ == v@` reversed.
fn reversed<A>(v: Vec<A>) -> (r: Vec<A>)
    ensures
        r@.len() == v@.len(),
        forall|j: int| 0 <= j < v@.len() ==> r@[j] == v@[v@.len() - 1 - j],
{
    let ghost orig = v@;
    let mut v = v;
    let mut r: Vec<A> = Vec::new();
    while v.len() > 0
        invariant
            v@.len() + r@.len() == orig.len(),
            forall|j: int| 0 <= j < v@.len() ==> v@[j] == orig[j],
            forall|j: int| 0 <= j < r@.len() ==> r@[j] == orig[orig.len() - 1 - j],
        decreases v@.len(),
    {
        let x = v.pop().unwrap();
        r.push(x);
    }
    r
}

impl<T: Hash + Eq, N: CountValue> Counter<T, N> {
    /// The counter's own invariant: the cached zero is zero.
    pub closed spec fn wf(&self) -> bool {
        self.zero.value() == 0
    }

    /// An empty counter: it has no entries, so every item counts zero.
    pub fn new() -> (r: Self)
        ensures
            r.wf(),
            r@ == Map::<T, int>::empty(),
            r@.len() == 0,
            forall|k: T| count_in(r@, k) == 0,
    {
        let r = Counter { map: HashMap::new(), zero: N::zero() };
        assert(r@ =~= Map::<T, int>::empty());
        r
    }

    /// Adds `c` to the count of `item`, giving it an entry if it had none.
    fn add_count(&mut self, item: T, c: N)
        requires
            obeys_key_model::<T>(),
            old(self).wf(),
            N::min_value() <= count_in(old(self)@, item) + c.value() <= N::max_value(),
        ensures
            final(self).wf(),
            final(self)@ == old(self)@.insert(item, count_in(old(self)@, item) + c.value()),
    {
        let mut n = match self.map.get(&item) {
            Some(v) => *v,
            None => self.zero,
        };
        n.add_to(c);
        let ghost before = self.map@;
        self.map.insert(item, n);
        assert(self@ =~= before.map_values(|n: N| n.value()).insert(item, n.value()));
    }

    /// Counts one more occurrence of each of `items`.
    pub fn update(&mut self, items: Vec<T>)
        requires
            obeys_key_model::<T>(),
            old(self).wf(),
            items_fit::<T, N>(old(self)@, items@),
        ensures
            final(self).wf(),
            final(self)@ == with_items(old(self)@, items@),
    {
        let ghost base = self@;
        let ghost s = items@;
        let n = items.len();
        let mut rest = reversed(items);
        let mut i: usize = 0;
        assert(with_items(base, s.take(0)) =~= base);
        while i < n
            invariant
                obeys_key_model::<T>(),
                self.wf(),
                n == s.len(),
                0 <= i <= n,
                rest@.len() == n - i,
                forall|j: int| 0 <= j < rest@.len() ==> rest@[j] == s[n - 1 - j],
                items_fit::<T, N>(base, s),
                self@ == with_items(base, s.take(i as int)),
            decreases n - i,
        {
            let item = rest.pop().unwrap();
            let ghost prefix = s.take(i as int);
            let ghost next = s.take(i + 1);
            assert(next =~= prefix.push(item));
            assert(s =~= next + s.skip(i + 1));
            proof {
                vstd::seq_lib::lemma_multiset_commutative(next, s.skip(i + 1));
                assert(count_in(base, item) + occurrences(s, item) <= N::max_value());
                assert(occurrences(next, item) == occurrences(prefix, item) + 1);
                assert(occurrences(next, item) <= occurrences(s, item));
                assert(count_in(self@, item) == count_in(base, item) + occurrences(prefix, item));
                N::lemma_bounds();
                if self.map@.contains_key(item) {
                    self.map@[item].lemma_in_range();
                }
            }
            let one = N::one();
            self.add_count(item, one);
            assert(self@ =~= with_items(base, next));
            i += 1;
        }
        assert(s.take(n as int) =~= s);
    }

    /// A counter of `items`: each distinct item maps to the number of times
    /// it occurs.
    pub fn from_items(items: Vec<T>) -> (r: Self)
        requires
            obeys_key_model::<T>(),
            forall|k: T| #[trigger] occurrences(items@, k) <= N::max_value(),
        ensures
            r.wf(),
            r@ == item_counts(items@),
    {
        let mut r = Self::new();
        r.update(items);
        r
    }

    /// Adds each pair's count to the count of its item, in order.
    pub fn update_pairs(&mut self, pairs: Vec<(T, N)>)
        requires
            obeys_key_model::<T>(),
            old(self).wf(),
            pairs_fit::<T, N>(old(self)@, pairs@),
        ensures
            final(self).wf(),
            final(self)@ == with_pairs(old(self)@, pairs@),
    {
        let ghost base = self@;
        let ghost s = pairs@;
        let n = pairs.len();
        let mut rest = reversed(pairs);
        let mut i: usize = 0;
        assert(with_pairs(base, s.take(0)) =~= base);
        while i < n
            invariant
                obeys_key_model::<T>(),
                self.wf(),
                n == s.len(),
                0 <= i <= n,
                rest@.len() == n - i,
                forall|j: int| 0 <= j < rest@.len() ==> rest@[j] == s[n - 1 - j],
                pairs_fit::<T, N>(base, s),
                self@ == with_pairs(base, s.take(i as int)),
            decreases n - i,
        {
            let (item, c) = rest.pop().unwrap();
            let ghost prefix = s.take(i as int);
            let ghost next = s.take(i + 1);
            assert(next.drop_last() =~= prefix);
            assert(next.last() == (item, c));
            assert forall|k: T|
                #[trigger] pair_total(next, k) == pair_total(prefix, k) + if k == item {
                    c.value()
                } else {
                    0
                } by {
                assert(next.len() > 0);
            }
            proof {
                if !names_item(prefix, item) {
                    lemma_unnamed_total(prefix, item);
                }
            }
            assert(count_in(base, item) + pair_total(next, item) <= N::max_value());
            assert(N::min_value() <= count_in(base, item) + pair_total(next, item));
            self.add_count(item, c);
            assert forall|k: T| names_item(next, k) <==> names_item(prefix, k) || k == item by {
                if names_item(next, k) && k != item {
                    let j = choose|j: int| 0 <= j < next.len() && #[trigger] next[j].0 == k;
                    assert(prefix[j].0 == k);
                }
                if names_item(prefix, k) {
                    let j = choose|j: int| 0 <= j < prefix.len() && #[trigger] prefix[j].0 == k;
                    assert(next[j].0 == k);
                }
                if k == item {
                    assert(next[i as int].0 == k);
                }
            }
            assert forall|k: T| !names_item(next, k) implies pair_total(next, k) == 0 by {
                lemma_unnamed_total(next, k);
            }
            assert(self@ =~= with_pairs(base, next));
            i += 1;
        }
        assert(s.take(n as int) =~= s);
    }

    /// A counter of `pairs`: each item named by a pair maps to the sum of the
    /// counts given for it.
    pub fn from_pairs(pairs: Vec<(T, N)>) -> (r: Self)
        requires
            obeys_key_model::<T>(),
            pairs_fit::<T, N>(Map::empty(), pairs@),
        ensures
            r.wf(),
            r@ == pair_counts(pairs@),
    {
        let mut r = Self::new();
        r.update_pairs(pairs);
        r
    }

    /// The count of `item`; zero where it has no entry.
    pub fn get(&self, item: &T) -> (r: N)
        requires
            obeys_key_model::<T>(),
            self.wf(),
        ensures
            r.value() == count_in(self@, *item),
    {
        match self.map.get(item) {
            Some(v) => *v,
            None => self.zero,
        }
    }

    /// The number of entries.
    pub fn len(&self) -> (r: usize)
        requires
            obeys_key_model::<T>(),
        ensures
            r == self@.len(),
    {
        assert(self@.dom() =~= self.map@.dom());
        self.map.len()
    }

    /// Whether the counter has no entries.
    pub fn is_empty(&self) -> (r: bool)
        ensures
            r == (self@.len() == 0),
    {
        assert(self@.dom() =~= self.map@.dom());
        self.map.is_empty()
    }

    /// The underlying mapping from items to counts.
    pub fn into_map(self) -> (r: HashMap<T, N>)
        ensures
            r@.dom() == self@.dom(),
            forall|k: T| #[trigger] r@.contains_key(k) ==> r@[k].value() == self@[k],
    {
        assert(self@.dom() =~= self.map@.dom());
        self.map
    }
}

impl<T: Hash + Eq, N: CountValue> Default for Counter<T, N> {
    /// An empty counter.
    fn default() -> (r: Self)
        ensures
            r.wf(),
            r@ == Map::<T, int>::empty(),
    {
        Self::new()
    }
}

} // verus!
