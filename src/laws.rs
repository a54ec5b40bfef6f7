//! Facts about the counts that the two construction paths produce.
use vstd::prelude::*;

use crate::count::CountValue;
use crate::counter::{
    count_in, lemma_unnamed_total, item_counts, names_item, occurrences, pair_counts, pair_total, with_items,
    with_pairs,
};

verus! {

broadcast use {
    vstd::seq_lib::group_to_multiset_ensures,
    vstd::multiset::group_multiset_axioms,
};

/// With no input, neither path gives any entry, and every item counts zero.
pub proof fn lemma_no_input<T, N: CountValue>(k: T)
    ensures
        item_counts(Seq::<T>::empty()) == Map::<T, int>::empty(),
        pair_counts(Seq::<(T, N)>::empty()) == Map::<T, int>::empty(),
        count_in(item_counts(Seq::<T>::empty()), k) == 0,
{
    assert(item_counts(Seq::<T>::empty()) =~= Map::<T, int>::empty());
    assert(pair_counts(Seq::<(T, N)>::empty()) =~= Map::<T, int>::empty());
}

/// Counting items does not depend on their order: two sequences that are
/// permutations of each other give the same counts, on any starting counts.
pub proof fn lemma_items_order_independent<T>(base: Map<T, int>, a: Seq<T>, b: Seq<T>)
    requires
        a.to_multiset() == b.to_multiset(),
    ensures
        with_items(base, a) == with_items(base, b),
        item_counts(a) == item_counts(b),
{
    assert forall|k: T| a.contains(k) <==> b.contains(k) by {
        assert(a.contains(k) <==> a.to_multiset().count(k) > 0);
        assert(b.contains(k) <==> b.to_multiset().count(k) > 0);
    }
    assert(with_items(base, a) =~= with_items(base, b));
    assert(item_counts(a) =~= item_counts(b));
}

/// Removing the pair at `j` takes its count out of its item's total.
proof fn lemma_total_remove<T, N: CountValue>(s: Seq<(T, N)>, j: int, k: T)
    requires
        0 <= j < s.len(),
    ensures
        pair_total(s, k) == pair_total(s.remove(j), k) + if s[j].0 == k {
            s[j].1.value()
        } else {
            0
        },
    decreases s.len(),
{
    if j == s.len() - 1 {
        assert(s.remove(j) =~= s.drop_last());
    } else {
        lemma_total_remove(s.drop_last(), j, k);
        assert(s.remove(j).drop_last() =~= s.drop_last().remove(j));
        assert(s.remove(j).last() == s.last());
    }
}

/// Two permutations of one another sum to the same total for every item.
proof fn lemma_total_permutation<T, N: CountValue>(a: Seq<(T, N)>, b: Seq<(T, N)>, k: T)
    requires
        a.to_multiset() == b.to_multiset(),
    ensures
        pair_total(a, k) == pair_total(b, k),
    decreases a.len(),
{
    if a.len() == 0 {
        assert(a.len() == a.to_multiset().len());
        assert(b.len() == b.to_multiset().len());
    } else {
        let x = a.last();
        let rest = a.drop_last();
        assert(a =~= rest.push(x));
        assert(b.to_multiset().count(x) > 0);
        assert(b.contains(x));
        let j = choose|j: int| 0 <= j < b.len() && b[j] == x;
        assert(b.remove(j).to_multiset() =~= rest.to_multiset());
        lemma_total_permutation(rest, b.remove(j), k);
        lemma_total_remove(b, j, k);
    }
}

/// Aggregating pairs does not depend on their order: two sequences that are
/// permutations of each other give the same counts, on any starting counts.
pub proof fn lemma_pairs_order_independent<T, N: CountValue>(
    base: Map<T, int>,
    a: Seq<(T, N)>,
    b: Seq<(T, N)>,
)
    requires
        a.to_multiset() == b.to_multiset(),
    ensures
        with_pairs(base, a) == with_pairs(base, b),
        pair_counts(a) == pair_counts(b),
{
    assert forall|k: T| names_item(a, k) implies names_item(b, k) by {
        let i = choose|i: int| 0 <= i < a.len() && #[trigger] a[i].0 == k;
        assert(a.contains(a[i]));
        assert(b.to_multiset().count(a[i]) > 0);
        assert(b.contains(a[i]));
        let j = choose|j: int| 0 <= j < b.len() && b[j] == a[i];
        assert(b[j].0 == k);
    }
    assert forall|k: T| names_item(b, k) implies names_item(a, k) by {
        let i = choose|i: int| 0 <= i < b.len() && #[trigger] b[i].0 == k;
        assert(b.contains(b[i]));
        assert(a.to_multiset().count(b[i]) > 0);
        assert(a.contains(b[i]));
        let j = choose|j: int| 0 <= j < a.len() && a[j] == b[i];
        assert(a[j].0 == k);
    }
    assert forall|k: T| pair_total(a, k) == pair_total(b, k) by {
        lemma_total_permutation(a, b, k);
    }
    assert(with_pairs(base, a) =~= with_pairs(base, b));
    assert(pair_counts(a) =~= pair_counts(b));
}

/// The totals of two batches laid end to end add up.
proof fn lemma_total_concat<T, N: CountValue>(p: Seq<(T, N)>, q: Seq<(T, N)>, k: T)
    ensures
        pair_total(p + q, k) == pair_total(p, k) + pair_total(q, k),
    decreases q.len(),
{
    if q.len() == 0 {
        assert(p + q =~= p);
    } else {
        lemma_total_concat(p, q.drop_last(), k);
        assert((p + q).drop_last() =~= p + q.drop_last());
        assert((p + q).last() == q.last());
    }
}

/// Aggregating pairs in two batches into one running total gives the same
/// counts as aggregating both batches in a single pass.
pub proof fn lemma_pairs_batched<T, N: CountValue>(
    base: Map<T, int>,
    p: Seq<(T, N)>,
    q: Seq<(T, N)>,
)
    ensures
        with_pairs(with_pairs(base, p), q) == with_pairs(base, p + q),
{
    let mid = with_pairs(base, p);
    assert forall|k: T| names_item(p + q, k) <==> names_item(p, k) || names_item(q, k) by {
        if names_item(p + q, k) {
            let i = choose|i: int| 0 <= i < (p + q).len() && #[trigger] (p + q)[i].0 == k;
            if i < p.len() {
                assert(p[i].0 == k);
            } else {
                assert(q[i - p.len()].0 == k);
            }
        }
        if names_item(p, k) {
            let i = choose|i: int| 0 <= i < p.len() && #[trigger] p[i].0 == k;
            assert((p + q)[i].0 == k);
        }
        if names_item(q, k) {
            let i = choose|i: int| 0 <= i < q.len() && #[trigger] q[i].0 == k;
            assert((p + q)[i + p.len()].0 == k);
        }
    }
    assert forall|k: T| count_in(mid, k) == count_in(base, k) + pair_total(p, k) by {
        if !names_item(p, k) {
            lemma_unnamed_total(p, k);
        }
    }
    assert forall|k: T| pair_total(p + q, k) == pair_total(p, k) + pair_total(q, k) by {
        lemma_total_concat(p, q, k);
    }
    assert(with_pairs(mid, q) =~= with_pairs(base, p + q));
}

/// Aggregating `(a, c)` and then `(a, c)` again into the same running total
/// gives `a` the count `2c`, the same as aggregating both pairs at once.
pub proof fn lemma_pair_twice<T, N: CountValue>(a: T, c: N)
    ensures
        with_pairs(pair_counts(seq![(a, c)]), seq![(a, c)]) == pair_counts(seq![(a, c), (a, c)]),
        pair_counts(seq![(a, c), (a, c)]) == map![a => 2 * c.value()],
{
    let one = seq![(a, c)];
    let two = seq![(a, c), (a, c)];
    assert(one + one =~= two);
    lemma_pairs_batched(Map::empty(), one, one);
    assert(two.drop_last() =~= one);
    assert(one.drop_last() =~= Seq::<(T, N)>::empty());
    assert(pair_total(one.drop_last(), a) == 0);
    assert(pair_total(one, a) == c.value());
    assert(pair_total(two, a) == 2 * c.value());
    assert forall|k: T| names_item(two, k) <==> k == a by {
        if names_item(two, k) {
            let i = choose|i: int| 0 <= i < two.len() && #[trigger] two[i].0 == k;
        }
        if k == a {
            assert(two[0].0 == k);
        }
    }
    assert(pair_counts(two) =~= map![a => 2 * c.value()]);
}

/// A pair with a zero count still gives its item an entry, with count zero;
/// an item that no pair names has no entry.
pub proof fn lemma_zero_pair_present<T, N: CountValue>(a: T, z: N)
    requires
        z.value() == 0,
    ensures
        pair_counts(seq![(a, z)]) == map![a => 0int],
        pair_counts(seq![(a, z)]).contains_key(a),
        forall|k: T| k != a ==> !(#[trigger] pair_counts(seq![(a, z)]).contains_key(k)),
{
    let one = seq![(a, z)];
    assert(one.drop_last() =~= Seq::<(T, N)>::empty());
    assert forall|k: T| names_item(one, k) <==> k == a by {
        if k == a {
            assert(one[0].0 == k);
        }
    }
    assert(pair_total(one.drop_last(), a) == 0);
    assert(pair_total(one, a) == 0);
    assert(pair_counts(one) =~= map![a => 0int]);
}

/// `m` copies of `x` hold `x` exactly `m` times and nothing else.
proof fn lemma_copies_occurrences<T>(x: T, m: nat, k: T)
    ensures
        occurrences(Seq::new(m, |i: int| x), k) == if k == x {
            m as int
        } else {
            0
        },
    decreases m,
{
    if m == 0 {
        assert(Seq::new(m, |i: int| x) =~= Seq::<T>::empty());
    } else {
        lemma_copies_occurrences(x, (m - 1) as nat, k);
        assert(Seq::new(m, |i: int| x) =~= Seq::new((m - 1) as nat, |i: int| x).push(x));
    }
}

/// Counting `n` copies of one item one by one gives the same counts as
/// aggregating the single pair `(item, n)`, for `n` of at least one.
pub proof fn lemma_copies_as_pair<T, N: CountValue>(x: T, n: N)
    requires
        n.value() > 0,
    ensures
        item_counts(Seq::new(n.value() as nat, |i: int| x)) == pair_counts(seq![(x, n)]),
{
    let copies = Seq::new(n.value() as nat, |i: int| x);
    let one = seq![(x, n)];
    assert forall|k: T| copies.contains(k) <==> k == x by {
        lemma_copies_occurrences(x, n.value() as nat, k);
    }
    assert forall|k: T| names_item(one, k) <==> k == x by {
        if k == x {
            assert(one[0].0 == k);
        }
    }
    assert(one.drop_last() =~= Seq::<(T, N)>::empty());
    assert forall|k: T| occurrences(copies, k) == pair_total(one, k) by {
        lemma_copies_occurrences(x, n.value() as nat, k);
        assert(pair_total(one.drop_last(), k) == 0);
    }
    assert(item_counts(copies) =~= pair_counts(one));
}

} // verus!
