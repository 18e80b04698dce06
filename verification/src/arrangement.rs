//! Stable ordering of a sequence by integer keys.
//!
//! An order is a sequence of positions. The stable order of `keys` lists every
//! position of `keys` once, by ascending key, and positions with equal keys in
//! ascending order.

use vstd::prelude::*;
use vstd::relations::{sorted_by, total_ordering};
use vstd::seq_lib::{lemma_sorted_unique, to_multiset_build, to_multiset_insert, to_multiset_len};

verus! {

/// Position `i` stands no later than position `j`: its key is smaller, or the
/// keys are equal and `i` is not behind `j`.
pub open spec fn position_leq(keys: Seq<int>) -> spec_fn(int, int) -> bool {
    |i: int, j: int| keys[i] < keys[j] || (keys[i] == keys[j] && i <= j)
}

/// The positions `0, 1, .., n - 1`.
pub open spec fn positions(n: nat) -> Seq<int> {
    Seq::new(n, |i: int| i)
}

/// The positions of `keys` by ascending key, equal keys in their given order.
pub open spec fn stable_order(keys: Seq<int>) -> Seq<int> {
    positions(keys.len()).sort_by(position_leq(keys))
}

/// The items of `s` read in the order that `order` gives.
pub open spec fn arranged<T>(s: Seq<T>, order: Seq<int>) -> Seq<T> {
    Seq::new(order.len(), |k: int| s[order[k]])
}

/// The keys as mathematical integers.
pub open spec fn key_values(keys: Seq<i64>) -> Seq<int> {
    keys.map_values(|k: i64| k as int)
}

/// The positions as mathematical integers.
pub open spec fn position_values(order: Seq<usize>) -> Seq<int> {
    order.map_values(|p: usize| p as int)
}

/// Ordering positions by key and then by position is a total order.
pub proof fn lemma_position_leq_total(keys: Seq<int>)
    ensures
        total_ordering(position_leq(keys)),
{
    let r = position_leq(keys);
    assert forall|x: int, y: int| #[trigger] r(x, y) || #[trigger] r(y, x) by {}
    assert forall|x: int| #[trigger] r(x, x) by {}
    assert forall|x: int, y: int| #[trigger] r(x, y) && #[trigger] r(y, x) implies x == y by {}
    assert forall|x: int, y: int, z: int| #[trigger] r(x, y) && #[trigger] r(y, z) implies r(
        x,
        z,
    ) by {}
}

/// The stable order is a permutation of the positions of `keys`, ascends by
/// key, and keeps positions with equal keys in ascending order.
pub proof fn lemma_stable_order(keys: Seq<int>)
    ensures
        stable_order(keys).len() == keys.len(),
        stable_order(keys).no_duplicates(),
        forall|k: int|
            0 <= k < keys.len() ==> 0 <= #[trigger] stable_order(keys)[k] < keys.len(),
        forall|i: int| 0 <= i < keys.len() ==> stable_order(keys).contains(i),
        forall|a: int, b: int|
            0 <= a < b < keys.len() ==> keys[#[trigger] stable_order(keys)[a]]
                <= keys[#[trigger] stable_order(keys)[b]],
        forall|a: int, b: int|
            0 <= a < b < keys.len() && keys[#[trigger] stable_order(keys)[a]]
                == keys[#[trigger] stable_order(keys)[b]] ==> stable_order(keys)[a]
                < stable_order(keys)[b],
{
    broadcast use vstd::seq_lib::group_to_multiset_ensures;

    let all = positions(keys.len());
    let o = stable_order(keys);
    let leq = position_leq(keys);
    lemma_position_leq_total(keys);
    all.lemma_sort_by_ensures(leq);
    assert(o.len() == keys.len()) by {
        to_multiset_len(o);
        to_multiset_len(all);
    }
    assert forall|k: int| 0 <= k < keys.len() implies 0 <= #[trigger] o[k] < keys.len() by {
        assert(o.to_multiset().contains(o[k]));
        assert(all.contains(o[k]));
    }
    assert forall|i: int| 0 <= i < keys.len() implies o.contains(i) by {
        assert(all[i] == i);
        assert(all.to_multiset().contains(i));
    }
    assert(all.no_duplicates());
    all.lemma_multiset_has_no_duplicates();
    o.lemma_multiset_has_no_duplicates_conv();
    assert forall|a: int, b: int| 0 <= a < b < keys.len() implies keys[#[trigger] o[a]]
        <= keys[#[trigger] o[b]] && (keys[o[a]] == keys[o[b]] ==> o[a] < o[b]) by {
        assert(leq(o[a], o[b]));
    }
}

/// Only one order lists every position once and ascends by key and position.
pub proof fn lemma_stable_order_unique(keys: Seq<int>, order: Seq<int>)
    requires
        sorted_by(order, position_leq(keys)),
        order.to_multiset() == positions(keys.len()).to_multiset(),
    ensures
        order == stable_order(keys),
{
    let leq = position_leq(keys);
    lemma_position_leq_total(keys);
    positions(keys.len()).lemma_sort_by_ensures(leq);
    lemma_sorted_unique(order, stable_order(keys), leq);
}

/// Arranging by the stable order keeps every item, each as often as before.
pub proof fn lemma_arranged_permutes<T>(s: Seq<T>, keys: Seq<int>)
    requires
        keys.len() == s.len(),
    ensures
        arranged(s, stable_order(keys)).len() == s.len(),
        arranged(s, stable_order(keys)).to_multiset() == s.to_multiset(),
{
    broadcast use vstd::seq_lib::group_to_multiset_ensures;

    lemma_position_leq_total(keys);
    positions(keys.len()).lemma_sort_by_ensures(position_leq(keys));
    lemma_stable_order(keys);
    lemma_arranged_multiset(s, stable_order(keys), positions(keys.len()));
    assert(arranged(s, positions(s.len())) =~= s);
}

/// Two orders that hold the same positions arrange the same items.
proof fn lemma_arranged_multiset<T>(s: Seq<T>, o1: Seq<int>, o2: Seq<int>)
    requires
        o1.to_multiset() == o2.to_multiset(),
    ensures
        arranged(s, o1).to_multiset() == arranged(s, o2).to_multiset(),
    decreases o1.len(),
{
    broadcast use vstd::seq_lib::group_to_multiset_ensures;
    broadcast use vstd::multiset::group_multiset_axioms;

    assert(o1.len() == o2.len()) by {
        to_multiset_len(o1);
        to_multiset_len(o2);
    }
    if o1.len() == 0 {
        assert(arranged(s, o1) =~= arranged(s, o2));
    } else {
        let x = o1.last();
        assert(o1.to_multiset().contains(x));
        assert(o2.contains(x));
        let j = choose|j: int| 0 <= j < o2.len() && o2[j] == x;
        let r1 = o1.drop_last();
        let r2 = o2.remove(j);
        assert(r1.to_multiset() =~= o1.to_multiset().remove(x)) by {
            assert(o1 =~= r1.push(x));
        }
        assert(r2.to_multiset() =~= o2.to_multiset().remove(x));
        lemma_arranged_multiset(s, r1, r2);
        assert(arranged(s, o1) =~= arranged(s, r1).push(s[x]));
        assert(arranged(s, r2) =~= arranged(s, o2).remove(j));
        assert(arranged(s, o2)[j] == s[x]);
        assert(arranged(s, r2).to_multiset() =~= arranged(s, o2).to_multiset().remove(s[x]));
        assert(arranged(s, o2).to_multiset().contains(s[x]));
    }
}

/// Computes the stable order of `keys`.
pub fn stable_positions(keys: &Vec<i64>) -> (order: Vec<usize>)
    ensures
        position_values(order@) == stable_order(key_values(keys@)),
{
    let ghost k = key_values(keys@);
    let mut order: Vec<usize> = Vec::new();
    let mut i: usize = 0;
    assert(position_values(order@) =~= positions(0));
    while i < keys.len()
        invariant
            i <= keys.len(),
            k == key_values(keys@),
            order.len() == i,
            forall|a: int| 0 <= a < order.len() ==> #[trigger] order[a] < i,
            sorted_by(position_values(order@), position_leq(k)),
            position_values(order@).to_multiset() == positions(i as nat).to_multiset(),
        decreases keys.len() - i,
    {
        let key: i64 = keys[i];
        let mut p: usize = order.len();
        while p > 0 && keys[order[p - 1]] > key
            invariant
                p <= order.len(),
                order.len() == i,
                i < keys.len(),
                key == keys[i as int],
                forall|a: int| 0 <= a < order.len() ==> #[trigger] order[a] < i,
                forall|a: int| p <= a < order.len() ==> keys[#[trigger] order[a] as int] > key,
            decreases p,
        {
            p = p - 1;
        }
        let ghost before = position_values(order@);
        order.insert(p, i);
        proof {
            let after = position_values(order@);
            let leq = position_leq(k);
            assert(after =~= before.insert(p as int, i as int));
            to_multiset_insert(before, p as int, i as int);
            assert(positions((i + 1) as nat) =~= positions(i as nat).push(i as int));
            to_multiset_build(positions(i as nat), i as int);
            assert forall|a: int, b: int| 0 <= a < b < after.len() implies #[trigger] leq(
                after[a],
                after[b],
            ) by {
                if b < p {
                    assert(leq(before[a], before[b]));
                } else if b == p {
                    if p > 0 {
                        assert(leq(before[a], before[p - 1]));
                    }
                } else if a < p {
                    assert(leq(before[a], before[b - 1]));
                } else if a == p {
                } else {
                    assert(leq(before[a - 1], before[b - 1]));
                }
            }
        }
        i = i + 1;
    }
    proof {
        lemma_stable_order_unique(k, position_values(order@));
    }
    order
}

} // verus!
