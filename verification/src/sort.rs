//! Stable sorting by integer keys.

use vstd::prelude::*;

verus! {

/// What an item is sorted by: the first component, then the second, then the third.
pub type SortKey = (i64, i64, i64);

/// Whether `a` sorts strictly before `b`.
pub open spec fn key_lt(a: SortKey, b: SortKey) -> bool {
    a.0 < b.0 || (a.0 == b.0 && (a.1 < b.1 || (a.1 == b.1 && a.2 < b.2)))
}

fn key_less(a: &SortKey, b: &SortKey) -> (r: bool)
    ensures
        r == key_lt(*a, *b),
{
    a.0 < b.0 || (a.0 == b.0 && (a.1 < b.1 || (a.1 == b.1 && a.2 < b.2)))
}

/// The place behind the last index in `order` whose key is not above `key`.
pub open spec fn place(order: Seq<int>, keys: Seq<SortKey>, key: SortKey) -> nat
    decreases order.len(),
{
    if order.len() > 0 && key_lt(key, keys[order.last()]) {
        place(order.drop_last(), keys, key)
    } else {
        order.len()
    }
}

/// The indices of `keys` in ascending order of their keys, equal keys in order of index.
pub open spec fn stable_order(keys: Seq<SortKey>) -> Seq<int>
    decreases keys.len(),
{
    if keys.len() == 0 {
        Seq::empty()
    } else {
        let order = stable_order(keys.drop_last());
        order.insert(place(order, keys, keys.last()) as int, keys.len() - 1)
    }
}

/// The items at the indices of `order`.
pub open spec fn arranged<T>(items: Seq<T>, order: Seq<int>) -> Seq<T> {
    Seq::new(order.len(), |j: int| items[order[j]])
}

/// `items` in ascending order of their keys, items with equal keys in the order they had.
pub open spec fn sorted_by_keys<T>(items: Seq<T>, keys: Seq<SortKey>) -> Seq<T> {
    arranged(items, stable_order(keys))
}

/// Whether index `i` has to come before index `j`.
pub open spec fn precedes(keys: Seq<SortKey>, i: int, j: int) -> bool {
    key_lt(keys[i], keys[j]) || (keys[i] == keys[j] && i < j)
}

proof fn lemma_place(order: Seq<int>, keys: Seq<SortKey>, key: SortKey)
    ensures
        place(order, keys, key) <= order.len(),
        forall|j: int|
            place(order, keys, key) <= j < order.len() ==> key_lt(key, #[trigger] keys[order[j]]),
        place(order, keys, key) > 0 ==> !key_lt(key, keys[order[place(order, keys, key) - 1]]),
    decreases order.len(),
{
    if order.len() > 0 && key_lt(key, keys[order.last()]) {
        lemma_place(order.drop_last(), keys, key);
        let p = place(order, keys, key);
        assert forall|j: int| p <= j < order.len() implies key_lt(key, #[trigger] keys[order[j]]) by {
            if j < order.len() - 1 {
                assert(order.drop_last()[j] == order[j]);
            }
        }
    }
}

/// A stable order holds every index exactly once, each before those that it has to precede.
pub proof fn stable_order_is_stable(keys: Seq<SortKey>)
    ensures
        stable_order(keys).len() == keys.len(),
        forall|j: int| 0 <= j < keys.len() ==> 0 <= #[trigger] stable_order(keys)[j] < keys.len(),
        forall|a: int, b: int|
            0 <= a < b < keys.len() ==> precedes(
                keys,
                #[trigger] stable_order(keys)[a],
                #[trigger] stable_order(keys)[b],
            ),
        forall|i: int| 0 <= i < keys.len() ==> stable_order(keys).contains(i),
    decreases keys.len(),
{
    if keys.len() > 0 {
        let shorter = keys.drop_last();
        let n = keys.len() - 1;
        let order = stable_order(shorter);
        stable_order_is_stable(shorter);
        let p = place(order, keys, keys.last()) as int;
        lemma_place(order, keys, keys.last());
        let out = stable_order(keys);
        assert(out == order.insert(p, n));
        assert forall|a: int, b: int| 0 <= a < b < keys.len() implies precedes(
            keys,
            #[trigger] out[a],
            #[trigger] out[b],
        ) by {
            let x = if a < p { a } else { a - 1 };
            let y = if b < p { b } else { b - 1 };
            if a != p && b != p {
                assert(precedes(shorter, order[x], order[y]));
            } else if b == p {
                let last = order[p - 1];
                assert(!key_lt(keys[n], keys[last]));
                if x < p - 1 {
                    assert(precedes(shorter, order[x], last));
                }
            }
        }
        assert forall|i: int| 0 <= i < keys.len() implies out.contains(i) by {
            if i == n {
                assert(out[p] == n);
            } else {
                assert(order.contains(i));
                let j = choose|j: int| 0 <= j < order.len() && order[j] == i;
                assert(out[if j < p { j } else { j + 1 }] == i);
            }
        }
    }
}

/// Sorting keeps the items: the sorted sequence holds exactly the items, as often as before.
pub proof fn sorting_permutes<T>(items: Seq<T>, keys: Seq<SortKey>)
    requires
        items.len() == keys.len(),
    ensures
        sorted_by_keys(items, keys).len() == items.len(),
        sorted_by_keys(items, keys).to_multiset() == items.to_multiset(),
    decreases keys.len(),
{
    stable_order_is_stable(keys);
    broadcast use vstd::seq_lib::group_to_multiset_ensures;
    if keys.len() == 0 {
        assert(sorted_by_keys(items, keys) =~= items);
    } else {
        let order = stable_order(keys.drop_last());
        stable_order_is_stable(keys.drop_last());
        let p = place(order, keys, keys.last()) as int;
        lemma_place(order, keys, keys.last());
        sorting_permutes(items.drop_last(), keys.drop_last());
        let inner = sorted_by_keys(items.drop_last(), keys.drop_last());
        assert(sorted_by_keys(items, keys) =~= inner.insert(p, items.last()));
        assert(items =~= items.drop_last().push(items.last()));
    }
}

/// Sorts `items` by `keys`, the key of the item at the same index.
pub fn stable_sort<T>(items: Vec<T>, keys: &Vec<SortKey>) -> (r: Vec<T>)
    requires
        items@.len() == keys@.len(),
    ensures
        r@ == sorted_by_keys(items@, keys@),
{
    let ghost whole = items@;
    let mut items: Vec<T> = items;
    let mut order: Vec<usize> = Vec::new();
    let mut i: usize = 0;
    proof {
        assert(keys@.take(0) =~= Seq::empty());
    }
    while i < keys.len()
        invariant
            i <= keys@.len(),
            whole.len() == keys@.len(),
            items@.len() == keys@.len(),
            order@.len() == i,
            stable_order(keys@.take(i as int)).len() == i,
            forall|j: int| 0 <= j < i ==> (#[trigger] order@[j]) as int == stable_order(keys@.take(i as int))[j],
            forall|j: int| 0 <= j < i ==> 0 <= #[trigger] order@[j] < i,
            forall|j: int| 0 <= j < i ==> #[trigger] items@[j] == whole[order@[j] as int],
            forall|j: int| i <= j < keys@.len() ==> #[trigger] items@[j] == whole[j],
        decreases keys@.len() - i,
    {
        let ghost prefix = keys@.take(i as int);
        let ghost longer = keys@.take(i + 1);
        let ghost spec_order = stable_order(prefix);
        let mut p: usize = i;
        proof {
            assert(spec_order.take(i as int) =~= spec_order);
        }
        while p > 0 && key_less(&keys[i], &keys[order[p - 1]])
            invariant
                p <= i < keys@.len(),
                order@.len() == i,
                longer == keys@.take(i + 1),
                spec_order.len() == i,
                forall|j: int| 0 <= j < i ==> (#[trigger] order@[j]) as int == spec_order[j],
                forall|j: int| 0 <= j < i ==> 0 <= #[trigger] order@[j] < i,
                place(spec_order, longer, keys@[i as int]) == place(
                    spec_order.take(p as int),
                    longer,
                    keys@[i as int],
                ),
            decreases p,
        {
            assert(spec_order.take(p as int).drop_last() =~= spec_order.take(p - 1));
            assert(spec_order.take(p as int).last() == order@[p - 1]);
            p = p - 1;
        }
        proof {
            if p > 0 {
                assert(spec_order.take(p as int).last() == order@[p - 1]);
            }
            assert(place(spec_order, longer, keys@[i as int]) == p);
            assert(longer.drop_last() =~= prefix);
            assert(stable_order(longer) == spec_order.insert(p as int, i as int));
        }
        let item: T = items.remove(i);
        items.insert(p, item);
        order.insert(p, i);
        i = i + 1;
    }
    proof {
        assert(keys@.take(i as int) =~= keys@);
        assert(items@ =~= sorted_by_keys(whole, keys@));
    }
    items
}

/// Keys are compared by their first part, then by the second, then by the third, and the lower comes
/// first.
pub proof fn keys_are_compared_part_by_part(a: SortKey, b: SortKey)
    ensures
        a.0 < b.0 ==> key_lt(a, b) && !key_lt(b, a),
        a.0 == b.0 && a.1 < b.1 ==> key_lt(a, b) && !key_lt(b, a),
        a.0 == b.0 && a.1 == b.1 && a.2 < b.2 ==> key_lt(a, b) && !key_lt(b, a),
        a == b ==> !key_lt(a, b),
{
}

/// Items come from the lowest key to the highest. Of two with one key, the one that was first stays
/// first.
pub proof fn lower_keys_come_first(keys: Seq<SortKey>, a: int, b: int)
    requires
        0 <= a < b < keys.len(),
    ensures
        ({
            let i = stable_order(keys)[a];
            let j = stable_order(keys)[b];
            &&& 0 <= i < keys.len()
            &&& 0 <= j < keys.len()
            &&& i != j
            &&& keys[i].0 <= keys[j].0
            &&& keys[i].0 == keys[j].0 ==> keys[i].1 <= keys[j].1
            &&& keys[i].0 == keys[j].0 && keys[i].1 == keys[j].1 ==> keys[i].2 <= keys[j].2
            &&& keys[i] == keys[j] ==> i < j
        }),
{
    stable_order_is_stable(keys);
    assert(precedes(keys, stable_order(keys)[a], stable_order(keys)[b]));
}
} // verus!
