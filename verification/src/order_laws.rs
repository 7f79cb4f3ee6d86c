//! Stable ordering of items by their keys, and what it keeps.

use vstd::prelude::*;
use crate::order;
use crate::order::Ranked;

verus! {

/// Items with `x` put in: after every item whose key may stand before the key of
/// `x`, counted from the end.
pub open spec fn put_in<K: Ranked, T>(items: Seq<T>, key: spec_fn(T) -> K::V, x: T) -> Seq<T>
    decreases items.len(),
{
    if items.len() == 0 || K::precedes(key(items.last()), key(x)) {
        items.push(x)
    } else {
        put_in::<K, T>(items.drop_last(), key, x).push(items.last())
    }
}

/// Items in the stable order of their keys.
pub open spec fn sorted_by<K: Ranked, T>(items: Seq<T>, key: spec_fn(T) -> K::V) -> Seq<T>
    decreases items.len(),
{
    if items.len() == 0 {
        items
    } else {
        put_in::<K, T>(sorted_by::<K, T>(items.drop_last(), key), key, items.last())
    }
}

/// Whether the keys of items never fall.
pub open spec fn rises<K: Ranked, T>(items: Seq<T>, key: spec_fn(T) -> K::V) -> bool {
    forall|i: int, j: int|
        #![trigger items[i], items[j]]
        0 <= i < j < items.len() ==> K::precedes(key(items[i]), key(items[j]))
}

/// Putting a position in puts its item in.
proof fn lemma_inserted_is_put_in<K: Ranked, T>(
    items: Seq<T>,
    keys: Seq<K::V>,
    key: spec_fn(T) -> K::V,
    places: Seq<int>,
    x: int,
)
    requires
        keys.len() == items.len(),
        forall|i: int| 0 <= i < items.len() ==> #[trigger] keys[i] == key(items[i]),
        forall|i: int| 0 <= i < places.len() ==> 0 <= #[trigger] places[i] < items.len(),
        0 <= x < items.len(),
    ensures
        order::arranged(items, order::inserted::<K>(keys, places, x)) == put_in::<K, T>(
            order::arranged(items, places),
            key,
            items[x],
        ),
    decreases places.len(),
{
    let shown = order::arranged(items, places);
    let result = order::inserted::<K>(keys, places, x);
    if places.len() == 0 {
        assert(order::arranged(items, result) =~= shown.push(items[x]));
    } else {
        let last = places[places.len() - 1];
        assert(keys[last] == key(items[last]));
        assert(keys[x] == key(items[x]));
        assert(shown.last() == items[last]);
        if K::precedes(keys[places.last()], keys[x]) {
            assert(order::arranged(items, result) =~= shown.push(items[x]));
        } else {
            let front = places.drop_last();
            assert forall|i: int| 0 <= i < front.len() implies 0 <= #[trigger] front[i]
                < items.len() by {
                assert(front[i] == places[i]);
            }
            lemma_inserted_is_put_in::<K, T>(items, keys, key, front, x);
            assert(order::arranged(items, front) =~= shown.drop_last());
            let inner = order::inserted::<K>(keys, front, x);
            assert(order::arranged(items, result) =~= order::arranged(items, inner).push(
                items[last],
            ));
        }
    }
}

/// The items at the positions of the first `n` keys in stable order are the first
/// `n` items in stable order.
proof fn lemma_prefix_is_sorted_by<K: Ranked, T>(
    items: Seq<T>,
    keys: Seq<K::V>,
    key: spec_fn(T) -> K::V,
    n: nat,
)
    requires
        keys.len() == items.len(),
        n <= items.len(),
        forall|i: int| 0 <= i < items.len() ==> #[trigger] keys[i] == key(items[i]),
    ensures
        order::arranged(items, order::ordered_prefix::<K>(keys, n)) == sorted_by::<K, T>(
            items.take(n as int),
            key,
        ),
    decreases n,
{
    if n == 0 {
        assert(order::arranged(items, order::ordered_prefix::<K>(keys, n)) =~= items.take(0));
    } else {
        let m = (n - 1) as nat;
        let places = order::ordered_prefix::<K>(keys, m);
        lemma_prefix_is_sorted_by::<K, T>(items, keys, key, m);
        order::lemma_ordered_prefix::<K>(keys, m);
        lemma_inserted_is_put_in::<K, T>(items, keys, key, places, m as int);
        assert(items.take(n as int).drop_last() =~= items.take(m as int));
        assert(items.take(n as int).last() == items[m as int]);
    }
}

/// Items at the positions of their keys in stable order are the items in stable
/// order.
pub proof fn arranged_is_sorted_by<K: Ranked, T>(
    items: Seq<T>,
    keys: Seq<K::V>,
    key: spec_fn(T) -> K::V,
)
    requires
        keys.len() == items.len(),
        forall|i: int| 0 <= i < items.len() ==> #[trigger] keys[i] == key(items[i]),
    ensures
        order::arranged(items, order::ordered::<K>(keys)) == sorted_by::<K, T>(items, key),
{
    lemma_prefix_is_sorted_by::<K, T>(items, keys, key, items.len());
    assert(items.take(items.len() as int) =~= items);
}

/// Putting an item in keeps the keys rising.
proof fn lemma_put_in_rises<K: Ranked, T>(items: Seq<T>, key: spec_fn(T) -> K::V, x: T)
    requires
        rises::<K, T>(items, key),
    ensures
        rises::<K, T>(put_in::<K, T>(items, key, x), key),
        forall|i: int|
            0 <= i < put_in::<K, T>(items, key, x).len() ==> {
                let y = #[trigger] put_in::<K, T>(items, key, x)[i];
                y == x || items.contains(y)
            },
    decreases items.len(),
{
    let result = put_in::<K, T>(items, key, x);
    if items.len() == 0 {
    } else if K::precedes(key(items.last()), key(x)) {
        assert forall|i: int, j: int|
            #![trigger result[i], result[j]]
            0 <= i < j < result.len() implies K::precedes(key(result[i]), key(result[j])) by {
            if j == items.len() && i < items.len() - 1 {
                assert(result[i] == items[i]);
                K::transitive(key(items[i]), key(items[items.len() - 1]), key(x));
            }
        }
        assert forall|i: int| 0 <= i < result.len() implies {
            let y = #[trigger] result[i];
            y == x || items.contains(y)
        } by {
            if i < items.len() {
                assert(items[i] == result[i]);
            }
        }
    } else {
        let front = items.drop_last();
        let last = items[items.len() - 1];
        lemma_put_in_rises::<K, T>(front, key, x);
        let inner = put_in::<K, T>(front, key, x);
        K::total(key(last), key(x));
        assert forall|i: int| 0 <= i < inner.len() implies K::precedes(
            key(#[trigger] inner[i]),
            key(last),
        ) by {
            if inner[i] != x {
                let k = choose|k: int| 0 <= k < front.len() && front[k] == inner[i];
                assert(items[k] == front[k]);
            }
        }
        assert forall|i: int| 0 <= i < result.len() implies {
            let y = #[trigger] result[i];
            y == x || items.contains(y)
        } by {
            if i < inner.len() {
                assert(inner[i] == result[i]);
                if inner[i] != x {
                    let k = choose|k: int| 0 <= k < front.len() && front[k] == inner[i];
                    assert(items[k] == front[k]);
                }
            } else {
                assert(items[items.len() - 1] == result[i]);
            }
        }
    }
}

/// Keys of items in stable order never fall.
proof fn lemma_sorted_by_rises<K: Ranked, T>(items: Seq<T>, key: spec_fn(T) -> K::V)
    ensures
        rises::<K, T>(sorted_by::<K, T>(items, key), key),
    decreases items.len(),
{
    if items.len() > 0 {
        lemma_sorted_by_rises::<K, T>(items.drop_last(), key);
        lemma_put_in_rises::<K, T>(
            sorted_by::<K, T>(items.drop_last(), key),
            key,
            items.last(),
        );
    }
}

/// What a filter keeps is among the items.
proof fn lemma_kept_is_there<T>(items: Seq<T>, keep: spec_fn(T) -> bool)
    ensures
        forall|i: int|
            0 <= i < items.filter(keep).len() ==> items.contains(#[trigger] items.filter(keep)[i]),
    decreases items.len(),
{
    reveal(Seq::filter);
    if items.len() > 0 {
        let front = items.drop_last();
        lemma_kept_is_there(front, keep);
        assert forall|i: int| 0 <= i < items.filter(keep).len() implies items.contains(
            #[trigger] items.filter(keep)[i],
        ) by {
            if i < front.filter(keep).len() {
                let k = choose|k: int| 0 <= k < front.len() && front[k] == front.filter(keep)[i];
                assert(items[k] == front[k]);
            } else {
                assert(items[items.len() - 1] == items.filter(keep)[i]);
            }
        }
    }
}

/// A filter drops an item that was put in, or the item is put into what the
/// filter keeps.
proof fn lemma_put_in_filtered<K: Ranked, T>(
    items: Seq<T>,
    key: spec_fn(T) -> K::V,
    keep: spec_fn(T) -> bool,
    x: T,
)
    requires
        rises::<K, T>(items, key),
    ensures
        put_in::<K, T>(items, key, x).filter(keep) == if keep(x) {
            put_in::<K, T>(items.filter(keep), key, x)
        } else {
            items.filter(keep)
        },
    decreases items.len(),
{
    reveal(Seq::filter);
    let kept = items.filter(keep);
    if items.len() == 0 {
        assert(items.push(x).drop_last() =~= items);
    } else if K::precedes(key(items.last()), key(x)) {
        assert(items.push(x).drop_last() =~= items);
        if keep(x) && kept.len() > 0 {
            lemma_kept_is_there(items, keep);
            let last = kept[kept.len() - 1];
            let k = choose|k: int| 0 <= k < items.len() && items[k] == last;
            if k < items.len() - 1 {
                assert(K::precedes(key(items[k]), key(items[items.len() - 1])));
                K::transitive(key(last), key(items.last()), key(x));
            }
        }
    } else {
        let front = items.drop_last();
        lemma_put_in_filtered::<K, T>(front, key, keep, x);
        let inner = put_in::<K, T>(front, key, x);
        assert(inner.push(items.last()).drop_last() =~= inner);
        if keep(items.last()) {
            assert(kept =~= front.filter(keep).push(items.last()));
            assert(kept.drop_last() =~= front.filter(keep));
        } else if keep(x) {
            assert(kept == front.filter(keep));
        }
    }
}

/// Filtering items in stable order is ordering the filtered items.
pub proof fn filtering_keeps_the_order<K: Ranked, T>(
    items: Seq<T>,
    key: spec_fn(T) -> K::V,
    keep: spec_fn(T) -> bool,
)
    ensures
        sorted_by::<K, T>(items, key).filter(keep) == sorted_by::<K, T>(items.filter(keep), key),
    decreases items.len(),
{
    reveal(Seq::filter);
    if items.len() > 0 {
        let front = items.drop_last();
        filtering_keeps_the_order::<K, T>(front, key, keep);
        lemma_sorted_by_rises::<K, T>(front, key);
        lemma_put_in_filtered::<K, T>(sorted_by::<K, T>(front, key), key, keep, items.last());
        if keep(items.last()) {
            assert(items.filter(keep).drop_last() =~= front.filter(keep));
        }
    }
}

/// Putting in goes by keys alone.
proof fn lemma_put_in_mapped<K: Ranked, T>(
    items: Seq<T>,
    key: spec_fn(T) -> K::V,
    change: spec_fn(T) -> T,
    x: T,
)
    requires
        forall|y: T| key(#[trigger] change(y)) == key(y),
    ensures
        put_in::<K, T>(items, key, x).map_values(change) == put_in::<K, T>(
            items.map_values(change),
            key,
            change(x),
        ),
    decreases items.len(),
{
    let changed = items.map_values(change);
    if items.len() == 0 {
        assert(items.push(x).map_values(change) =~= changed.push(change(x)));
    } else {
        assert(changed.last() == change(items.last()));
        if K::precedes(key(items.last()), key(x)) {
            assert(items.push(x).map_values(change) =~= changed.push(change(x)));
        } else {
            let front = items.drop_last();
            lemma_put_in_mapped::<K, T>(front, key, change, x);
            assert(changed.drop_last() =~= front.map_values(change));
            assert(put_in::<K, T>(items, key, x).map_values(change) =~= put_in::<K, T>(
                front,
                key,
                x,
            ).map_values(change).push(changed.last()));
        }
    }
}

/// A change that keeps keys keeps the order.
pub proof fn order_goes_by_keys<K: Ranked, T>(
    items: Seq<T>,
    key: spec_fn(T) -> K::V,
    change: spec_fn(T) -> T,
)
    requires
        forall|y: T| key(#[trigger] change(y)) == key(y),
    ensures
        sorted_by::<K, T>(items, key).map_values(change) == sorted_by::<K, T>(
            items.map_values(change),
            key,
        ),
    decreases items.len(),
{
    let changed = items.map_values(change);
    if items.len() == 0 {
        assert(items.map_values(change) =~= items);
        assert(sorted_by::<K, T>(items, key).map_values(change) =~= items);
    } else {
        let front = items.drop_last();
        order_goes_by_keys::<K, T>(front, key, change);
        lemma_put_in_mapped::<K, T>(sorted_by::<K, T>(front, key), key, change, items.last());
        assert(changed.drop_last() =~= front.map_values(change));
        assert(changed.last() == change(items.last()));
    }
}

/// Putting an item in adds it and nothing else.
proof fn lemma_put_in_adds<K: Ranked, T>(items: Seq<T>, key: spec_fn(T) -> K::V, x: T)
    ensures
        put_in::<K, T>(items, key, x).to_multiset() == items.to_multiset().insert(x),
    decreases items.len(),
{
    broadcast use vstd::seq_lib::group_to_multiset_ensures;

    if items.len() == 0 || K::precedes(key(items.last()), key(x)) {
        assert(items.push(x).to_multiset() =~= items.to_multiset().insert(x));
    } else {
        let front = items.drop_last();
        lemma_put_in_adds::<K, T>(front, key, x);
        let inner = put_in::<K, T>(front, key, x);
        assert(front.push(items.last()) =~= items);
        assert(inner.push(items.last()).to_multiset() =~= inner.to_multiset().insert(
            items.last(),
        ));
        assert(items.to_multiset() =~= front.to_multiset().insert(items.last()));
        assert(inner.push(items.last()).to_multiset() =~= items.to_multiset().insert(x));
    }
}

/// Ordering keeps every item as often as it is there.
proof fn lemma_sorted_by_keeps<K: Ranked, T>(items: Seq<T>, key: spec_fn(T) -> K::V)
    ensures
        sorted_by::<K, T>(items, key).to_multiset() == items.to_multiset(),
    decreases items.len(),
{
    broadcast use vstd::seq_lib::group_to_multiset_ensures;

    if items.len() > 0 {
        let front = items.drop_last();
        lemma_sorted_by_keeps::<K, T>(front, key);
        lemma_put_in_adds::<K, T>(sorted_by::<K, T>(front, key), key, items.last());
        assert(front.push(items.last()) =~= items);
    }
}

/// Two lists of the same items whose keys never fall are the same, where keys tell
/// the items apart.
proof fn lemma_rising_is_unique<K: Ranked, T>(x: Seq<T>, y: Seq<T>, key: spec_fn(T) -> K::V)
    requires
        rises::<K, T>(x, key),
        rises::<K, T>(y, key),
        x.to_multiset() == y.to_multiset(),
        forall|a: T, b: T|
            x.contains(a) && x.contains(b) && #[trigger] K::precedes(key(a), key(b))
                && K::precedes(key(b), key(a)) ==> a == b,
    ensures
        x == y,
    decreases x.len(),
{
    x.to_multiset_ensures();
    y.to_multiset_ensures();
    assert(x.len() == y.len());
    if x.len() == 0 {
        assert(x =~= y);
    } else {
        let last = x.len() - 1;
        let a = x[last];
        let b = y[last];
        assert(x.contains(a) && y.contains(b));
        assert(y.to_multiset().count(a) > 0 && x.to_multiset().count(b) > 0);
        let i = choose|i: int| 0 <= i < x.len() && x[i] == b;
        let j = choose|j: int| 0 <= j < y.len() && y[j] == a;
        if i < last && j < last {
            assert(K::precedes(key(x[i]), key(x[last])));
            assert(K::precedes(key(y[j]), key(y[last])));
            assert(x.contains(x[i]));
        }
        assert(a == b);
        let front = x.drop_last();
        let other = y.drop_last();
        assert(x.remove(last) =~= front);
        assert(y.remove(last) =~= other);
        assert(front.to_multiset() =~= other.to_multiset());
        assert forall|c: T| front.contains(c) implies x.contains(c) by {
            let k = choose|k: int| 0 <= k < front.len() && front[k] == c;
            assert(x[k] == c);
        }
        lemma_rising_is_unique::<K, T>(front, other, key);
        assert(x =~= front.push(a));
        assert(y =~= other.push(b));
    }
}

/// The order in which items came does not matter where keys tell them apart.
pub proof fn order_ignores_input_order<K: Ranked, T>(
    a: Seq<T>,
    b: Seq<T>,
    key: spec_fn(T) -> K::V,
)
    requires
        a.to_multiset() == b.to_multiset(),
        forall|x: T, y: T|
            a.contains(x) && a.contains(y) && #[trigger] K::precedes(key(x), key(y))
                && K::precedes(key(y), key(x)) ==> x == y,
    ensures
        sorted_by::<K, T>(a, key) == sorted_by::<K, T>(b, key),
{
    let left = sorted_by::<K, T>(a, key);
    let right = sorted_by::<K, T>(b, key);
    lemma_sorted_by_keeps::<K, T>(a, key);
    lemma_sorted_by_keeps::<K, T>(b, key);
    lemma_sorted_by_rises::<K, T>(a, key);
    lemma_sorted_by_rises::<K, T>(b, key);
    left.to_multiset_ensures();
    a.to_multiset_ensures();
    assert forall|x: T, y: T|
        left.contains(x) && left.contains(y) && #[trigger] K::precedes(key(x), key(y))
            && K::precedes(key(y), key(x)) implies x == y by {
        assert(a.to_multiset().count(x) > 0 && a.to_multiset().count(y) > 0);
        assert(a.contains(x) && a.contains(y));
    }
    lemma_rising_is_unique::<K, T>(left, right, key);
}

/// Ordering keeps the number of items.
pub proof fn lemma_sorted_by_len<K: Ranked, T>(items: Seq<T>, key: spec_fn(T) -> K::V)
    ensures
        sorted_by::<K, T>(items, key).len() == items.len(),
    decreases items.len(),
{
    if items.len() > 0 {
        lemma_sorted_by_len::<K, T>(items.drop_last(), key);
        lemma_put_in_len::<K, T>(sorted_by::<K, T>(items.drop_last(), key), key, items.last());
    }
}

proof fn lemma_put_in_len<K: Ranked, T>(items: Seq<T>, key: spec_fn(T) -> K::V, x: T)
    ensures
        put_in::<K, T>(items, key, x).len() == items.len() + 1,
    decreases items.len(),
{
    if items.len() > 0 && !K::precedes(key(items.last()), key(x)) {
        lemma_put_in_len::<K, T>(items.drop_last(), key, x);
    }
}

} // verus!
