//! Lists as sequences: removing, moving to the front, and keeping each item once.

use vstd::prelude::*;

verus! {

/// A list without an item.
pub open spec fn without<T>(items: Seq<T>, item: T) -> Seq<T> {
    items.filter(|other: T| other != item)
}

/// A list with an item moved to the front.
pub open spec fn fronted<T>(items: Seq<T>, item: T) -> Seq<T> {
    seq![item] + without(items, item)
}

/// The first items of a list, at most `limit` of them.
pub open spec fn at_most_first<T>(items: Seq<T>, limit: nat) -> Seq<T> {
    if items.len() <= limit {
        items
    } else {
        items.take(limit as int)
    }
}

/// The items of a list, each where it first stands.
pub open spec fn distinct<T>(items: Seq<T>) -> Seq<T>
    decreases items.len(),
{
    if items.len() == 0 {
        Seq::empty()
    } else {
        let front = distinct(items.drop_last());
        if front.contains(items.last()) {
            front
        } else {
            front.push(items.last())
        }
    }
}

/// Removing an item leaves the others, in order, and not the item.
pub proof fn lemma_without<T>(items: Seq<T>, item: T)
    ensures
        !without(items, item).contains(item),
        forall|other: T|
            #[trigger] without(items, item).contains(other) <==> items.contains(other) && other
                != item,
        items.no_duplicates() ==> without(items, item).no_duplicates(),
        without(items, item).len() <= items.len(),
    decreases items.len(),
{
    reveal(Seq::filter);
    let rest = without(items, item);
    if items.len() > 0 {
        let front = items.drop_last();
        lemma_without(front, item);
        let front_rest = without(front, item);
        assert forall|other: T| #[trigger] rest.contains(other) <==> items.contains(other)
            && other != item by {
            if rest.contains(other) {
                let i = choose|i: int| 0 <= i < rest.len() && rest[i] == other;
                if i < front_rest.len() {
                    assert(front_rest[i] == other);
                    assert(front_rest.contains(other));
                    let k = choose|k: int| 0 <= k < front.len() && front[k] == other;
                    assert(items[k] == other);
                } else {
                    assert(items[items.len() - 1] == other);
                }
            }
            if items.contains(other) && other != item {
                let k = choose|k: int| 0 <= k < items.len() && items[k] == other;
                if k < front.len() {
                    assert(front[k] == other);
                    assert(front_rest.contains(other));
                    let i = choose|i: int| 0 <= i < front_rest.len() && front_rest[i] == other;
                    assert(rest[i] == other);
                } else {
                    assert(rest[rest.len() - 1] == other);
                }
            }
        }
        if items.no_duplicates() {
            assert(front.no_duplicates());
            assert forall|i: int, j: int|
                0 <= i < rest.len() && 0 <= j < rest.len() && i != j implies rest[i] != rest[j] by {
                if i < front_rest.len() {
                    assert(front_rest.contains(front_rest[i]));
                }
                if j < front_rest.len() {
                    assert(front_rest.contains(front_rest[j]));
                }
            }
        }
    }
}

/// Removing an item from distinct ones takes at most one.
pub proof fn lemma_without_takes_one<T>(items: Seq<T>, item: T)
    requires
        items.no_duplicates(),
    ensures
        without(items, item).len() + 1 >= items.len(),
    decreases items.len(),
{
    reveal(Seq::filter);
    if items.len() > 0 {
        let front = items.drop_last();
        if items.last() == item {
            assert(!front.contains(item)) by {
                if front.contains(item) {
                    let k = choose|k: int| 0 <= k < front.len() && front[k] == item;
                    assert(items[k] == items[items.len() - 1]);
                }
            }
            lemma_without_absent(front, item);
        } else {
            assert(front.no_duplicates());
            lemma_without_takes_one(front, item);
        }
    }
}

/// Removing an item that is not there changes nothing.
pub proof fn lemma_without_absent<T>(items: Seq<T>, item: T)
    requires
        !items.contains(item),
    ensures
        without(items, item) == items,
    decreases items.len(),
{
    reveal(Seq::filter);
    if items.len() > 0 {
        let front = items.drop_last();
        assert forall|i: int| 0 <= i < front.len() implies front[i] != item by {
            assert(items.contains(items[i]));
        }
        assert(items.contains(items[items.len() - 1]));
        lemma_without_absent(front, item);
        assert(front.push(items.last()) =~= items);
    } else {
        assert(without(items, item) =~= items);
    }
}

/// Filtering twice is filtering once.
pub proof fn lemma_filter_again<T>(items: Seq<T>, keep: spec_fn(T) -> bool)
    ensures
        items.filter(keep).filter(keep) == items.filter(keep),
    decreases items.len(),
{
    reveal(Seq::filter);
    if items.len() > 0 {
        let front = items.drop_last();
        lemma_filter_again(front, keep);
        if keep(items.last()) {
            assert(front.filter(keep).push(items.last()).drop_last() =~= front.filter(keep));
        }
    }
}

/// Filters that keep the same keep alike.
pub proof fn lemma_filter_alike<T>(
    items: Seq<T>,
    keep: spec_fn(T) -> bool,
    other: spec_fn(T) -> bool,
)
    requires
        forall|item: T| #[trigger] keep(item) == other(item),
    ensures
        items.filter(keep) == items.filter(other),
    decreases items.len(),
{
    reveal(Seq::filter);
    if items.len() > 0 {
        lemma_filter_alike(items.drop_last(), keep, other);
        assert(keep(items.last()) == other(items.last()));
    }
}

/// A list without an item is what a filter keeps that drops just this item.
pub proof fn lemma_without_is_filter<T>(items: Seq<T>, item: T, keep: spec_fn(T) -> bool)
    requires
        forall|other: T| #[trigger] keep(other) == (other != item),
    ensures
        without(items, item) == items.filter(keep),
{
    lemma_filter_alike(items, keep, |other: T| other != item);
}

/// Moving an item to the front leaves the others as they stand to each other.
pub proof fn lemma_fronted_others<T>(items: Seq<T>, item: T, keep: spec_fn(T) -> bool)
    requires
        forall|other: T| #[trigger] keep(other) == (other != item),
    ensures
        fronted(items, item).filter(keep) == items.filter(keep),
{
    reveal(Seq::filter);
    let rest = items.filter(keep);
    lemma_without_is_filter(items, item, keep);
    Seq::filter_distributes_over_add(seq![item], rest, keep);
    lemma_filter_again(items, keep);
    assert(seq![item].drop_last() =~= Seq::<T>::empty());
    assert(Seq::<T>::empty().filter(keep) =~= Seq::<T>::empty());
    assert(!keep(seq![item].last()));
    assert(seq![item].filter(keep) =~= Seq::empty());
    assert(Seq::<T>::empty() + rest =~= rest);
}

/// Of an item and others behind it, as far as there is room, a filter that drops
/// just this item keeps the others.
pub proof fn lemma_front_filtered<T>(
    rest: Seq<T>,
    item: T,
    limit: nat,
    keep: spec_fn(T) -> bool,
)
    requires
        limit > 0,
        forall|i: int| 0 <= i < rest.len() ==> #[trigger] rest[i] != item,
        forall|other: T| #[trigger] keep(other) == (other != item),
    ensures
        at_most_first(seq![item] + rest, limit).filter(keep) == at_most_first(
            rest,
            (limit - 1) as nat,
        ),
{
    reveal(Seq::filter);
    let front = at_most_first(rest, (limit - 1) as nat);
    assert(at_most_first(seq![item] + rest, limit) =~= seq![item] + front);
    Seq::filter_distributes_over_add(seq![item], front, keep);
    assert(seq![item].drop_last() =~= Seq::<T>::empty());
    assert(Seq::<T>::empty().filter(keep) =~= Seq::<T>::empty());
    assert(!keep(seq![item].last()));
    assert(seq![item].filter(keep) =~= Seq::empty());
    assert forall|i: int| 0 <= i < front.len() implies #[trigger] front[i] != item by {
        assert(front[i] == rest[i]);
    }
    lemma_without_absent(front, item);
    lemma_without_is_filter(front, item, keep);
    assert(Seq::<T>::empty() + front =~= front);
}

/// Filtering leaves no more than there was; and all of it when nothing goes.
pub proof fn lemma_filter_all<T>(items: Seq<T>, keep: spec_fn(T) -> bool)
    ensures
        items.filter(keep).len() <= items.len(),
        items.filter(keep).len() == items.len() <==> items.filter(keep) == items,
    decreases items.len(),
{
    reveal(Seq::filter);
    if items.len() > 0 {
        lemma_filter_all(items.drop_last(), keep);
        if items.filter(keep).len() == items.len() {
            assert(keep(items.last()));
            assert(items.filter(keep) =~= items);
        }
    }
}

/// Distinct items are distinct, and only items.
pub proof fn lemma_distinct<T>(items: Seq<T>)
    ensures
        distinct(items).no_duplicates(),
        distinct(items).len() <= items.len(),
        forall|item: T|
            #[trigger] distinct(items).contains(item) <==> items.contains(item),
    decreases items.len(),
{
    if items.len() > 0 {
        let front = items.drop_last();
        lemma_distinct(front);
        let found = distinct(items);
        let front_found = distinct(front);
        assert forall|item: T| #[trigger] found.contains(item) <==> items.contains(
            item,
        ) by {
            if found.contains(item) {
                let i = choose|i: int| 0 <= i < found.len() && found[i] == item;
                if i < front_found.len() {
                    assert(front_found[i] == item);
                    assert(front_found.contains(item));
                    let k = choose|k: int| 0 <= k < front.len() && front[k] == item;
                    assert(items[k] == item);
                } else {
                    assert(items[items.len() - 1] == item);
                }
            }
            if items.contains(item) {
                let k = choose|k: int| 0 <= k < items.len() && items[k] == item;
                if k < front.len() {
                    assert(front[k] == item);
                    assert(front_found.contains(item));
                    let i = choose|i: int| 0 <= i < front_found.len() && front_found[i] == item;
                    assert(found[i] == item);
                } else if !front_found.contains(item) {
                    assert(found[found.len() - 1] == item);
                } else {
                    let i = choose|i: int| 0 <= i < front_found.len() && front_found[i] == item;
                    assert(found[i] == item);
                }
            }
        }
    }
}

/// More items never change the distinct ones found before.
pub proof fn lemma_distinct_grows<T>(items: Seq<T>, n: int)
    requires
        0 <= n <= items.len(),
    ensures
        distinct(items.take(n)).len() <= distinct(items).len(),
        distinct(items).take(distinct(items.take(n)).len() as int) == distinct(items.take(n)),
    decreases items.len(),
{
    if n == items.len() {
        assert(items.take(n) =~= items);
        assert(distinct(items).take(distinct(items).len() as int) =~= distinct(items));
    } else {
        let front = items.drop_last();
        lemma_distinct_grows(front, n);
        assert(front.take(n) =~= items.take(n));
        let count = distinct(items.take(n)).len() as int;
        assert(distinct(items).take(count) =~= distinct(front).take(count));
    }
}

} // verus!
