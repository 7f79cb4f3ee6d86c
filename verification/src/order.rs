//! Stable ordering.
//!
//! Lists are ordered by computing the positions of their items in the new
//! order. Items that compare equal keep the order in which they came.

use vstd::prelude::*;
use crate::text;

verus! {

/// A key by which items are ordered. `precedes(a, b)` says that `a` may stand
/// before `b`; it is total and transitive, and two keys that precede each other
/// compare equal.
pub trait Ranked: View + Sized {
    /// Whether the first key may stand before the second.
    spec fn precedes(a: Self::V, b: Self::V) -> bool;

    /// Of two keys one may stand before the other.
    proof fn total(a: Self::V, b: Self::V)
        ensures
            Self::precedes(a, b) || Self::precedes(b, a),
    ;

    /// Order carries over.
    proof fn transitive(a: Self::V, b: Self::V, c: Self::V)
        requires
            Self::precedes(a, b),
            Self::precedes(b, c),
        ensures
            Self::precedes(a, c),
    ;

    /// Decide whether this key may stand before another.
    fn may_precede(&self, other: &Self) -> (before: bool)
        ensures
            before == Self::precedes(self@, other@),
    ;
}

/// Positions `order` with position `x` put in: after every position whose key
/// may stand before the key at `x`, counted from the end.
pub open spec fn inserted<K: Ranked>(keys: Seq<K::V>, order: Seq<int>, x: int) -> Seq<int>
    decreases order.len(),
{
    if order.len() == 0 || K::precedes(keys[order.last()], keys[x]) {
        order.push(x)
    } else {
        inserted::<K>(keys, order.drop_last(), x).push(order.last())
    }
}

/// The positions of the first `n` keys in stable order.
pub open spec fn ordered_prefix<K: Ranked>(keys: Seq<K::V>, n: nat) -> Seq<int>
    decreases n,
{
    if n == 0 {
        Seq::empty()
    } else {
        inserted::<K>(keys, ordered_prefix::<K>(keys, (n - 1) as nat), n - 1)
    }
}

/// The positions of all keys in stable order.
pub open spec fn ordered<K: Ranked>(keys: Seq<K::V>) -> Seq<int> {
    ordered_prefix::<K>(keys, keys.len())
}

/// Whether `order` holds each position below `n` exactly once.
pub open spec fn is_permutation(order: Seq<int>, n: nat) -> bool {
    &&& order.len() == n
    &&& order.no_duplicates()
    &&& forall|i: int| 0 <= i < order.len() ==> 0 <= #[trigger] order[i] < n
}

/// Whether the keys at positions `order` never fall, and equal keys keep the
/// order of their positions.
pub open spec fn is_stably_sorted<K: Ranked>(keys: Seq<K::V>, order: Seq<int>) -> bool {
    &&& forall|i: int, j: int|
        #![trigger order[i], order[j]]
        0 <= i < j < order.len() ==> K::precedes(keys[order[i]], keys[order[j]])
    &&& forall|i: int, j: int|
        #![trigger order[i], order[j]]
        0 <= i < j < order.len() && K::precedes(keys[order[j]], keys[order[i]]) ==> order[i]
            < order[j]
}

/// Putting in a position that comes after all others keeps the order a stable
/// one.
proof fn lemma_inserted<K: Ranked>(keys: Seq<K::V>, order: Seq<int>, x: int)
    requires
        is_stably_sorted::<K>(keys, order),
        order.no_duplicates(),
        forall|i: int| 0 <= i < order.len() ==> 0 <= #[trigger] order[i] < x,
    ensures
        inserted::<K>(keys, order, x).len() == order.len() + 1,
        inserted::<K>(keys, order, x).no_duplicates(),
        is_stably_sorted::<K>(keys, inserted::<K>(keys, order, x)),
        forall|i: int|
            0 <= i < order.len() + 1 ==> {
                let p = #[trigger] inserted::<K>(keys, order, x)[i];
                p == x || order.contains(p)
            },
    decreases order.len(),
{
    let result = inserted::<K>(keys, order, x);
    if order.len() == 0 {
    } else if K::precedes(keys[order.last()], keys[x]) {
        assert forall|i: int, j: int|
            #![trigger result[i], result[j]]
            0 <= i < j < result.len() implies K::precedes(keys[result[i]], keys[result[j]]) by {
            if j == order.len() && i < order.len() - 1 {
                assert(order[i] == result[i]);
                K::transitive(keys[order[i]], keys[order[order.len() - 1]], keys[x]);
            }
        }
        assert forall|i: int| 0 <= i < result.len() implies {
            let p = #[trigger] result[i];
            p == x || order.contains(p)
        } by {
            if i < order.len() {
                assert(order[i] == result[i]);
            }
        }
    } else {
        let front = order.drop_last();
        assert forall|i: int| 0 <= i < front.len() implies 0 <= #[trigger] front[i] < x by {
            assert(front[i] == order[i]);
        }
        lemma_inserted::<K>(keys, front, x);
        let inner = inserted::<K>(keys, front, x);
        let last = order.last();
        K::total(keys[last], keys[x]);
        assert forall|i: int| 0 <= i < inner.len() implies {
            &&& K::precedes(keys[#[trigger] inner[i]], keys[last])
            &&& K::precedes(keys[last], keys[inner[i]]) ==> inner[i] < last
            &&& inner[i] != last
        } by {
            if inner[i] != x {
                assert(front.contains(inner[i]));
                let k = choose|k: int| 0 <= k < front.len() && front[k] == inner[i];
                assert(order[k] == front[k]);
                assert(order[order.len() - 1] == last);
            }
        }
        assert forall|i: int| 0 <= i < result.len() implies {
            let p = #[trigger] result[i];
            p == x || order.contains(p)
        } by {
            if i < inner.len() {
                assert(inner[i] == result[i]);
                if inner[i] != x {
                    let k = choose|k: int| 0 <= k < front.len() && front[k] == inner[i];
                    assert(order[k] == front[k]);
                }
            } else {
                assert(order[order.len() - 1] == last);
            }
        }
    }
}

pub proof fn lemma_ordered_prefix<K: Ranked>(keys: Seq<K::V>, n: nat)
    ensures
        is_permutation(ordered_prefix::<K>(keys, n), n),
        is_stably_sorted::<K>(keys, ordered_prefix::<K>(keys, n)),
    decreases n,
{
    if n > 0 {
        let order = ordered_prefix::<K>(keys, (n - 1) as nat);
        lemma_ordered_prefix::<K>(keys, (n - 1) as nat);
        lemma_inserted::<K>(keys, order, n - 1);
        let result = ordered_prefix::<K>(keys, n);
        assert forall|i: int| 0 <= i < result.len() implies 0 <= #[trigger] result[i] < n by {
            if result[i] != n - 1 {
                assert(order.contains(result[i]));
            }
        }
    }
}

/// Ordering loses nothing and invents nothing, the keys never fall along it,
/// and keys that compare equal keep the order in which they came.
pub proof fn ordering_is_a_stable_sort<K: Ranked>(keys: Seq<K::V>)
    ensures
        is_permutation(ordered::<K>(keys), keys.len()),
        is_stably_sorted::<K>(keys, ordered::<K>(keys)),
{
    lemma_ordered_prefix::<K>(keys, keys.len());
}

/// Positions as integers.
pub open spec fn positions(order: Seq<usize>) -> Seq<int> {
    Seq::new(order.len(), |i: int| order[i] as int)
}

/// The front and the back of an order around the place where a position goes.
proof fn lemma_inserted_at<K: Ranked>(keys: Seq<K::V>, order: Seq<int>, x: int, at: int)
    requires
        0 <= at <= order.len(),
        forall|i: int|
            at <= i < order.len() ==> !K::precedes(keys[#[trigger] order[i]], keys[x]),
        at > 0 ==> K::precedes(keys[order[at - 1]], keys[x]),
    ensures
        inserted::<K>(keys, order, x) == order.insert(at, x),
    decreases order.len(),
{
    if at == order.len() {
        assert(order.insert(at, x) =~= order.push(x));
    } else {
        assert(order[order.len() - 1] == order.last());
        assert forall|i: int| at <= i < order.drop_last().len() implies !K::precedes(
            keys[#[trigger] order.drop_last()[i]],
            keys[x],
        ) by {
            assert(order.drop_last()[i] == order[i]);
        }
        lemma_inserted_at::<K>(keys, order.drop_last(), x, at);
        assert(order.insert(at, x) =~= order.drop_last().insert(at, x).push(order.last()));
    }
}

/// The positions of the keys in stable order.
pub fn stable_order<K: Ranked>(keys: &Vec<K>) -> (order: Vec<usize>)
    ensures
        positions(order@) == ordered::<K>(text::views(keys@)),
        is_permutation(positions(order@), keys@.len()),
{
    let ghost all = text::views(keys@);
    let mut order: Vec<usize> = Vec::new();
    let mut n: usize = 0;
    assert(positions(order@) =~= ordered_prefix::<K>(all, 0));
    while n < keys.len()
        invariant
            n <= keys@.len(),
            order@.len() == n,
            all == text::views(keys@),
            positions(order@) == ordered_prefix::<K>(all, n as nat),
            forall|i: int| 0 <= i < order@.len() ==> #[trigger] order@[i] < n,
        decreases keys@.len() - n,
    {
        let mut at: usize = order.len();
        while at > 0 && !keys[order[at - 1]].may_precede(&keys[n])
            invariant
                n < keys@.len(),
                order@.len() == n,
                at <= order@.len(),
                all == text::views(keys@),
                forall|i: int| 0 <= i < order@.len() ==> #[trigger] order@[i] < n,
                forall|i: int|
                    at <= i < positions(order@).len() ==> !K::precedes(
                        all[#[trigger] positions(order@)[i]],
                        all[n as int],
                    ),
            decreases at,
        {
            at -= 1;
        }
        let ghost before = order@;
        proof {
            lemma_inserted_at::<K>(all, positions(before), n as int, at as int);
        }
        order.insert(at, n);
        assert(positions(order@) =~= positions(before).insert(at as int, n as int));
        n += 1;
    }
    proof {
        ordering_is_a_stable_sort::<K>(all);
    }
    order
}

/// The items at the given positions.
pub open spec fn arranged<T>(items: Seq<T>, order: Seq<int>) -> Seq<T> {
    Seq::new(order.len(), |i: int| items[order[i]])
}

/// A text as a key: the order of texts.
pub struct TextKey {
    /// The text.
    pub text: String,
}

impl View for TextKey {
    type V = Seq<char>;

    open spec fn view(&self) -> Seq<char> {
        self.text@
    }
}

impl Ranked for TextKey {
    open spec fn precedes(a: Seq<char>, b: Seq<char>) -> bool {
        text::at_most(a, b)
    }

    proof fn total(a: Seq<char>, b: Seq<char>) {
        text::lemma_at_most_total(a, b);
    }

    proof fn transitive(a: Seq<char>, b: Seq<char>, c: Seq<char>) {
        text::lemma_at_most_transitive(a, b, c);
    }

    fn may_precede(&self, other: &Self) -> (before: bool) {
        text::not_after(self.text.as_str(), other.text.as_str())
    }
}

} // verus!
