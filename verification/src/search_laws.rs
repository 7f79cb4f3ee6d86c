//! What holds of every search in the picker.

use vstd::prelude::*;
use crate::fuzzy;
use crate::model::RowModel;
use crate::order;
use crate::order::Ranked;
use crate::search;
use crate::search::{Group, GroupModel, Hit};
use crate::text;

verus! {

/// A row is found through one of its fields alone: it matches exactly when some
/// single field does.
pub proof fn matches_never_cross_fields(query: Seq<char>, fields: Seq<Seq<char>>)
    ensures
        search::best_score(query, fields) is Some <==> exists|i: int|
            0 <= i < fields.len() && fuzzy::field_score(query, #[trigger] fields[i]) is Some,
    decreases fields.len(),
{
    if fields.len() > 0 {
        let front = fields.drop_last();
        matches_never_cross_fields(query, front);
        if exists|i: int|
            0 <= i < fields.len() && fuzzy::field_score(query, #[trigger] fields[i]) is Some {
            let i = choose|i: int|
                0 <= i < fields.len() && fuzzy::field_score(query, #[trigger] fields[i]) is Some;
            if i < front.len() {
                assert(front[i] == fields[i]);
            } else {
                assert(fields[i] == fields.last());
            }
        }
        if search::best_score(query, front) is Some {
            let i = choose|i: int|
                0 <= i < front.len() && fuzzy::field_score(query, #[trigger] front[i]) is Some;
            assert(fields[i] == front[i]);
        }
        if fuzzy::field_score(query, fields.last()) is Some {
            assert(fields[fields.len() - 1] == fields.last());
        }
    }
}

/// No field of a row has a better score than the row.
pub proof fn best_field_counts(query: Seq<char>, fields: Seq<Seq<char>>, i: int)
    requires
        0 <= i < fields.len(),
        fuzzy::field_score(query, fields[i]) is Some,
    ensures
        search::best_score(query, fields) is Some,
        fuzzy::field_score(query, fields[i])->0 <= search::best_score(query, fields)->0,
    decreases fields.len(),
{
    let front = fields.drop_last();
    if i < front.len() {
        assert(front[i] == fields[i]);
        best_field_counts(query, front, i);
    } else {
        assert(fields[i] == fields.last());
    }
}

/// What the hits of a section are.
pub proof fn lemma_hits(rows: Seq<RowModel>, query: Seq<char>, section: u8, n: nat)
    requires
        n <= rows.len(),
        rows.len() <= usize::MAX,
    ensures
        forall|i: int|
            0 <= i < search::hits(rows, query, section, n).len() ==> {
                let hit = #[trigger] search::hits(rows, query, section, n)[i];
                &&& hit.index < n
                &&& rows[hit.index as int].kind.section() == section
                &&& search::row_score(query, rows[hit.index as int]) == Some(hit.score)
            },
        forall|i: int, j: int|
            0 <= i < j < search::hits(rows, query, section, n).len() ==> (#[trigger] search::hits(
                rows,
                query,
                section,
                n,
            )[i]).index < (#[trigger] search::hits(rows, query, section, n)[j]).index,
        forall|k: int|
            0 <= k < n && (#[trigger] rows[k]).kind.section() == section && search::row_score(
                query,
                rows[k],
            ) is Some ==> search::places_of(search::hits(rows, query, section, n)).contains(k),
    decreases n,
{
    if n > 0 {
        let m = (n - 1) as nat;
        lemma_hits(rows, query, section, m);
        let before = search::hits(rows, query, section, m);
        let after = search::hits(rows, query, section, n);
        assert forall|k: int|
            0 <= k < n && (#[trigger] rows[k]).kind.section() == section && search::row_score(
                query,
                rows[k],
            ) is Some implies search::places_of(after).contains(k) by {
            if k < m {
                let places = search::places_of(before);
                assert(places.contains(k));
                let i = choose|i: int| 0 <= i < places.len() && places[i] == k;
                assert(search::places_of(after)[i] == k);
            } else {
                assert(search::places_of(after)[after.len() - 1] == k);
            }
        }
    }
}

/// Multisets of joined sequences.
proof fn lemma_joined<T>(a: Seq<T>, b: Seq<T>)
    ensures
        (a + b).to_multiset() == a.to_multiset().add(b.to_multiset()),
{
    vstd::seq_lib::lemma_multiset_commutative(a, b);
}

/// Putting in a position adds its item, and nothing else.
proof fn lemma_inserted_items<K: Ranked, T>(
    keys: Seq<K::V>,
    items: Seq<T>,
    places: Seq<int>,
    x: int,
)
    ensures
        order::arranged(items, order::inserted::<K>(keys, places, x)).to_multiset()
            == order::arranged(items, places).to_multiset().insert(items[x]),
    decreases places.len(),
{
    broadcast use vstd::seq_lib::group_to_multiset_ensures;

    let after = order::inserted::<K>(keys, places, x);
    if places.len() == 0 || K::precedes(keys[places.last()], keys[x]) {
        assert(order::arranged(items, after) =~= order::arranged(items, places).push(items[x]));
    } else {
        let front = places.drop_last();
        let inner = order::inserted::<K>(keys, front, x);
        lemma_inserted_items::<K, T>(keys, items, front, x);
        assert(order::arranged(items, after) =~= order::arranged(items, inner).push(
            items[places.last()],
        ));
        assert(order::arranged(items, places) =~= order::arranged(items, front).push(
            items[places.last()],
        ));
        assert(order::arranged(items, after).to_multiset() =~= order::arranged(
            items,
            places,
        ).to_multiset().insert(items[x]));
    }
}

/// Ordering keeps the items, as often as they occur.
proof fn lemma_ordered_items<K: Ranked, T>(keys: Seq<K::V>, items: Seq<T>, n: nat)
    requires
        n <= items.len(),
    ensures
        order::arranged(items, order::ordered_prefix::<K>(keys, n)).to_multiset() == items.take(
            n as int,
        ).to_multiset(),
    decreases n,
{
    broadcast use vstd::seq_lib::group_to_multiset_ensures;

    if n > 0 {
        let m = (n - 1) as nat;
        lemma_ordered_items::<K, T>(keys, items, m);
        lemma_inserted_items::<K, T>(keys, items, order::ordered_prefix::<K>(keys, m), n - 1);
        assert(items.take(n as int) =~= items.take(n - 1).push(items[n - 1]));
    } else {
        assert(order::arranged(items, order::ordered_prefix::<K>(keys, 0)) =~= items.take(0));
    }
}

/// Putting in a group adds its members.
proof fn lemma_inserted_members(groups: Seq<GroupModel>, places: Seq<int>, x: int)
    ensures
        search::flat(
            order::arranged(groups, order::inserted::<Group>(groups, places, x)),
        ).to_multiset() == search::flat(order::arranged(groups, places)).to_multiset().add(
            groups[x].members.to_multiset(),
        ),
    decreases places.len(),
{
    let after = order::inserted::<Group>(groups, places, x);
    let all = order::arranged(groups, after);
    let given = order::arranged(groups, places);
    if places.len() == 0 || Group::precedes(groups[places.last()], groups[x]) {
        assert(all.drop_last() =~= given);
        assert(all.last() == groups[x]);
        lemma_joined(search::flat(given), groups[x].members);
    } else {
        let front = places.drop_last();
        let inner = order::inserted::<Group>(groups, front, x);
        let last = groups[places.last()];
        lemma_inserted_members(groups, front, x);
        assert(all.drop_last() =~= order::arranged(groups, inner));
        assert(all.last() == last);
        assert(given.drop_last() =~= order::arranged(groups, front));
        assert(given.last() == last);
        lemma_joined(search::flat(order::arranged(groups, inner)), last.members);
        lemma_joined(search::flat(order::arranged(groups, front)), last.members);
        assert(search::flat(all).to_multiset() =~= search::flat(given).to_multiset().add(
            groups[x].members.to_multiset(),
        ));
    }
}

/// Ordering groups keeps their members.
proof fn lemma_ordered_members(groups: Seq<GroupModel>, n: nat)
    requires
        n <= groups.len(),
    ensures
        search::flat(
            order::arranged(groups, order::ordered_prefix::<Group>(groups, n)),
        ).to_multiset() == search::flat(groups.take(n as int)).to_multiset(),
    decreases n,
{
    if n > 0 {
        let m = (n - 1) as nat;
        lemma_ordered_members(groups, m);
        lemma_inserted_members(groups, order::ordered_prefix::<Group>(groups, m), n - 1);
        assert(groups.take(n as int).drop_last() =~= groups.take(n - 1));
        assert(groups.take(n as int).last() == groups[n - 1]);
        lemma_joined(search::flat(groups.take(n - 1)), groups[n - 1].members);
    } else {
        assert(order::arranged(groups, order::ordered_prefix::<Group>(groups, 0)) =~= groups.take(
            0,
        ));
    }
}

/// One more member in one group is one more member in all.
proof fn lemma_member_added(groups: Seq<GroupModel>, g: int, changed: GroupModel, place: int)
    requires
        0 <= g < groups.len(),
        changed.members == groups[g].members.push(place),
    ensures
        search::flat(groups.update(g, changed)).to_multiset() == search::flat(
            groups,
        ).to_multiset().insert(place),
    decreases groups.len(),
{
    broadcast use vstd::seq_lib::group_to_multiset_ensures;

    let after = groups.update(g, changed);
    let front = groups.drop_last();
    let last = groups.last();
    if g == groups.len() - 1 {
        assert(after.drop_last() =~= front);
        assert(search::flat(after) =~= search::flat(groups).push(place));
    } else {
        lemma_member_added(front, g, changed, place);
        assert(after.drop_last() =~= front.update(g, changed));
        assert(after.last() == last);
        lemma_joined(search::flat(front.update(g, changed)), last.members);
        lemma_joined(search::flat(front), last.members);
        assert(search::flat(after).to_multiset() =~= search::flat(groups).to_multiset().insert(
            place,
        ));
    }
}

/// Grouping keeps the places.
proof fn lemma_groups_keep_places(rows: Seq<RowModel>, places: Seq<int>, n: nat)
    requires
        n <= places.len(),
    ensures
        search::flat(search::groups_of(rows, places, n)).to_multiset() == places.take(
            n as int,
        ).to_multiset(),
    decreases n,
{
    broadcast use vstd::seq_lib::group_to_multiset_ensures;

    if n > 0 {
        let m = (n - 1) as nat;
        let before = search::groups_of(rows, places, m);
        let after = search::groups_of(rows, places, n);
        let place = places[n - 1];
        let key = search::group_key(rows[place]);
        lemma_groups_keep_places(rows, places, m);
        assert(places.take(n as int) =~= places.take(n - 1).push(place));
        text::position_is_the_first(search::keys_of(before), key);
        if key is Some && text::position(search::keys_of(before), key) is Some {
            let g = text::position(search::keys_of(before), key)->0;
            lemma_member_added(
                before,
                g,
                GroupModel { key, members: before[g].members.push(place) },
                place,
            );
        } else {
            let own = GroupModel { key, members: seq![place] };
            assert(after =~= before.push(own));
            assert(after.drop_last() =~= before);
            assert(search::flat(after) =~= search::flat(before).push(place));
        }
    } else {
        assert(search::flat(search::groups_of(rows, places, 0)) =~= places.take(0));
    }
}

/// Grouping shows every place, as often as it was given.
pub proof fn grouping_keeps_every_place(rows: Seq<RowModel>, places: Seq<int>, alphabetical: bool)
    ensures
        search::grouped(rows, places, alphabetical).to_multiset() == places.to_multiset(),
{
    let groups = search::groups_of(rows, places, places.len());
    lemma_groups_keep_places(rows, places, places.len());
    assert(places.take(places.len() as int) =~= places);
    lemma_ordered_members(groups, groups.len());
    assert(groups.take(groups.len() as int) =~= groups);
}

/// Sequences with the same multiset hold the same items, and repeat none if the
/// other repeats none.
proof fn lemma_same_items<T>(a: Seq<T>, b: Seq<T>)
    requires
        a.to_multiset() == b.to_multiset(),
        b.no_duplicates(),
    ensures
        a.no_duplicates(),
        forall|x: T| #[trigger] a.contains(x) <==> b.contains(x),
{
    broadcast use vstd::seq_lib::group_to_multiset_ensures;

    b.lemma_multiset_has_no_duplicates();
    a.lemma_multiset_has_no_duplicates_conv();
    assert forall|x: T| #[trigger] a.contains(x) <==> b.contains(x) by {
        assert(a.contains(x) <==> a.to_multiset().count(x) > 0);
        assert(b.contains(x) <==> b.to_multiset().count(x) > 0);
    }
}

/// A section shows each of its matching rows once, and nothing else.
pub proof fn lemma_section_places(rows: Seq<RowModel>, query: Seq<char>, section: u8)
    requires
        rows.len() <= usize::MAX,
    ensures
        search::section_places(rows, query, section).no_duplicates(),
        forall|k: int|
            #[trigger] search::section_places(rows, query, section).contains(k) <==> 0 <= k
                < rows.len() && rows[k].kind.section() == section && search::row_score(
                query,
                rows[k],
            ) is Some,
{
    broadcast use vstd::seq_lib::group_to_multiset_ensures;

    let found = search::hits(rows, query, section, rows.len());
    let listed = search::places_of(found);
    lemma_hits(rows, query, section, rows.len());
    assert(listed.no_duplicates()) by {
        assert forall|i: int, j: int|
            0 <= i < listed.len() && 0 <= j < listed.len() && i != j implies listed[i]
            != listed[j] by {
            if i < j {
                assert(found[i].index < found[j].index);
            } else {
                assert(found[j].index < found[i].index);
            }
        }
    }
    assert forall|k: int| #[trigger] listed.contains(k) <==> 0 <= k < rows.len()
        && rows[k].kind.section() == section && search::row_score(query, rows[k]) is Some by {
        if listed.contains(k) {
            let i = choose|i: int| 0 <= i < listed.len() && listed[i] == k;
            assert(found[i].index == k);
        }
    }
    let ranked = search::ranked_places(found);
    let order_of = order::ordered::<Hit>(found);
    lemma_ordered_items::<Hit, int>(found, listed, found.len());
    order::ordering_is_a_stable_sort::<Hit>(found);
    assert(listed.take(found.len() as int) =~= listed);
    assert(ranked =~= order::arranged(listed, order_of));
    let places = if query.len() == 0 {
        listed
    } else {
        ranked
    };
    assert(places.to_multiset() == listed.to_multiset());
    grouping_keeps_every_place(rows, places, query.len() == 0);
    let shown = search::section_places(rows, query, section);
    assert(shown.to_multiset() == listed.to_multiset());
    lemma_same_items(shown, listed);
}

/// A search shows each matching row once, and nothing else. Without a query it
/// shows every row.
pub proof fn search_shows_each_match_once(rows: Seq<RowModel>, query: Seq<char>)
    requires
        rows.len() <= usize::MAX,
    ensures
        search::filtered(rows, query).no_duplicates(),
        forall|k: int|
            #[trigger] search::filtered(rows, query).contains(k) <==> 0 <= k < rows.len()
                && search::row_score(query, rows[k]) is Some,
{
    let a = search::section_places(rows, query, 0);
    let b = search::section_places(rows, query, 1);
    let c = search::section_places(rows, query, 2);
    let d = search::section_places(rows, query, 3);
    lemma_section_places(rows, query, 0);
    lemma_section_places(rows, query, 1);
    lemma_section_places(rows, query, 2);
    lemma_section_places(rows, query, 3);
    let all = search::filtered(rows, query);
    let section_at = |i: int|
        if i < a.len() {
            0int
        } else if i < a.len() + b.len() {
            1int
        } else if i < a.len() + b.len() + c.len() {
            2int
        } else {
            3int
        };
    assert forall|i: int| 0 <= i < all.len() implies 0 <= #[trigger] all[i] < rows.len()
        && rows[all[i]].kind.section() == section_at(i) && search::row_score(
        query,
        rows[all[i]],
    ) is Some by {
        if i < a.len() {
            assert(a.contains(a[i]) && all[i] == a[i]);
        } else if i < a.len() + b.len() {
            assert(b.contains(b[i - a.len()]) && all[i] == b[i - a.len()]);
        } else if i < a.len() + b.len() + c.len() {
            let k = i - a.len() - b.len();
            assert(c.contains(c[k]) && all[i] == c[k]);
        } else {
            let k = i - a.len() - b.len() - c.len();
            assert(d.contains(d[k]) && all[i] == d[k]);
        }
    }
    assert forall|i: int, j: int|
        0 <= i < all.len() && 0 <= j < all.len() && i != j implies all[i] != all[j] by {
        if section_at(i) == section_at(j) {
            if i < a.len() {
                assert(all[i] == a[i] && all[j] == a[j]);
            } else if i < a.len() + b.len() {
                assert(all[i] == b[i - a.len()] && all[j] == b[j - a.len()]);
            } else if i < a.len() + b.len() + c.len() {
                let k = a.len() + b.len();
                assert(all[i] == c[i - k] && all[j] == c[j - k]);
            } else {
                let k = a.len() + b.len() + c.len();
                assert(all[i] == d[i - k] && all[j] == d[j - k]);
            }
        }
    }
    assert forall|k: int| #[trigger] all.contains(k) <==> 0 <= k < rows.len()
        && search::row_score(query, rows[k]) is Some by {
        if all.contains(k) {
            let i = choose|i: int| 0 <= i < all.len() && all[i] == k;
            assert(all[i] == k);
        }
        if 0 <= k < rows.len() && search::row_score(query, rows[k]) is Some {
            let s = rows[k].kind.section();
            if s == 0 {
                assert(a.contains(k));
                let i = choose|i: int| 0 <= i < a.len() && a[i] == k;
                assert(all[i] == k);
            } else if s == 1 {
                assert(b.contains(k));
                let i = choose|i: int| 0 <= i < b.len() && b[i] == k;
                assert(all[a.len() + i] == k);
            } else if s == 2 {
                assert(c.contains(k));
                let i = choose|i: int| 0 <= i < c.len() && c[i] == k;
                assert(all[a.len() + b.len() + i] == k);
            } else {
                assert(d.contains(k));
                let i = choose|i: int| 0 <= i < d.len() && d[i] == k;
                assert(all[a.len() + b.len() + c.len() + i] == k);
            }
        }
    }
}

/// Live workspaces come above tabs, tabs above renamed panes, and those above
/// projects, with or without a query, whatever the scores.
pub proof fn search_keeps_sections_in_order(
    rows: Seq<RowModel>,
    query: Seq<char>,
    i: int,
    j: int,
)
    requires
        rows.len() <= usize::MAX,
        0 <= i < j < search::filtered(rows, query).len(),
    ensures
        rows[search::filtered(rows, query)[i]].kind.section() <= rows[search::filtered(
            rows,
            query,
        )[j]].kind.section(),
{
    let a = search::section_places(rows, query, 0);
    let b = search::section_places(rows, query, 1);
    let c = search::section_places(rows, query, 2);
    let d = search::section_places(rows, query, 3);
    lemma_section_places(rows, query, 0);
    lemma_section_places(rows, query, 1);
    lemma_section_places(rows, query, 2);
    lemma_section_places(rows, query, 3);
    let all = search::filtered(rows, query);
    assert forall|k: int| 0 <= k < all.len() implies rows[#[trigger] all[k]].kind.section() == (
    if k < a.len() {
        0int
    } else if k < a.len() + b.len() {
        1int
    } else if k < a.len() + b.len() + c.len() {
        2int
    } else {
        3int
    }) by {
        if k < a.len() {
            assert(a.contains(a[k]) && all[k] == a[k]);
        } else if k < a.len() + b.len() {
            assert(b.contains(b[k - a.len()]) && all[k] == b[k - a.len()]);
        } else if k < a.len() + b.len() + c.len() {
            let x = k - a.len() - b.len();
            assert(c.contains(c[x]) && all[k] == c[x]);
        } else {
            let x = k - a.len() - b.len() - c.len();
            assert(d.contains(d[x]) && all[k] == d[x]);
        }
    }
}

/// The group that a shown position belongs to.
spec fn owner(groups: Seq<GroupModel>, at: int) -> int
    decreases groups.len(),
{
    if groups.len() == 0 || at >= search::flat(groups.drop_last()).len() {
        groups.len() - 1
    } else {
        owner(groups.drop_last(), at)
    }
}

/// Owners never fall, and hold what is shown.
proof fn lemma_owner(groups: Seq<GroupModel>, at: int)
    requires
        0 <= at < search::flat(groups).len(),
    ensures
        0 <= owner(groups, at) < groups.len(),
        groups[owner(groups, at)].members.contains(search::flat(groups)[at]),
        forall|later: int|
            at <= later < search::flat(groups).len() ==> owner(groups, at) <= #[trigger] owner(
                groups,
                later,
            ),
    decreases groups.len(),
{
    if groups.len() > 0 {
        let front = groups.drop_last();
        let size = search::flat(front).len();
        if at >= size {
            assert(groups.last().members[at - size] == search::flat(groups)[at]);
        } else {
            lemma_owner(front, at);
            assert(search::flat(groups)[at] == search::flat(front)[at]);
            assert forall|later: int| at <= later < search::flat(groups).len() implies owner(
                groups,
                at,
            ) <= #[trigger] owner(groups, later) by {
                if later < size {
                    assert(owner(front, at) <= owner(front, later));
                }
            }
        }
    }
}

/// Whether groups are what they should be: members share the key of their group,
/// and no two groups share a space.
pub open spec fn sound(rows: Seq<RowModel>, groups: Seq<GroupModel>) -> bool {
    &&& forall|g: int, place: int|
        0 <= g < groups.len() && #[trigger] groups[g].members.contains(place) ==> search::group_key(
            rows[place],
        ) == groups[g].key
    &&& forall|g: int, h: int|
        0 <= g < groups.len() && 0 <= h < groups.len() && (#[trigger] groups[g]).key is Some
            && groups[g].key == (#[trigger] groups[h]).key ==> g == h
}

pub proof fn lemma_groups_sound(rows: Seq<RowModel>, places: Seq<int>, n: nat)
    requires
        n <= places.len(),
    ensures
        sound(rows, search::groups_of(rows, places, n)),
    decreases n,
{
    if n > 0 {
        let before = search::groups_of(rows, places, (n - 1) as nat);
        let after = search::groups_of(rows, places, n);
        let place = places[n - 1];
        let key = search::group_key(rows[place]);
        let keys = search::keys_of(before);
        lemma_groups_sound(rows, places, (n - 1) as nat);
        text::position_is_the_first(keys, key);
        assert forall|g: int, other: int|
            0 <= g < after.len() && #[trigger] after[g].members.contains(
                other,
            ) implies search::group_key(rows[other]) == after[g].key by {
            if g < before.len() {
                if after[g] == before[g] {
                    assert(before[g].members.contains(other));
                } else {
                    let members = after[g].members;
                    let i = choose|i: int| 0 <= i < members.len() && members[i] == other;
                    assert(keys[g] == key);
                    if i < before[g].members.len() {
                        assert(before[g].members[i] == other);
                        assert(before[g].members.contains(other));
                    }
                }
            }
        }
        assert forall|g: int, h: int|
            0 <= g < after.len() && 0 <= h < after.len() && (#[trigger] after[g]).key is Some
                && after[g].key == (#[trigger] after[h]).key implies g == h by {
            if g < before.len() {
                assert(keys[g] == before[g].key);
                assert(before[g].key == after[g].key);
            }
            if h < before.len() {
                assert(keys[h] == before[h].key);
                assert(before[h].key == after[h].key);
            }
            if g < before.len() && h == before.len() {
                assert(keys.contains(keys[g]));
            }
            if h < before.len() && g == before.len() {
                assert(keys.contains(keys[h]));
            }
        }
    }
}

/// Rows of one space stand together: nothing comes between two of them.
pub proof fn rows_of_a_space_stand_together(
    rows: Seq<RowModel>,
    places: Seq<int>,
    alphabetical: bool,
    i: int,
    j: int,
    k: int,
)
    requires
        0 <= i <= j <= k < search::grouped(rows, places, alphabetical).len(),
        search::group_key(rows[search::grouped(rows, places, alphabetical)[i]]) is Some,
        search::group_key(rows[search::grouped(rows, places, alphabetical)[i]])
            == search::group_key(rows[search::grouped(rows, places, alphabetical)[k]]),
    ensures
        search::group_key(rows[search::grouped(rows, places, alphabetical)[j]])
            == search::group_key(rows[search::grouped(rows, places, alphabetical)[i]]),
{
    let found = search::groups_of(rows, places, places.len());
    let order_of = order::ordered::<Group>(found);
    lemma_groups_sound(rows, places, places.len());
    order::ordering_is_a_stable_sort::<Group>(found);
    let groups = if alphabetical {
        order::arranged(found, order_of)
    } else {
        found
    };
    if alphabetical {
        assert forall|g: int, place: int|
            0 <= g < groups.len() && #[trigger] groups[g].members.contains(
                place,
            ) implies search::group_key(rows[place]) == groups[g].key by {
            assert(found[order_of[g]].members.contains(place));
        }
        assert forall|g: int, h: int|
            0 <= g < groups.len() && 0 <= h < groups.len() && (#[trigger] groups[g]).key is Some
                && groups[g].key == (#[trigger] groups[h]).key implies g == h by {
            assert(found[order_of[g]].key == found[order_of[h]].key);
        }
    }
    assert(sound(rows, groups));
    let shown = search::flat(groups);
    lemma_owner(groups, i);
    lemma_owner(groups, j);
    lemma_owner(groups, k);
    assert(groups[owner(groups, i)].members.contains(shown[i]));
    assert(groups[owner(groups, j)].members.contains(shown[j]));
    assert(groups[owner(groups, k)].members.contains(shown[k]));
    assert(groups[owner(groups, i)].key == groups[owner(groups, k)].key);
    assert(owner(groups, i) == owner(groups, k));
    assert(owner(groups, i) <= owner(groups, j) <= owner(groups, k));
}

} // verus!
