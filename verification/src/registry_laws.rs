//! What holds of the registry whatever it remembers.

use vstd::prelude::*;
use crate::lists;
use crate::model_laws;
use crate::order;
use crate::order::Ranked;
use crate::registry;
use crate::registry::{Registry, RegistryModel, SavedBinding, SavedModel};
use crate::text;

verus! {

/// A binding is read back as it was made, and no other directory is touched.
pub proof fn binding_reads_back(
    before: RegistryModel,
    directory: Seq<char>,
    workspace: Seq<char>,
    other: Seq<char>,
)
    ensures
        before.bound(directory, workspace).map.contains_key(directory),
        before.bound(directory, workspace).map[directory] == workspace,
        other != directory ==> before.bound(directory, workspace).map.contains_key(other)
            == before.map.contains_key(other),
        other != directory && before.map.contains_key(other) ==> before.bound(
            directory,
            workspace,
        ).map[other] == before.map[other],
{
}

/// Binding twice is the same as binding to the second workspace at once.
pub proof fn rebinding_replaces(
    before: RegistryModel,
    directory: Seq<char>,
    first: Seq<char>,
    second: Seq<char>,
)
    requires
        before.recent.len() <= registry::HISTORY_LIMIT,
    ensures
        before.bound(directory, first).bound(directory, second) == before.bound(directory, second),
{
    opened_project_comes_first(before.recent, directory);
    assert(before.bound(directory, first).bound(directory, second).map =~= before.bound(
        directory,
        second,
    ).map);
}

/// A project that is opened comes first in history, and history never grows
/// beyond its limit.
pub proof fn opened_project_comes_first(recent: Seq<Seq<char>>, directory: Seq<char>)
    requires
        recent.len() <= registry::HISTORY_LIMIT,
    ensures
        registry::remembered(recent, directory).len() > 0,
        registry::remembered(recent, directory)[0] == directory,
        registry::remembered(recent, directory).len() <= registry::HISTORY_LIMIT,
{
}

/// Opening a project loses no other project from history while there is room.
pub proof fn opening_keeps_history(
    recent: Seq<Seq<char>>,
    directory: Seq<char>,
    other: Seq<char>,
)
    requires
        recent.len() < registry::HISTORY_LIMIT,
        recent.contains(other),
    ensures
        registry::remembered(recent, directory).contains(other),
{
    lists::lemma_without(recent, directory);
    let rest = lists::without(recent, directory);
    let after = registry::remembered(recent, directory);
    if !(recent.len() > 0 && recent[0] == directory) {
        if other == directory {
            assert(after[0] == other);
        } else {
            assert(rest.contains(other));
            let i = choose|i: int| 0 <= i < rest.len() && rest[i] == other;
            assert(after[i + 1] == other);
        }
    }
}

/// The workspace used last comes first, and using it again changes nothing.
pub proof fn used_workspace_comes_first(mru: Seq<Seq<char>>, workspace: Seq<char>)
    ensures
        registry::touched(mru, workspace).len() > 0,
        registry::touched(mru, workspace)[0] == workspace,
        registry::touched(registry::touched(mru, workspace), workspace) == registry::touched(
            mru,
            workspace,
        ),
{
}

/// Using a workspace leaves all others as they stand to each other: none is lost,
/// none added, and none overtakes another. The one used stands before them all.
pub proof fn using_keeps_the_order_of_others(mru: Seq<Seq<char>>, workspace: Seq<char>)
    ensures
        registry::touched(mru, workspace)[0] == workspace,
        registry::touched(mru, workspace).filter(|other: Seq<char>| other != workspace)
            == mru.filter(|other: Seq<char>| other != workspace),
        mru.no_duplicates() ==> registry::touched(mru, workspace).no_duplicates(),
{
    lists::lemma_fronted_others(mru, workspace, |other: Seq<char>| other != workspace);
    lists::lemma_without(mru, workspace);
    let rest = lists::without(mru, workspace);
    let after = registry::touched(mru, workspace);
    if mru.no_duplicates() && after != mru {
        assert forall|i: int, j: int|
            0 <= i < after.len() && 0 <= j < after.len() && i != j implies after[i]
            != after[j] by {
            if i > 0 {
                assert(rest.contains(rest[i - 1]));
            }
            if j > 0 {
                assert(rest.contains(rest[j - 1]));
            }
        }
    }
}

/// Two workspaces that were used one after the other are the first two.
pub proof fn the_last_two_used_come_first(
    mru: Seq<Seq<char>>,
    earlier: Seq<char>,
    later: Seq<char>,
)
    requires
        earlier != later,
    ensures
        registry::touched(registry::touched(mru, earlier), later)[0] == later,
        registry::touched(registry::touched(mru, earlier), later).len() > 1,
        registry::touched(registry::touched(mru, earlier), later)[1] == earlier,
{
    reveal(Seq::filter);
    let once = registry::touched(mru, earlier);
    let keep = |other: Seq<char>| other != later;
    assert(once[0] == earlier);
    lemma_first_kept(once, keep);
    lists::lemma_without_is_filter(once, later, keep);
}

/// A first item that a filter keeps stays first.
proof fn lemma_first_kept(items: Seq<Seq<char>>, keep: spec_fn(Seq<char>) -> bool)
    requires
        items.len() > 0,
        keep(items[0]),
    ensures
        items.filter(keep).len() > 0,
        items.filter(keep)[0] == items[0],
    decreases items.len(),
{
    reveal(Seq::filter);
    let front = items.drop_last();
    if front.len() > 0 {
        lemma_first_kept(front, keep);
    } else {
        assert(front.filter(keep) =~= Seq::empty());
        assert(items.last() == items[0]);
    }
}

/// Opening a project leaves all others as they stand to each other: none is added,
/// none overtakes another, and only the oldest fall off, where there would be more
/// than a hundred. The one opened stands before them all, and only there.
pub proof fn opening_keeps_the_order_of_others(recent: Seq<Seq<char>>, directory: Seq<char>)
    requires
        recent.no_duplicates(),
        recent.len() <= 100,
    ensures
        registry::remembered(recent, directory)[0] == directory,
        registry::remembered(recent, directory).no_duplicates(),
        ({
            let others = recent.filter(|other: Seq<char>| other != directory);
            registry::remembered(recent, directory).filter(|other: Seq<char>| other != directory)
                == if others.len() <= 99 {
                others
            } else {
                others.take(99)
            }
        }),
{
    let rest = lists::without(recent, directory);
    let keep = |other: Seq<char>| other != directory;
    lemma_remembered_distinct(recent, directory);
    lists::lemma_without_is_filter(recent, directory, keep);
    if recent.len() > 0 && recent[0] == directory {
        lemma_first_dropped(recent, directory);
    } else {
        lists::lemma_without(recent, directory);
        assert forall|i: int| 0 <= i < rest.len() implies #[trigger] rest[i] != directory by {
            assert(rest.contains(rest[i]));
        }
        lists::lemma_front_filtered(rest, directory, 100, keep);
    }
}

/// Opening a project lists none twice.
proof fn lemma_remembered_distinct(recent: Seq<Seq<char>>, directory: Seq<char>)
    requires
        recent.no_duplicates(),
        recent.len() <= 100,
    ensures
        registry::remembered(recent, directory)[0] == directory,
        registry::remembered(recent, directory).no_duplicates(),
{
    let rest = lists::without(recent, directory);
    let after = registry::remembered(recent, directory);
    lists::lemma_without(recent, directory);
    if !(recent.len() > 0 && recent[0] == directory) {
        assert forall|i: int, j: int|
            0 <= i < after.len() && 0 <= j < after.len() && i != j implies after[i]
            != after[j] by {
            if i > 0 {
                assert(after[i] == rest[i - 1]);
                assert(rest.contains(rest[i - 1]));
            }
            if j > 0 {
                assert(after[j] == rest[j - 1]);
                assert(rest.contains(rest[j - 1]));
            }
        }
    }
}

/// Distinct items without the first of them are one less.
proof fn lemma_first_dropped(items: Seq<Seq<char>>, item: Seq<char>)
    requires
        items.len() > 0,
        items.no_duplicates(),
        items[0] == item,
    ensures
        items.filter(|other: Seq<char>| other != item).len() < items.len(),
{
    let keep = |other: Seq<char>| other != item;
    lists::lemma_filter_all(items, keep);
    lists::lemma_without(items, item);
    lists::lemma_without_is_filter(items, item, keep);
    assert(items.contains(items[0]));
}

/// Forgetting a workspace leaves all others as they stand to each other.
pub proof fn forgetting_keeps_the_order_of_others(mru: Seq<Seq<char>>, workspace: Seq<char>)
    ensures
        lists::without(mru, workspace).filter(|other: Seq<char>| other != workspace)
            == mru.filter(|other: Seq<char>| other != workspace),
        !lists::without(mru, workspace).contains(workspace),
{
    let keep = |other: Seq<char>| other != workspace;
    lists::lemma_filter_again(mru, keep);
    lists::lemma_without_is_filter(mru, workspace, keep);
    lists::lemma_without(mru, workspace);
}

/// Reconciling leaves the recency of live workspaces as it is, and that of no
/// other.
pub proof fn reconciling_keeps_the_order_of_the_living(
    before: RegistryModel,
    live: Seq<Seq<char>>,
)
    ensures
        before.reconciled(live).mru.filter(|workspace: Seq<char>| live.contains(workspace))
            == before.mru.filter(|workspace: Seq<char>| live.contains(workspace)),
        forall|i: int|
            0 <= i < before.reconciled(live).mru.len() ==> live.contains(
                #[trigger] before.reconciled(live).mru[i],
            ),
        (forall|i: int| 0 <= i < before.mru.len() ==> live.contains(#[trigger] before.mru[i]))
            ==> before.reconciled(live).mru == before.mru,
{
    let keep = |workspace: Seq<char>| live.contains(workspace);
    lists::lemma_filter_again(before.mru, keep);
    broadcast use Seq::lemma_filter_pred;
    if forall|i: int| 0 <= i < before.mru.len() ==> live.contains(#[trigger] before.mru[i]) {
        lemma_nothing_dropped(before.mru, keep);
    }
}

/// A filter that keeps every item keeps the list.
proof fn lemma_nothing_dropped(items: Seq<Seq<char>>, keep: spec_fn(Seq<char>) -> bool)
    requires
        forall|i: int| 0 <= i < items.len() ==> keep(#[trigger] items[i]),
    ensures
        items.filter(keep) == items,
    decreases items.len(),
{
    reveal(Seq::filter);
    if items.len() > 0 {
        lemma_nothing_dropped(items.drop_last(), keep);
        assert(keep(items[items.len() - 1]));
        assert(items.drop_last().push(items.last()) =~= items);
    }
}

/// A workspace that is forgotten has no recency, and every other one keeps its
/// own.
pub proof fn forgotten_workspace_has_no_recency(
    mru: Seq<Seq<char>>,
    workspace: Seq<char>,
    other: Seq<char>,
)
    ensures
        !lists::without(mru, workspace).contains(workspace),
        other != workspace ==> lists::without(mru, workspace).contains(other) == mru.contains(
            other,
        ),
{
    lists::lemma_without(mru, workspace);
}

/// Reconciling keeps history, keeps no binding of a workspace that is not live,
/// and keeps every other binding.
pub proof fn reconciling_drops_only_the_dead(
    before: RegistryModel,
    live: Seq<Seq<char>>,
    directory: Seq<char>,
)
    ensures
        before.reconciled(live).recent == before.recent,
        before.reconciled(live).map.contains_key(directory) <==> before.map.contains_key(directory)
            && live.contains(before.map[directory]),
        before.reconciled(live).map.contains_key(directory) ==> before.reconciled(
            live,
        ).map[directory] == before.map[directory],
{
}

/// Filtering twice is filtering once.
proof fn lemma_filter_twice(items: Seq<Seq<char>>, keep: spec_fn(Seq<char>) -> bool)
    ensures
        items.filter(keep).filter(keep) == items.filter(keep),
    decreases items.len(),
{
    reveal(Seq::filter);
    if items.len() > 0 {
        let front = items.drop_last();
        lemma_filter_twice(front, keep);
        if keep(items.last()) {
            assert(items.filter(keep).drop_last() =~= front.filter(keep));
            assert(items.filter(keep).last() == items.last());
        }
    }
}

/// Reconciling against the same workspaces again changes nothing.
pub proof fn reconciling_is_idempotent(before: RegistryModel, live: Seq<Seq<char>>)
    ensures
        before.reconciled(live).reconciled(live) == before.reconciled(live),
{
    let once = before.reconciled(live);
    let twice = once.reconciled(live);
    lemma_filter_twice(before.mru, |workspace: Seq<char>| live.contains(workspace));
    assert(twice.map =~= once.map);
    assert(twice =~= once);
}

/// Whether bindings are what is saved of a registry, on a machine where every
/// directory is spelled canonically. Any of them may be a symbolic link, such as
/// one that leads nowhere.
pub open spec fn is_saved_form(
    saved: Seq<SavedModel>,
    pairs: Seq<(Seq<char>, Seq<char>)>,
) -> bool {
    &&& saved.len() == pairs.len()
    &&& forall|i: int|
        0 <= i < saved.len() ==> {
            &&& (#[trigger] saved[i]).directory == pairs[i].0
            &&& saved[i].canonical == pairs[i].0
            &&& saved[i].workspace == pairs[i].1
        }
}

/// Saved bindings load as the bindings that they were.
proof fn lemma_saved_map(saved: Seq<SavedModel>, pairs: Seq<(Seq<char>, Seq<char>)>)
    requires
        registry::in_order(pairs),
        is_saved_form(saved, pairs),
    ensures
        registry::loaded_map(saved) == registry::as_map(pairs),
{
    let n = saved.len();
    let places = order::ordered::<SavedBinding>(saved);
    let loaded = registry::loaded_map(saved);
    let bound = registry::as_map(pairs);
    order::ordering_is_a_stable_sort::<SavedBinding>(saved);
    registry::lemma_as_map(pairs);
    assert forall|key: Seq<char>|
        #![trigger loaded.contains_key(key)]
        loaded.contains_key(key) == bound.contains_key(key) && (loaded.contains_key(key)
            ==> loaded[key] == bound[key]) by {
        lemma_first_is_kept(saved, places, n, key);
        if loaded.contains_key(key) {
            let i = choose|i: int|
                {
                    &&& 0 <= i < n
                    &&& saved[#[trigger] places[i]].canonical == key
                    &&& registry::kept_bindings(saved, places, n)[key]
                        == saved[places[i]].workspace
                    &&& forall|j: int| 0 <= j < i ==> saved[#[trigger] places[j]].canonical != key
                };
            assert(pairs[places[i]].0 == key);
        }
        if bound.contains_key(key) {
            let k = choose|k: int| 0 <= k < pairs.len() && (#[trigger] pairs[k]).0 == key;
            model_laws::permutation_leaves_nothing_out(places, n, k);
            let i = choose|i: int| 0 <= i < places.len() && places[i] == k;
            assert(saved[k].canonical == key);
            assert(0 <= i < n && saved[places[i]].canonical == key);
        }
    }
    assert(loaded =~= bound);
}

/// What was saved loads back as it was: its bindings, its recency and its history.
/// Every registry is well-formed: the default one is, and so is what every change
/// and every load leaves.
pub proof fn saved_registry_loads_back(
    saved: Registry,
    bindings: Vec<SavedBinding>,
    mru: Vec<String>,
    recent: Vec<String>,
    loaded: Registry,
)
    requires
        saved.wf(),
        is_saved_form(text::views(bindings@), saved.pairs()),
        text::views(mru@) == saved@.mru,
        text::views(recent@) == saved@.recent,
        call_ensures(Registry::load, (bindings, mru, recent), loaded),
    ensures
        loaded@ == saved@,
{
    let pairs = saved.pairs();
    registry::lemma_registry_parts(saved);
    lemma_saved_map(text::views(bindings@), pairs);
    assert(loaded@.map == saved@.map);
    registry::lemma_registry_parts(loaded);
    let known = saved@.recent;
    let listed = known + loaded.keys();
    lemma_distinct_of_distinct(known);
    assert(listed.take(known.len() as int) =~= known);
    lists::lemma_distinct_grows(listed, known.len() as int);
    if known.len() == registry::HISTORY_LIMIT {
        assert(loaded@.recent =~= known);
    } else {
        registry::lemma_as_map(loaded.pairs());
        assert forall|i: int| known.len() <= i < listed.len() implies known.contains(
            #[trigger] listed[i],
        ) by {
            let k = i - known.len();
            assert(loaded.pairs()[k].0 == listed[i]);
            assert(saved@.map.contains_key(loaded.pairs()[k].0));
        }
        lemma_nothing_new(known, listed, listed.len());
        assert(listed.take(listed.len() as int) =~= listed);
        assert(loaded@.recent =~= known);
    }
}

/// A list without repeats is its own list of distinct items.
proof fn lemma_distinct_of_distinct(items: Seq<Seq<char>>)
    requires
        items.no_duplicates(),
    ensures
        lists::distinct(items) == items,
    decreases items.len(),
{
    if items.len() > 0 {
        let front = items.drop_last();
        assert(front.no_duplicates());
        lemma_distinct_of_distinct(front);
        if front.contains(items.last()) {
            let i = choose|i: int| 0 <= i < front.len() && front[i] == items.last();
            assert(items[i] == items[items.len() - 1]);
        }
        assert(front.push(items.last()) =~= items);
    } else {
        assert(lists::distinct(items) =~= items);
    }
}

/// Items known before add nothing.
proof fn lemma_nothing_new(known: Seq<Seq<char>>, listed: Seq<Seq<char>>, n: nat)
    requires
        known.no_duplicates(),
        known.len() <= n <= listed.len(),
        listed.take(known.len() as int) == known,
        forall|i: int|
            known.len() <= i < listed.len() ==> known.contains(#[trigger] listed[i]),
    ensures
        lists::distinct(listed.take(n as int)) == known,
    decreases n,
{
    if n == known.len() {
        lemma_distinct_of_distinct(known);
    } else {
        lemma_nothing_new(known, listed, (n - 1) as nat);
        assert(listed.take(n as int).drop_last() =~= listed.take(n - 1));
        assert(listed.take(n as int).last() == listed[n - 1]);
    }
}

/// What is kept for a canonical directory is the first saved for it.
proof fn lemma_first_is_kept(saved: Seq<SavedModel>, places: Seq<int>, n: nat, canonical: Seq<char>)
    requires
        n <= places.len(),
    ensures
        registry::kept_bindings(saved, places, n).contains_key(canonical) <==> exists|i: int|
            0 <= i < n && saved[#[trigger] places[i]].canonical == canonical,
        registry::kept_bindings(saved, places, n).contains_key(canonical) ==> exists|i: int|
            {
                &&& 0 <= i < n
                &&& saved[#[trigger] places[i]].canonical == canonical
                &&& registry::kept_bindings(saved, places, n)[canonical]
                    == saved[places[i]].workspace
                &&& forall|j: int| 0 <= j < i ==> saved[#[trigger] places[j]].canonical != canonical
            },
    decreases n,
{
    if n > 0 {
        let m = (n - 1) as nat;
        lemma_first_is_kept(saved, places, m, canonical);
        let front = registry::kept_bindings(saved, places, m);
        let all = registry::kept_bindings(saved, places, n);
        let last = saved[places[n - 1]];
        if front.contains_key(canonical) {
            let i = choose|i: int|
                {
                    &&& 0 <= i < m
                    &&& saved[#[trigger] places[i]].canonical == canonical
                    &&& front[canonical] == saved[places[i]].workspace
                    &&& forall|j: int|
                        0 <= j < i ==> saved[#[trigger] places[j]].canonical != canonical
                };
            assert(all[canonical] == saved[places[i]].workspace);
            assert(0 <= i < n && saved[places[i]].canonical == canonical);
        } else if last.canonical == canonical {
            assert(0 <= n - 1 < n && saved[places[n - 1]].canonical == canonical);
            assert(all[canonical] == saved[places[n - 1]].workspace);
        } else if exists|i: int| 0 <= i < n && saved[#[trigger] places[i]].canonical == canonical {
            let i = choose|i: int| 0 <= i < n && saved[#[trigger] places[i]].canonical == canonical;
            assert(0 <= i < m && saved[places[i]].canonical == canonical);
        }
    }
}

/// When a real directory and symbolic links to it are saved, the binding of a
/// real directory is kept.
pub proof fn real_directory_wins(saved: Seq<SavedModel>, k: int)
    requires
        0 <= k < saved.len(),
        !saved[k].is_symlink,
    ensures
        registry::loaded_map(saved).contains_key(saved[k].canonical),
        exists|j: int|
            0 <= j < saved.len() && !saved[j].is_symlink && (#[trigger] saved[j]).canonical
                == saved[k].canonical && registry::loaded_map(saved)[saved[k].canonical]
                == saved[j].workspace,
{
    let canonical = saved[k].canonical;
    let places = order::ordered::<SavedBinding>(saved);
    let n = saved.len();
    order::ordering_is_a_stable_sort::<SavedBinding>(saved);
    model_laws::permutation_leaves_nothing_out(places, n, k);
    let at = choose|at: int| 0 <= at < places.len() && places[at] == k;
    assert(saved[places[at]].canonical == canonical);
    lemma_first_is_kept(saved, places, n, canonical);
    let i = choose|i: int|
        {
            &&& 0 <= i < n
            &&& saved[#[trigger] places[i]].canonical == canonical
            &&& registry::kept_bindings(saved, places, n)[canonical] == saved[places[i]].workspace
            &&& forall|j: int| 0 <= j < i ==> saved[#[trigger] places[j]].canonical != canonical
        };
    let j = places[i];
    if i < at {
        assert(SavedBinding::precedes(saved[places[i]], saved[places[at]]));
    }
    assert(saved[j].canonical == canonical);
}

/// Of several bindings saved for one directory the one is kept that is spelled by the
/// directory itself and not by a link, then the one that comes first by its spelling,
/// then by its workspace; and a directory is bound just when something was saved for it.
pub proof fn one_binding_is_kept_for_each_directory(saved: Seq<SavedModel>, canonical: Seq<char>)
    ensures
        registry::loaded_map(saved).contains_key(canonical) <==> exists|k: int|
            0 <= k < saved.len() && (#[trigger] saved[k]).canonical == canonical,
        registry::loaded_map(saved).contains_key(canonical) ==> exists|j: int|
            {
                &&& 0 <= j < saved.len()
                &&& (#[trigger] saved[j]).canonical == canonical
                &&& registry::loaded_map(saved)[canonical] == saved[j].workspace
                &&& forall|k: int|
                    0 <= k < saved.len() && (#[trigger] saved[k]).canonical == canonical ==> {
                        &&& saved[j].is_symlink ==> saved[k].is_symlink
                        &&& saved[j].is_symlink == saved[k].is_symlink ==> text::at_most(
                            saved[j].directory,
                            saved[k].directory,
                        )
                        &&& saved[j].is_symlink == saved[k].is_symlink && saved[j].directory
                            == saved[k].directory ==> text::at_most(
                            saved[j].workspace,
                            saved[k].workspace,
                        )
                    }
            },
{
    let n = saved.len();
    let places = order::ordered::<SavedBinding>(saved);
    order::ordering_is_a_stable_sort::<SavedBinding>(saved);
    lemma_first_is_kept(saved, places, n, canonical);
    if exists|k: int| 0 <= k < saved.len() && (#[trigger] saved[k]).canonical == canonical {
        let k = choose|k: int| 0 <= k < saved.len() && (#[trigger] saved[k]).canonical == canonical;
        model_laws::permutation_leaves_nothing_out(places, n, k);
        let at = choose|at: int| 0 <= at < places.len() && places[at] == k;
        assert(saved[places[at]].canonical == canonical);
    }
    if registry::loaded_map(saved).contains_key(canonical) {
        let i = choose|i: int|
            {
                &&& 0 <= i < n
                &&& saved[#[trigger] places[i]].canonical == canonical
                &&& registry::kept_bindings(saved, places, n)[canonical]
                    == saved[places[i]].workspace
                &&& forall|j: int| 0 <= j < i ==> saved[#[trigger] places[j]].canonical != canonical
            };
        let j = places[i];
        assert(saved[j].canonical == canonical);
        assert forall|k: int| 0 <= k < saved.len() && (#[trigger] saved[k]).canonical
            == canonical implies {
            &&& saved[j].is_symlink ==> saved[k].is_symlink
            &&& saved[j].is_symlink == saved[k].is_symlink ==> text::at_most(
                saved[j].directory,
                saved[k].directory,
            )
            &&& saved[j].is_symlink == saved[k].is_symlink && saved[j].directory
                == saved[k].directory ==> text::at_most(saved[j].workspace, saved[k].workspace)
        } by {
            model_laws::permutation_leaves_nothing_out(places, n, k);
            let at = choose|at: int| 0 <= at < places.len() && places[at] == k;
            text::lemma_at_most_total(saved[j].directory, saved[j].directory);
            text::lemma_at_most_total(saved[j].workspace, saved[j].workspace);
            if at < i {
                assert(saved[places[at]].canonical != canonical);
            }
            if i < at {
                assert(SavedBinding::precedes(saved[places[i]], saved[places[at]]));
            }
        }
    }
}

/// A registry that is loaded has the recency that was saved, and a history that begins
/// with the one that was saved, each directory once, goes on with the bound directories,
/// and has at most a hundred.
pub proof fn loading_keeps_recency_and_history(
    bindings: Vec<SavedBinding>,
    mru: Vec<String>,
    recent: Vec<String>,
    loaded: Registry,
    directory: Seq<char>,
)
    requires
        call_ensures(Registry::load, (bindings, mru, recent), loaded),
    ensures
        loaded@.mru == text::views(mru@),
        loaded@.recent.no_duplicates(),
        loaded@.recent.len() <= 100,
        recent@.len() > 0 ==> loaded@.recent.len() > 0 && loaded@.recent[0] == recent@[0]@,
        loaded@.recent.len() < 100 ==> (loaded@.recent.contains(directory) <==> text::views(
            recent@,
        ).contains(directory) || loaded@.map.contains_key(directory)),
{
    registry::lemma_registry_parts(loaded);
    let listed = text::views(recent@) + loaded.keys();
    lists::lemma_distinct(listed);
    if recent@.len() > 0 {
        lemma_first_is_distinct(listed);
        assert(listed[0] == recent@[0]@);
    }
    if loaded@.recent.len() < 100 {
        registry::lemma_as_map(loaded.pairs());
        assert(loaded@.recent == lists::distinct(listed));
        if text::views(recent@).contains(directory) {
            let k = choose|k: int|
                0 <= k < text::views(recent@).len() && text::views(recent@)[k] == directory;
            assert(listed[k] == directory);
        }
        if loaded@.map.contains_key(directory) {
            let k = choose|k: int|
                0 <= k < loaded.pairs().len() && (#[trigger] loaded.pairs()[k]).0 == directory;
            assert(loaded.keys()[k] == directory);
            assert(listed[recent@.len() + k] == directory);
        }
        if listed.contains(directory) {
            let k = choose|k: int| 0 <= k < listed.len() && listed[k] == directory;
            if k < recent@.len() {
                assert(text::views(recent@)[k] == directory);
            } else {
                let at = k - recent@.len();
                assert(loaded.keys()[at] == directory);
                assert(loaded.pairs()[at].0 == directory);
            }
        }
    }
}

proof fn lemma_first_is_distinct(items: Seq<Seq<char>>)
    requires
        items.len() > 0,
    ensures
        lists::distinct(items).len() > 0,
        lists::distinct(items)[0] == items[0],
    decreases items.len(),
{
    let front = items.drop_last();
    if front.len() > 0 {
        lemma_first_is_distinct(front);
    } else {
        assert(lists::distinct(front) =~= Seq::empty());
    }
}

} // verus!
