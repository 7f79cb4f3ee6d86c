//! What holds of the picker's rows whatever they are made from.

use vstd::prelude::*;
use crate::herdr;
use crate::herdr::{PaneModel, WorkspaceModel};
use crate::model;
use crate::model::{RowKey, RowModel, Sources};
use crate::order;
use crate::order::Ranked;
use crate::order_laws;
use crate::paths;
use crate::text;

verus! {

/// A position list without repeats that is as long as its range leaves nothing
/// out.
pub proof fn permutation_leaves_nothing_out(places: Seq<int>, n: nat, k: int)
    requires
        order::is_permutation(places, n),
        0 <= k < n,
    ensures
        places.contains(k),
{
    let range = vstd::set_lib::set_int_range(0, n as int);
    vstd::set_lib::lemma_int_range(0, n as int);
    places.unique_seq_to_set();
    let found = places.to_set();
    assert forall|x: int| found.contains(x) implies range.contains(x) by {
        let i = choose|i: int| 0 <= i < places.len() && places[i] == x;
        assert(places[i] == x);
    }
    vstd::set_lib::lemma_subset_equality(found, range);
    assert(range.contains(k));
}

/// Ranking shows every row found, and shows nothing else.
pub proof fn ranking_keeps_every_row(from: Sources)
    ensures
        from.rows().len() == from.found_rows().len(),
        forall|k: int|
            0 <= k < from.found_rows().len() ==> from.rows().contains(
                #[trigger] from.found_rows()[k],
            ),
        forall|i: int|
            0 <= i < from.rows().len() ==> from.found_rows().contains(#[trigger] from.rows()[i]),
{
    let keys = from.row_keys();
    let places = order::ordered::<RowKey>(keys);
    order::ordering_is_a_stable_sort::<RowKey>(keys);
    assert forall|k: int| 0 <= k < from.found_rows().len() implies from.rows().contains(
        #[trigger] from.found_rows()[k],
    ) by {
        permutation_leaves_nothing_out(places, keys.len(), k);
        let i = choose|i: int| 0 <= i < places.len() && places[i] == k;
        assert(from.rows()[i] == from.found_rows()[k]);
    }
    assert forall|i: int| 0 <= i < from.rows().len() implies from.found_rows().contains(
        #[trigger] from.rows()[i],
    ) by {
        assert(from.rows()[i] == from.found_rows()[places[i]]);
    }
}

/// Keys of rows in the shown order never fall.
proof fn lemma_keys_rise(from: Sources, i: int, j: int)
    requires
        0 <= i < j < from.rows().len(),
    ensures
        RowKey::precedes(
            model::row_key(from.rows()[i], from.mru, from.origin),
            model::row_key(from.rows()[j], from.mru, from.origin),
        ),
{
    let keys = from.row_keys();
    let places = order::ordered::<RowKey>(keys);
    order::ordering_is_a_stable_sort::<RowKey>(keys);
    assert(RowKey::precedes(keys[places[i]], keys[places[j]]));
}

/// Live workspaces come first, then tabs, then renamed panes, then projects.
pub proof fn sections_come_in_order(from: Sources, i: int, j: int)
    requires
        0 <= i < j < from.rows().len(),
    ensures
        from.rows()[i].kind.section() <= from.rows()[j].kind.section(),
{
    lemma_keys_rise(from, i, j);
}

/// Live workspaces come in the order of their recency.
pub proof fn open_rows_come_by_recency(from: Sources, i: int, j: int)
    requires
        0 <= i < j < from.rows().len(),
        from.rows()[i].kind is Open,
        from.rows()[j].kind is Open,
    ensures
        model::recency(from.rows()[i].kind.workspace()->0, from.mru, from.origin)
            <= model::recency(from.rows()[j].kind.workspace()->0, from.mru, from.origin),
{
    lemma_keys_rise(from, i, j);
}

/// The workspace that the picker was opened from comes after every other live
/// workspace.
pub proof fn origin_comes_last(from: Sources, i: int, j: int)
    requires
        0 <= i < from.rows().len(),
        0 <= j < from.rows().len(),
        from.rows()[i].kind is Open,
        from.rows()[j].kind is Open,
        from.origin is Some,
        from.rows()[i].kind.workspace() == from.origin,
        from.rows()[j].kind.workspace() != from.origin,
        from.mru.len() < usize::MAX,
    ensures
        j < i,
{
    text::position_is_the_first(from.mru, from.rows()[j].kind.workspace()->0);
    if i < j {
        open_rows_come_by_recency(from, i, j);
    }
}

/// Of two live workspaces that were used, neither of them the one that the
/// picker was opened from, the one used last comes first.
pub proof fn used_last_comes_first(from: Sources, i: int, j: int, a: int, b: int)
    requires
        0 <= i < from.rows().len(),
        0 <= j < from.rows().len(),
        from.rows()[i].kind is Open,
        from.rows()[j].kind is Open,
        from.rows()[i].kind.workspace() != from.origin,
        from.rows()[j].kind.workspace() != from.origin,
        text::position(from.mru, from.rows()[i].kind.workspace()->0) == Some(a),
        text::position(from.mru, from.rows()[j].kind.workspace()->0) == Some(b),
        a < b,
        from.mru.len() < usize::MAX,
    ensures
        i < j,
{
    text::position_is_the_first(from.mru, from.rows()[i].kind.workspace()->0);
    text::position_is_the_first(from.mru, from.rows()[j].kind.workspace()->0);
    if j < i {
        open_rows_come_by_recency(from, j, i);
    }
}

/// A workspace never used comes after every one that was used, unless the picker
/// was opened from that one.
pub proof fn never_used_comes_after_used(from: Sources, i: int, j: int)
    requires
        0 <= i < from.rows().len(),
        0 <= j < from.rows().len(),
        from.rows()[i].kind is Open,
        from.rows()[j].kind is Open,
        from.rows()[i].kind.workspace() != from.origin,
        text::position(from.mru, from.rows()[i].kind.workspace()->0) is Some,
        text::position(from.mru, from.rows()[j].kind.workspace()->0) is None,
        from.mru.len() < usize::MAX,
    ensures
        i < j,
{
    text::position_is_the_first(from.mru, from.rows()[i].kind.workspace()->0);
    if j < i {
        open_rows_come_by_recency(from, j, i);
    }
}

/// Every tab row is that of a tab.
proof fn lemma_tab_rows(from: Sources, workspace: WorkspaceModel, n: nat)
    requires
        n <= from.tabs.len(),
    ensures
        forall|i: int|
            0 <= i < from.tab_rows(workspace, n).len() ==> (#[trigger] from.tab_rows(
                workspace,
                n,
            )[i]).kind is Tab,
    decreases n,
{
    if n > 0 {
        lemma_tab_rows(from, workspace, (n - 1) as nat);
    }
}

/// Every pane row is that of a pane.
proof fn lemma_pane_rows(from: Sources, workspace: WorkspaceModel, n: nat)
    requires
        n <= from.panes.len(),
    ensures
        forall|i: int|
            0 <= i < from.pane_rows(workspace, n).len() ==> (#[trigger] from.pane_rows(
                workspace,
                n,
            )[i]).kind is Pane,
    decreases n,
{
    if n > 0 {
        lemma_pane_rows(from, workspace, (n - 1) as nat);
    }
}

/// Which workspace an open row found stands for, and that it is no project.
proof fn lemma_live_rows(from: Sources, n: nat)
    requires
        n <= from.workspaces.len(),
    ensures
        forall|k: int|
            0 <= k < n ==> from.live_rows(n).contains(
                #[trigger] from.open_row(from.workspaces[k]),
            ),
        forall|i: int|
            0 <= i < from.live_rows(n).len() ==> (#[trigger] from.live_rows(n)[i]).kind !is Dormant,
        forall|i: int|
            0 <= i < from.live_rows(n).len() && (#[trigger] from.live_rows(n)[i]).kind is Open
                ==> exists|k: int|
                0 <= k < n && from.live_rows(n)[i] == #[trigger] from.open_row(from.workspaces[k]),
    decreases n,
{
    if n > 0 {
        let m = (n - 1) as nat;
        let workspace = from.workspaces[n - 1];
        lemma_live_rows(from, m);
        lemma_tab_rows(from, workspace, from.tabs.len());
        lemma_pane_rows(from, workspace, from.panes.len());
        let front = from.live_rows(m);
        let tabs = from.tab_rows(workspace, from.tabs.len());
        let panes = from.pane_rows(workspace, from.panes.len());
        let all = from.live_rows(n);
        let here = front.len() + tabs.len() + panes.len();
        assert(all[here as int] == from.open_row(workspace));
        assert forall|k: int| 0 <= k < n implies all.contains(
            #[trigger] from.open_row(from.workspaces[k]),
        ) by {
            if k < m {
                let i = choose|i: int|
                    0 <= i < front.len() && front[i] == from.open_row(from.workspaces[k]);
                assert(all[i] == front[i]);
            }
        }
        assert forall|i: int| 0 <= i < all.len() implies (#[trigger] all[i]).kind !is Dormant
            && (all[i].kind is Open ==> exists|k: int|
            0 <= k < n && all[i] == #[trigger] from.open_row(from.workspaces[k])) by {
            if i < front.len() {
                assert(all[i] == front[i]);
                if all[i].kind is Open {
                    let k = choose|k: int|
                        0 <= k < m && front[i] == #[trigger] from.open_row(from.workspaces[k]);
                    assert(all[i] == from.open_row(from.workspaces[k]));
                }
            } else if i < front.len() + tabs.len() {
                assert(all[i] == tabs[i - front.len()]);
            } else if i < here {
                assert(all[i] == panes[i - front.len() - tabs.len()]);
            } else {
                assert(all[i] == from.open_row(from.workspaces[n - 1]));
            }
        }
    }
}

/// Every project row found is of a directory that no live workspace has.
proof fn lemma_dormant_rows(from: Sources, n: nat)
    requires
        n <= from.dormant.len(),
    ensures
        forall|i: int|
            0 <= i < from.dormant_rows(n).len() ==> (#[trigger] from.dormant_rows(n)[i]).kind
                is Dormant && !from.is_open(from.dormant_rows(n)[i].path),
    decreases n,
{
    if n > 0 {
        lemma_dormant_rows(from, (n - 1) as nat);
    }
}

/// No workspace is left unreachable: every live workspace has its row.
pub proof fn every_workspace_has_a_row(from: Sources, k: int)
    requires
        0 <= k < from.workspaces.len(),
    ensures
        from.rows().contains(from.open_row(from.workspaces[k])),
{
    let n = from.workspaces.len();
    lemma_live_rows(from, n);
    ranking_keeps_every_row(from);
    let row = from.open_row(from.workspaces[k]);
    assert(from.live_rows(n).contains(row));
    let i = choose|i: int| 0 <= i < from.live_rows(n).len() && from.live_rows(n)[i] == row;
    assert(from.found_rows()[i] == row);
}

/// The project of a workspace is the one that it was bound to, wherever its panes
/// are: it is never guessed from their directories.
pub proof fn bound_project_is_never_guessed(from: Sources, workspace: WorkspaceModel)
    requires
        model::bound_directory(from.bound, workspace.workspace_id) is Some,
    ensures
        from.open_row(workspace).path == model::bound_directory(
            from.bound,
            workspace.workspace_id,
        )->0,
        forall|panes: Seq<crate::herdr::PaneModel>| (#[trigger] (Sources {
            panes,
            ..from
        }).open_row(workspace)).path == from.open_row(workspace).path,
{
}

/// Every row of a workspace is that of a live workspace.
pub proof fn every_open_row_is_live(from: Sources, i: int)
    requires
        0 <= i < from.rows().len(),
        from.rows()[i].kind is Open,
    ensures
        exists|k: int|
            0 <= k < from.workspaces.len() && from.rows()[i] == #[trigger] from.open_row(
                from.workspaces[k],
            ),
{
    let n = from.workspaces.len();
    let live = from.live_rows(n);
    let projects = from.dormant_rows(from.dormant.len());
    lemma_live_rows(from, n);
    lemma_dormant_rows(from, from.dormant.len());
    ranking_keeps_every_row(from);
    let row = from.rows()[i];
    assert(from.found_rows().contains(row));
    let f = choose|f: int| 0 <= f < from.found_rows().len() && from.found_rows()[f] == row;
    if f < live.len() {
        assert(live[f] == row);
    } else {
        assert(projects[f - live.len()] == row);
    }
}

/// One project, one workspace: a directory that a live workspace has is never
/// offered as a project.
pub proof fn no_project_row_is_open(from: Sources, i: int, k: int)
    requires
        0 <= i < from.rows().len(),
        from.rows()[i].kind is Dormant,
        0 <= k < from.workspaces.len(),
    ensures
        !paths::same_path(from.open_row(from.workspaces[k]).path, from.rows()[i].path),
{
    let n = from.workspaces.len();
    let live = from.live_rows(n);
    let projects = from.dormant_rows(from.dormant.len());
    lemma_live_rows(from, n);
    lemma_dormant_rows(from, from.dormant.len());
    ranking_keeps_every_row(from);
    let row = from.rows()[i];
    assert(from.found_rows().contains(row));
    let f = choose|f: int| 0 <= f < from.found_rows().len() && from.found_rows()[f] == row;
    if f < live.len() {
        assert(live[f] == row);
    } else {
        assert(projects[f - live.len()] == row);
        assert(!from.is_open(row.path));
        assert(from.open_row(from.workspaces[k]).path == from.place(from.workspaces[k]).path);
    }
}

/// Keys of the first rows decide the order of the first rows.
proof fn lemma_order_of_front(from: Sources, n: nat)
    requires
        from.live_rows(from.workspaces.len()).len() <= n <= from.found_rows().len(),
    ensures
        ({
            let live = from.live_rows(from.workspaces.len()).len();
            let places = order::ordered_prefix::<RowKey>(from.row_keys(), n);
            &&& places.len() == n
            &&& forall|i: int| live <= i < n ==> #[trigger] places[i] == i
            &&& places.take(live as int) == order::ordered_prefix::<RowKey>(from.row_keys(), live)
        }),
    decreases n,
{
    let live = from.live_rows(from.workspaces.len()).len();
    let keys = from.row_keys();
    let places = order::ordered_prefix::<RowKey>(keys, n);
    order::lemma_ordered_prefix::<RowKey>(keys, n);
    if n == live {
        assert(places.take(live as int) =~= places);
    } else {
        let before = order::ordered_prefix::<RowKey>(keys, (n - 1) as nat);
        lemma_order_of_front(from, (n - 1) as nat);
        lemma_dormant_rows(from, from.dormant.len());
        order::lemma_ordered_prefix::<RowKey>(keys, (n - 1) as nat);
        let x = n - 1;
        assert(from.found_rows()[x] == from.dormant_rows(from.dormant.len())[x - live]);
        assert(keys[x].group == 3);
        if before.len() > 0 {
            let last = before.last();
            assert(before[before.len() - 1] == last);
            assert(keys[last].group <= 3);
            assert(RowKey::precedes(keys[last], keys[x]));
        }
        assert(places == before.push(x));
        assert(places.take(live as int) =~= before.take(live as int));
    }
}

/// Projects keep the order of their sources, below everything that is live.
pub proof fn projects_keep_their_order(from: Sources)
    ensures
        ({
            let live = from.live_rows(from.workspaces.len()).len() as int;
            from.rows().len() >= live && from.rows().skip(live) == from.dormant_rows(
                from.dormant.len(),
            )
        }),
{
    let live = from.live_rows(from.workspaces.len()).len();
    let projects = from.dormant_rows(from.dormant.len());
    lemma_order_of_front(from, from.found_rows().len());
    let places = order::ordered::<RowKey>(from.row_keys());
    assert forall|i: int| 0 <= i < projects.len() implies from.rows()[live + i] == #[trigger] projects[i] by {
        assert(places[live + i] == live + i);
        assert(from.found_rows()[live + i] == projects[i]);
    }
    assert(from.rows().skip(live as int) =~= projects);
}

/// Telling spaces apart changes nothing else about a row.
pub proof fn disambiguation_keeps_identity(
    rows: Seq<RowModel>,
    branches: Seq<(Seq<char>, Seq<char>)>,
    i: int,
)
    requires
        0 <= i < rows.len(),
    ensures
        ({
            let row = model::disambiguated(rows, branches)[i];
            &&& row.id() == rows[i].id()
            &&& row.kind == rows[i].kind
            &&& row.path == rows[i].path
            &&& row.name == rows[i].name
            &&& row.space is Some == rows[i].space is Some
            &&& row.space is Some ==> row.space->0.label == rows[i].space->0.label
        }),
{
}

/// The owner of a space does not depend on disambiguators.
proof fn lemma_owner_kept(
    rows: Seq<RowModel>,
    branches: Seq<(Seq<char>, Seq<char>)>,
    workspace: Seq<char>,
    i: int,
)
    requires
        0 <= i <= rows.len(),
    ensures
        model::space_owner(model::disambiguated(rows, branches), workspace, i)
            == model::space_owner(rows, workspace, i),
    decreases rows.len() - i,
{
    if i < rows.len() {
        lemma_owner_kept(rows, branches, workspace, i + 1);
        disambiguation_keeps_identity(rows, branches, i);
    }
}

/// An owner found is a labelled live workspace of that id.
proof fn lemma_owner_found(rows: Seq<RowModel>, workspace: Seq<char>, i: int)
    requires
        0 <= i <= rows.len(),
    ensures
        model::space_owner(rows, workspace, i) matches Some(owner) ==> i <= owner < rows.len()
            && rows[owner].kind is Open && rows[owner].space is Some
            && rows[owner].kind.workspace() == Some(workspace),
    decreases rows.len() - i,
{
    if i < rows.len() {
        lemma_owner_found(rows, workspace, i + 1);
    }
}

/// What tells a space apart does not depend on earlier disambiguators.
proof fn lemma_disambiguator_kept(
    rows: Seq<RowModel>,
    branches: Seq<(Seq<char>, Seq<char>)>,
    i: int,
)
    requires
        0 <= i < rows.len(),
        rows[i].space is Some,
    ensures
        model::disambiguator(model::disambiguated(rows, branches), branches, i)
            == model::disambiguator(rows, branches, i),
{
    let after = model::disambiguated(rows, branches);
    let label = rows[i].space->0.label;
    disambiguation_keeps_identity(rows, branches, i);
    assert forall|j: int| model::opens_space(after, j, label) == model::opens_space(rows, j, label) by {
        if 0 <= j < rows.len() {
            disambiguation_keeps_identity(rows, branches, j);
        }
    }
    if model::label_is_shared(rows, i, label) {
        let j = choose|j: int| j != i && #[trigger] model::opens_space(rows, j, label);
        assert(model::opens_space(after, j, label));
    }
    if model::label_is_shared(after, i, label) {
        let j = choose|j: int| j != i && #[trigger] model::opens_space(after, j, label);
        assert(model::opens_space(rows, j, label));
    }
    if model::directory_is_shared(rows, i, label) {
        let j = choose|j: int|
            j != i && #[trigger] model::opens_space(rows, j, label) && model::display_name(
                rows[j].path,
            ) == model::display_name(rows[i].path);
        assert(model::opens_space(after, j, label));
        disambiguation_keeps_identity(rows, branches, j);
    }
    if model::directory_is_shared(after, i, label) {
        let j = choose|j: int|
            j != i && #[trigger] model::opens_space(after, j, label) && model::display_name(
                after[j].path,
            ) == model::display_name(after[i].path);
        assert(model::opens_space(rows, j, label));
        disambiguation_keeps_identity(rows, branches, j);
    }
}

/// Telling spaces apart twice is telling them apart once.
pub proof fn disambiguation_is_idempotent(
    rows: Seq<RowModel>,
    branches: Seq<(Seq<char>, Seq<char>)>,
)
    ensures
        model::disambiguated(model::disambiguated(rows, branches), branches)
            == model::disambiguated(rows, branches),
{
    let once = model::disambiguated(rows, branches);
    let twice = model::disambiguated(once, branches);
    assert forall|i: int| 0 <= i < rows.len() implies #[trigger] twice[i] == once[i] by {
        disambiguation_keeps_identity(rows, branches, i);
        if rows[i].space is Some && rows[i].kind.workspace() is Some {
            let workspace = rows[i].kind.workspace()->0;
            lemma_owner_kept(rows, branches, workspace, 0);
            lemma_owner_found(rows, workspace, 0);
            if model::space_owner(rows, workspace, 0) is Some {
                lemma_disambiguator_kept(
                    rows,
                    branches,
                    model::space_owner(rows, workspace, 0)->0,
                );
            }
        }
        assert(twice[i] =~= once[i]);
    }
    assert(twice =~= once);
}

/// Rows of one workspace are told apart alike.
pub proof fn rows_of_a_workspace_are_told_apart_alike(
    rows: Seq<RowModel>,
    branches: Seq<(Seq<char>, Seq<char>)>,
    i: int,
    j: int,
)
    requires
        0 <= i < rows.len(),
        0 <= j < rows.len(),
        rows[i].space is Some,
        rows[j].space is Some,
        rows[i].kind.workspace() is Some,
        rows[i].kind.workspace() == rows[j].kind.workspace(),
        model::space_owner(rows, rows[i].kind.workspace()->0, 0) is Some,
    ensures
        model::disambiguated(rows, branches)[i].space->0.disambiguator == model::disambiguated(
            rows,
            branches,
        )[j].space->0.disambiguator,
{
}

/// Rows that belong together belong together from either side.
pub proof fn relation_is_symmetric(a: RowModel, b: RowModel)
    ensures
        model::related(a, b) == model::related(b, a),
        !model::related(a, a),
{
}

/// The rows are those found, in the stable order of their keys.
pub proof fn lemma_rows_are_sorted(from: Sources)
    ensures
        from.rows() == order_laws::sorted_by::<RowKey, RowModel>(
            from.found_rows(),
            |row: RowModel| model::row_key(row, from.mru, from.origin),
        ),
{
    order_laws::arranged_is_sorted_by::<RowKey, RowModel>(
        from.found_rows(),
        from.row_keys(),
        |row: RowModel| model::row_key(row, from.mru, from.origin),
    );
}

/// A filter that keeps every item keeps the list.
proof fn lemma_all_kept(items: Seq<RowModel>, keep: spec_fn(RowModel) -> bool)
    requires
        forall|i: int| 0 <= i < items.len() ==> keep(#[trigger] items[i]),
    ensures
        items.filter(keep) == items,
    decreases items.len(),
{
    reveal(Seq::filter);
    if items.len() > 0 {
        lemma_all_kept(items.drop_last(), keep);
        assert(keep(items[items.len() - 1]));
        assert(items.drop_last().push(items.last()) =~= items);
    }
}

/// A filter that keeps no item keeps nothing.
proof fn lemma_none_kept(items: Seq<RowModel>, keep: spec_fn(RowModel) -> bool)
    requires
        forall|i: int| 0 <= i < items.len() ==> !keep(#[trigger] items[i]),
    ensures
        items.filter(keep) == Seq::<RowModel>::empty(),
    decreases items.len(),
{
    reveal(Seq::filter);
    if items.len() > 0 {
        lemma_none_kept(items.drop_last(), keep);
        assert(!keep(items[items.len() - 1]));
    } else {
        assert(items =~= Seq::empty());
    }
}

/// What a filter keeps of the rows of the first `n` workspaces.
pub proof fn lemma_live_rows_filtered(from: Sources, keep: spec_fn(RowModel) -> bool, n: nat)
    requires
        0 < n <= from.workspaces.len(),
    ensures
        from.live_rows(n).filter(keep) == from.live_rows((n - 1) as nat).filter(keep)
            + from.tab_rows(from.workspaces[n - 1], from.tabs.len()).filter(keep)
            + from.pane_rows(from.workspaces[n - 1], from.panes.len()).filter(keep)
            + seq![from.open_row(from.workspaces[n - 1])].filter(keep),
{
    let workspace = from.workspaces[n - 1];
    let front = from.live_rows((n - 1) as nat);
    let tabs = from.tab_rows(workspace, from.tabs.len());
    let panes = from.pane_rows(workspace, from.panes.len());
    let open = seq![from.open_row(workspace)];
    Seq::filter_distributes_over_add(front + tabs + panes, open, keep);
    Seq::filter_distributes_over_add(front + tabs, panes, keep);
    Seq::filter_distributes_over_add(front, tabs, keep);
}

/// The rows of live workspaces among rows.
pub open spec fn open_rows(rows: Seq<RowModel>) -> Seq<RowModel> {
    rows.filter(|row: RowModel| row.kind is Open)
}

/// A row without the names of its workspace's panes.
pub open spec fn without_pane_names(row: RowModel) -> RowModel {
    RowModel { pane_names: Seq::empty(), ..row }
}

/// The rows of live workspaces found, one for each workspace.
proof fn lemma_open_rows_found(from: Sources, n: nat)
    requires
        n <= from.workspaces.len(),
    ensures
        open_rows(from.live_rows(n)) == from.workspaces.take(n as int).map_values(
            |workspace: WorkspaceModel| from.open_row(workspace),
        ),
    decreases n,
{
    let keep = |row: RowModel| row.kind is Open;
    let shown = |workspace: WorkspaceModel| from.open_row(workspace);
    if n == 0 {
        lemma_none_kept(from.live_rows(0), keep);
        assert(from.workspaces.take(0).map_values(shown) =~= Seq::empty());
    } else {
        let m = (n - 1) as nat;
        let workspace = from.workspaces[n - 1];
        lemma_open_rows_found(from, m);
        lemma_live_rows_filtered(from, keep, n);
        lemma_tab_rows(from, workspace, from.tabs.len());
        lemma_none_kept(from.tab_rows(workspace, from.tabs.len()), keep);
        lemma_pane_rows(from, workspace, from.panes.len());
        lemma_none_kept(from.pane_rows(workspace, from.panes.len()), keep);
        lemma_all_kept(seq![from.open_row(workspace)], keep);
        assert(from.live_rows(n).filter(keep) =~= from.live_rows(m).filter(keep).push(
            from.open_row(workspace),
        ));
        assert(from.workspaces.take(n as int).map_values(shown) =~= from.workspaces.take(
            m as int,
        ).map_values(shown).push(from.open_row(workspace)));
    }
}

/// The rows of live workspaces are ordered among themselves alone.
pub proof fn lemma_open_rows_are_sorted(from: Sources)
    ensures
        open_rows(from.rows()) == order_laws::sorted_by::<RowKey, RowModel>(
            from.workspaces.map_values(|workspace: WorkspaceModel| from.open_row(workspace)),
            |row: RowModel| model::row_key(row, from.mru, from.origin),
        ),
{
    let keep = |row: RowModel| row.kind is Open;
    let key = |row: RowModel| model::row_key(row, from.mru, from.origin);
    let live = from.live_rows(from.workspaces.len());
    let dormant = from.dormant_rows(from.dormant.len());
    lemma_rows_are_sorted(from);
    order_laws::filtering_keeps_the_order::<RowKey, RowModel>(from.found_rows(), key, keep);
    Seq::filter_distributes_over_add(live, dormant, keep);
    lemma_dormant_rows(from, from.dormant.len());
    lemma_none_kept(dormant, keep);
    lemma_open_rows_found(from, from.workspaces.len());
    assert(from.workspaces.take(from.workspaces.len() as int) =~= from.workspaces);
    assert(live.filter(keep) + Seq::<RowModel>::empty() =~= live.filter(keep));
}

/// Coming before as a root carries over.
proof fn lemma_root_before_carries(a: PaneModel, b: PaneModel, c: PaneModel)
    requires
        model::root_before(a, b),
        model::root_before(b, c),
    ensures
        model::root_before(a, c),
{
    text::lemma_at_most_total(a.pane_id, b.pane_id);
    if text::at_most(c.pane_id, a.pane_id) && text::at_most(a.pane_id, b.pane_id) {
        text::lemma_at_most_transitive(c.pane_id, a.pane_id, b.pane_id);
    }
}

/// No pane of the workspace comes before its root pane, and a workspace with a
/// pane has a root pane.
pub proof fn lemma_root_is_least(panes: Seq<PaneModel>, id: Seq<char>, n: nat)
    requires
        n <= panes.len(),
    ensures
        match model::root_pane(panes, id, n) {
            Some(best) => 0 <= best < n && panes[best].workspace_id == id && forall|k: int|
                0 <= k < n && (#[trigger] panes[k]).workspace_id == id ==> !model::root_before(
                    panes[k],
                    panes[best],
                ),
            None => forall|k: int| 0 <= k < n ==> (#[trigger] panes[k]).workspace_id != id,
        },
    decreases n,
{
    if n > 0 {
        let m = (n - 1) as nat;
        lemma_root_is_least(panes, id, m);
        if let Some(best) = model::root_pane(panes, id, n) {
            text::lemma_at_most_total(panes[best].pane_id, panes[best].pane_id);
            assert forall|k: int|
                0 <= k < n && (#[trigger] panes[k]).workspace_id
                    == id implies !model::root_before(panes[k], panes[best]) by {
                if best == m && k < m && model::root_before(panes[k], panes[best]) {
                    let earlier = model::root_pane(panes, id, m)->0;
                    lemma_root_before_carries(panes[k], panes[best], panes[earlier]);
                }
            }
        }
    }
}

/// Whether no two panes have the same id.
pub open spec fn ids_differ(panes: Seq<PaneModel>) -> bool {
    forall|i: int, j: int|
        0 <= i < j < panes.len() ==> (#[trigger] panes[i]).pane_id != (#[trigger] panes[j]).pane_id
}

/// Two lists of the same panes hold each other's panes.
proof fn lemma_same_panes(a: Seq<PaneModel>, b: Seq<PaneModel>, k: int)
    requires
        a.to_multiset() == b.to_multiset(),
        0 <= k < a.len(),
    ensures
        b.contains(a[k]),
{
    a.to_multiset_ensures();
    b.to_multiset_ensures();
    assert(a.contains(a[k]));
    assert(a.to_multiset().count(a[k]) > 0);
}

/// The root pane of a workspace does not depend on the order in which panes are
/// listed.
proof fn lemma_root_is_unordered(a: Sources, b: Sources, id: Seq<char>)
    requires
        ids_differ(a.panes),
        a.panes.to_multiset() == b.panes.to_multiset(),
    ensures
        a.root(id) == b.root(id),
{
    lemma_root_is_least(a.panes, id, a.panes.len());
    lemma_root_is_least(b.panes, id, b.panes.len());
    let left = model::root_pane(a.panes, id, a.panes.len());
    let right = model::root_pane(b.panes, id, b.panes.len());
    if let Some(i) = left {
        lemma_same_panes(a.panes, b.panes, i);
        let there = choose|k: int| 0 <= k < b.panes.len() && b.panes[k] == a.panes[i];
        assert(b.panes[there].workspace_id == id);
    }
    if let Some(j) = right {
        lemma_same_panes(b.panes, a.panes, j);
        let here = choose|k: int| 0 <= k < a.panes.len() && a.panes[k] == b.panes[j];
        assert(a.panes[here].workspace_id == id);
        if let Some(i) = left {
            lemma_same_panes(a.panes, b.panes, i);
            let there = choose|k: int| 0 <= k < b.panes.len() && b.panes[k] == a.panes[i];
            assert(!model::root_before(a.panes[here], a.panes[i]));
            assert(!model::root_before(b.panes[there], b.panes[j]));
            text::lemma_at_most_antisymmetric(a.panes[i].pane_id, a.panes[here].pane_id);
            assert(here == i);
        }
    }
}

/// The lowest-numbered pane of a workspace decides, not the one listed first: the
/// rows of live workspaces, but for the names of their panes, do not depend on the
/// order in which panes are listed.
pub proof fn open_rows_ignore_pane_order(from: Sources, panes: Seq<PaneModel>)
    requires
        ids_differ(from.panes),
        panes.to_multiset() == from.panes.to_multiset(),
    ensures
        open_rows((Sources { panes, ..from }).rows()).map_values(
            |row: RowModel| without_pane_names(row),
        ) == open_rows(from.rows()).map_values(|row: RowModel| without_pane_names(row)),
{
    let other = Sources { panes, ..from };
    let key = |row: RowModel| model::row_key(row, from.mru, from.origin);
    let change = |row: RowModel| without_pane_names(row);
    let here = from.workspaces.map_values(|workspace: WorkspaceModel| from.open_row(workspace));
    let there = from.workspaces.map_values(|workspace: WorkspaceModel| other.open_row(workspace));
    lemma_open_rows_are_sorted(from);
    lemma_open_rows_are_sorted(other);
    order_laws::order_goes_by_keys::<RowKey, RowModel>(here, key, change);
    order_laws::order_goes_by_keys::<RowKey, RowModel>(there, key, change);
    assert forall|i: int| 0 <= i < from.workspaces.len() implies here.map_values(change)[i]
        == there.map_values(change)[i] by {
        lemma_root_is_unordered(from, other, from.workspaces[i].workspace_id);
    }
    assert(here.map_values(change) =~= there.map_values(change));
}

/// Rows without the tab rows and without the names of tabs.
pub open spec fn without_tabs(rows: Seq<RowModel>) -> Seq<RowModel> {
    rows.filter(|row: RowModel| row.kind !is Tab).map_values(
        |row: RowModel| RowModel { tab_names: Seq::empty(), ..row },
    )
}

/// Rows of panes do not speak of tabs' names.
proof fn lemma_pane_rows_untabbed(
    from: Sources,
    bare: Sources,
    workspace: WorkspaceModel,
    n: nat,
)
    requires
        bare == (Sources { tabs: Seq::empty(), ..from }),
        n <= from.panes.len(),
    ensures
        without_tabs(from.pane_rows(workspace, n)) == bare.pane_rows(workspace, n),
    decreases n,
{
    reveal(Seq::filter);
    let change = |row: RowModel| RowModel { tab_names: Seq::empty(), ..row };
    if n == 0 {
        assert(without_tabs(from.pane_rows(workspace, n)) =~= bare.pane_rows(workspace, n));
    } else {
        let m = (n - 1) as nat;
        lemma_pane_rows_untabbed(from, bare, workspace, m);
        if from.shows_pane(workspace, from.panes[n - 1]) {
            let row = from.pane_row(workspace, from.panes[n - 1]);
            let front = from.pane_rows(workspace, m);
            assert(front.push(row).drop_last() =~= front);
            assert(change(row) =~= bare.pane_row(workspace, from.panes[n - 1]));
            assert(without_tabs(front.push(row)) =~= without_tabs(front).push(change(row)));
        }
    }
}

/// Rows of live workspaces without tabs.
proof fn lemma_live_rows_untabbed(from: Sources, bare: Sources, n: nat)
    requires
        bare == (Sources { tabs: Seq::empty(), ..from }),
        n <= from.workspaces.len(),
    ensures
        without_tabs(from.live_rows(n)) == bare.live_rows(n),
    decreases n,
{
    let keep = |row: RowModel| row.kind !is Tab;
    let change = |row: RowModel| RowModel { tab_names: Seq::empty(), ..row };
    if n == 0 {
        lemma_none_kept(from.live_rows(0), keep);
        assert(without_tabs(from.live_rows(0)) =~= bare.live_rows(0));
    } else {
        let m = (n - 1) as nat;
        let workspace = from.workspaces[n - 1];
        lemma_live_rows_untabbed(from, bare, m);
        lemma_live_rows_filtered(from, keep, n);
        lemma_tab_rows(from, workspace, from.tabs.len());
        lemma_none_kept(from.tab_rows(workspace, from.tabs.len()), keep);
        lemma_pane_rows_untabbed(from, bare, workspace, from.panes.len());
        lemma_all_kept(seq![from.open_row(workspace)], keep);
        assert(change(from.open_row(workspace)) =~= bare.open_row(workspace));
        assert(bare.tab_rows(workspace, 0) =~= Seq::empty());
        assert(without_tabs(from.live_rows(n)) =~= without_tabs(from.live_rows(m))
            + without_tabs(from.pane_rows(workspace, from.panes.len())) + seq![
            change(from.open_row(workspace)),
        ]);
        assert(bare.live_rows(n) =~= bare.live_rows(m) + bare.pane_rows(
            workspace,
            bare.panes.len(),
        ) + seq![bare.open_row(workspace)]);
    }
}

/// Rows of projects do not speak of tabs.
proof fn lemma_dormant_rows_untabbed(from: Sources, bare: Sources, n: nat)
    requires
        bare == (Sources { tabs: Seq::empty(), ..from }),
        n <= from.dormant.len(),
    ensures
        without_tabs(from.dormant_rows(n)) == bare.dormant_rows(n),
    decreases n,
{
    reveal(Seq::filter);
    let change = |row: RowModel| RowModel { tab_names: Seq::empty(), ..row };
    if n == 0 {
        assert(without_tabs(from.dormant_rows(n)) =~= bare.dormant_rows(n));
    } else {
        let m = (n - 1) as nat;
        let path = from.dormant[n - 1].path;
        lemma_dormant_rows_untabbed(from, bare, m);
        assert(from.is_open(path) == bare.is_open(path)) by {
            assert forall|i: int| 0 <= i < from.workspaces.len() implies from.place(
                #[trigger] from.workspaces[i],
            ) == bare.place(from.workspaces[i]) by {}
            if from.is_open(path) {
                let i = choose|i: int|
                    0 <= i < from.workspaces.len() && paths::same_path(
                        (#[trigger] from.place(from.workspaces[i])).path,
                        path,
                    );
                assert(paths::same_path(bare.place(bare.workspaces[i]).path, path));
            }
            if bare.is_open(path) {
                let i = choose|i: int|
                    0 <= i < bare.workspaces.len() && paths::same_path(
                        (#[trigger] bare.place(bare.workspaces[i])).path,
                        path,
                    );
                assert(paths::same_path(from.place(from.workspaces[i]).path, path));
            }
        }
        if !from.is_open(path) {
            let row = from.dormant_row(from.dormant[n - 1]);
            let front = from.dormant_rows(m);
            assert(front.push(row).drop_last() =~= front);
            assert(change(row) =~= row);
            assert(without_tabs(front.push(row)) =~= without_tabs(front).push(change(row)));
        }
    }
}

/// Without tabs the rows are the same, in the same order, less the tab rows and
/// the names of tabs.
pub proof fn tabs_only_add_their_rows(from: Sources)
    ensures
        (Sources { tabs: Seq::empty(), ..from }).rows() == without_tabs(from.rows()),
{
    let bare = Sources { tabs: Seq::empty(), ..from };
    let keep = |row: RowModel| row.kind !is Tab;
    let change = |row: RowModel| RowModel { tab_names: Seq::empty(), ..row };
    let key = |row: RowModel| model::row_key(row, from.mru, from.origin);
    let live = from.live_rows(from.workspaces.len());
    let dormant = from.dormant_rows(from.dormant.len());
    lemma_rows_are_sorted(from);
    lemma_rows_are_sorted(bare);
    order_laws::filtering_keeps_the_order::<RowKey, RowModel>(from.found_rows(), key, keep);
    order_laws::order_goes_by_keys::<RowKey, RowModel>(
        from.found_rows().filter(keep),
        key,
        change,
    );
    lemma_live_rows_untabbed(from, bare, from.workspaces.len());
    lemma_dormant_rows_untabbed(from, bare, from.dormant.len());
    Seq::filter_distributes_over_add(live, dormant, keep);
    assert(without_tabs(from.found_rows()) =~= without_tabs(live) + without_tabs(dormant));
}

/// Each symbol of a public number has a value of its own, and there are 32.
proof fn lemma_symbol(c: char)
    ensures
        text::position(herdr::public_alphabet(), c) matches Some(at) ==> 0 <= at < 32
            && herdr::public_alphabet()[at] == c,
{
    reveal_strlit("123456789ABCDEFGHJKMNPQRSTVWXYZ0");
    text::position_is_the_first(herdr::public_alphabet(), c);
}

/// How far apart the values of suffixes of one length can be: the first symbol in
/// which they differ decides.
proof fn lemma_public_order(a: Seq<char>, b: Seq<char>, k: int)
    requires
        herdr::public_value(a) is Some,
        herdr::public_value(b) is Some,
        a.len() == b.len(),
        0 <= k < a.len(),
        a.take(k) == b.take(k),
        text::position(herdr::public_alphabet(), a[k])->0 < text::position(
            herdr::public_alphabet(),
            b[k],
        )->0,
    ensures
        herdr::public_value(a)->0 < herdr::public_value(b)->0,
    decreases a.len(),
{
    lemma_symbol(a.last());
    lemma_symbol(b.last());
    let x = a.drop_last();
    let y = b.drop_last();
    if k == a.len() - 1 {
        assert(x =~= a.take(k));
        assert(y =~= b.take(k));
    } else {
        assert(x.take(k) =~= a.take(k));
        assert(y.take(k) =~= b.take(k));
        lemma_public_order(x, y, k);
    }
}

/// The least and the greatest value of suffixes of one length lie between those of
/// shorter and of longer ones.
proof fn lemma_public_range(digits: Seq<char>)
    requires
        herdr::public_value(digits) is Some,
    ensures
        repunit(digits.len()) <= herdr::public_value(digits)->0 < repunit(digits.len() + 1),
    decreases digits.len(),
{
    if digits.len() > 0 {
        lemma_public_range(digits.drop_last());
        lemma_symbol(digits.last());
        let before = repunit(digits.len());
        assert(repunit(digits.len() + 1) == before * 32 + 1);
    }
}

/// The value of so many symbols that are each worth one.
spec fn repunit(n: nat) -> nat
    decreases n,
{
    if n == 0 {
        0
    } else {
        repunit((n - 1) as nat) * 32 + 1
    }
}

/// More symbols never make a smaller repunit.
proof fn lemma_repunits_grow(m: nat, n: nat)
    requires
        m <= n,
    ensures
        repunit(m) <= repunit(n),
    decreases n,
{
    if m < n {
        lemma_repunits_grow(m, (n - 1) as nat);
    }
}

/// Public numbers come in the order in which they are given out: a longer suffix
/// stands for the greater number, and of two of one length the first symbol in
/// which they differ decides.
pub proof fn public_numbers_come_in_order(a: Seq<char>, b: Seq<char>, k: int)
    requires
        herdr::public_number(a) is Some,
        herdr::public_number(b) is Some,
    ensures
        a.len() < b.len() ==> herdr::public_number(a)->0 < herdr::public_number(b)->0,
        a.len() == b.len() && 0 <= k < a.len() && a.take(k) == b.take(k) && text::position(
            herdr::public_alphabet(),
            a[k],
        )->0 < text::position(herdr::public_alphabet(), b[k])->0 ==> herdr::public_number(a)->0
            < herdr::public_number(b)->0,
{
    lemma_public_range(a);
    lemma_public_range(b);
    if a.len() < b.len() {
        lemma_repunits_grow(a.len() + 1, b.len());
    } else if a.len() == b.len() && 0 <= k < a.len() && a.take(k) == b.take(k) && text::position(
        herdr::public_alphabet(),
        a[k],
    )->0 < text::position(herdr::public_alphabet(), b[k])->0 {
        lemma_public_order(a, b, k);
    }
}

/// Suffixes of one length with the same value are the same.
proof fn lemma_public_values_differ(a: Seq<char>, b: Seq<char>)
    requires
        herdr::public_value(a) is Some,
        herdr::public_value(a) == herdr::public_value(b),
        a.len() == b.len(),
    ensures
        a == b,
    decreases a.len(),
{
    if a.len() == 0 {
        assert(a =~= b);
    } else {
        lemma_symbol(a.last());
        lemma_symbol(b.last());
        let x = herdr::public_value(a.drop_last())->0;
        let y = herdr::public_value(b.drop_last())->0;
        assert(x == y);
        lemma_public_values_differ(a.drop_last(), b.drop_last());
        assert(a =~= a.drop_last().push(a.last()));
        assert(b =~= b.drop_last().push(b.last()));
    }
}

/// No two suffixes stand for the same public number.
pub proof fn public_numbers_differ(a: Seq<char>, b: Seq<char>)
    requires
        herdr::public_number(a) is Some,
        herdr::public_number(a) == herdr::public_number(b),
    ensures
        a == b,
{
    public_numbers_come_in_order(a, b, 0);
    public_numbers_come_in_order(b, a, 0);
    lemma_public_values_differ(a, b);
}

} // verus!
