//! What holds of the picker as a whole.

use vstd::prelude::*;
use crate::model::{RowIdModel, RowModel};
use crate::paths;
use crate::picker;
use crate::picker::{OutcomeModel, PickerModel};
use crate::render::{Listing, ListSource};
use crate::search;
use crate::session::{FeedModel, Key, KeyPress, RunModel};
use crate::refresh::MessageModel;
use crate::text;

verus! {

/// Identity of rows is an equivalence.
pub proof fn identity_is_an_equivalence(a: RowIdModel, b: RowIdModel, c: RowIdModel)
    ensures
        a.same(a),
        a.same(b) ==> b.same(a),
        a.same(b) && b.same(c) ==> a.same(c),
{
    match (a, b, c) {
        (RowIdModel::Project(x), RowIdModel::Project(y), RowIdModel::Project(z)) => {
            paths::same_path_is_an_equivalence(x, y, z);
        },
        (RowIdModel::Project(x), RowIdModel::Project(y), _) => {
            paths::same_path_is_an_equivalence(x, y, y);
        },
        (RowIdModel::Project(x), _, _) => {
            paths::same_path_is_an_equivalence(x, x, x);
        },
        _ => {},
    }
}

/// The first shown row with an identity has that identity, and there is one
/// where any shown row has it.
proof fn lemma_place_with(rows: Seq<RowModel>, filtered: Seq<int>, id: RowIdModel, i: int)
    requires
        0 <= i,
    ensures
        match picker::place_with(rows, filtered, id, i) {
            Some(place) => i <= place < filtered.len() && rows[filtered[place]].id().same(id),
            None => forall|k: int|
                i <= k < filtered.len() ==> !rows[#[trigger] filtered[k]].id().same(id),
        },
    decreases filtered.len() - i,
{
    if i < filtered.len() && !rows[filtered[i]].id().same(id) {
        lemma_place_with(rows, filtered, id, i + 1);
    }
}

/// A refresh keeps the query, and the selected row stays selected wherever it
/// still matches.
pub proof fn selection_survives_a_refresh(state: PickerModel, rows: Seq<RowModel>, place: int)
    requires
        state.selected_row(state.filtered()) is Some,
        0 <= place < search::filtered(rows, state.query).len(),
        rows[search::filtered(rows, state.query)[place]].id().same(
            state.selected_row(state.filtered())->0.id(),
        ),
    ensures
        ({
            let after = state.with_rows(rows);
            &&& after.query == state.query
            &&& after.selected_row(after.filtered()) is Some
            &&& after.selected_row(after.filtered())->0.id().same(
                state.selected_row(state.filtered())->0.id(),
            )
        }),
{
    let filtered = search::filtered(rows, state.query);
    lemma_place_with(rows, filtered, state.selected_row(state.filtered())->0.id(), 0);
}

/// Whatever rows come in or go, the selection stays on a shown row as long as any
/// row is shown.
pub proof fn selection_stays_within(
    state: PickerModel,
    run: RunModel,
    rows: Seq<RowModel>,
    id: RowIdModel,
)
    requires
        0 <= state.selected,
        0 <= run.state.selected,
    ensures
        ({
            let taken = state.with_rows(rows);
            taken.filtered().len() > 0 ==> 0 <= taken.selected < taken.filtered().len()
        }),
        ({
            let partly = state.with_live_rows(rows);
            partly.filtered().len() > 0 ==> 0 <= partly.selected < partly.filtered().len()
        }),
        ({
            let left = state.without(id);
            left.filtered().len() > 0 ==> 0 <= left.selected < left.filtered().len()
        }),
        ({
            let settled = run.settled();
            settled.filtered.len() > 0 ==> 0 <= settled.state.selected < settled.filtered.len()
        }),
{
    let more = rows + state.kept_projects(rows, state.rows.len());
    if let Some(row) = state.selected_row(state.filtered()) {
        lemma_place_with(rows, search::filtered(rows, state.query), row.id(), 0);
        lemma_place_with(more, search::filtered(more, state.query), row.id(), 0);
    }
}

proof fn lemma_kept(state: PickerModel, rows: Seq<RowModel>, n: nat, k: int)
    requires
        0 <= k < n <= state.rows.len(),
        state.rows[k].kind is Dormant,
        !picker::has_id(rows, state.rows[k].id()),
    ensures
        state.kept_projects(rows, n).contains(state.rows[k]),
    decreases n,
{
    let before = state.kept_projects(rows, (n - 1) as nat);
    if k < n - 1 {
        lemma_kept(state, rows, (n - 1) as nat, k);
        let i = choose|i: int| 0 <= i < before.len() && before[i] == state.rows[k];
        if state.kept_projects(rows, n) != before {
            assert(state.kept_projects(rows, n)[i] == before[i]);
        }
    } else {
        assert(state.kept_projects(rows, n)[before.len() as int] == state.rows[k]);
    }
}

/// While projects are still being looked for, no known project disappears: its
/// row, or a fresh one for it, is among the rows; and so is every fresh row.
pub proof fn partial_refresh_keeps_projects(state: PickerModel, rows: Seq<RowModel>, k: int)
    requires
        0 <= k < state.rows.len(),
        state.rows[k].kind is Dormant,
    ensures
        picker::has_id(state.with_live_rows(rows).rows, state.rows[k].id()),
        forall|i: int|
            0 <= i < rows.len() ==> #[trigger] state.with_live_rows(rows).rows[i] == rows[i],
{
    let id = state.rows[k].id();
    let kept = state.kept_projects(rows, state.rows.len());
    let all = rows + kept;
    identity_is_an_equivalence(id, id, id);
    if picker::has_id(rows, id) {
        let i = choose|i: int| 0 <= i < rows.len() && (#[trigger] rows[i]).id().same(id);
        assert(all[i].id().same(id));
    } else {
        lemma_kept(state, rows, state.rows.len(), k);
        let i = choose|i: int| 0 <= i < kept.len() && kept[i] == state.rows[k];
        assert(all[rows.len() + i].id().same(id));
    }
}

/// A removed row is gone, and every other row stays.
pub proof fn removing_takes_only_that_row(state: PickerModel, id: RowIdModel)
    ensures
        !picker::has_id(state.without(id).rows, id),
        forall|k: int|
            0 <= k < state.rows.len() && !(#[trigger] state.rows[k]).id().same(id)
                ==> state.without(id).rows.contains(state.rows[k]),
{
    broadcast use vstd::seq_lib::group_filter_ensures;

    let keep = |row: RowModel| !row.id().same(id);
    let left = state.rows.filter(keep);
    assert forall|i: int| 0 <= i < left.len() implies !(#[trigger] left[i]).id().same(id) by {
        assert(left.contains(left[i]));
        assert(keep(left[i]));
    }
    assert forall|k: int| 0 <= k < state.rows.len() && !(#[trigger] state.rows[k]).id().same(
        id,
    ) implies left.contains(state.rows[k]) by {
        assert(keep(state.rows[k]));
        assert(state.rows.contains(state.rows[k]));
    }
}

proof fn lemma_place_in_section(rows: Seq<RowModel>, filtered: Seq<int>, section: u8, i: int)
    requires
        0 <= i,
    ensures
        match picker::place_in_section(rows, filtered, section, i) {
            Some(place) => i <= place < filtered.len() && rows[filtered[place]].kind.section()
                == section && forall|k: int|
                i <= k < place ==> rows[#[trigger] filtered[k]].kind.section() != section,
            None => forall|k: int|
                i <= k < filtered.len() ==> rows[#[trigger] filtered[k]].kind.section() != section,
        },
    decreases filtered.len() - i,
{
    if i < filtered.len() && rows[filtered[i]].kind.section() != section {
        lemma_place_in_section(rows, filtered, section, i + 1);
    }
}

/// Whether a section shows any row.
pub open spec fn shows_section(rows: Seq<RowModel>, filtered: Seq<int>, section: int) -> bool {
    exists|k: int|
        0 <= k < filtered.len() && rows[#[trigger] filtered[k]].kind.section() == section
}

/// Whether `place` is the first row of the section `offset` after another one,
/// and no section in between shows any row.
pub open spec fn first_row_after(
    rows: Seq<RowModel>,
    filtered: Seq<int>,
    here: int,
    offset: int,
    place: int,
) -> bool {
    &&& 1 <= offset <= 4
    &&& 0 <= place < filtered.len()
    &&& rows[filtered[place]].kind.section() == (here + offset) % 4
    &&& forall|k: int|
        0 <= k < place ==> rows[#[trigger] filtered[k]].kind.section() != (here + offset) % 4
    &&& forall|between: int|
        1 <= between < offset ==> !#[trigger] shows_section(rows, filtered, (here + between) % 4)
}

proof fn lemma_first_in_section(state: PickerModel, filtered: Seq<int>, here: int, offset: int)
    requires
        1 <= offset <= 4,
        0 <= here < 4,
        shows_section(state.rows, filtered, here),
        forall|between: int|
            1 <= between < offset ==> !#[trigger] shows_section(
                state.rows,
                filtered,
                (here + between) % 4,
            ),
    ensures
        state.first_in_section(filtered, here, offset) is Some,
        exists|found: int|
            #[trigger] first_row_after(
                state.rows,
                filtered,
                here,
                found,
                state.first_in_section(filtered, here, offset)->0,
            ),
    decreases 5 - offset,
{
    let section = ((here + offset) % 4) as u8;
    lemma_place_in_section(state.rows, filtered, section, 0);
    match picker::place_in_section(state.rows, filtered, section, 0) {
        Some(place) => {
            assert(first_row_after(state.rows, filtered, here, offset, place));
        },
        None => {
            assert(!shows_section(state.rows, filtered, (here + offset) % 4));
            if offset == 4 {
                assert((here + 4) % 4 == here);
            } else {
                lemma_first_in_section(state, filtered, here, offset + 1);
            }
        },
    }
}

/// Cycling sections selects the first row of the next section that shows any, in
/// the order of the sections and round to the first; rows and query stay.
pub proof fn cycling_skips_empty_sections(state: PickerModel, filtered: Seq<int>)
    requires
        0 <= state.selected < filtered.len(),
    ensures
        state.in_next_section(filtered).rows == state.rows,
        state.in_next_section(filtered).query == state.query,
        exists|offset: int|
            #[trigger] first_row_after(
                state.rows,
                filtered,
                state.rows[filtered[state.selected]].kind.section() as int,
                offset,
                state.in_next_section(filtered).selected,
            ),
{
    let here = state.rows[filtered[state.selected]].kind.section() as int;
    assert(shows_section(state.rows, filtered, here));
    lemma_first_in_section(state, filtered, here, 1);
    let place = state.first_in_section(filtered, here, 1)->0;
    assert(state.in_next_section(filtered).selected == place);
    let offset = choose|found: int|
        #[trigger] first_row_after(state.rows, filtered, here, found, place);
    assert(first_row_after(
        state.rows,
        filtered,
        here,
        offset,
        state.in_next_section(filtered).selected,
    ));
}

/// How many of the first `k` shown rows are live workspaces.
pub open spec fn opens_before(rows: Seq<RowModel>, filtered: Seq<int>, k: nat) -> nat
    decreases k,
{
    if k == 0 {
        0
    } else {
        opens_before(rows, filtered, (k - 1) as nat) + if rows[filtered[k - 1]].kind is Open {
            1nat
        } else {
            0
        }
    }
}

proof fn lemma_opens_grow(rows: Seq<RowModel>, filtered: Seq<int>, i: nat, k: nat)
    requires
        i <= k,
    ensures
        opens_before(rows, filtered, i) <= opens_before(rows, filtered, k),
    decreases k,
{
    if i < k {
        lemma_opens_grow(rows, filtered, i, (k - 1) as nat);
    }
}

/// The live workspace at `k` is found by the number of those between `i` and it.
proof fn lemma_place_of_open(rows: Seq<RowModel>, filtered: Seq<int>, i: nat, k: nat)
    requires
        i <= k < filtered.len(),
        rows[filtered[k as int]].kind is Open,
    ensures
        opens_before(rows, filtered, i) <= opens_before(rows, filtered, k),
        picker::place_of_open(
            rows,
            filtered,
            (opens_before(rows, filtered, k) - opens_before(rows, filtered, i)) as nat,
            i as int,
        ) == Some(k as int),
    decreases k - i,
{
    lemma_opens_grow(rows, filtered, i, k);
    if i < k {
        lemma_opens_grow(rows, filtered, i + 1, k);
        lemma_place_of_open(rows, filtered, i + 1, k);
    }
}

proof fn lemma_listing_opens(source: ListSource, n: nat)
    requires
        n <= source.filtered.len(),
    ensures
        source.listing(n).open_count == opens_before(source.rows, source.filtered, n),
    decreases n,
{
    if n > 0 {
        lemma_listing_opens(source, (n - 1) as nat);
    }
}

/// The number that is shown in front of a live workspace is the one that jumps
/// to it: Alt and that digit selects the row, whatever else is shown.
pub proof fn shown_number_jumps_to_its_row(state: PickerModel, source: ListSource, k: nat)
    requires
        source.rows == state.rows,
        k < source.filtered.len(),
        state.rows[source.filtered[k as int]].kind is Open,
        source.number(source.listing(k), state.rows[source.filtered[k as int]]) is Some,
    ensures
        ({
            let row = state.rows[source.filtered[k as int]];
            let number = source.number(source.listing(k), row)->0;
            let n = picker::digit_index(text::digit(number as nat));
            &&& n is Some
            &&& state.at_open(source.filtered, n->0 as nat) == (
                PickerModel { selected: k as int, ..state },
                Some(row),
            )
        }),
{
    let count = opens_before(state.rows, source.filtered, k);
    lemma_listing_opens(source, k);
    picker::shown_digit_jumps_there(count);
    lemma_place_of_open(state.rows, source.filtered, 0, k);
}

/// What holds of a list that was built up to the first `n` shown rows.
pub open spec fn lists_rows(source: ListSource, listing: Listing, n: nat) -> bool {
    &&& listing.items.len() == listing.positions.len()
    &&& forall|k: int| 0 <= k < n ==> has_line(listing, k)
    &&& forall|i: int, j: int|
        #![trigger listing.positions[i], listing.positions[j]]
        0 <= i < j < listing.positions.len() && listing.positions[i] is Some
            && listing.positions[j] is Some ==> listing.positions[i]->0 < listing.positions[j]->0
    &&& forall|i: int|
        0 <= i < listing.positions.len() && (#[trigger] listing.positions[i]) is Some ==> 0
            <= listing.positions[i]->0 < n
    &&& 0 <= source.selected < n ==> 0 <= listing.selected_position < listing.positions.len()
        && listing.positions[listing.selected_position] == Some(source.selected)
}

/// Whether a shown row has a line in a list.
pub open spec fn has_line(listing: Listing, k: int) -> bool {
    exists|i: int| 0 <= i < listing.positions.len() && #[trigger] listing.positions[i] == Some(k)
}

proof fn lemma_lists_rows(source: ListSource, n: nat)
    ensures
        lists_rows(source, source.listing(n), n),
    decreases n,
{
    if n > 0 {
        let m = (n - 1) as nat;
        lemma_lists_rows(source, m);
        let before = source.listing(m);
        let after = source.listing(n);
        let grown = after.positions.len() as int;
        assert(forall|i: int|
            0 <= i < before.positions.len() ==> #[trigger] after.positions[i]
                == before.positions[i]);
        assert(after.positions[grown - 1] == Some(m as int));
        assert(forall|i: int|
            before.positions.len() <= i < grown - 1 ==> #[trigger] after.positions[i] is None);
        assert forall|k: int| 0 <= k < n implies has_line(after, k) by {
            if k < m {
                assert(has_line(before, k));
                let i = choose|i: int|
                    0 <= i < before.positions.len() && #[trigger] before.positions[i] == Some(k);
                assert(after.positions[i] == Some(k));
            }
        }
    }
}

/// Every shown row has exactly one line, the lines come in the order of the
/// rows, and the line that is marked as selected is the selected row's.
pub proof fn every_shown_row_has_its_line(source: ListSource)
    ensures
        lists_rows(source, source.listing(source.filtered.len()), source.filtered.len()),
{
    lemma_lists_rows(source, source.filtered.len());
}

proof fn lemma_at_open(state: PickerModel, filtered: Seq<int>, n: nat, i: int)
    requires
        0 <= i,
    ensures
        match picker::place_of_open(state.rows, filtered, n, i) {
            Some(place) => i <= place < filtered.len() && state.rows[filtered[place]].kind is Open,
            None => true,
        },
    decreases filtered.len() - i,
{
    if i < filtered.len() {
        if state.rows[filtered[i]].kind is Open {
            if n > 0 {
                lemma_at_open(state, filtered, (n - 1) as nat, i + 1);
            }
        } else {
            lemma_at_open(state, filtered, n, i + 1);
        }
    }
}

/// Whether a row is among the shown ones.
pub open spec fn is_shown(run: RunModel, row: RowModel) -> bool {
    exists|k: int| 0 <= k < run.filtered.len() && run.state.rows[#[trigger] run.filtered[k]] == row
}

/// A key decides only what fits its row: a jump goes to a shown row, a close to
/// a live workspace, a forced new workspace to a directory.
pub proof fn decisions_fit_their_row(run: RunModel, press: KeyPress)
    requires
        0 <= run.state.selected,
    ensures
        match run.pressed(press).1 {
            Some(OutcomeModel::Jump(row)) => is_shown(run, row),
            Some(OutcomeModel::Close(row)) => is_shown(run, row) && row.kind is Open,
            Some(OutcomeModel::ForceNew(row)) => is_shown(run, row) && (row.kind is Open
                || row.kind is Dormant),
            _ => true,
        },
{
    if let Some(row) = run.selected_row() {
        assert(run.state.rows[run.filtered[run.state.selected]] == row);
    }
    if let Key::Char(c) = press.key {
        if let Some(n) = picker::digit_index(c) {
            lemma_at_open(run.state, run.filtered, n as nat, 0);
        }
        if let Some(n) = picker::option_index(c) {
            lemma_at_open(run.state, run.filtered, n as nat, 0);
        }
    }
}

/// Typing and deleting search anew: the selection goes to the top, and no row is
/// touched.
pub proof fn typing_starts_at_the_top(run: RunModel, press: KeyPress)
    requires
        run.pressed(press).0.state.query != run.state.query,
    ensures
        run.pressed(press).0.state.selected == 0,
        run.pressed(press).0.state.rows == run.state.rows,
        run.pressed(press).1 is None,
{
}

/// Escape and Control-C give up, whatever is shown, and change nothing.
pub proof fn giving_up_always_works(run: RunModel, press: KeyPress)
    requires
        press.key is Esc || (press.control && press.key == Key::Char('c')),
    ensures
        run.pressed(press) == (run, Some(OutcomeModel::Cancel)),
{
}

/// Only Enter, a quick jump, the two control keys and giving up decide anything:
/// moving the selection, cycling sections and the mouse never activate a row.
pub proof fn moving_activates_nothing(run: RunModel, press: KeyPress)
    requires
        press.key is Tab || press.key is Up || press.key is Down || press.key is Backspace
            || press.key is Other,
    ensures
        run.pressed(press).1 is None,
        run.pressed(press).0.state.rows == run.state.rows,
{
}

/// Bringing the matching rows up to date twice changes nothing more.
pub proof fn settling_is_idempotent(run: RunModel)
    ensures
        run.settled().settled() == run.settled(),
{
    assert(run.settled().state.filtered() == run.state.filtered());
}

/// A refresh that fails changes no row, no query and no selection.
pub proof fn failed_refresh_keeps_the_rows(run: RunModel, error: Seq<char>)
    ensures
        run.received(FeedModel::Message(MessageModel::Failed(error))).state == run.state,
        run.received(FeedModel::Disconnected).state == run.state,
{
}

} // verus!
