//! What holds of Jump Pane mode as a whole.

use vstd::prelude::*;
use crate::jump_focus;
use crate::jump_focus::{FocusModel, JobModel};
use crate::jump_list;
use crate::jump_list::{JumpModel, PaneRank, Ranking};
use crate::jump_pane;
use crate::jump_pane::{EntryModel, IdentityModel, PaneIdentity, TargetModel};
use crate::jump_session::{AfterFocus, JumpActionModel, JumpRun};
use crate::config::SessionModel;
use crate::herdr;
use crate::herdr::{PaneModel, TabModel};
use crate::lists;
use crate::model_laws;
use crate::order;
use crate::order::Ranked;
use crate::order_laws;
use crate::session::{Key, KeyPress};
use crate::text;

verus! {

/// However rows are shown, the selected one is in view, and the view never
/// exceeds its capacity.
pub proof fn selected_row_is_in_view(total: int, selected: int, capacity: int)
    requires
        0 <= selected < total,
        0 < capacity,
    ensures
        ({
            let start = jump_list::view_start(total, selected, capacity);
            &&& 0 <= start <= selected < start + capacity
            &&& capacity <= total ==> start + capacity <= total
        }),
{
}

/// Two identities that precede each other are the same.
proof fn lemma_identities_ordered(a: IdentityModel, b: IdentityModel)
    requires
        jump_pane::not_after(a, b),
        jump_pane::not_after(b, a),
    ensures
        a == b,
{
    if a.runtime_id != b.runtime_id {
        text::lemma_at_most_antisymmetric(a.runtime_id, b.runtime_id);
    } else {
        text::lemma_at_most_antisymmetric(a.pane_id, b.pane_id);
    }
}

/// Whether every row has an identity of its own.
pub open spec fn told_apart(entries: Seq<EntryModel>) -> bool {
    forall|i: int, j: int|
        #![trigger entries[i], entries[j]]
        0 <= i < j < entries.len() ==> entries[i].identity != entries[j].identity
}

/// Sorted rows are the rows, each once, and in the order of their identities.
proof fn lemma_sorted(entries: Seq<EntryModel>)
    requires
        told_apart(entries),
    ensures
        jump_list::sorted(entries).len() == entries.len(),
        forall|i: int, j: int|
            #![trigger jump_list::sorted(entries)[i], jump_list::sorted(entries)[j]]
            0 <= i < j < entries.len() ==> {
                &&& jump_pane::not_after(
                    jump_list::sorted(entries)[i].identity,
                    jump_list::sorted(entries)[j].identity,
                )
                &&& jump_list::sorted(entries)[i].identity != jump_list::sorted(
                    entries,
                )[j].identity
            },
        forall|entry: EntryModel|
            entries.contains(entry) <==> #[trigger] jump_list::sorted(entries).contains(entry),
{
    let keys = jump_list::identities(entries);
    let places = order::ordered::<PaneIdentity>(keys);
    let rows = jump_list::sorted(entries);
    order::ordering_is_a_stable_sort::<PaneIdentity>(keys);
    assert forall|i: int, j: int|
        #![trigger rows[i], rows[j]]
        0 <= i < j < entries.len() implies {
        &&& jump_pane::not_after(rows[i].identity, rows[j].identity)
        &&& rows[i].identity != rows[j].identity
    } by {
        assert(0 <= places[i] < keys.len() && 0 <= places[j] < keys.len());
        assert(places[i] != places[j]);
        assert(PaneIdentity::precedes(keys[places[i]], keys[places[j]]));
        if places[i] < places[j] {
            assert(entries[places[i]].identity != entries[places[j]].identity);
        } else {
            assert(entries[places[j]].identity != entries[places[i]].identity);
        }
    }
    assert forall|entry: EntryModel| entries.contains(entry) <==> #[trigger] rows.contains(entry) by {
        if entries.contains(entry) {
            let at = choose|at: int| 0 <= at < entries.len() && entries[at] == entry;
            model_laws::permutation_leaves_nothing_out(places, keys.len(), at);
            let i = choose|i: int| 0 <= i < places.len() && places[i] == at;
            assert(rows[i] == entry);
        }
        if rows.contains(entry) {
            let i = choose|i: int| 0 <= i < rows.len() && rows[i] == entry;
            assert(0 <= places[i] < keys.len());
            assert(entries[places[i]] == entry);
        }
    }
}

proof fn lemma_sorted_agree(a: Seq<EntryModel>, b: Seq<EntryModel>, i: int)
    requires
        told_apart(a),
        told_apart(b),
        a.len() == b.len(),
        forall|entry: EntryModel| #[trigger] a.contains(entry) <==> b.contains(entry),
        0 <= i < a.len(),
        forall|k: int| 0 <= k < i ==> jump_list::sorted(a)[k] == jump_list::sorted(b)[k],
    ensures
        jump_list::sorted(a)[i] == jump_list::sorted(b)[i],
{
    lemma_sorted(a);
    lemma_sorted(b);
    let x = jump_list::sorted(a);
    let y = jump_list::sorted(b);
    assert(x.contains(x[i]));
    assert(a.contains(x[i]));
    assert(y.contains(x[i]));
    let j = choose|j: int| 0 <= j < y.len() && y[j] == x[i];
    assert(y.contains(y[i]));
    assert(b.contains(y[i]));
    assert(a.contains(y[i]));
    assert(x.contains(y[i]));
    let k = choose|k: int| 0 <= k < x.len() && x[k] == y[i];
    if j < i {
        assert(x[j] == x[i]);
    }
    if k < i {
        assert(y[k] == y[i]);
    }
    if i < j && i < k {
        assert(jump_pane::not_after(y[i].identity, y[j].identity));
        assert(jump_pane::not_after(x[i].identity, x[k].identity));
        lemma_identities_ordered(x[i].identity, y[i].identity);
    }
}

proof fn lemma_sorted_same(a: Seq<EntryModel>, b: Seq<EntryModel>, n: nat)
    requires
        told_apart(a),
        told_apart(b),
        a.len() == b.len(),
        forall|entry: EntryModel| #[trigger] a.contains(entry) <==> b.contains(entry),
        n <= a.len(),
    ensures
        forall|k: int| 0 <= k < n ==> jump_list::sorted(a)[k] == jump_list::sorted(b)[k],
    decreases n,
{
    if n > 0 {
        lemma_sorted_same(a, b, (n - 1) as nat);
        lemma_sorted_agree(a, b, n - 1);
    }
}

/// The order in which runtimes list their panes does not matter: the same rows
/// give the same list.
pub proof fn order_is_input_independent(state: JumpModel, a: Seq<EntryModel>, b: Seq<EntryModel>)
    requires
        told_apart(a),
        told_apart(b),
        a.len() == b.len(),
        forall|entry: EntryModel| #[trigger] a.contains(entry) <==> b.contains(entry),
    ensures
        state.replaced(a) == state.replaced(b),
{
    lemma_sorted_same(a, b, a.len());
    lemma_sorted(a);
    lemma_sorted(b);
    assert(jump_list::sorted(a) =~= jump_list::sorted(b));
}

proof fn lemma_place_with(
    entries: Seq<EntryModel>,
    filtered: Seq<int>,
    identity: IdentityModel,
    i: int,
)
    requires
        0 <= i,
    ensures
        match jump_list::place_with(entries, filtered, identity, i) {
            Some(place) => i <= place < filtered.len() && entries[filtered[place]].identity
                == identity,
            None => forall|k: int|
                i <= k < filtered.len() ==> entries[#[trigger] filtered[k]].identity != identity,
        },
    decreases filtered.len() - i,
{
    if i < filtered.len() && entries[filtered[i]].identity != identity {
        lemma_place_with(entries, filtered, identity, i + 1);
    }
}

/// Whether an identity is among the rows that match.
pub open spec fn matches_still(
    state: JumpModel,
    rows: Seq<EntryModel>,
    identity: IdentityModel,
) -> bool {
    exists|k: int|
        0 <= k < state.ranking().filtered(rows).len() && rows[#[trigger] state.ranking().filtered(
            rows,
        )[k]].identity == identity
}

/// A refresh, of all runtimes or of one, keeps the query, and the selected pane
/// stays selected wherever it still matches.
pub proof fn selection_survives_a_refresh(
    state: JumpModel,
    runtime_id: Seq<char>,
    entries: Seq<EntryModel>,
)
    requires
        state.selected_entry() is Some,
    ensures
        state.replaced(entries).query == state.query,
        state.merged(runtime_id, entries).query == state.query,
        matches_still(
            state,
            state.replaced(entries).entries,
            state.selected_entry()->0.identity,
        ) ==> state.replaced(entries).selected_entry() is Some && state.replaced(
            entries,
        ).selected_entry()->0.identity == state.selected_entry()->0.identity,
        matches_still(
            state,
            state.merged(runtime_id, entries).entries,
            state.selected_entry()->0.identity,
        ) ==> state.merged(runtime_id, entries).selected_entry() is Some && state.merged(
            runtime_id,
            entries,
        ).selected_entry()->0.identity == state.selected_entry()->0.identity,
{
    let identity = state.selected_entry()->0.identity;
    let all = state.replaced(entries);
    let one = state.merged(runtime_id, entries);
    lemma_place_with(all.entries, state.ranking().filtered(all.entries), identity, 0);
    lemma_place_with(one.entries, state.ranking().filtered(one.entries), identity, 0);
    assert(all.ranking() == state.ranking());
    assert(one.ranking() == state.ranking());
}

/// A runtime that fails loses no row: its rows are disabled, those of other
/// runtimes stay as they are.
pub proof fn failed_runtime_keeps_all_rows(
    run: JumpRun,
    target: int,
    message: Seq<char>,
    i: int,
)
    requires
        0 <= target < run.targets.len(),
        0 <= i < run.state.entries.len(),
    ensures
        ({
            let after = run.refreshed(target, Err(message)).state;
            &&& after.entries.len() == run.state.entries.len()
            &&& after.entries[i].identity == run.state.entries[i].identity
            &&& run.state.entries[i].identity.runtime_id != run.targets[target].id
                ==> after.entries[i] == run.state.entries[i]
            &&& run.state.entries[i].identity.runtime_id == run.targets[target].id
                ==> !after.entries[i].runtime_available
            &&& after.query == run.state.query
            &&& after.selected == run.state.selected
        }),
{
}

proof fn lemma_arranged_has(entries: Seq<EntryModel>, at: int)
    requires
        0 <= at < entries.len(),
    ensures
        jump_list::sorted(entries).contains(entries[at]),
{
    let keys = jump_list::identities(entries);
    let places = order::ordered::<PaneIdentity>(keys);
    order::ordering_is_a_stable_sort::<PaneIdentity>(keys);
    model_laws::permutation_leaves_nothing_out(places, keys.len(), at);
    let i = choose|i: int| 0 <= i < places.len() && places[i] == at;
    assert(jump_list::sorted(entries)[i] == entries[at]);
}

/// Listing one runtime again keeps every row of the others, and brings in every
/// row that it gave.
pub proof fn refreshed_runtime_keeps_the_others(
    state: JumpModel,
    runtime_id: Seq<char>,
    entries: Seq<EntryModel>,
)
    ensures
        forall|i: int|
            0 <= i < state.entries.len() && (#[trigger] state.entries[i]).identity.runtime_id
                != runtime_id ==> state.merged(runtime_id, entries).entries.contains(
                state.entries[i],
            ),
        forall|i: int|
            0 <= i < entries.len() ==> state.merged(runtime_id, entries).entries.contains(
                #[trigger] entries[i],
            ),
{
    broadcast use vstd::seq_lib::group_filter_ensures;

    let keep = |entry: EntryModel| entry.identity.runtime_id != runtime_id;
    let kept = state.entries.filter(keep);
    let all = kept + entries;
    assert forall|i: int| 0 <= i < state.entries.len() && (
    #[trigger] state.entries[i]).identity.runtime_id != runtime_id implies jump_list::sorted(
        all,
    ).contains(state.entries[i]) by {
        assert(keep(state.entries[i]));
        assert(state.entries.contains(state.entries[i]));
        assert(kept.contains(state.entries[i]));
        let k = choose|k: int| 0 <= k < kept.len() && kept[k] == state.entries[i];
        assert(all[k] == state.entries[i]);
        lemma_arranged_has(all, k);
    }
    assert forall|i: int| 0 <= i < entries.len() implies jump_list::sorted(all).contains(
        #[trigger] entries[i],
    ) by {
        assert(all[kept.len() + i] == entries[i]);
        lemma_arranged_has(all, kept.len() + i);
    }
}

/// A focused pane comes first in the recency, which holds no pane twice and never
/// grows beyond its bound.
pub proof fn recency_is_bounded(recency: Seq<IdentityModel>, identity: IdentityModel)
    ensures
        jump_list::touched(recency, identity).len() <= jump_pane::MAX_PANE_RECENCY,
        jump_list::touched(recency, identity)[0] == identity,
        recency.no_duplicates() ==> jump_list::touched(recency, identity).no_duplicates(),
{
    let others = lists::without(recency, identity);
    let whole = lists::fronted(recency, identity);
    lists::lemma_without(recency, identity);
    if recency.no_duplicates() {
        assert forall|i: int, j: int|
            0 <= i < whole.len() && 0 <= j < whole.len() && i != j implies whole[i]
            != whole[j] by {
            if i > 0 {
                assert(others.contains(others[i - 1]));
            }
            if j > 0 {
                assert(others.contains(others[j - 1]));
            }
        }
    }
}

proof fn lemma_touched_all(recency: Seq<IdentityModel>, n: nat)
    requires
        n <= recency.len() <= jump_pane::MAX_PANE_RECENCY,
        recency.no_duplicates(),
        forall|i: int|
            0 <= i < recency.len() ==> jump_list::is_complete(#[trigger] recency[i]),
    ensures
        jump_list::touched_all(recency, n) == recency.take(n as int).reverse(),
    decreases n,
{
    if n > 0 {
        lemma_touched_all(recency, (n - 1) as nat);
        let before = recency.take(n - 1).reverse();
        let identity = recency[n - 1];
        assert forall|i: int| 0 <= i < before.len() implies before[i] != identity by {
            assert(before[i] == recency[n - 2 - i]);
        }
        lists::lemma_without_absent(before, identity);
        assert(seq![identity] + before =~= recency.take(n as int).reverse());
    } else {
        assert(recency.take(0).reverse() =~= Seq::empty());
    }
}

/// The recency that is written is the one that is read back.
pub proof fn recency_reads_back(recency: Seq<IdentityModel>)
    requires
        recency.len() <= jump_pane::MAX_PANE_RECENCY,
        recency.no_duplicates(),
        forall|i: int|
            0 <= i < recency.len() ==> jump_list::is_complete(#[trigger] recency[i]),
    ensures
        jump_list::recency_in_file(
            jump_list::RECENCY_VERSION,
            lists::at_most_first(recency, jump_pane::MAX_PANE_RECENCY as nat),
        ) == recency,
{
    lemma_touched_all(recency, recency.len());
    assert(recency.take(recency.len() as int) =~= recency);
    assert(recency.reverse().reverse() =~= recency);
}

/// What the panes that match are.
proof fn lemma_hits(by: Ranking, entries: Seq<EntryModel>, n: nat)
    requires
        n <= entries.len(),
    ensures
        forall|i: int|
            0 <= i < by.hits(entries, n).len() ==> 0 <= #[trigger] by.hits(entries, n)[i] < n
                && by.score(entries[by.hits(entries, n)[i]]) is Some,
        forall|i: int, j: int|
            0 <= i < j < by.hits(entries, n).len() ==> #[trigger] by.hits(entries, n)[i]
                < #[trigger] by.hits(entries, n)[j],
        forall|k: int|
            0 <= k < n && by.score(#[trigger] entries[k]) is Some ==> by.hits(
                entries,
                n,
            ).contains(k),
    decreases n,
{
    if n > 0 {
        lemma_hits(by, entries, (n - 1) as nat);
        let before = by.hits(entries, (n - 1) as nat);
        let after = by.hits(entries, n);
        assert forall|k: int| 0 <= k < n && by.score(
            #[trigger] entries[k],
        ) is Some implies after.contains(k) by {
            if k < n - 1 {
                let i = choose|i: int| 0 <= i < before.len() && before[i] == k;
                assert(after[i] == k);
            } else {
                assert(after[before.len() as int] == k);
            }
        }
    }
}

/// Searching shows every pane that matches, each once, and no other.
pub proof fn search_shows_each_match_once(by: Ranking, entries: Seq<EntryModel>)
    ensures
        forall|k: int|
            0 <= k < entries.len() && by.score(#[trigger] entries[k]) is Some ==> by.filtered(
                entries,
            ).contains(k),
        forall|i: int|
            0 <= i < by.filtered(entries).len() ==> 0 <= #[trigger] by.filtered(entries)[i]
                < entries.len() && by.score(entries[by.filtered(entries)[i]]) is Some,
        by.filtered(entries).no_duplicates(),
{
    let hits = by.hits(entries, entries.len());
    let ranks = by.ranks_by(entries, by.all_scores(entries), hits);
    let places = order::ordered::<PaneRank>(ranks);
    let shown = by.filtered(entries);
    lemma_hits(by, entries, entries.len());
    order::ordering_is_a_stable_sort::<PaneRank>(ranks);
    assert forall|k: int| 0 <= k < entries.len() && by.score(
        #[trigger] entries[k],
    ) is Some implies shown.contains(k) by {
        let at = choose|at: int| 0 <= at < hits.len() && hits[at] == k;
        model_laws::permutation_leaves_nothing_out(places, ranks.len(), at);
        let i = choose|i: int| 0 <= i < places.len() && places[i] == at;
        assert(shown[i] == k);
    }
    assert forall|i: int| 0 <= i < shown.len() implies 0 <= #[trigger] shown[i] < entries.len()
        && by.score(entries[shown[i]]) is Some by {
        assert(0 <= places[i] < hits.len());
        assert(shown[i] == hits[places[i]]);
    }
    assert forall|i: int, j: int|
        0 <= i < shown.len() && 0 <= j < shown.len() && i != j implies shown[i] != shown[j] by {
        assert(places[i] != places[j]);
        assert(0 <= places[i] < hits.len() && 0 <= places[j] < hits.len());
        if places[i] < places[j] {
            assert(hits[places[i]] < hits[places[j]]);
        } else {
            assert(hits[places[j]] < hits[places[i]]);
        }
    }
}

/// What is shown first ranks no lower than what is shown after it. So a pane whose
/// foreground process is in a matching directory stands before one that matches
/// by any other field alone.
pub proof fn better_matches_come_first(by: Ranking, entries: Seq<EntryModel>, i: int, j: int)
    requires
        0 <= i < j < by.filtered(entries).len(),
    ensures
        ({
            let a = entries[by.filtered(entries)[i]];
            let b = entries[by.filtered(entries)[j]];
            &&& PaneRank::precedes(by.rank(a), by.rank(b))
            &&& by.foreground_score(b) is Some ==> by.foreground_score(a) is Some
        }),
{
    let hits = by.hits(entries, entries.len());
    let ranks = by.ranks_by(entries, by.all_scores(entries), hits);
    let places = order::ordered::<PaneRank>(ranks);
    order::ordering_is_a_stable_sort::<PaneRank>(ranks);
    assert(0 <= places[i] < hits.len() && 0 <= places[j] < hits.len());
    lemma_hits(by, entries, entries.len());
    assert(0 <= hits[places[i]] < entries.len() && 0 <= hits[places[j]] < entries.len());
    assert(PaneRank::precedes(ranks[places[i]], ranks[places[j]]));
}

/// Panes with equal names are told apart on screen by the ends of their ids.
pub proof fn equal_names_are_told_apart(a: EntryModel, b: EntryModel)
    requires
        a.base() == b.base(),
        jump_pane::short(a.identity.pane_id) != jump_pane::short(b.identity.pane_id),
    ensures
        a.primary() != b.primary(),
{
    reveal_strlit(" [");
    reveal_strlit("]");
    let from = (a.base().len() + 2) as int;
    let x = a.primary();
    let y = b.primary();
    if x == y {
        assert(x.subrange(from, x.len() - 1) =~= jump_pane::short(a.identity.pane_id));
        assert(y.subrange(from, y.len() - 1) =~= jump_pane::short(b.identity.pane_id));
    }
}

/// Only Enter asks for a pane to be focused, and only for the selected row, by
/// the runtime that it came from; Escape never does.
pub proof fn only_enter_focuses(run: JumpRun, press: KeyPress)
    ensures
        run.pressed(press).1 is Focus ==> {
            &&& press.key is Enter || (press.key == Key::Char('j') && press.control)
            &&& 0 <= run.state.selected < run.filtered.len()
            &&& run.pressed(press).1->entry == run.state.entries[run.filtered[run.state.selected]]
            &&& run.targets[run.pressed(press).1->target].id
                == run.pressed(press).1->entry.target.id
        },
        press.key is Esc ==> run.pressed(press).1 == JumpActionModel::Leave(
            FocusModel::Stale("cancelled"@),
        ),
{
}

/// No key changes which panes there are.
pub proof fn keys_change_no_pane(run: JumpRun, press: KeyPress)
    ensures
        run.pressed(press).0.state.entries == run.state.entries,
        run.pressed(press).0.recency == run.recency,
        run.pressed(press).0.targets == run.targets,
{
}

/// A run ends well only after a pane was focused, which is then remembered; a
/// stale pane is listed again, and applications are asked for anew.
pub proof fn focus_decides_what_is_next(
    run: JumpRun,
    identity: IdentityModel,
    result: FocusModel,
)
    ensures
        run.focused(identity, result).1 == AfterFocus::Done <==> result is Focused,
        run.focused(identity, result).1 == AfterFocus::Refresh <==> result is Stale,
        result is Focused ==> run.focused(identity, result).0.recency[0] == identity,
        result !is Focused ==> run.focused(identity, result).0.recency == run.recency,
        result is Stale ==> !run.focused(identity, result).0.enriching,
{
    recency_is_bounded(run.recency, identity);
}

/// Applications are asked for a bounded number of different panes.
pub proof fn enrichment_is_bounded(run: JumpRun)
    ensures
        run.wanted().len() <= jump_list::MAX_ENRICH_CANDIDATES,
        run.wanted().no_duplicates(),
        run.enriched().wanted().len() == 0,
{
    let by = run.state.ranking();
    let ranked = if run.filtered.len() == 0 {
        (Ranking { query: Seq::empty(), ..by }).filtered(run.state.entries)
    } else {
        run.filtered
    };
    lists::lemma_distinct(ranked);
}

proof fn lemma_batches(jobs: Seq<JobModel>, from: int)
    requires
        0 <= from <= jobs.len(),
    ensures
        forall|i: int|
            0 <= i < jump_focus::batches_from(jobs, from).len() ==> 0 < (
            #[trigger] jump_focus::batches_from(jobs, from)[i]).len()
                <= jump_focus::MAX_ENRICH_ACTIVE,
        jump_focus::batches_from(jobs, from).flatten() == jobs.skip(from),
    decreases jobs.len() - from,
{
    let batches = jump_focus::batches_from(jobs, from);
    if from == jobs.len() {
        assert(jobs.skip(from) =~= Seq::empty());
    } else if jobs.len() - from <= jump_focus::MAX_ENRICH_ACTIVE {
        assert(batches.drop_first() =~= Seq::empty());
        assert(batches.drop_first().flatten() =~= Seq::empty());
        assert(batches.flatten() =~= jobs.skip(from));
    } else {
        let next = from + jump_focus::MAX_ENRICH_ACTIVE;
        lemma_batches(jobs, next);
        let rest = jump_focus::batches_from(jobs, next);
        assert(batches.drop_first() =~= rest);
        assert(batches.first() == jobs.subrange(from, next));
        assert(jobs.skip(from) =~= jobs.subrange(from, next) + jobs.skip(next));
        assert forall|i: int| 0 <= i < batches.len() implies 0 < (#[trigger] batches[i]).len()
            <= jump_focus::MAX_ENRICH_ACTIVE by {
            if i > 0 {
                assert(batches[i] == rest[i - 1]);
            }
        }
    }
}

/// Every job runs, in order, and only a few run together.
pub proof fn batches_run_every_job(jobs: Seq<JobModel>)
    ensures
        forall|i: int|
            0 <= i < jump_focus::batches_from(jobs, 0).len() ==> 0 < (
            #[trigger] jump_focus::batches_from(jobs, 0)[i]).len()
                <= jump_focus::MAX_ENRICH_ACTIVE,
        jump_focus::batches_from(jobs, 0).flatten() == jobs,
{
    lemma_batches(jobs, 0);
    assert(jobs.skip(0) =~= jobs);
}

proof fn lemma_rows_of(
    target: TargetModel,
    panes: Seq<PaneModel>,
    tabs: Seq<TabModel>,
    others: Seq<TabModel>,
    n: nat,
)
    requires
        n <= panes.len(),
    ensures
        jump_list::identities(jump_focus::rows_of(target, panes, tabs, n))
            == jump_list::identities(jump_focus::rows_of(target, panes, others, n)),
    decreases n,
{
    if n > 0 {
        lemma_rows_of(target, panes, tabs, others, (n - 1) as nat);
        let a = jump_focus::rows_of(target, panes, tabs, (n - 1) as nat);
        let b = jump_focus::rows_of(target, panes, others, (n - 1) as nat);
        let x = jump_focus::row_of(target, panes[n - 1], tabs);
        let y = jump_focus::row_of(target, panes[n - 1], others);
        assert(jump_list::identities(a.push(x)) =~= jump_list::identities(a).push(x.identity));
        assert(jump_list::identities(b.push(y)) =~= jump_list::identities(b).push(y.identity));
    }
}

/// Tab labels are for display and search only: whatever tabs a runtime lists, or
/// none at all, the same panes are shown, under the same identities.
pub proof fn tabs_never_hide_a_pane(
    target: TargetModel,
    panes: Seq<PaneModel>,
    tabs: Seq<TabModel>,
)
    ensures
        jump_list::identities(jump_focus::rows_of(target, panes, tabs, panes.len()))
            == jump_list::identities(
            jump_focus::rows_of(target, panes, Seq::empty(), panes.len()),
        ),
{
    lemma_rows_of(target, panes, tabs, Seq::empty(), panes.len());
}

/// The label of a tab, and a changed directory, play no part in whether a row
/// still stands for a live pane.
pub proof fn labels_and_directories_do_not_stale(
    live: Seq<PaneModel>,
    entry: EntryModel,
    label: Option<Seq<char>>,
    cwd: Option<Seq<char>>,
)
    ensures
        jump_focus::staleness(live, EntryModel { tab_label: label, cwd, ..entry })
            == jump_focus::staleness(live, entry),
        jump_focus::refusal(EntryModel { tab_label: label, cwd, ..entry })
            == jump_focus::refusal(entry),
{
}

/// The panes at the places that match are those that match.
proof fn lemma_hits_are_filtered(by: Ranking, entries: Seq<EntryModel>, n: nat)
    requires
        n <= entries.len(),
    ensures
        order::arranged(entries, by.hits(entries, n)) == entries.take(n as int).filter(
            |entry: EntryModel| by.score(entry) is Some,
        ),
    decreases n,
{
    reveal(Seq::filter);
    let keep = |entry: EntryModel| by.score(entry) is Some;
    let shown = order::arranged(entries, by.hits(entries, n));
    if n == 0 {
        assert(shown =~= entries.take(0).filter(keep));
    } else {
        let m = (n - 1) as nat;
        lemma_hits_are_filtered(by, entries, m);
        let before = order::arranged(entries, by.hits(entries, m));
        assert(entries.take(n as int).drop_last() =~= entries.take(m as int));
        assert(entries.take(n as int).last() == entries[m as int]);
        assert(by.all_scores(entries)[m as int] == by.scores(entries[m as int]));
        if keep(entries[m as int]) {
            assert(shown =~= before.push(entries[m as int]));
        } else {
            assert(shown =~= before);
        }
    }
}

/// What is shown is what matches, in the order of the ranks.
proof fn lemma_shown_is_sorted(by: Ranking, entries: Seq<EntryModel>)
    ensures
        order::arranged(entries, by.filtered(entries)) == order_laws::sorted_by::<
            PaneRank,
            EntryModel,
        >(
            entries.filter(|entry: EntryModel| by.score(entry) is Some),
            |entry: EntryModel| by.rank(entry),
        ),
{
    let hits = by.hits(entries, entries.len());
    let scores = by.all_scores(entries);
    let ranks = by.ranks_by(entries, scores, hits);
    let places = order::ordered::<PaneRank>(ranks);
    let found = order::arranged(entries, hits);
    lemma_hits(by, entries, entries.len());
    lemma_hits_are_filtered(by, entries, entries.len());
    assert(entries.take(entries.len() as int) =~= entries);
    assert forall|i: int| 0 <= i < found.len() implies #[trigger] ranks[i] == by.rank(found[i]) by {
        assert(0 <= hits[i] < entries.len());
        assert(scores[hits[i]] == by.scores(entries[hits[i]]));
    }
    order_laws::arranged_is_sorted_by::<PaneRank, EntryModel>(
        found,
        ranks,
        |entry: EntryModel| by.rank(entry),
    );
    order::ordering_is_a_stable_sort::<PaneRank>(ranks);
    assert(order::arranged(entries, by.filtered(entries)) =~= order::arranged(found, places));
}

/// What a search shows, and in which order, does not depend on the order in which
/// panes are listed.
pub proof fn search_ignores_input_order(by: Ranking, a: Seq<EntryModel>, b: Seq<EntryModel>)
    requires
        told_apart(a),
        a.to_multiset() == b.to_multiset(),
    ensures
        order::arranged(a, by.filtered(a)) == order::arranged(b, by.filtered(b)),
{
    let keep = |entry: EntryModel| by.score(entry) is Some;
    let key = |entry: EntryModel| by.rank(entry);
    lemma_shown_is_sorted(by, a);
    lemma_shown_is_sorted(by, b);
    assert forall|x: EntryModel, y: EntryModel|
        a.contains(x) && a.contains(y) && #[trigger] PaneRank::precedes(key(x), key(y))
            && PaneRank::precedes(key(y), key(x)) implies x == y by {
        lemma_identities_ordered(x.identity, y.identity);
        let i = choose|i: int| 0 <= i < a.len() && a[i] == x;
        let j = choose|j: int| 0 <= j < a.len() && a[j] == y;
        assert(a[i].identity == a[j].identity);
    }
    order_laws::order_ignores_input_order::<PaneRank, EntryModel>(a, b, key);
    order_laws::filtering_keeps_the_order::<PaneRank, EntryModel>(a, key, keep);
    order_laws::filtering_keeps_the_order::<PaneRank, EntryModel>(b, key, keep);
}

/// What follows the last colon is what was put behind one, if it has none itself.
proof fn lemma_after_colon(front: Seq<char>, back: Seq<char>)
    requires
        !back.contains(':'),
    ensures
        herdr::after_last_colon(front + seq![':'] + back) == back,
    decreases back.len(),
{
    let whole = front + seq![':'] + back;
    if back.len() == 0 {
        assert(whole.last() == ':');
        assert(herdr::after_last_colon(whole) =~= back);
    } else {
        let rest = back.drop_last();
        assert(whole.last() == back[back.len() - 1]);
        assert(back.contains(back[back.len() - 1]));
        assert forall|c: char| rest.contains(c) implies back.contains(c) by {
            let k = choose|k: int| 0 <= k < rest.len() && rest[k] == c;
            assert(back[k] == c);
        }
        lemma_after_colon(front, rest);
        assert(whole.drop_last() =~= front + seq![':'] + rest);
        assert(rest.push(back.last()) =~= back);
    }
}

/// Numbers are written without colons.
proof fn lemma_no_colon(n: nat)
    ensures
        !text::decimal(n).contains(':'),
    decreases n,
{
    let written = text::decimal(n);
    if n >= 10 {
        lemma_no_colon(n / 10);
        let front = text::decimal(n / 10);
        if written.contains(':') {
            let k = choose|k: int| 0 <= k < written.len() && written[k] == ':';
            if k < front.len() {
                assert(front[k] == ':');
            }
        }
    }
}

/// Different numbers are written differently.
proof fn lemma_decimals_differ(a: nat, b: nat)
    requires
        text::decimal(a) == text::decimal(b),
    ensures
        a == b,
    decreases a,
{
    let x = text::decimal(a);
    let y = text::decimal(b);
    assert(x.last() == text::digit(a % 10));
    assert(y.last() == text::digit(b % 10));
    assert(a % 10 == b % 10);
    if a >= 10 && b >= 10 {
        assert(x.drop_last() =~= text::decimal(a / 10));
        assert(y.drop_last() =~= text::decimal(b / 10));
        lemma_decimals_differ(a / 10, b / 10);
    } else if a >= 10 {
        assert(x.len() == text::decimal(a / 10).len() + 1);
        lemma_decimal_is_not_empty(a / 10);
    } else if b >= 10 {
        assert(y.len() == text::decimal(b / 10).len() + 1);
        lemma_decimal_is_not_empty(b / 10);
    }
}

proof fn lemma_decimal_is_not_empty(n: nat)
    ensures
        text::decimal(n).len() > 0,
{
}

/// Every runtime has an id of its own, even where names are given twice.
pub proof fn runtime_ids_differ(
    sessions: Seq<SessionModel>,
    bin: Seq<char>,
    home: Option<Seq<char>>,
    i: int,
    j: int,
)
    requires
        0 <= i < j < jump_pane::all_targets(sessions, bin, home).len(),
    ensures
        jump_pane::all_targets(sessions, bin, home)[i].id != jump_pane::all_targets(
            sessions,
            bin,
            home,
        )[j].id,
{
    reveal_strlit("default");
    reveal_strlit("session:");
    reveal_strlit(":");
    let all = jump_pane::all_targets(sessions, bin, home);
    let second = jump_pane::session_name(sessions[j - 1].name, (j - 1) as nat);
    let after = "session:"@ + second;
    assert(":"@ =~= seq![':']);
    assert(all[j].id == after + seq![':'] + text::decimal((j - 1) as nat));
    lemma_no_colon((j - 1) as nat);
    lemma_after_colon(after, text::decimal((j - 1) as nat));
    if i == 0 {
        assert(all[0].id[0] == 'd');
        assert(all[j].id[0] == 's');
    } else {
        let first = jump_pane::session_name(sessions[i - 1].name, (i - 1) as nat);
        let before = "session:"@ + first;
        assert(all[i].id == before + seq![':'] + text::decimal((i - 1) as nat));
        lemma_no_colon((i - 1) as nat);
        lemma_after_colon(before, text::decimal((i - 1) as nat));
        if all[i].id == all[j].id {
            lemma_decimals_differ((i - 1) as nat, (j - 1) as nat);
        }
    }
}

} // verus!
