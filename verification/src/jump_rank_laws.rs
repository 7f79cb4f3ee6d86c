//! What a search of Jump Pane mode finds, and in which order it shows it.

use vstd::prelude::*;
use crate::fuzzy;
use crate::jump_laws;
use crate::jump_list;
use crate::jump_list::Ranking;
use crate::jump_pane;
use crate::jump_pane::{EntryModel, IdentityModel};
use crate::lists;
use crate::search;
use crate::search_order_laws;
use crate::text;

verus! {

/// A pane is searched by its id, its workspace, its tab and the tab's label, its
/// directories, its names, its agent and that one's status, its application, and
/// its runtime and host; the focused one also by that word. Nothing else finds it.
pub proof fn panes_are_searched_by_their_texts(entry: EntryModel, value: Seq<char>)
    ensures
        entry.fields().contains(value) <==> value.len() > 0 && {
            ||| value == entry.identity.pane_id
            ||| value == entry.workspace_id
            ||| entry.tab_id == Some(value)
            ||| entry.tab_label == Some(value)
            ||| entry.cwd == Some(value)
            ||| entry.foreground_cwd == Some(value)
            ||| entry.label == Some(value)
            ||| entry.title == Some(value)
            ||| entry.terminal_title == Some(value)
            ||| entry.agent == Some(value)
            ||| entry.agent_status == Some(value)
            ||| entry.application == Some(value)
            ||| value == entry.target.name
            ||| entry.target.remote_host == Some(value)
            ||| entry.focused && value == "focused"@
        },
{
    search_order_laws::lemma_collected(entry.offered());
    let all = entry.offered();
    assert(all[0] == entry.identity.pane_id);
    assert(all[1] == entry.workspace_id);
    assert(all[2] == jump_pane::text_or_empty(entry.tab_id));
    assert(all[3] == jump_pane::text_or_empty(entry.tab_label));
    assert(all[4] == jump_pane::text_or_empty(entry.cwd));
    assert(all[5] == jump_pane::text_or_empty(entry.foreground_cwd));
    assert(all[6] == jump_pane::text_or_empty(entry.label));
    assert(all[7] == jump_pane::text_or_empty(entry.title));
    assert(all[8] == jump_pane::text_or_empty(entry.terminal_title));
    assert(all[9] == jump_pane::text_or_empty(entry.agent));
    assert(all[10] == jump_pane::text_or_empty(entry.agent_status));
    assert(all[11] == jump_pane::text_or_empty(entry.application));
    assert(all[12] == entry.target.name);
    assert(all[13] == jump_pane::text_or_empty(entry.target.remote_host));
    if entry.focused {
        assert(all[14] == "focused"@);
    }
}

/// The score of a pane is the best that any one of its texts has: no text has more,
/// and some text has as much. Without a query every pane matches alike.
pub proof fn pane_score_is_the_best_text(by: Ranking, entry: EntryModel)
    ensures
        by.query.len() == 0 ==> by.score(entry) == Some(0u32),
        by.query.len() > 0 ==> forall|value: Seq<char>| #[trigger]
            entry.fields().contains(value) && fuzzy::field_score(by.query, value) is Some ==> {
                &&& by.score(entry) is Some
                &&& by.score(entry)->0 >= fuzzy::field_score(by.query, value)->0
            },
        by.query.len() > 0 && by.score(entry) is Some ==> exists|value: Seq<char>| #[trigger]
            entry.fields().contains(value) && fuzzy::field_score(by.query, value) == by.score(
                entry,
            ),
{
    if by.query.len() > 0 {
        search_order_laws::lemma_best_score(by.query, entry.fields());
    }
}

/// Panes come by how they match: first those whose foreground process is in a
/// directory that matches, of these those where it is the query, then those of
/// which any text is the query, then by the score of that directory and by the best
/// score. The first of these in which two panes differ decides.
pub proof fn panes_come_by_match(by: Ranking, entries: Seq<EntryModel>, i: int, j: int)
    requires
        0 <= i < j < by.filtered(entries).len(),
        by.query.len() > 0,
    ensures
        ({
            let a = entries[by.filtered(entries)[i]];
            let b = entries[by.filtered(entries)[j]];
            let x = match a.foreground_cwd {
                Some(directory) => fuzzy::field_score(by.query, directory),
                None => None,
            };
            let y = match b.foreground_cwd {
                Some(directory) => fuzzy::field_score(by.query, directory),
                None => None,
            };
            let there = a.foreground_cwd is Some && text::same_ignoring_case(
                a.foreground_cwd->0,
                by.query,
            );
            let here = b.foreground_cwd is Some && text::same_ignoring_case(
                b.foreground_cwd->0,
                by.query,
            );
            let exact = exists|value: Seq<char>| #[trigger]
                a.fields().contains(value) && text::same_ignoring_case(value, by.query);
            let other = exists|value: Seq<char>| #[trigger]
                b.fields().contains(value) && text::same_ignoring_case(value, by.query);
            &&& y is Some ==> x is Some
            &&& (x is Some) == (y is Some) && here ==> there
            &&& (x is Some) == (y is Some) && here == there && other ==> exact
            &&& (x is Some) == (y is Some) && here == there && other == exact && y is Some
                ==> x->0 >= y->0
            &&& x == y && here == there && other == exact ==> by.score(a)->0 >= by.score(b)->0
        }),
{
    jump_laws::better_matches_come_first(by, entries, i, j);
    let a = entries[by.filtered(entries)[i]];
    let b = entries[by.filtered(entries)[j]];
    lemma_exact(a.fields(), by.query);
    lemma_exact(b.fields(), by.query);
    jump_laws::search_shows_each_match_once(by, entries);
}

proof fn lemma_exact(fields: Seq<Seq<char>>, query: Seq<char>)
    ensures
        jump_list::any_exact(fields, query) <==> exists|value: Seq<char>| #[trigger]
            fields.contains(value) && text::same_ignoring_case(value, query),
{
    if jump_list::any_exact(fields, query) {
        let i = choose|i: int|
            0 <= i < fields.len() && text::same_ignoring_case(#[trigger] fields[i], query);
        assert(fields.contains(fields[i]));
    }
    if exists|value: Seq<char>| #[trigger]
        fields.contains(value) && text::same_ignoring_case(value, query) {
        let value = choose|value: Seq<char>| #[trigger]
            fields.contains(value) && text::same_ignoring_case(value, query);
        let i = choose|i: int| 0 <= i < fields.len() && fields[i] == value;
        assert(text::same_ignoring_case(fields[i], query));
    }
}

/// Whether two panes match a query alike.
pub open spec fn match_alike(by: Ranking, a: EntryModel, b: EntryModel) -> bool {
    by.query.len() == 0 || {
        &&& (a.foreground_cwd is Some) == (b.foreground_cwd is Some)
        &&& a.foreground_cwd is Some ==> fuzzy::field_score(by.query, a.foreground_cwd->0)
            == fuzzy::field_score(by.query, b.foreground_cwd->0) && text::same_ignoring_case(
            a.foreground_cwd->0,
            by.query,
        ) == text::same_ignoring_case(b.foreground_cwd->0, by.query)
        &&& jump_list::any_exact(a.fields(), by.query) == jump_list::any_exact(
            b.fields(),
            by.query,
        )
        &&& by.score(a) == by.score(b)
    }
}

/// Of two panes that match alike the one that was focused later comes first: where
/// the pane shown later was focused, the one shown before it was focused at least as
/// late.
pub proof fn panes_focused_last_come_first(
    by: Ranking,
    entries: Seq<EntryModel>,
    i: int,
    j: int,
    p: int,
)
    requires
        0 <= i < j < by.filtered(entries).len(),
        by.recency.len() <= usize::MAX,
        match_alike(by, entries[by.filtered(entries)[i]], entries[by.filtered(entries)[j]]),
        0 <= p < by.recency.len(),
        by.recency[p] == entries[by.filtered(entries)[j]].identity,
    ensures
        exists|q: int|
            0 <= q <= p && #[trigger] by.recency[q] == entries[by.filtered(entries)[i]].identity,
{
    jump_laws::better_matches_come_first(by, entries, i, j);
    let a = entries[by.filtered(entries)[i]];
    let b = entries[by.filtered(entries)[j]];
    text::position_is_the_first(by.recency, a.identity);
    text::position_is_the_first(by.recency, b.identity);
    assert(by.recency.contains(by.recency[p]));
    let at = text::position(by.recency, b.identity)->0;
    assert(at <= p);
    assert(by.recent(b) > 0);
    assert(by.recent(a) >= by.recent(b));
    let q = text::position(by.recency, a.identity)->0;
    assert(by.recency[q] == a.identity);
}

/// Of panes that match alike and were not focused, those of the workspace in use come
/// first, of these, and of the others, those of its tab; then those whose agent is
/// the quietest, and at last by runtime and pane id.
pub proof fn close_and_quiet_panes_come_first(
    by: Ranking,
    entries: Seq<EntryModel>,
    i: int,
    j: int,
)
    requires
        0 <= i < j < by.filtered(entries).len(),
        match_alike(by, entries[by.filtered(entries)[i]], entries[by.filtered(entries)[j]]),
        !by.recency.contains(entries[by.filtered(entries)[i]].identity),
        !by.recency.contains(entries[by.filtered(entries)[j]].identity),
    ensures
        ({
            let a = entries[by.filtered(entries)[i]];
            let b = entries[by.filtered(entries)[j]];
            let (workspace, tab) = by.current->Some_0;
            let near = by.current is Some && a.workspace_id == workspace;
            let other_near = by.current is Some && b.workspace_id == workspace;
            let beside = by.current is Some && tab is Some && a.tab_id == tab;
            let other_beside = by.current is Some && tab is Some && b.tab_id == tab;
            &&& other_near ==> near
            &&& near == other_near && other_beside ==> beside
            &&& near == other_near && beside == other_beside ==> {
                &&& a.agent_status == Some("blocked"@) ==> b.agent_status == Some("blocked"@)
                &&& a.agent_status == Some("working"@) ==> b.agent_status == Some("blocked"@)
                    || b.agent_status == Some("working"@)
                &&& a.agent_status == Some("done"@) ==> b.agent_status == Some("blocked"@)
                    || b.agent_status == Some("working"@) || b.agent_status == Some("done"@)
                &&& a.agent_status == b.agent_status ==> {
                    if a.identity.runtime_id == b.identity.runtime_id {
                        text::at_most(a.identity.pane_id, b.identity.pane_id)
                    } else {
                        text::at_most(a.identity.runtime_id, b.identity.runtime_id)
                    }
                }
            }
        }),
{
    jump_laws::better_matches_come_first(by, entries, i, j);
    let a = entries[by.filtered(entries)[i]];
    let b = entries[by.filtered(entries)[j]];
    text::position_is_the_first(by.recency, a.identity);
    text::position_is_the_first(by.recency, b.identity);
    reveal_strlit("blocked");
    reveal_strlit("working");
    reveal_strlit("done");
    assert("blocked"@[0] == 'b' && "working"@[0] == 'w' && "done"@[0] == 'd');
}

/// A search without a query shows every pane; the panes that were focused come
/// first, latest first.
pub proof fn every_pane_is_shown_without_a_query(by: Ranking, entries: Seq<EntryModel>, k: int)
    requires
        by.query.len() == 0,
        0 <= k < entries.len(),
    ensures
        by.filtered(entries).contains(k),
{
    jump_laws::search_shows_each_match_once(by, entries);
    assert(by.score(entries[k]) is Some);
}

/// A pane that was focused becomes the latest. The others stay as they stand to each
/// other, and only the oldest fall off, where there are more than a hundred.
pub proof fn focusing_keeps_the_order_of_others(
    recency: Seq<IdentityModel>,
    identity: IdentityModel,
)
    ensures
        jump_list::touched(recency, identity).len() > 0,
        jump_list::touched(recency, identity)[0] == identity,
        ({
            let others = recency.filter(|other: IdentityModel| other != identity);
            jump_list::touched(recency, identity).filter(|other: IdentityModel| other != identity)
                == if others.len() <= 99 {
                others
            } else {
                others.take(99)
            }
        }),
        forall|i: int|
            0 < i < jump_list::touched(recency, identity).len() ==> #[trigger] jump_list::touched(
                recency,
                identity,
            )[i] != identity,
{
    let rest = lists::without(recency, identity);
    lists::lemma_without(recency, identity);
    assert forall|i: int| 0 <= i < rest.len() implies #[trigger] rest[i] != identity by {
        assert(rest.contains(rest[i]));
    }
    let keep = |other: IdentityModel| other != identity;
    lists::lemma_without_is_filter(recency, identity, keep);
    lists::lemma_front_filtered(rest, identity, 100, keep);
}

} // verus!
