//! Which panes Jump Pane mode lists, what their rows say, what keys do, and when a
//! pane is focused.

use vstd::prelude::*;
use crate::config;
use crate::config::SessionModel;
use crate::herdr;
use crate::herdr::{Herdr, Pane, PaneModel, TabInfo, TabModel};
use crate::jump_focus;
use crate::jump_focus::{FocusModel, JobModel};
use crate::jump_list;
use crate::jump_list::{JumpModel, Ranking};
use crate::jump_pane;
use crate::jump_pane::{EntryModel, IdentityModel, PaneEntry, PaneIdentity, TargetModel};
use crate::jump_session;
use crate::jump_session::{AfterFocus, JumpActionModel, JumpRun, UiModel};
use crate::lists;
use crate::order;
use crate::order::Ranked;
use crate::session::{Key, KeyPress};
use crate::text;

verus! {

/// A row of a pane is known by its runtime and the pane's own id, and can be focused
/// where its runtime can. It tells what the pane is and what runs in it, tidied; whether
/// it is focused, hidden, a plugin's, floating or suppressed stays as it was listed.
pub proof fn rows_tell_of_their_panes(target: TargetModel, pane: PaneModel, tabs: Seq<TabModel>)
    ensures
        ({
            let row = jump_focus::row_of(target, pane, tabs);
            &&& row.identity.runtime_id == target.id
            &&& row.identity.pane_id == pane.pane_id
            &&& row.target.id == target.id
            &&& row.target.name == target.name
            &&& row.target.socket == target.socket
            &&& row.target.command == target.command
            &&& row.target.arg_prefix == target.arg_prefix
            &&& row.workspace_id == text::trimmed(text::sanitized(pane.workspace_id))
            &&& row.focused == pane.focused
            &&& row.hidden == pane.hidden
            &&& row.plugin == pane.plugin
            &&& row.floating == pane.floating
            &&& row.suppressed == pane.suppressed
            &&& row.runtime_available
            &&& row.focus_supported == target.focus_supported
            &&& row.application is None
            &&& is_tidy_of(pane.tab_id, row.tab_id)
            &&& is_tidy_of(pane.cwd, row.cwd)
            &&& is_tidy_of(pane.foreground_cwd, row.foreground_cwd)
            &&& is_tidy_of(pane.label, row.label)
            &&& is_tidy_of(pane.title, row.title)
            &&& is_tidy_of(pane.terminal_title, row.terminal_title)
            &&& is_tidy_of(pane.agent, row.agent)
            &&& is_tidy_of(pane.agent_status, row.agent_status)
        }),
{
}

/// Whether a text is another one without control characters and white space around it.
pub open spec fn is_tidy_of(value: Option<Seq<char>>, tidied: Option<Seq<char>>) -> bool {
    match value {
        None => tidied is None,
        Some(value) => tidied == Some(text::trimmed(text::sanitized(value))),
    }
}

/// A pane's tab is shown by the label that was listed last for it, unless that tab is
/// said to be of another workspace.
pub proof fn tabs_are_shown_by_their_labels(tabs: Seq<TabModel>, pane: PaneModel, t: int)
    requires
        0 <= t < tabs.len(),
        pane.tab_id == Some(tabs[t].tab_id),
        tabs[t].label is Some,
        forall|l: int|
            t < l < tabs.len() ==> !((#[trigger] tabs[l]).tab_id == tabs[t].tab_id
                && tabs[l].label is Some),
    ensures
        tabs[t].workspace_id.len() == 0 || tabs[t].workspace_id == pane.workspace_id
            ==> jump_focus::tab_label_of(tabs, pane) == tabs[t].label,
        tabs[t].workspace_id.len() > 0 && tabs[t].workspace_id != pane.workspace_id
            ==> jump_focus::tab_label_of(tabs, pane) is None,
{
    lemma_labelled_tab(tabs, tabs[t].tab_id, tabs.len(), t);
}

proof fn lemma_labelled_tab(tabs: Seq<TabModel>, id: Seq<char>, n: nat, t: int)
    requires
        0 <= t < n <= tabs.len(),
        tabs[t].tab_id == id && tabs[t].label is Some,
        forall|l: int|
            t < l < n ==> !((#[trigger] tabs[l]).tab_id == id && tabs[l].label is Some),
    ensures
        jump_focus::labelled_tab(tabs, id, n) == Some((tabs[t].workspace_id, tabs[t].label->0)),
    decreases n,
{
    if t < n - 1 {
        assert(!(tabs[n - 1].tab_id == id && tabs[n - 1].label is Some));
        lemma_labelled_tab(tabs, id, (n - 1) as nat, t);
    }
}

/// A pane without a tab, or whose tab has no label, shows none.
pub proof fn panes_without_a_labelled_tab_show_none(tabs: Seq<TabModel>, pane: PaneModel)
    requires
        forall|t: int|
            0 <= t < tabs.len() && pane.tab_id == Some((#[trigger] tabs[t]).tab_id)
                ==> tabs[t].label is None,
    ensures
        jump_focus::tab_label_of(tabs, pane) is None,
{
    if let Some(id) = pane.tab_id {
        lemma_no_labelled_tab(tabs, id, tabs.len());
    }
}

proof fn lemma_no_labelled_tab(tabs: Seq<TabModel>, id: Seq<char>, n: nat)
    requires
        n <= tabs.len(),
        forall|t: int| 0 <= t < tabs.len() && id == (#[trigger] tabs[t]).tab_id ==> tabs[t].label
            is None,
    ensures
        jump_focus::labelled_tab(tabs, id, n) is None,
    decreases n,
{
    if n > 0 {
        assert(tabs[n - 1].tab_id == id ==> tabs[n - 1].label is None);
        lemma_no_labelled_tab(tabs, id, (n - 1) as nat);
    }
}

/// A runtime's filter lets a pane through when it names the runtime by id or by name,
/// its host, the pane's workspace and the status of its agent, as far as it names any,
/// and when it takes in panes of the pane's kind.
pub proof fn filters_ask_for_everything_they_name(target: TargetModel, entry: EntryModel)
    ensures
        jump_focus::is_allowed(target, entry) <==> {
            &&& target.filter.runtime is Some ==> target.filter.runtime->0.contains(target.id)
                || target.filter.runtime->0.contains(target.name)
            &&& target.filter.host is Some && target.remote_host is Some
                ==> target.filter.host->0.contains(target.remote_host->0)
            &&& target.filter.host is Some && target.remote_host is None
                ==> target.filter.host->0.contains("local"@)
            &&& target.filter.workspace is Some ==> target.filter.workspace->0.contains(
                entry.workspace_id,
            )
            &&& target.filter.status is Some && entry.agent_status is Some
                ==> target.filter.status->0.contains(entry.agent_status->0)
            &&& target.filter.status is Some && entry.agent_status is None
                ==> target.filter.status->0.contains("unknown"@)
            &&& entry.hidden ==> target.filter.include_hidden
            &&& entry.plugin ==> target.filter.include_plugin
            &&& entry.floating ==> target.filter.include_floating
            &&& entry.suppressed ==> target.filter.include_suppressed
        },
{
}

/// Every pane that the filter lets through has a row, in the order in which panes are
/// listed, and there is no other row.
pub proof fn every_allowed_pane_is_listed(
    target: TargetModel,
    panes: Seq<PaneModel>,
    tabs: Seq<TabModel>,
    n: nat,
    k: int,
    l: int,
)
    requires
        n <= panes.len(),
    ensures
        0 <= k < l < n && jump_focus::is_allowed(target, jump_focus::row_of(target, panes[k], tabs))
            && jump_focus::is_allowed(target, jump_focus::row_of(target, panes[l], tabs))
            ==> exists|x: int, y: int|
            #![trigger jump_focus::rows_of(target, panes, tabs, n)[x],
                jump_focus::rows_of(target, panes, tabs, n)[y]]
            {
                let rows = jump_focus::rows_of(target, panes, tabs, n);
                &&& 0 <= x < y < rows.len()
                &&& rows[x].identity.pane_id == panes[k].pane_id
                &&& rows[y].identity.pane_id == panes[l].pane_id
            },
        0 <= k < n && jump_focus::is_allowed(target, jump_focus::row_of(target, panes[k], tabs))
            ==> jump_focus::rows_of(target, panes, tabs, n).contains(
            jump_focus::row_of(target, panes[k], tabs),
        ),
        forall|x: int|
            0 <= x < jump_focus::rows_of(target, panes, tabs, n).len() ==> exists|m: int|
                {
                    &&& 0 <= m < n
                    &&& #[trigger] jump_focus::row_of(target, panes[m], tabs)
                        == #[trigger] jump_focus::rows_of(target, panes, tabs, n)[x]
                    &&& jump_focus::is_allowed(
                        target,
                        jump_focus::row_of(target, panes[m], tabs),
                    )
                },
    decreases n,
{
    let rows = jump_focus::rows_of(target, panes, tabs, n);
    if n > 0 {
        let before = jump_focus::rows_of(target, panes, tabs, (n - 1) as nat);
        every_allowed_pane_is_listed(target, panes, tabs, (n - 1) as nat, k, l);
        let last = jump_focus::row_of(target, panes[n - 1], tabs);
        assert forall|x: int| 0 <= x < rows.len() implies exists|m: int|
            {
                &&& 0 <= m < n
                &&& #[trigger] jump_focus::row_of(target, panes[m], tabs) == #[trigger] rows[x]
                &&& jump_focus::is_allowed(target, jump_focus::row_of(target, panes[m], tabs))
            } by {
            if x < before.len() {
                assert(rows[x] == before[x]);
            } else {
                assert(rows[x] == last);
            }
        }
        if 0 <= k < n && jump_focus::is_allowed(
            target,
            jump_focus::row_of(target, panes[k], tabs),
        ) {
            let row = jump_focus::row_of(target, panes[k], tabs);
            if k < n - 1 {
                let x = choose|x: int| 0 <= x < before.len() && before[x] == row;
                assert(rows[x] == row);
                if l == n - 1 && jump_focus::is_allowed(target, last) {
                    assert(rows[before.len() as int] == last);
                    assert(rows[x].identity.pane_id == panes[k].pane_id);
                    assert(rows[before.len() as int].identity.pane_id == panes[l].pane_id);
                } else if 0 <= k < l < n - 1 && jump_focus::is_allowed(
                    target,
                    jump_focus::row_of(target, panes[l], tabs),
                ) {
                    let (p, q) = choose|p: int, q: int|
                        #![trigger before[p], before[q]]
                        {
                            &&& 0 <= p < q < before.len()
                            &&& before[p].identity.pane_id == panes[k].pane_id
                            &&& before[q].identity.pane_id == panes[l].pane_id
                        };
                    assert(rows[p] == before[p] && rows[q] == before[q]);
                }
            } else {
                assert(rows[before.len() as int] == row);
            }
        }
    }
}

/// A live pane with the row's id that is still of the row's workspace, and of its tab
/// where both are known, is the row's pane; otherwise the row is stale.
pub proof fn rows_are_stale_when_their_pane_is_gone(live: Seq<PaneModel>, entry: EntryModel)
    ensures
        (forall|k: int|
            0 <= k < live.len() ==> (#[trigger] live[k]).pane_id != entry.identity.pane_id)
            ==> jump_focus::staleness(live, entry) is Some
            && jump_focus::staleness(live, entry)->0 is Stale,
        jump_focus::staleness(live, entry) is None ==> exists|k: int|
            {
                &&& 0 <= k < live.len()
                &&& (#[trigger] live[k]).pane_id == entry.identity.pane_id
                &&& text::sanitized(live[k].workspace_id) == entry.workspace_id
                &&& entry.tab_id is Some && live[k].tab_id is Some ==> live[k].tab_id
                    == entry.tab_id
            },
        jump_focus::staleness(live, entry) is Some ==> jump_focus::staleness(live, entry)->0
            is Stale,
{
    lemma_pane_with(live, entry.identity.pane_id, 0);
}

/// A row whose pane lives unchanged is not stale.
pub proof fn rows_of_live_panes_are_not_stale(live: Seq<PaneModel>, entry: EntryModel, k: int)
    requires
        0 <= k < live.len(),
        live[k].pane_id == entry.identity.pane_id,
        text::sanitized(live[k].workspace_id) == entry.workspace_id,
        entry.tab_id is None || live[k].tab_id is None || live[k].tab_id == entry.tab_id,
        forall|l: int|
            0 <= l < live.len() && l != k ==> (#[trigger] live[l]).pane_id
                != entry.identity.pane_id,
    ensures
        jump_focus::staleness(live, entry) is None,
{
    lemma_pane_with(live, entry.identity.pane_id, 0);
}

proof fn lemma_pane_with(panes: Seq<PaneModel>, id: Seq<char>, i: int)
    requires
        0 <= i <= panes.len(),
    ensures
        match jump_focus::pane_with(panes, id, i) {
            Some(k) => i <= k < panes.len() && panes[k].pane_id == id,
            None => forall|k: int| i <= k < panes.len() ==> (#[trigger] panes[k]).pane_id != id,
        },
    decreases panes.len() - i,
{
    if i < panes.len() && panes[i].pane_id != id {
        lemma_pane_with(panes, id, i + 1);
    }
}

/// A pane is focused only after the panes were listed again and it was found alive,
/// and then by its own id. A runtime that is away or cannot focus is not asked.
pub proof fn only_live_panes_are_focused<H: Herdr>(
    client: &H,
    entry: EntryModel,
    result: FocusModel,
)
    requires
        jump_focus::focuses(client, entry, result),
    ensures
        !entry.runtime_available || !entry.focus_supported ==> result is Failed,
        result is Focused ==> {
            &&& entry.runtime_available && entry.focus_supported
            &&& exists|live: herdr::Result<Vec<Pane>>, k: int|
                {
                    &&& #[trigger] call_ensures(H::list_panes, (client,), live)
                    &&& live is Ok
                    &&& 0 <= k < live->Ok_0@.len()
                    &&& (#[trigger] live->Ok_0@[k])@.pane_id == entry.identity.pane_id
                    &&& text::sanitized(live->Ok_0@[k]@.workspace_id) == entry.workspace_id
                }
            &&& exists|id: &str, done: herdr::Result<()>| #[trigger]
                call_ensures(H::focus_pane, (client, id), done) && id@ == entry.identity.pane_id
                    && done is Ok
        },
{
    if result is Focused {
        let live = choose|live: herdr::Result<Vec<Pane>>| #[trigger]
            call_ensures(H::list_panes, (client,), live) && match live {
                Err(error) => result == FocusModel::Failed(
                    "backend unavailable: "@ + jump_pane::tidy(error@.message()),
                ),
                Ok(live) => match jump_focus::staleness(text::views(live@), entry) {
                    Some(stale) => result == stale,
                    None => jump_focus::focuses_live(client, entry, result),
                },
            };
        let listed = text::views(live->Ok_0@);
        rows_are_stale_when_their_pane_is_gone(listed, entry);
        let k = choose|k: int|
            {
                &&& 0 <= k < listed.len()
                &&& (#[trigger] listed[k]).pane_id == entry.identity.pane_id
                &&& text::sanitized(listed[k].workspace_id) == entry.workspace_id
                &&& entry.tab_id is Some && listed[k].tab_id is Some ==> listed[k].tab_id
                    == entry.tab_id
            };
        assert(listed[k] == live->Ok_0@[k]@);
        assert(live->Ok_0@[k]@.pane_id == entry.identity.pane_id);
    }
}

/// Enter, and Control-J, ask for the selected row to be focused by the runtime that it
/// came from; where nothing is shown they do nothing.
pub proof fn enter_asks_for_the_selected_row(run: JumpRun, press: KeyPress, t: int)
    requires
        press.key is Enter || (press.key == Key::Char('j') && press.control),
    ensures
        !(0 <= run.state.selected < run.filtered.len()) ==> run.pressed(press) == (
            run,
            JumpActionModel::Stay,
        ),
        0 <= run.state.selected < run.filtered.len() && 0 <= t < run.targets.len() ==> {
            let entry = run.state.entries[run.filtered[run.state.selected]];
            run.targets[t].id == entry.identity.runtime_id && entry.target.id
                == entry.identity.runtime_id && (forall|l: int|
                0 <= l < t ==> (#[trigger] run.targets[l]).id != entry.identity.runtime_id)
                ==> run.pressed(press) == (run, JumpActionModel::Focus { target: t, entry })
        },
        run.pressed(press).0.state == run.state,
        run.pressed(press).1 is Focus ==> {
            let action = run.pressed(press).1;
            &&& 0 <= action->target < run.targets.len()
            &&& run.targets[action->target].id == action->entry.identity.runtime_id
            &&& action->entry == run.state.entries[run.filtered[run.state.selected]]
        },
{
    if 0 <= run.state.selected < run.filtered.len() {
        let entry = run.state.entries[run.filtered[run.state.selected]];
        lemma_target_with(run.targets, entry.identity.runtime_id, 0);
    }
}

proof fn lemma_target_with(targets: Seq<TargetModel>, id: Seq<char>, i: int)
    requires
        0 <= i <= targets.len(),
    ensures
        match jump_focus::target_with(targets, id, i) {
            Some(t) => i <= t < targets.len() && targets[t].id == id && forall|l: int|
                i <= l < t ==> (#[trigger] targets[l]).id != id,
            None => forall|t: int| i <= t < targets.len() ==> (#[trigger] targets[t]).id != id,
        },
    decreases targets.len() - i,
{
    if i < targets.len() && targets[i].id != id {
        lemma_target_with(targets, id, i + 1);
    }
}

/// Down selects the next row and Up the one before, as far as there are any; letters are
/// added to the query and Backspace takes the last away, and then the first row is
/// selected; Escape leaves.
pub proof fn keys_move_and_search(run: JumpRun, c: char)
    requires
        0 <= run.state.selected < run.filtered.len(),
        c != 'j',
    ensures
        ({
            let plain = |key: Key| KeyPress { key, control: false, alt: false };
            let down = run.pressed(plain(Key::Down));
            let up = run.pressed(plain(Key::Up));
            let typed = run.pressed(plain(Key::Char(c)));
            let back = typed.0.pressed(plain(Key::Backspace));
            let left = run.pressed(plain(Key::Esc));
            &&& down.1 is Stay && up.1 is Stay && typed.1 is Stay && back.1 is Stay
            &&& run.state.selected + 1 < run.filtered.len() ==> down.0.state.selected
                == run.state.selected + 1
            &&& run.state.selected + 1 == run.filtered.len() ==> down.0.state.selected
                == run.state.selected
            &&& run.state.selected > 0 ==> up.0.state.selected == run.state.selected - 1
            &&& run.state.selected == 0 ==> up.0.state.selected == 0
            &&& down.0.state.query == run.state.query && up.0.state.query == run.state.query
            &&& typed.0.state.query == run.state.query.push(c)
            &&& typed.0.state.selected == 0
            &&& back.0.state.query == run.state.query
            &&& back.0.state.selected == 0
            &&& left.1 == JumpActionModel::Leave(FocusModel::Stale("cancelled"@))
            &&& left.0.state == run.state
        }),
{
    assert(run.state.query.push(c).drop_last() =~= run.state.query);
}

/// What a change of query or rows leaves to be looked up is looked up before anything is
/// shown, and an empty list says why it is empty.
pub proof fn settling_looks_panes_up_anew(run: JumpRun)
    requires
        0 <= run.state.selected,
    ensures
        run.stale_filter ==> run.settled().filtered == run.state.ranking().filtered(
            run.state.entries,
        ),
        !run.stale_filter ==> run.settled().filtered == run.filtered,
        run.settled().state.entries == run.state.entries,
        run.settled().state.query == run.state.query,
        run.state.selected < run.settled().filtered.len() ==> run.settled().state.selected
            == run.state.selected,
        run.settled().filtered.len() == 0 && run.errors.len() == 0 && run.state.entries.len() == 0
            ==> run.settled().ui is EmptyRuntime,
        run.settled().filtered.len() == 0 && run.errors.len() == 0 && run.state.entries.len() > 0
            ==> run.settled().ui is ZeroMatches,
        run.settled().filtered.len() > 0 ==> run.settled().ui == run.ui,
{
}

/// The name of an application is told of its own pane, and of no other.
pub proof fn applications_are_told_of_their_pane(
    run: JumpRun,
    identity: IdentityModel,
    name: Option<Seq<char>>,
    k: int,
)
    requires
        0 <= k < run.state.entries.len(),
    ensures
        run.told(identity, name).state.entries.len() == run.state.entries.len(),
        run.state.entries[k].identity != identity ==> run.told(identity, name).state.entries[k]
            == run.state.entries[k],
        run.state.entries[k].identity == identity && (forall|l: int|
            0 <= l < k ==> (#[trigger] run.state.entries[l]).identity != identity) ==> {
            let row = run.told(identity, name).state.entries[k];
            &&& row.application == name
            &&& row == (EntryModel { application: name, ..run.state.entries[k] })
            &&& run.told(identity, name).stale_filter
        },
        run.told(identity, name).state.query == run.state.query,
        run.told(identity, name).state.selected == run.state.selected,
{
    lemma_row_with(run.state.entries, identity, 0);
}

proof fn lemma_row_with(entries: Seq<EntryModel>, identity: IdentityModel, i: int)
    requires
        0 <= i <= entries.len(),
    ensures
        match jump_session::row_with(entries, identity, i) {
            Some(k) => i <= k < entries.len() && entries[k].identity == identity && forall|l: int|
                i <= l < k ==> (#[trigger] entries[l]).identity != identity,
            None => forall|k: int|
                i <= k < entries.len() ==> (#[trigger] entries[k]).identity != identity,
        },
    decreases entries.len() - i,
{
    if i < entries.len() && entries[i].identity != identity {
        lemma_row_with(entries, identity, i + 1);
    }
}

/// A pane goes by its label, or else its title, its terminal's title, the last name of
/// the directory that its foreground process or it is in, or the end of its id; and the
/// end of its id is always shown.
pub proof fn panes_go_by_their_names(entry: EntryModel)
    ensures
        entry.primary() == entry.base() + " ["@ + jump_pane::short(entry.identity.pane_id) + "]"@,
        entry.label is Some ==> entry.base() == entry.label->0,
        entry.label is None && entry.title is Some ==> entry.base() == entry.title->0,
        entry.label is None && entry.title is None && entry.terminal_title is Some ==> entry.base()
            == entry.terminal_title->0,
        entry.label is None && entry.title is None && entry.terminal_title is None
            && entry.foreground_cwd is Some && jump_pane::name_in_path(entry.foreground_cwd->0)
            is Some ==> entry.base() == jump_pane::name_in_path(entry.foreground_cwd->0)->0,
        entry.label is None && entry.title is None && entry.terminal_title is None
            && entry.foreground_cwd is None && entry.cwd is Some && jump_pane::name_in_path(
            entry.cwd->0,
        ) is Some ==> entry.base() == jump_pane::name_in_path(entry.cwd->0)->0,
        entry.label is None && entry.title is None && entry.terminal_title is None
            && entry.foreground_cwd is None && entry.cwd is None ==> entry.base()
            == jump_pane::short(entry.identity.pane_id),
{
}

/// The end of an id is its last eight characters, tidied, or all where there are fewer.
pub proof fn ids_are_shown_by_their_ends(value: Seq<char>)
    ensures
        ({
            let clean = text::trimmed(text::sanitized(value));
            let end = jump_pane::short(value);
            &&& clean.len() <= 8 ==> end == clean
            &&& clean.len() > 8 ==> end.len() == 8 && end == clean.subrange(
                clean.len() - 8,
                clean.len() as int,
            )
        }),
{
    let clean = text::trimmed(text::sanitized(value));
    if clean.len() > 8 {
        assert(clean.skip(clean.len() - 8) =~= clean.subrange(
            clean.len() - 8,
            clean.len() as int,
        ));
    }
}

/// The last name of a path is what follows its last slash; slashes at its end do not
/// count.
pub proof fn paths_end_with_their_names(front: Seq<char>, name: Seq<char>)
    requires
        name.len() > 0,
        !name.contains('/'),
        text::trimmed(text::sanitized(name)).len() > 0,
    ensures
        jump_pane::name_in_path(front + seq!['/'] + name) == Some(
            text::trimmed(text::sanitized(name)),
        ),
        jump_pane::name_in_path(front + seq!['/'] + name + seq!['/']) == Some(
            text::trimmed(text::sanitized(name)),
        ),
{
    let path = front + seq!['/'] + name;
    assert(path.last() == name[name.len() - 1]);
    assert(name.contains(name[name.len() - 1]));
    assert(jump_pane::without_slashes(path) == path);
    lemma_after_slash(front, name);
    let slashed = path + seq!['/'];
    assert(slashed.last() == '/');
    assert(slashed.drop_last() =~= path);
}

proof fn lemma_after_slash(front: Seq<char>, name: Seq<char>)
    requires
        !name.contains('/'),
    ensures
        jump_pane::after_last_slash(front + seq!['/'] + name) == name,
    decreases name.len(),
{
    let path = front + seq!['/'] + name;
    if name.len() == 0 {
        assert(path.last() == '/');
        assert(jump_pane::after_last_slash(path) =~= name);
    } else {
        let rest = name.drop_last();
        assert(path.last() == name[name.len() - 1]);
        assert(name.contains(name[name.len() - 1]));
        assert forall|c: char| rest.contains(c) implies name.contains(c) by {
            let k = choose|k: int| 0 <= k < rest.len() && rest[k] == c;
            assert(name[k] == c);
        }
        lemma_after_slash(front, rest);
        assert(path.drop_last() =~= front + seq!['/'] + rest);
        assert(rest.push(name.last()) =~= name);
    }
}

/// A directory is shown with the home directory as `~`, only at its beginning and only
/// as a whole piece.
pub proof fn homes_are_shown_as_tilde(home: Seq<char>, rest: Seq<char>, path: Seq<char>)
    ensures
        jump_pane::home_collapsed(home, Some(home)) == "~"@,
        jump_pane::home_collapsed(home + seq!['/'] + rest, Some(home)) == "~"@ + (seq!['/'] + rest),
        jump_pane::home_collapsed(path, None) == path,
        path != home && !(path.len() > home.len() && path.take(home.len() as int) == home
            && path[home.len() as int] == '/') ==> jump_pane::home_collapsed(path, Some(home))
            == path,
{
    let whole = home + seq!['/'] + rest;
    assert(whole.take(home.len() as int) =~= home);
    assert(whole.skip(home.len() as int) =~= seq!['/'] + rest);
    assert(whole.len() > home.len());
}

/// The second line of a row tells where the pane is, its runtime and workspace, and, as
/// far as known, its host, its tab, its agent with status, and its application.
pub proof fn rows_tell_where_panes_are(entry: EntryModel, home: Option<Seq<char>>)
    ensures
        ({
            let context = entry.target.name + " · "@ + entry.workspace_id + (
            match entry.target.remote_host {
                Some(host) => " @ "@ + host,
                None => Seq::empty(),
            }) + (match (entry.tab_label, entry.tab_id) {
                (Some(label), _) => " / "@ + label,
                (None, Some(id)) => " / "@ + id,
                (None, None) => Seq::empty(),
            }) + (match entry.agent {
                Some(agent) => " · "@ + agent,
                None => Seq::empty(),
            }) + (match entry.agent_status {
                Some(status) => " · "@ + status,
                None => Seq::empty(),
            }) + (match entry.application {
                Some(application) => " · "@ + application,
                None => Seq::empty(),
            });
            let path = match (entry.foreground_cwd, entry.cwd) {
                (Some(directory), _) => jump_pane::home_collapsed(directory, home),
                (None, Some(directory)) => jump_pane::home_collapsed(directory, home),
                (None, None) => Seq::empty(),
            };
            &&& path.len() == 0 ==> entry.secondary(home) == context
            &&& path.len() > 0 ==> entry.secondary(home) == path + " · "@ + context
        }),
{
}

/// A row is shown in two lines; the selected one is marked, and one that cannot be
/// focused says why.
pub proof fn rows_are_shown_in_two_lines(entry: EntryModel, home: Option<Seq<char>>)
    ensures
        ({
            let note = if !entry.runtime_available {
                " [unavailable]"@
            } else if !entry.focus_supported {
                " [focus unsupported]"@
            } else {
                Seq::empty()
            };
            &&& jump_session::row_lines(entry, true, home) == seq![
                "> "@ + entry.primary() + note,
                "  "@ + entry.secondary(home),
            ]
            &&& jump_session::row_lines(entry, false, home) == seq![
                "  "@ + entry.primary() + note,
                "  "@ + entry.secondary(home),
            ]
        }),
{
}

/// The screen begins with what goes on and the query, then shows up to 64 rows with the
/// selected one among them, says how many more there are, and ends with the errors.
pub proof fn the_screen_shows_the_selected_row(
    state: JumpModel,
    filtered: Seq<int>,
    status: UiModel,
    errors: Seq<Seq<char>>,
    home: Option<Seq<char>>,
)
    requires
        0 <= state.selected < filtered.len(),
    ensures
        ({
            let lines = jump_session::screen_text(state, filtered, status, errors, home);
            let row = jump_session::row_lines(
                state.entries[filtered[state.selected]],
                true,
                home,
            );
            &&& lines.len() > 0
            &&& lines[0] == "\x1b[2J\x1b[HJump Pane · "@ + status.message() + " · query: "@
                + text::trimmed(text::sanitized(state.query))
            &&& lines.contains(row[0])
            &&& filtered.len() <= 64 ==> lines.len() == 1 + 2 * filtered.len() + errors.len()
            &&& filtered.len() > 64 ==> lines.len() == 1 + 2 * 64 + 1 + errors.len()
            &&& filtered.len() > 64 ==> lines[129] == "… "@ + text::decimal(
                (filtered.len() - 64) as nat,
            ) + " more"@
        }),
{
    let total = filtered.len() as int;
    let start = jump_list::view_start(total, state.selected, 64);
    let end = jump_session::drawn_end(start, total);
    let shown = jump_session::rows_text(state, filtered, home, start, end);
    let lines = jump_session::screen_text(state, filtered, status, errors, home);
    crate::jump_laws::selected_row_is_in_view(total, state.selected, 64);
    lemma_rows_text(state, filtered, home, start, end, state.selected);
    let at = 2 * (state.selected - start);
    assert(lines[1 + at] == shown[at]);
    if total > 64 {
        assert(lines[129] == "… "@ + text::decimal((total - 64) as nat) + " more"@);
    }
}

proof fn lemma_rows_text(
    state: JumpModel,
    filtered: Seq<int>,
    home: Option<Seq<char>>,
    start: int,
    n: int,
    k: int,
)
    requires
        0 <= start <= n <= filtered.len(),
    ensures
        jump_session::rows_text(state, filtered, home, start, n).len() == 2 * (n - start),
        start <= k < n ==> {
            let lines = jump_session::rows_text(state, filtered, home, start, n);
            let row = jump_session::row_lines(
                state.entries[filtered[k]],
                k == state.selected,
                home,
            );
            lines[2 * (k - start)] == row[0] && lines[2 * (k - start) + 1] == row[1]
        },
    decreases n - start,
{
    if start < n {
        lemma_rows_text(state, filtered, home, start, n - 1, k);
    }
}

/// A run begins with the panes of all runtimes that could be listed; the others are
/// named with what went wrong. Where the pane in use is known, it says where the user
/// is.
pub proof fn a_run_begins_with_all_panes(
    state: JumpModel,
    targets: Seq<TargetModel>,
    listed: Seq<std::result::Result<Seq<EntryModel>, Seq<char>>>,
    t: int,
)
    requires
        listed.len() == targets.len(),
        0 <= t < listed.len(),
    ensures
        ({
            let run = JumpRun::begun(state, targets, listed);
            &&& run.targets == targets
            &&& run.recency == state.recency
            &&& run.state.query == state.query
            &&& listed[t] is Ok ==> forall|k: int|
                0 <= k < listed[t]->Ok_0.len() ==> run.state.entries.contains(
                    #[trigger] listed[t]->Ok_0[k],
                )
            &&& listed[t] is Err ==> run.errors.contains(
                text::trimmed(text::sanitized(targets[t].name)) + ": "@ + text::trimmed(
                    text::sanitized(listed[t]->Err_0),
                ),
            )
            &&& (forall|u: int| 0 <= u < listed.len() ==> (#[trigger] listed[u]) is Ok)
                ==> run.errors.len() == 0
            &&& run.errors.len() > 0 ==> run.ui is BackendUnavailable
            &&& run.state.current is Some && state.current is None ==> exists|k: int|
                {
                    &&& 0 <= k < run.state.entries.len()
                    &&& (#[trigger] run.state.entries[k]).focused
                    &&& run.state.current == Some(
                        (run.state.entries[k].workspace_id, run.state.entries[k].tab_id),
                    )
                }
            &&& (exists|k: int|
                0 <= k < run.state.entries.len() && (#[trigger] run.state.entries[k]).focused)
                ==> run.state.current is Some
        }),
{
    let n = listed.len();
    let run = JumpRun::begun(state, targets, listed);
    let found = jump_session::found_rows(listed, n);
    lemma_found_errors(targets, listed, n, t);
    lemma_focused_row(run.state.entries, 0);
    if listed[t] is Ok {
        let rows = listed[t]->Ok_0;
        assert forall|k: int| 0 <= k < rows.len() implies run.state.entries.contains(
            #[trigger] rows[k],
        ) by {
            let at = lemma_found_rows(listed, n, t, k);
            let places = order::ordered::<crate::jump_pane::PaneIdentity>(
                jump_list::identities(found),
            );
            order::ordering_is_a_stable_sort::<crate::jump_pane::PaneIdentity>(
                jump_list::identities(found),
            );
            crate::model_laws::permutation_leaves_nothing_out(places, found.len(), at);
            let i = choose|i: int| 0 <= i < places.len() && places[i] == at;
            assert(run.state.entries[i] == found[at]);
        }
    }
}

proof fn lemma_found_rows(
    listed: Seq<std::result::Result<Seq<EntryModel>, Seq<char>>>,
    n: nat,
    t: int,
    k: int,
) -> (at: int)
    requires
        0 <= t < n <= listed.len(),
        listed[t] is Ok,
        0 <= k < listed[t]->Ok_0.len(),
    ensures
        0 <= at < jump_session::found_rows(listed, n).len(),
        jump_session::found_rows(listed, n)[at] == listed[t]->Ok_0[k],
    decreases n,
{
    let before = jump_session::found_rows(listed, (n - 1) as nat);
    if t == n - 1 {
        before.len() + k
    } else {
        lemma_found_rows(listed, (n - 1) as nat, t, k)
    }
}

proof fn lemma_found_errors(
    targets: Seq<TargetModel>,
    listed: Seq<std::result::Result<Seq<EntryModel>, Seq<char>>>,
    n: nat,
    t: int,
)
    requires
        n <= listed.len(),
        listed.len() == targets.len(),
    ensures
        0 <= t < n && listed[t] is Err ==> jump_session::found_errors(targets, listed, n).contains(
            text::trimmed(text::sanitized(targets[t].name)) + ": "@ + text::trimmed(
                text::sanitized(listed[t]->Err_0),
            ),
        ),
        (forall|u: int| 0 <= u < n ==> (#[trigger] listed[u]) is Ok)
            ==> jump_session::found_errors(targets, listed, n).len() == 0,
    decreases n,
{
    if n > 0 {
        let before = jump_session::found_errors(targets, listed, (n - 1) as nat);
        let after = jump_session::found_errors(targets, listed, n);
        lemma_found_errors(targets, listed, (n - 1) as nat, t);
        if 0 <= t < n && listed[t] is Err {
            let words = text::trimmed(text::sanitized(targets[t].name)) + ": "@ + text::trimmed(
                text::sanitized(listed[t]->Err_0),
            );
            if t == n - 1 {
                assert(after[before.len() as int] == words);
            } else {
                let i = choose|i: int| 0 <= i < before.len() && before[i] == words;
                assert(after[i] == words);
            }
        }
        if forall|u: int| 0 <= u < n ==> (#[trigger] listed[u]) is Ok {
            assert(listed[n - 1] is Ok);
        }
    }
}

proof fn lemma_focused_row(entries: Seq<EntryModel>, i: int)
    requires
        0 <= i <= entries.len(),
    ensures
        match jump_session::focused_row(entries, i) {
            Some(k) => i <= k < entries.len() && entries[k].focused,
            None => forall|k: int| i <= k < entries.len() ==> !(#[trigger] entries[k]).focused,
        },
    decreases entries.len() - i,
{
    if i < entries.len() && !entries[i].focused {
        lemma_focused_row(entries, i + 1);
    }
}

/// After a pane was focused it is the latest and the run is done; a stale one has its
/// runtime listed again; a failure is told, and the run goes on.
pub proof fn what_follows_a_focus(run: JumpRun, identity: IdentityModel, words: Seq<char>)
    ensures
        ({
            let (after, next) = run.focused(identity, FocusModel::Focused);
            &&& next is Done
            &&& after.recency.len() > 0 && after.recency[0] == identity
            &&& after.state == run.state
        }),
        ({
            let (after, next) = run.focused(identity, FocusModel::Stale(words));
            &&& next is Refresh
            &&& after.recency == run.recency
            &&& after.ui == UiModel::Stale(words)
            &&& after.state == run.state
        }),
        ({
            let (after, next) = run.focused(identity, FocusModel::Failed(words));
            &&& next is Stay
            &&& after.recency == run.recency
            &&& after.ui.message() == words
            &&& after.state == run.state
        }),
{
    crate::jump_rank_laws::focusing_keeps_the_order_of_others(run.recency, identity);
}

/// A recency file of another version is not read.
pub proof fn other_versions_are_not_read(version: u8, identities: Seq<IdentityModel>)
    requires
        version != 1,
    ensures
        jump_list::recency_in_file(version, identities).len() == 0,
{
}

/// Jobs ask for the application of just the chosen panes, each by the runtime that it
/// came from.
pub proof fn jobs_ask_the_right_runtime(
    entries: Seq<EntryModel>,
    chosen: Seq<int>,
    targets: Seq<TargetModel>,
    n: nat,
    j: int,
)
    requires
        n <= chosen.len(),
        0 <= j < jump_focus::jobs_for(entries, chosen, targets, n).len(),
    ensures
        ({
            let job = jump_focus::jobs_for(entries, chosen, targets, n)[j];
            &&& 0 <= job.target < targets.len()
            &&& targets[job.target].id == job.identity.runtime_id
            &&& exists|c: int|
                {
                    &&& 0 <= c < n
                    &&& 0 <= #[trigger] chosen[c] < entries.len()
                    &&& entries[chosen[c]].identity == job.identity
                }
        }),
    decreases n,
{
    if n > 0 {
        let before = jump_focus::jobs_for(entries, chosen, targets, (n - 1) as nat);
        let at = chosen[n - 1];
        if j < before.len() {
            jobs_ask_the_right_runtime(entries, chosen, targets, (n - 1) as nat, j);
            let job = before[j];
            let c = choose|c: int|
                {
                    &&& 0 <= c < n - 1
                    &&& 0 <= #[trigger] chosen[c] < entries.len()
                    &&& entries[chosen[c]].identity == job.identity
                };
            assert(0 <= chosen[c] < entries.len());
        } else {
            lemma_target_with(targets, entries[at].identity.runtime_id, 0);
            assert(0 <= chosen[n - 1] < entries.len());
        }
    }
}

/// The default runtime comes first and is run as it is; the configured ones follow in
/// their order. Each is known by its name, or its place where it has none, is run by its
/// own command or the usual one, with its own arguments before those that name its host
/// and its session, and can be focused just where it has a socket.
pub proof fn runtimes_are_the_configured_ones(
    sessions: Seq<SessionModel>,
    bin: Seq<char>,
    home: Option<Seq<char>>,
    i: int,
)
    requires
        0 <= i < sessions.len(),
    ensures
        ({
            let all = jump_pane::all_targets(sessions, bin, home);
            let first = all[0];
            let session = sessions[i];
            let target = all[i + 1];
            &&& all.len() == sessions.len() + 1
            &&& first.id == "default"@ && first.name == "default"@ && first.command == bin
            &&& first.arg_prefix.len() == 0 && first.socket is None && first.focus_supported
            &&& target.command == match session.command {
                Some(command) => command,
                None => bin,
            }
            &&& target.name == if text::is_blank(session.name) {
                "session-"@ + text::decimal(i as nat)
            } else {
                text::trimmed(text::sanitized(session.name))
            }
            &&& target.filter == session.filter
            &&& session.socket is None ==> target.socket is None && !target.focus_supported
            &&& session.socket is Some ==> target.socket == Some(
                config::expanded(session.socket->0, home),
            ) && target.focus_supported == !text::is_blank(session.socket->0)
            &&& is_tidy_of(session.remote, target.remote_host)
            &&& session.remote is None && !text::is_blank(session.name) ==> target.arg_prefix
                == session.args + seq!["--session"@, session.name]
            &&& session.remote is None && text::is_blank(session.name) ==> target.arg_prefix
                == session.args
            &&& session.remote is Some && !text::is_blank(session.remote->0) && !text::is_blank(
                session.name,
            ) ==> target.arg_prefix == session.args + seq!["--remote"@, session.remote->0] + seq![
                "--session"@,
                session.name,
            ]
        }),
{
    let session = sessions[i];
    let none = Seq::<Seq<char>>::empty();
    assert(session.args + none =~= session.args);
    assert(session.args + none + none =~= session.args);
}

/// When the rows of one runtime are listed again and the selected row is gone, the
/// selection stays at its place, or goes to the last row; when all rows are, it goes to
/// the first.
pub proof fn a_lost_selection_stays_near(
    state: JumpModel,
    runtime: Seq<char>,
    entries: Seq<EntryModel>,
)
    requires
        0 <= state.selected,
    ensures
        ({
            let after = state.merged(runtime, entries);
            let shown = state.ranking().filtered(after.entries);
            let gone = match state.selected_entry() {
                Some(entry) => forall|k: int|
                    0 <= k < shown.len() ==> after.entries[#[trigger] shown[k]].identity
                        != entry.identity,
                None => true,
            };
            &&& gone && state.selected < shown.len() ==> after.selected == state.selected
            &&& gone && state.selected >= shown.len() > 0 ==> after.selected == shown.len() - 1
            &&& after.query == state.query && after.recency == state.recency
        }),
        ({
            let after = state.replaced(entries);
            let shown = state.ranking().filtered(after.entries);
            let gone = match state.selected_entry() {
                Some(entry) => forall|k: int|
                    0 <= k < shown.len() ==> after.entries[#[trigger] shown[k]].identity
                        != entry.identity,
                None => true,
            };
            &&& gone ==> after.selected == 0
            &&& after.query == state.query && after.recency == state.recency
        }),
{
    let merged = state.merged(runtime, entries);
    let replaced = state.replaced(entries);
    if let Some(entry) = state.selected_entry() {
        lemma_place_lost(merged.entries, state.ranking().filtered(merged.entries), entry.identity, 0);
        lemma_place_lost(
            replaced.entries,
            state.ranking().filtered(replaced.entries),
            entry.identity,
            0,
        );
    }
}

proof fn lemma_place_lost(
    entries: Seq<EntryModel>,
    shown: Seq<int>,
    identity: IdentityModel,
    i: int,
)
    requires
        0 <= i,
    ensures
        (forall|k: int| i <= k < shown.len() ==> entries[#[trigger] shown[k]].identity != identity)
            ==> jump_list::place_with(entries, shown, identity, i) is None,
    decreases shown.len() - i,
{
    if i < shown.len() {
        lemma_place_lost(entries, shown, identity, i + 1);
    }
}

/// Applications are asked for of the first 32 different panes that are shown, in their
/// order; where none is shown, of the first 32 of all.
pub proof fn shown_panes_are_enriched_first(
    by: Ranking,
    entries: Seq<EntryModel>,
    visible: Seq<int>,
)
    requires
        visible.no_duplicates(),
        visible.len() > 0,
    ensures
        visible.len() <= 32 ==> jump_list::candidates(by, entries, visible) == visible,
        visible.len() > 32 ==> jump_list::candidates(by, entries, visible) == visible.take(32),
{
    lemma_already_distinct(visible);
}

proof fn lemma_already_distinct(items: Seq<int>)
    requires
        items.no_duplicates(),
    ensures
        lists::distinct(items) == items,
    decreases items.len(),
{
    if items.len() > 0 {
        let front = items.drop_last();
        assert(front.no_duplicates());
        lemma_already_distinct(front);
        if front.contains(items.last()) {
            let i = choose|i: int| 0 <= i < front.len() && front[i] == items.last();
            assert(items[i] == items[items.len() - 1]);
        }
        assert(front.push(items.last()) =~= items);
    } else {
        assert(lists::distinct(items) =~= items);
    }
}

/// A runtime that could not be listed again keeps its rows, which can then not be
/// focused, and what went wrong is told; other rows stay as they are.
pub proof fn lost_runtimes_are_told(run: JumpRun, target: int, words: Seq<char>, k: int)
    requires
        0 <= target < run.targets.len(),
        0 <= k < run.state.entries.len(),
    ensures
        ({
            let after = run.refreshed(target, Err(words));
            let row = run.state.entries[k];
            &&& after.state.entries.len() == run.state.entries.len()
            &&& row.identity.runtime_id == run.targets[target].id ==> after.state.entries[k] == (
            EntryModel { runtime_available: false, ..row })
            &&& row.identity.runtime_id != run.targets[target].id ==> after.state.entries[k] == row
            &&& after.errors.len() == run.errors.len() + 1
            &&& after.errors.last() == run.targets[target].name + ": "@ + text::trimmed(
                text::sanitized(words),
            )
            &&& after.ui == UiModel::BackendUnavailable(after.errors.last())
            &&& after.stale_filter
        }),
{
}

/// All rows are kept in the order of their runtimes, and those of one runtime in that of
/// their ids.
pub proof fn rows_are_kept_in_order(state: JumpModel, entries: Seq<EntryModel>, i: int, j: int)
    requires
        0 <= i < j < state.replaced(entries).entries.len(),
    ensures
        ({
            let a = state.replaced(entries).entries[i].identity;
            let b = state.replaced(entries).entries[j].identity;
            if a.runtime_id == b.runtime_id {
                text::at_most(a.pane_id, b.pane_id)
            } else {
                text::at_most(a.runtime_id, b.runtime_id)
            }
        }),
        state.replaced(entries).entries.len() == entries.len(),
{
    let keys = jump_list::identities(entries);
    let places = order::ordered::<PaneIdentity>(keys);
    order::ordering_is_a_stable_sort::<PaneIdentity>(keys);
    assert(PaneIdentity::precedes(keys[places[i]], keys[places[j]]));
}

/// Nothing is read from a recency file that does not name a runtime and a pane.
pub proof fn incomplete_panes_are_not_read(version: u8, identities: Seq<IdentityModel>, i: int)
    requires
        0 <= i < jump_list::recency_in_file(version, identities).len(),
    ensures
        jump_list::recency_in_file(version, identities)[i].runtime_id.len() > 0,
        jump_list::recency_in_file(version, identities)[i].pane_id.len() > 0,
        jump_list::recency_in_file(version, identities).len() <= 100,
{
    let kept = lists::at_most_first(identities, 100);
    lemma_touched_all(kept, kept.len());
    let all = jump_list::touched_all(kept, kept.len());
    assert(all.reverse()[i] == all[all.len() - 1 - i]);
}

proof fn lemma_touched_all(identities: Seq<IdentityModel>, n: nat)
    requires
        n <= identities.len(),
    ensures
        jump_list::touched_all(identities, n).len() <= 100,
        forall|i: int|
            0 <= i < jump_list::touched_all(identities, n).len() ==> {
                let one = #[trigger] jump_list::touched_all(identities, n)[i];
                one.runtime_id.len() > 0 && one.pane_id.len() > 0
            },
    decreases n,
{
    if n > 0 {
        let before = jump_list::touched_all(identities, (n - 1) as nat);
        let after = jump_list::touched_all(identities, n);
        lemma_touched_all(identities, (n - 1) as nat);
        let one = identities[n - 1];
        let rest = lists::without(before, one);
        lists::lemma_without(before, one);
        assert forall|i: int| 0 <= i < after.len() implies {
            let one = #[trigger] after[i];
            one.runtime_id.len() > 0 && one.pane_id.len() > 0
        } by {
            if after != before {
                if i > 0 {
                    assert(after[i] == rest[i - 1]);
                    assert(rest.contains(rest[i - 1]));
                    let k = choose|k: int| 0 <= k < before.len() && before[k] == rest[i - 1];
                    assert(before[k].runtime_id.len() > 0);
                }
            }
        }
    }
}

/// At most four jobs run together.
pub proof fn few_jobs_run_together(jobs: Seq<JobModel>, from: int, i: int)
    requires
        0 <= from <= jobs.len(),
        0 <= i < jump_focus::batches_from(jobs, from).len(),
    ensures
        0 < jump_focus::batches_from(jobs, from)[i].len() <= 4,
        i + 1 < jump_focus::batches_from(jobs, from).len() ==> jump_focus::batches_from(
            jobs,
            from,
        )[i].len() == 4,
    decreases jobs.len() - from,
{
    if from < jobs.len() && jobs.len() - from > 4 && i > 0 {
        few_jobs_run_together(jobs, from + 4, i - 1);
    }
}

/// Without a filter of its own a runtime shows all panes but hidden and suppressed ones,
/// those of plugins and floating ones, as far as it does not take these in.
pub proof fn open_filters_name_nothing()
    ensures
        config::open_filter().runtime is None,
        config::open_filter().host is None,
        config::open_filter().workspace is None,
        config::open_filter().status is None,
        !config::open_filter().include_hidden,
        !config::open_filter().include_plugin,
        !config::open_filter().include_floating,
        !config::open_filter().include_suppressed,
{
}

/// What goes on is said in words.
pub proof fn what_goes_on_is_said(words: Seq<char>)
    ensures
        UiModel::Loading.message() == "loading panes…"@,
        UiModel::Ready.message() == "ready"@,
        UiModel::EmptyRuntime.message() == "no panes available"@,
        UiModel::ZeroMatches.message() == "no matches"@,
        UiModel::Success.message() == "focused"@,
        UiModel::Cancelled.message() == "cancelled"@,
        UiModel::Stale(words).message() == words,
        UiModel::BackendUnavailable(words).message() == words,
        UiModel::FocusFailure(words).message() == words,
{
}

/// Every row in view is shown at its place, two lines for each, and the errors come last.
pub proof fn rows_in_view_are_shown_in_order(
    state: JumpModel,
    filtered: Seq<int>,
    status: UiModel,
    errors: Seq<Seq<char>>,
    home: Option<Seq<char>>,
    k: int,
    e: int,
)
    requires
        0 <= state.selected < filtered.len(),
    ensures
        ({
            let lines = jump_session::screen_text(state, filtered, status, errors, home);
            let start = jump_list::view_start(filtered.len() as int, state.selected, 64);
            let row = jump_session::row_lines(
                state.entries[filtered[k]],
                k == state.selected,
                home,
            );
            &&& start <= k < start + 64 && k < filtered.len() ==> lines[1 + 2 * (k - start)]
                == row[0] && lines[1 + 2 * (k - start) + 1] == row[1]
            &&& 0 <= e < errors.len() ==> lines[lines.len() - errors.len() + e] == "! "@
                + text::trimmed(text::sanitized(errors[e]))
        }),
{
    let total = filtered.len() as int;
    let start = jump_list::view_start(total, state.selected, 64);
    let end = jump_session::drawn_end(start, total);
    let shown = jump_session::rows_text(state, filtered, home, start, end);
    let lines = jump_session::screen_text(state, filtered, status, errors, home);
    crate::jump_laws::selected_row_is_in_view(total, state.selected, 64);
    lemma_rows_text(state, filtered, home, start, end, k);
    if start <= k < start + 64 && k < filtered.len() {
        let at = 2 * (k - start);
        assert(lines[1 + at] == shown[at]);
        assert(lines[1 + at + 1] == shown[at + 1]);
    }
    if 0 <= e < errors.len() {
        let last = jump_session::error_lines(errors);
        assert(lines[lines.len() - errors.len() + e] == last[e]);
    }
}

/// Listing a runtime fails only with its panes, and with their error; without tabs its
/// panes are listed all the same, and a runtime without panes has no rows.
pub proof fn listing_gives_what_was_answered<H: Herdr>(
    client: &H,
    target: TargetModel,
    panes: herdr::Result<Vec<Pane>>,
    tabs: herdr::Result<Vec<TabInfo>>,
    snapped: herdr::Result<Vec<PaneEntry>>,
)
    requires
        jump_focus::lists(client, target, snapped),
        forall|answer: herdr::Result<Vec<Pane>>| #[trigger]
            call_ensures(H::list_panes, (client,), answer) ==> answer == panes,
        forall|answer: herdr::Result<Vec<TabInfo>>| #[trigger]
            call_ensures(H::list_tabs, (client,), answer) ==> answer == tabs,
    ensures
        snapped is Err <==> panes is Err,
        snapped is Err ==> snapped->Err_0@ == panes->Err_0@,
        panes is Ok && panes->Ok_0@.len() == 0 ==> snapped->Ok_0@.len() == 0,
        panes is Ok && panes->Ok_0@.len() > 0 && tabs is Ok ==> text::views(snapped->Ok_0@)
            == jump_focus::rows_of(
            target,
            text::views(panes->Ok_0@),
            text::views(tabs->Ok_0@),
            panes->Ok_0@.len(),
        ),
        panes is Ok && panes->Ok_0@.len() > 0 && tabs is Err ==> text::views(snapped->Ok_0@)
            == jump_focus::rows_of(
            target,
            text::views(panes->Ok_0@),
            Seq::empty(),
            panes->Ok_0@.len(),
        ),
{
}

} // verus!
