//! What each row of the picker says of what it stands for.

use vstd::prelude::*;
use crate::herdr::{PaneModel, TabModel, WorkspaceModel};
use crate::model;
use crate::model::{AgentState, KindModel, RowKey, RowModel, Sources};
use crate::model_laws;
use crate::order;
use crate::order::Ranked;
use crate::order_laws;
use crate::paths;
use crate::text;

verus! {

/// The state that a status word means; any other word, and none, means nothing
/// known.
pub open spec fn meant(word: Option<Seq<char>>) -> AgentState {
    if word == Some("blocked"@) {
        AgentState::Blocked
    } else if word == Some("working"@) {
        AgentState::Working
    } else if word == Some("done"@) {
        AgentState::Done
    } else if word == Some("idle"@) {
        AgentState::Idle
    } else {
        AgentState::Unknown
    }
}

/// How late a state comes: what waits for the user comes first, then what runs, what
/// is done, what is idle, and at last what is not known.
pub open spec fn lateness(state: AgentState) -> int {
    match state {
        AgentState::Blocked => 0,
        AgentState::Working => 1,
        AgentState::Done => 2,
        AgentState::Idle => 3,
        AgentState::Unknown => 4,
    }
}

proof fn lemma_words(word: Seq<char>)
    ensures
        model::agent_state(word) == meant(Some(word)),
        model::agent_state(""@) == AgentState::Unknown,
{
    reveal_strlit("");
    reveal_strlit("blocked");
    reveal_strlit("working");
    reveal_strlit("done");
    reveal_strlit("idle");
    assert("blocked"@.len() == 7 && "working"@.len() == 7 && "done"@.len() == 4 && "idle"@.len()
        == 4 && ""@.len() == 0);
}

/// Rows found among the tabs of a workspace.
proof fn lemma_tab_row_found(from: Sources, workspace: WorkspaceModel, n: nat, k: int)
    requires
        0 <= k < n <= from.tabs.len(),
        from.shows_tab(workspace, from.tabs[k]),
    ensures
        from.tab_rows(workspace, n).contains(from.tab_row(workspace, from.tabs[k])),
    decreases n,
{
    let all = from.tab_rows(workspace, n);
    let row = from.tab_row(workspace, from.tabs[k]);
    if k == n - 1 {
        assert(all[all.len() - 1] == row);
    } else {
        lemma_tab_row_found(from, workspace, (n - 1) as nat, k);
        let before = from.tab_rows(workspace, (n - 1) as nat);
        let i = choose|i: int| 0 <= i < before.len() && before[i] == row;
        assert(all[i] == row);
    }
}

/// Rows found among the panes of a workspace.
proof fn lemma_pane_row_found(from: Sources, workspace: WorkspaceModel, n: nat, k: int)
    requires
        0 <= k < n <= from.panes.len(),
        from.shows_pane(workspace, from.panes[k]),
    ensures
        from.pane_rows(workspace, n).contains(from.pane_row(workspace, from.panes[k])),
    decreases n,
{
    let all = from.pane_rows(workspace, n);
    let row = from.pane_row(workspace, from.panes[k]);
    if k == n - 1 {
        assert(all[all.len() - 1] == row);
    } else {
        lemma_pane_row_found(from, workspace, (n - 1) as nat, k);
        let before = from.pane_rows(workspace, (n - 1) as nat);
        let i = choose|i: int| 0 <= i < before.len() && before[i] == row;
        assert(all[i] == row);
    }
}

/// What is found of a workspace is among the rows found.
proof fn lemma_found_of_workspace(from: Sources, n: nat, w: int, row: RowModel)
    requires
        0 <= w < n <= from.workspaces.len(),
        from.tab_rows(from.workspaces[w], from.tabs.len()).contains(row) || from.pane_rows(
            from.workspaces[w],
            from.panes.len(),
        ).contains(row) || row == from.open_row(from.workspaces[w]),
    ensures
        from.live_rows(n).contains(row),
    decreases n,
{
    let front = from.live_rows((n - 1) as nat);
    let workspace = from.workspaces[n - 1];
    let tabs = from.tab_rows(workspace, from.tabs.len());
    let panes = from.pane_rows(workspace, from.panes.len());
    let all = from.live_rows(n);
    if w < n - 1 {
        lemma_found_of_workspace(from, (n - 1) as nat, w, row);
        let i = choose|i: int| 0 <= i < front.len() && front[i] == row;
        assert(all[i] == row);
    } else if tabs.contains(row) {
        let i = choose|i: int| 0 <= i < tabs.len() && tabs[i] == row;
        assert(all[front.len() + i] == row);
    } else if panes.contains(row) {
        let i = choose|i: int| 0 <= i < panes.len() && panes[i] == row;
        assert(all[front.len() + tabs.len() + i] == row);
    } else {
        assert(all[front.len() + tabs.len() + panes.len() as int] == row);
    }
}

/// What is found of a workspace is shown.
proof fn lemma_shown_of_workspace(from: Sources, w: int, row: RowModel)
    requires
        0 <= w < from.workspaces.len(),
        from.tab_rows(from.workspaces[w], from.tabs.len()).contains(row) || from.pane_rows(
            from.workspaces[w],
            from.panes.len(),
        ).contains(row) || row == from.open_row(from.workspaces[w]),
    ensures
        from.rows().contains(row),
{
    let n = from.workspaces.len();
    lemma_found_of_workspace(from, n, w, row);
    let live = from.live_rows(n);
    let i = choose|i: int| 0 <= i < live.len() && live[i] == row;
    assert(from.found_rows()[i] == row);
    model_laws::ranking_keeps_every_row(from);
}

/// Where a tab row comes from.
proof fn lemma_tab_row_origin(from: Sources, workspace: WorkspaceModel, n: nat, i: int)
    requires
        n <= from.tabs.len(),
        0 <= i < from.tab_rows(workspace, n).len(),
    ensures
        exists|k: int|
            0 <= k < n && from.shows_tab(workspace, #[trigger] from.tabs[k]) && from.tab_rows(
                workspace,
                n,
            )[i] == from.tab_row(workspace, from.tabs[k]),
    decreases n,
{
    if n > 0 {
        let before = from.tab_rows(workspace, (n - 1) as nat);
        if i < before.len() {
            lemma_tab_row_origin(from, workspace, (n - 1) as nat, i);
            let k = choose|k: int|
                0 <= k < n - 1 && from.shows_tab(workspace, #[trigger] from.tabs[k]) && before[i]
                    == from.tab_row(workspace, from.tabs[k]);
            assert(from.shows_tab(workspace, from.tabs[k]));
        } else {
            assert(from.shows_tab(workspace, from.tabs[n - 1]));
        }
    }
}

/// Where a pane row comes from.
proof fn lemma_pane_row_origin(from: Sources, workspace: WorkspaceModel, n: nat, i: int)
    requires
        n <= from.panes.len(),
        0 <= i < from.pane_rows(workspace, n).len(),
    ensures
        exists|k: int|
            0 <= k < n && from.shows_pane(workspace, #[trigger] from.panes[k]) && from.pane_rows(
                workspace,
                n,
            )[i] == from.pane_row(workspace, from.panes[k]),
    decreases n,
{
    if n > 0 {
        let before = from.pane_rows(workspace, (n - 1) as nat);
        if i < before.len() {
            lemma_pane_row_origin(from, workspace, (n - 1) as nat, i);
            let k = choose|k: int|
                0 <= k < n - 1 && from.shows_pane(workspace, #[trigger] from.panes[k]) && before[i]
                    == from.pane_row(workspace, from.panes[k]);
            assert(from.shows_pane(workspace, from.panes[k]));
        } else {
            assert(from.shows_pane(workspace, from.panes[n - 1]));
        }
    }
}

/// Whether a row is that of a tab of a workspace.
spec fn is_tab_row(from: Sources, row: RowModel, w: int, k: int) -> bool {
    &&& 0 <= w < from.workspaces.len()
    &&& 0 <= k < from.tabs.len()
    &&& from.shows_tab(from.workspaces[w], from.tabs[k])
    &&& row == from.tab_row(from.workspaces[w], from.tabs[k])
}

/// Whether a row is that of a pane of a workspace.
spec fn is_pane_row(from: Sources, row: RowModel, w: int, k: int) -> bool {
    &&& 0 <= w < from.workspaces.len()
    &&& 0 <= k < from.panes.len()
    &&& from.shows_pane(from.workspaces[w], from.panes[k])
    &&& row == from.pane_row(from.workspaces[w], from.panes[k])
}

/// Where the rows of live workspaces come from.
proof fn lemma_live_origin(from: Sources, n: nat, i: int)
    requires
        n <= from.workspaces.len(),
        0 <= i < from.live_rows(n).len(),
    ensures
        from.live_rows(n)[i].kind !is Dormant,
        from.live_rows(n)[i].kind is Tab ==> exists|w: int, k: int|
            is_tab_row(from, from.live_rows(n)[i], w, k),
        from.live_rows(n)[i].kind is Pane ==> exists|w: int, k: int|
            is_pane_row(from, from.live_rows(n)[i], w, k),
    decreases n,
{
    if n > 0 {
        let front = from.live_rows((n - 1) as nat);
        let workspace = from.workspaces[n - 1];
        let tabs = from.tab_rows(workspace, from.tabs.len());
        let panes = from.pane_rows(workspace, from.panes.len());
        let all = from.live_rows(n);
        if i < front.len() {
            lemma_live_origin(from, (n - 1) as nat, i);
            assert(all[i] == front[i]);
        } else if i < front.len() + tabs.len() {
            let at = i - front.len();
            lemma_tab_row_origin(from, workspace, from.tabs.len(), at);
            assert(all[i] == tabs[at]);
            let k = choose|k: int|
                0 <= k < from.tabs.len() && from.shows_tab(workspace, #[trigger] from.tabs[k])
                    && tabs[at] == from.tab_row(workspace, from.tabs[k]);
            assert(is_tab_row(from, all[i], n - 1, k));
        } else if i < front.len() + tabs.len() + panes.len() {
            let at = i - front.len() - tabs.len();
            lemma_pane_row_origin(from, workspace, from.panes.len(), at);
            assert(all[i] == panes[at]);
            let k = choose|k: int|
                0 <= k < from.panes.len() && from.shows_pane(workspace, #[trigger] from.panes[k])
                    && panes[at] == from.pane_row(workspace, from.panes[k]);
            assert(is_pane_row(from, all[i], n - 1, k));
        } else {
            assert(all[i] == from.open_row(workspace));
        }
    }
}

/// Where a row that is shown comes from.
proof fn lemma_origin(from: Sources, i: int)
    requires
        0 <= i < from.rows().len(),
    ensures
        from.rows()[i].kind is Tab ==> exists|w: int, k: int|
            is_tab_row(from, from.rows()[i], w, k),
        from.rows()[i].kind is Pane ==> exists|w: int, k: int|
            is_pane_row(from, from.rows()[i], w, k),
        from.rows()[i].kind is Dormant ==> exists|k: int|
            0 <= k < from.dormant.len() && !from.is_open((#[trigger] from.dormant[k]).path)
                && from.rows()[i] == from.dormant_row(from.dormant[k]),
{
    model_laws::ranking_keeps_every_row(from);
    let row = from.rows()[i];
    let n = from.workspaces.len();
    let live = from.live_rows(n);
    let projects = from.dormant_rows(from.dormant.len());
    assert(from.found_rows().contains(row));
    let f = choose|f: int| 0 <= f < from.found_rows().len() && from.found_rows()[f] == row;
    if f < live.len() {
        lemma_live_origin(from, n, f);
        assert(live[f] == row);
    } else {
        lemma_dormant_origin(from, from.dormant.len(), f - live.len());
        assert(projects[f - live.len()] == row);
    }
}

/// Where a project row comes from.
proof fn lemma_dormant_origin(from: Sources, n: nat, i: int)
    requires
        n <= from.dormant.len(),
        0 <= i < from.dormant_rows(n).len(),
    ensures
        from.dormant_rows(n)[i].kind is Dormant,
        exists|k: int|
            0 <= k < n && !from.is_open((#[trigger] from.dormant[k]).path) && from.dormant_rows(
                n,
            )[i] == from.dormant_row(from.dormant[k]),
    decreases n,
{
    if n > 0 {
        let before = from.dormant_rows((n - 1) as nat);
        if i < before.len() {
            lemma_dormant_origin(from, (n - 1) as nat, i);
            let k = choose|k: int|
                0 <= k < n - 1 && !from.is_open((#[trigger] from.dormant[k]).path) && before[i]
                    == from.dormant_row(from.dormant[k]);
            assert(!from.is_open(from.dormant[k].path));
        } else {
            assert(!from.is_open(from.dormant[n - 1].path));
        }
    }
}

/// Rows found among the projects.
proof fn lemma_dormant_row_found(from: Sources, n: nat, k: int)
    requires
        0 <= k < n <= from.dormant.len(),
        !from.is_open(from.dormant[k].path),
    ensures
        from.dormant_rows(n).contains(from.dormant_row(from.dormant[k])),
    decreases n,
{
    let all = from.dormant_rows(n);
    let row = from.dormant_row(from.dormant[k]);
    if k == n - 1 {
        assert(all[all.len() - 1] == row);
    } else {
        lemma_dormant_row_found(from, (n - 1) as nat, k);
        let before = from.dormant_rows((n - 1) as nat);
        let i = choose|i: int| 0 <= i < before.len() && before[i] == row;
        assert(all[i] == row);
    }
}

/// Every renamed pane of a live workspace has a row of its own, under its name, with
/// its own state and agent, whatever the state of its workspace. It shows where its
/// workspace is, and its id.
pub proof fn every_renamed_pane_has_its_row(from: Sources, w: int, k: int)
    requires
        0 <= w < from.workspaces.len(),
        0 <= k < from.panes.len(),
        from.panes[k].workspace_id == from.workspaces[w].workspace_id,
        text::cleaned(from.panes[k].label) is Some,
    ensures
        exists|i: int, o: int|
            #![trigger from.rows()[i], from.rows()[o]]
            {
                let pane = from.panes[k];
                &&& 0 <= i < from.rows().len() && 0 <= o < from.rows().len()
                &&& from.rows()[i].kind == (KindModel::Pane {
                    workspace_id: pane.workspace_id,
                    tab_id: pane.tab_id,
                    pane_id: pane.pane_id,
                    state: meant(pane.agent_status),
                    agent: pane.agent,
                })
                &&& from.rows()[i].name == text::cleaned(pane.label)->0
                &&& from.rows()[o].kind is Open
                &&& from.rows()[o].kind.workspace() == Some(pane.workspace_id)
                &&& from.rows()[i].path == from.rows()[o].path
                &&& from.rows()[i].display == from.rows()[o].display + " · "@ + pane.pane_id
                &&& from.rows()[i].space == from.rows()[o].space
            },
{
    let workspace = from.workspaces[w];
    let pane = from.panes[k];
    let row = from.pane_row(workspace, pane);
    let open = from.open_row(workspace);
    lemma_pane_row_found(from, workspace, from.panes.len(), k);
    lemma_shown_of_workspace(from, w, row);
    lemma_shown_of_workspace(from, w, open);
    if let Some(status) = pane.agent_status {
        lemma_words(status);
    } else {
        lemma_words(""@);
    }
    let i = choose|i: int| 0 <= i < from.rows().len() && from.rows()[i] == row;
    let o = choose|o: int| 0 <= o < from.rows().len() && from.rows()[o] == open;
    assert(from.rows()[i] == row && from.rows()[o] == open);
}

/// A row of a pane stands for a renamed pane of a live workspace.
pub proof fn pane_rows_stand_for_renamed_panes(from: Sources, i: int)
    requires
        0 <= i < from.rows().len(),
        from.rows()[i].kind is Pane,
    ensures
        exists|w: int, k: int|
            #![trigger from.workspaces[w], from.panes[k]]
            {
                let pane = from.panes[k];
                &&& 0 <= w < from.workspaces.len() && 0 <= k < from.panes.len()
                &&& pane.workspace_id == from.workspaces[w].workspace_id
                &&& text::cleaned(pane.label) == Some(from.rows()[i].name)
                &&& from.rows()[i].kind == (KindModel::Pane {
                    workspace_id: pane.workspace_id,
                    tab_id: pane.tab_id,
                    pane_id: pane.pane_id,
                    state: meant(pane.agent_status),
                    agent: pane.agent,
                })
            },
        from.rows()[i].pane_names.len() == 0,
        from.rows()[i].tab_names.len() == 0,
{
    lemma_origin(from, i);
    let (w, k) = choose|w: int, k: int| is_pane_row(from, from.rows()[i], w, k);
    let pane = from.panes[k];
    if let Some(status) = pane.agent_status {
        lemma_words(status);
    } else {
        lemma_words(""@);
    }
    assert(from.panes[k].workspace_id == from.workspaces[w].workspace_id);
}

/// Whether an agent is that of the first pane of a tab that has one.
pub open spec fn is_agent_of_tab(
    panes: Seq<PaneModel>,
    tab_id: Seq<char>,
    agent: Option<Seq<char>>,
) -> bool {
    match agent {
        Some(_) => exists|k: int|
            {
                &&& 0 <= k < panes.len()
                &&& (#[trigger] panes[k]).tab_id == Some(tab_id) && panes[k].agent == agent
                &&& forall|l: int|
                    0 <= l < k ==> !((#[trigger] panes[l]).tab_id == Some(tab_id)
                        && panes[l].agent is Some)
            },
        None => forall|k: int|
            0 <= k < panes.len() && (#[trigger] panes[k]).tab_id == Some(tab_id)
                ==> panes[k].agent is None,
    }
}

proof fn lemma_agent_of_tab(panes: Seq<PaneModel>, tab_id: Seq<char>, i: int)
    requires
        0 <= i <= panes.len(),
        forall|l: int|
            0 <= l < i ==> !((#[trigger] panes[l]).tab_id == Some(tab_id) && panes[l].agent
                is Some),
    ensures
        is_agent_of_tab(panes, tab_id, model::tab_agent(panes, tab_id, i)),
    decreases panes.len() - i,
{
    if i < panes.len() {
        if panes[i].tab_id == Some(tab_id) && panes[i].agent is Some {
            assert(panes[i].tab_id == Some(tab_id));
        } else {
            lemma_agent_of_tab(panes, tab_id, i + 1);
        }
    }
}

/// Every tab of a live workspace that has a name has a row of its own, under that
/// name, with its own state, or that of its workspace where it has none, and the
/// agent of the first of its panes that has one.
pub proof fn every_named_tab_has_its_row(from: Sources, w: int, k: int)
    requires
        0 <= w < from.workspaces.len(),
        0 <= k < from.tabs.len(),
        from.tabs[k].workspace_id == from.workspaces[w].workspace_id,
        model::tab_label(from.tabs[k]) is Some,
    ensures
        exists|i: int, o: int|
            #![trigger from.rows()[i], from.rows()[o]]
            {
                let tab = from.tabs[k];
                let row = from.rows()[i];
                &&& 0 <= i < from.rows().len() && 0 <= o < from.rows().len()
                &&& row.kind is Tab
                &&& row.kind->Tab_workspace_id == tab.workspace_id
                &&& row.kind->Tab_tab_id == tab.tab_id
                &&& row.kind->Tab_state == (if tab.agent_status is Some {
                    meant(tab.agent_status)
                } else {
                    meant(Some(from.workspaces[w].agent_status))
                })
                &&& is_agent_of_tab(from.panes, tab.tab_id, row.kind->Tab_agent)
                &&& row.name == model::tab_label(tab)->0
                &&& from.rows()[o].kind is Open
                &&& from.rows()[o].kind.workspace() == Some(tab.workspace_id)
                &&& row.path == from.rows()[o].path
                &&& row.display == from.rows()[o].display + " · "@ + tab.tab_id
                &&& row.space == from.rows()[o].space
            },
{
    let workspace = from.workspaces[w];
    let tab = from.tabs[k];
    let row = from.tab_row(workspace, tab);
    let open = from.open_row(workspace);
    lemma_tab_row_found(from, workspace, from.tabs.len(), k);
    lemma_shown_of_workspace(from, w, row);
    lemma_shown_of_workspace(from, w, open);
    lemma_agent_of_tab(from.panes, tab.tab_id, 0);
    lemma_words(workspace.agent_status);
    if let Some(status) = tab.agent_status {
        lemma_words(status);
    }
    let i = choose|i: int| 0 <= i < from.rows().len() && from.rows()[i] == row;
    let o = choose|o: int| 0 <= o < from.rows().len() && from.rows()[o] == open;
    assert(from.rows()[i] == row && from.rows()[o] == open);
}

/// A row of a tab stands for a named tab of a live workspace.
pub proof fn tab_rows_stand_for_named_tabs(from: Sources, i: int)
    requires
        0 <= i < from.rows().len(),
        from.rows()[i].kind is Tab,
    ensures
        exists|w: int, k: int|
            #![trigger from.workspaces[w], from.tabs[k]]
            {
                let tab = from.tabs[k];
                &&& 0 <= w < from.workspaces.len() && 0 <= k < from.tabs.len()
                &&& tab.workspace_id == from.workspaces[w].workspace_id
                &&& model::tab_label(tab) == Some(from.rows()[i].name)
                &&& from.rows()[i].kind->Tab_workspace_id == tab.workspace_id
                &&& from.rows()[i].kind->Tab_tab_id == tab.tab_id
            },
        from.rows()[i].pane_names.len() == 0,
        from.rows()[i].tab_names.len() == 0,
{
    lemma_origin(from, i);
    let (w, k) = choose|w: int, k: int| is_tab_row(from, from.rows()[i], w, k);
    assert(from.tabs[k].workspace_id == from.workspaces[w].workspace_id);
}

/// A tab is known by its label, without control characters and white space around
/// it, unless nothing is left of it or it only is the tab's number.
pub proof fn tabs_are_known_by_their_labels(tab: TabModel)
    ensures
        tab.label is None ==> model::tab_label(tab) is None,
        tab.label is Some ==> {
            let label = text::trimmed(text::sanitized(tab.label->0));
            &&& model::tab_label(tab) is Some ==> model::tab_label(tab)->0 == label
            &&& model::tab_label(tab) is None <==> label.len() == 0 || (tab.number is Some && label
                == text::decimal(tab.number->0 as nat))
        },
{
}

/// Every project that no live workspace has is offered, by its directory, as its
/// source shows it, and under the name of the directory.
pub proof fn every_closed_project_is_offered(from: Sources, k: int)
    requires
        0 <= k < from.dormant.len(),
        forall|i: int|
            0 <= i < from.rows().len() && (#[trigger] from.rows()[i]).kind is Open
                ==> !paths::same_path(from.rows()[i].path, from.dormant[k].path),
    ensures
        exists|i: int|
            {
                &&& 0 <= i < from.rows().len()
                &&& (#[trigger] from.rows()[i]).kind is Dormant
                &&& from.rows()[i].path == from.dormant[k].path
                &&& from.rows()[i].display == from.dormant[k].display
                &&& from.rows()[i].space is None
                &&& ({
                    let name = text::sanitized(paths::base_name(from.dormant[k].path));
                    from.rows()[i].name == if text::is_blank(name) {
                        "project"@
                    } else {
                        name
                    }
                })
            },
{
    let path = from.dormant[k].path;
    if from.is_open(path) {
        let w = choose|w: int|
            0 <= w < from.workspaces.len() && paths::same_path(
                (#[trigger] from.place(from.workspaces[w])).path,
                path,
            );
        let open = from.open_row(from.workspaces[w]);
        lemma_shown_of_workspace(from, w, open);
        let i = choose|i: int| 0 <= i < from.rows().len() && from.rows()[i] == open;
        assert(from.rows()[i].kind is Open);
    }
    let row = from.dormant_row(from.dormant[k]);
    lemma_dormant_row_found(from, from.dormant.len(), k);
    let projects = from.dormant_rows(from.dormant.len());
    let f = choose|f: int| 0 <= f < projects.len() && projects[f] == row;
    let live = from.live_rows(from.workspaces.len());
    assert(from.found_rows()[live.len() + f] == row);
    model_laws::ranking_keeps_every_row(from);
    let i = choose|i: int| 0 <= i < from.rows().len() && from.rows()[i] == row;
    assert(from.rows()[i].kind is Dormant);
}

/// A row of a project stands for one that its sources gave.
pub proof fn project_rows_stand_for_projects(from: Sources, i: int)
    requires
        0 <= i < from.rows().len(),
        from.rows()[i].kind is Dormant,
    ensures
        exists|k: int|
            0 <= k < from.dormant.len() && (#[trigger] from.dormant[k]).path
                == from.rows()[i].path && from.dormant[k].display == from.rows()[i].display,
{
    lemma_origin(from, i);
    let k = choose|k: int|
        0 <= k < from.dormant.len() && !from.is_open((#[trigger] from.dormant[k]).path)
            && from.rows()[i] == from.dormant_row(from.dormant[k]);
    assert(from.dormant[k].path == from.rows()[i].path);
}

/// Workspaces that were never used, and that the picker was not opened from, come by
/// urgency, then by name; tabs and renamed panes always do.
pub proof fn urgent_rows_come_first(from: Sources, i: int, j: int, x: AgentState, y: AgentState)
    requires
        0 <= i < j < from.rows().len(),
        ({
            let a = from.rows()[i].kind;
            let b = from.rows()[j].kind;
            ||| a is Tab && b is Tab && a->Tab_state == x && b->Tab_state == y
            ||| a is Pane && b is Pane && a->Pane_state == x && b->Pane_state == y
            ||| {
                &&& a is Open && b is Open && a->Open_state == x && b->Open_state == y
                &&& a.workspace() != from.origin && b.workspace() != from.origin
                &&& !from.mru.contains(a.workspace()->0) && !from.mru.contains(b.workspace()->0)
            }
        }),
    ensures
        lateness(x) <= lateness(y),
        x == y ==> text::at_most(
            text::lowercase(from.rows()[i].name),
            text::lowercase(from.rows()[j].name),
        ),
{
    let keys = from.row_keys();
    let places = order::ordered::<RowKey>(keys);
    order::ordering_is_a_stable_sort::<RowKey>(keys);
    assert(RowKey::precedes(keys[places[i]], keys[places[j]]));
    let a = from.rows()[i].kind;
    let b = from.rows()[j].kind;
    if a is Open && b is Open {
        text::position_is_the_first(from.mru, a.workspace()->0);
        text::position_is_the_first(from.mru, b.workspace()->0);
    }
}

/// Whether a pane is the root of a workspace: it is one of its panes, and none of
/// them has a lower number, or the same number and a lower id. A pane without a
/// number counts as the highest.
pub open spec fn is_root_of(panes: Seq<PaneModel>, id: Seq<char>, k: int) -> bool {
    &&& 0 <= k < panes.len()
    &&& panes[k].workspace_id == id
    &&& forall|l: int|
        0 <= l < panes.len() && (#[trigger] panes[l]).workspace_id == id ==> {
            let mine = match panes[k].number() {
                Some(number) => number,
                None => usize::MAX,
            };
            let other = match panes[l].number() {
                Some(number) => number,
                None => usize::MAX,
            };
            mine < other || (mine == other && text::at_most(panes[k].pane_id, panes[l].pane_id))
        }
}

/// Whether a directory is the one that a workspace was bound to last.
pub open spec fn is_bound_to(
    bound: Seq<(Seq<char>, Seq<char>)>,
    directory: Seq<char>,
    id: Seq<char>,
) -> bool {
    exists|b: int|
        {
            &&& 0 <= b < bound.len()
            &&& #[trigger] bound[b] == (directory, id)
            &&& forall|l: int| b < l < bound.len() ==> (#[trigger] bound[l]).1 != id
        }
}

proof fn lemma_bound(bound: Seq<(Seq<char>, Seq<char>)>, id: Seq<char>)
    ensures
        match model::bound_directory(bound, id) {
            Some(directory) => is_bound_to(bound, directory, id),
            None => forall|b: int| 0 <= b < bound.len() ==> (#[trigger] bound[b]).1 != id,
        },
    decreases bound.len(),
{
    if bound.len() > 0 {
        let front = bound.drop_last();
        lemma_bound(front, id);
        if bound.last().1 == id {
            assert(bound[bound.len() - 1] == (bound.last().0, id));
        } else if let Some(directory) = model::bound_directory(front, id) {
            let b = choose|b: int|
                {
                    &&& 0 <= b < front.len()
                    &&& #[trigger] front[b] == (directory, id)
                    &&& forall|l: int| b < l < front.len() ==> (#[trigger] front[l]).1 != id
                };
            assert(bound[b] == (directory, id));
            assert forall|l: int| b < l < bound.len() implies (#[trigger] bound[l]).1 != id by {
                if l < front.len() {
                    assert(front[l] == bound[l]);
                }
            }
        } else {
            assert forall|b: int| 0 <= b < bound.len() implies (#[trigger] bound[b]).1 != id by {
                if b < front.len() {
                    assert(front[b] == bound[b]);
                }
            }
        }
    }
}

/// Every live workspace has a row with its own state, the agent of its root pane,
/// and its directory: the one that it was bound to last, or else the canonical one of
/// its root pane. Without a directory it shows its label, or its id.
pub proof fn every_workspace_has_its_row(from: Sources, w: int)
    requires
        0 <= w < from.workspaces.len(),
    ensures
        exists|i: int|
            {
                let workspace = from.workspaces[w];
                let id = workspace.workspace_id;
                let row = #[trigger] from.rows()[i];
                let label = workspace.label;
                &&& 0 <= i < from.rows().len()
                &&& row.kind is Open
                &&& row.kind->Open_workspace_id == id
                &&& row.kind->Open_state == meant(Some(workspace.agent_status))
                &&& match row.space {
                    Some(space) => !text::is_blank(label) && space.label == label && space.number
                        == workspace.number,
                    None => text::is_blank(label),
                }
                &&& if forall|k: int|
                    0 <= k < from.panes.len() ==> (#[trigger] from.panes[k]).workspace_id != id {
                    row.kind->Open_agent is None
                } else {
                    exists|k: int| #[trigger]
                        is_root_of(from.panes, id, k) && row.kind->Open_agent
                            == from.panes[k].agent
                }
                &&& (exists|b: int| 0 <= b < from.bound.len() && (#[trigger] from.bound[b]).1 == id)
                    ==> is_bound_to(from.bound, row.path, id)
                &&& (forall|b: int| 0 <= b < from.bound.len() ==> (#[trigger] from.bound[b]).1 != id)
                    ==> {
                    ||| exists|k: int| #[trigger]
                        is_root_of(from.panes, id, k) && from.panes[k].cwd is Some && row.path
                            == from.host.canonical_path(from.panes[k].cwd->0)
                    ||| {
                        &&& forall|k: int| #[trigger]
                            is_root_of(from.panes, id, k) ==> exists|l: int| #[trigger]
                                is_root_of(from.panes, id, l) && from.panes[l].cwd is None
                        &&& row.path == if text::is_blank(label) {
                            id
                        } else {
                            label
                        }
                        &&& row.name == row.path && row.display == row.path
                    }
                }
            },
{
    let workspace = from.workspaces[w];
    let id = workspace.workspace_id;
    let row = from.open_row(workspace);
    lemma_shown_of_workspace(from, w, row);
    lemma_words(workspace.agent_status);
    lemma_bound(from.bound, id);
    model_laws::lemma_root_is_least(from.panes, id, from.panes.len());
    let root = model::root_pane(from.panes, id, from.panes.len());
    if let Some(k) = root {
        assert(is_root_of(from.panes, id, k)) by {
            assert forall|l: int|
                0 <= l < from.panes.len() && (#[trigger] from.panes[l]).workspace_id == id implies {
                let mine = match from.panes[k].number() {
                    Some(number) => number,
                    None => usize::MAX,
                };
                let other = match from.panes[l].number() {
                    Some(number) => number,
                    None => usize::MAX,
                };
                mine < other || (mine == other && text::at_most(
                    from.panes[k].pane_id,
                    from.panes[l].pane_id,
                ))
            } by {
                assert(!model::root_before(from.panes[l], from.panes[k]));
            }
        }
    }
    let i = choose|i: int| 0 <= i < from.rows().len() && from.rows()[i] == row;
    assert(from.rows()[i] == row);
}

/// The row of a workspace with a directory is named after it, and shows it with the
/// home directory as `~`, without control characters.
pub proof fn workspaces_are_named_after_their_directories(from: Sources, w: int)
    requires
        0 <= w < from.workspaces.len(),
        from.directory(from.workspaces[w].workspace_id) is Some,
    ensures
        exists|i: int|
            {
                let row = #[trigger] from.rows()[i];
                let name = text::sanitized(paths::base_name(row.path));
                &&& 0 <= i < from.rows().len()
                &&& row.kind is Open
                &&& row.kind->Open_workspace_id == from.workspaces[w].workspace_id
                &&& row.name == if text::is_blank(name) {
                    "project"@
                } else {
                    name
                }
                &&& row.display == text::sanitized(paths::collapsed(row.path, from.host.home))
            },
{
    let row = from.open_row(from.workspaces[w]);
    lemma_shown_of_workspace(from, w, row);
    let i = choose|i: int| 0 <= i < from.rows().len() && from.rows()[i] == row;
    assert(from.rows()[i] == row);
}

/// A workspace shows the names of its unnamed panes, in the order in which they are
/// listed: each, and no other.
pub proof fn unnamed_panes_are_listed_in_order(
    panes: Seq<PaneModel>,
    id: Seq<char>,
    n: nat,
    k: int,
    l: int,
)
    requires
        n <= panes.len(),
        0 <= k < l < n,
        panes[k].workspace_id == id && panes[k].label is None && panes[k].terminal_title is Some,
        panes[l].workspace_id == id && panes[l].label is None && panes[l].terminal_title is Some,
    ensures
        exists|x: int, y: int|
            #![trigger model::unnamed_panes(panes, id, n)[x], model::unnamed_panes(panes, id, n)[y]]
            {
                let names = model::unnamed_panes(panes, id, n);
                &&& 0 <= x < y < names.len()
                &&& names[x] == panes[k].terminal_title->0
                &&& names[y] == panes[l].terminal_title->0
            },
    decreases n,
{
    let names = model::unnamed_panes(panes, id, n);
    let before = model::unnamed_panes(panes, id, (n - 1) as nat);
    if l < n - 1 {
        unnamed_panes_are_listed_in_order(panes, id, (n - 1) as nat, k, l);
        let (x, y) = choose|x: int, y: int|
            #![trigger before[x], before[y]]
            0 <= x < y < before.len() && before[x] == panes[k].terminal_title->0 && before[y]
                == panes[l].terminal_title->0;
        assert(names[x] == before[x] && names[y] == before[y]);
    } else {
        let x = lemma_unnamed_is_listed(panes, id, (n - 1) as nat, k);
        assert(names[x] == before[x]);
        assert(names[before.len() as int] == panes[l].terminal_title->0);
    }
}

proof fn lemma_unnamed_is_listed(panes: Seq<PaneModel>, id: Seq<char>, n: nat, k: int) -> (x: int)
    requires
        n <= panes.len(),
        0 <= k < n,
        panes[k].workspace_id == id && panes[k].label is None && panes[k].terminal_title is Some,
    ensures
        0 <= x < model::unnamed_panes(panes, id, n).len(),
        model::unnamed_panes(panes, id, n)[x] == panes[k].terminal_title->0,
    decreases n,
{
    let before = model::unnamed_panes(panes, id, (n - 1) as nat);
    if k == n - 1 {
        before.len() as int
    } else {
        lemma_unnamed_is_listed(panes, id, (n - 1) as nat, k)
    }
}

/// What a workspace shows of its panes are the titles of its panes that have no name:
/// no pane of another workspace, and no renamed pane, is among them.
pub proof fn only_unnamed_panes_are_listed(panes: Seq<PaneModel>, id: Seq<char>, n: nat, x: int)
    requires
        n <= panes.len(),
        0 <= x < model::unnamed_panes(panes, id, n).len(),
    ensures
        exists|k: int|
            {
                &&& 0 <= k < n
                &&& (#[trigger] panes[k]).workspace_id == id
                &&& panes[k].label is None
                &&& panes[k].terminal_title == Some(model::unnamed_panes(panes, id, n)[x])
            },
    decreases n,
{
    if n > 0 {
        let before = model::unnamed_panes(panes, id, (n - 1) as nat);
        if x < before.len() {
            only_unnamed_panes_are_listed(panes, id, (n - 1) as nat, x);
            let k = choose|k: int|
                {
                    &&& 0 <= k < n - 1
                    &&& (#[trigger] panes[k]).workspace_id == id
                    &&& panes[k].label is None
                    &&& panes[k].terminal_title == Some(before[x])
                };
            assert(panes[k].workspace_id == id);
        } else {
            assert(panes[n - 1].workspace_id == id);
        }
    }
}

/// A workspace shows the labels of its tabs, each once and no other, in the order in
/// which they first come.
pub proof fn tab_labels_are_listed_once(tabs: Seq<TabModel>, id: Seq<char>, n: nat)
    requires
        n <= tabs.len(),
    ensures
        model::tab_labels(tabs, id, n).no_duplicates(),
        forall|label: Seq<char>| #[trigger]
            model::tab_labels(tabs, id, n).contains(label) <==> exists|k: int|
                0 <= k < n && (#[trigger] tabs[k]).workspace_id == id && model::tab_label(tabs[k])
                    == Some(label),
        n > 0 ==> model::tab_labels(tabs, id, (n - 1) as nat).len() <= model::tab_labels(
            tabs,
            id,
            n,
        ).len(),
        n > 0 ==> model::tab_labels(tabs, id, (n - 1) as nat) == model::tab_labels(
            tabs,
            id,
            n,
        ).take(model::tab_labels(tabs, id, (n - 1) as nat).len() as int),
    decreases n,
{
    if n > 0 {
        let before = model::tab_labels(tabs, id, (n - 1) as nat);
        let after = model::tab_labels(tabs, id, n);
        tab_labels_are_listed_once(tabs, id, (n - 1) as nat);
        assert(before =~= after.take(before.len() as int));
        assert forall|label: Seq<char>| #[trigger] after.contains(label) <==> exists|k: int|
            0 <= k < n && (#[trigger] tabs[k]).workspace_id == id && model::tab_label(tabs[k])
                == Some(label) by {
            if after.contains(label) {
                let x = choose|x: int| 0 <= x < after.len() && after[x] == label;
                if x < before.len() {
                    assert(before[x] == label);
                    assert(before.contains(label));
                    let k = choose|k: int|
                        0 <= k < n - 1 && (#[trigger] tabs[k]).workspace_id == id
                            && model::tab_label(tabs[k]) == Some(label);
                    assert(tabs[k].workspace_id == id);
                } else {
                    assert(tabs[n - 1].workspace_id == id);
                }
            }
            if exists|k: int|
                0 <= k < n && (#[trigger] tabs[k]).workspace_id == id && model::tab_label(tabs[k])
                    == Some(label) {
                let k = choose|k: int|
                    0 <= k < n && (#[trigger] tabs[k]).workspace_id == id && model::tab_label(
                        tabs[k],
                    ) == Some(label);
                if k < n - 1 {
                    assert(before.contains(label));
                }
                if before.contains(label) {
                    let x = choose|x: int| 0 <= x < before.len() && before[x] == label;
                    assert(after[x] == label);
                } else {
                    assert(after[before.len() as int] == label);
                }
            }
        }
    }
}

/// The row of a workspace lists its unnamed panes and the labels of its tabs.
pub proof fn workspaces_list_their_panes_and_tabs(from: Sources, i: int)
    requires
        0 <= i < from.rows().len(),
        from.rows()[i].kind is Open,
    ensures
        from.rows()[i].pane_names == model::unnamed_panes(
            from.panes,
            from.rows()[i].kind->Open_workspace_id,
            from.panes.len(),
        ),
        from.rows()[i].tab_names == model::tab_labels(
            from.tabs,
            from.rows()[i].kind->Open_workspace_id,
            from.tabs.len(),
        ),
{
    model_laws::every_open_row_is_live(from, i);
}

/// There are as many rows of live workspaces as live workspaces.
pub proof fn each_workspace_has_one_row(from: Sources)
    ensures
        from.rows().filter(|row: RowModel| row.kind is Open).len() == from.workspaces.len(),
{
    model_laws::lemma_open_rows_are_sorted(from);
    order_laws::lemma_sorted_by_len::<RowKey, RowModel>(
        from.workspaces.map_values(|workspace: WorkspaceModel| from.open_row(workspace)),
        |row: RowModel| model::row_key(row, from.mru, from.origin),
    );
}

/// Whether no two workspaces have the same id.
pub open spec fn workspaces_differ(workspaces: Seq<WorkspaceModel>) -> bool {
    forall|i: int, j: int|
        0 <= i < j < workspaces.len() ==> (#[trigger] workspaces[i]).workspace_id != (
        #[trigger] workspaces[j]).workspace_id
}

/// No pane is shown twice.
pub proof fn no_pane_has_two_rows(from: Sources, id: Seq<char>)
    requires
        workspaces_differ(from.workspaces),
        model_laws::ids_differ(from.panes),
    ensures
        from.rows().filter(
            |row: RowModel| row.kind is Pane && row.kind->Pane_pane_id == id,
        ).len() <= 1,
{
    let keep = |row: RowModel| row.kind is Pane && row.kind->Pane_pane_id == id;
    let n = from.workspaces.len();
    lemma_live_panes(from, id, n);
    lemma_rows_filtered(from, keep);
    lemma_no_dormant(from, keep, from.dormant.len());
}

/// No tab is shown twice.
pub proof fn no_tab_has_two_rows(from: Sources, id: Seq<char>)
    requires
        workspaces_differ(from.workspaces),
        forall|i: int, j: int|
            0 <= i < j < from.tabs.len() ==> (#[trigger] from.tabs[i]).tab_id != (
            #[trigger] from.tabs[j]).tab_id,
    ensures
        from.rows().filter(
            |row: RowModel| row.kind is Tab && row.kind->Tab_tab_id == id,
        ).len() <= 1,
{
    let keep = |row: RowModel| row.kind is Tab && row.kind->Tab_tab_id == id;
    let n = from.workspaces.len();
    lemma_live_tabs(from, id, n);
    lemma_rows_filtered(from, keep);
    lemma_no_dormant(from, keep, from.dormant.len());
}

/// A filter keeps as many of the rows shown as of the rows found.
proof fn lemma_rows_filtered(from: Sources, keep: spec_fn(RowModel) -> bool)
    ensures
        from.rows().filter(keep).len() == from.live_rows(from.workspaces.len()).filter(keep).len()
            + from.dormant_rows(from.dormant.len()).filter(keep).len(),
{
    let key = |row: RowModel| model::row_key(row, from.mru, from.origin);
    model_laws::lemma_rows_are_sorted(from);
    order_laws::filtering_keeps_the_order::<RowKey, RowModel>(from.found_rows(), key, keep);
    order_laws::lemma_sorted_by_len::<RowKey, RowModel>(from.found_rows().filter(keep), key);
    Seq::filter_distributes_over_add(
        from.live_rows(from.workspaces.len()),
        from.dormant_rows(from.dormant.len()),
        keep,
    );
}

proof fn lemma_no_dormant(from: Sources, keep: spec_fn(RowModel) -> bool, n: nat)
    requires
        n <= from.dormant.len(),
        forall|row: RowModel| row.kind is Dormant ==> !#[trigger] keep(row),
    ensures
        from.dormant_rows(n).filter(keep).len() == 0,
    decreases n,
{
    reveal(Seq::filter);
    if n > 0 {
        let before = from.dormant_rows((n - 1) as nat);
        let row = from.dormant_row(from.dormant[n - 1]);
        lemma_no_dormant(from, keep, (n - 1) as nat);
        assert(!keep(row));
        assert(before.push(row).drop_last() =~= before);
    }
}

/// Of a workspace's rows of panes at most one has an id, and none where it has no such
/// pane.
proof fn lemma_panes_once(from: Sources, workspace: WorkspaceModel, id: Seq<char>, n: nat)
    requires
        n <= from.panes.len(),
        model_laws::ids_differ(from.panes),
    ensures
        ({
            let keep = |row: RowModel| row.kind is Pane && row.kind->Pane_pane_id == id;
            let count = from.pane_rows(workspace, n).filter(keep).len();
            &&& count <= 1
            &&& (forall|k: int|
                0 <= k < n && (#[trigger] from.panes[k]).pane_id == id
                    ==> from.panes[k].workspace_id != workspace.workspace_id) ==> count == 0
        }),
    decreases n,
{
    reveal(Seq::filter);
    let keep = |row: RowModel| row.kind is Pane && row.kind->Pane_pane_id == id;
    if n > 0 {
        let before = from.pane_rows(workspace, (n - 1) as nat);
        let pane = from.panes[n - 1];
        let row = from.pane_row(workspace, pane);
        lemma_panes_once(from, workspace, id, (n - 1) as nat);
        assert(before.push(row).drop_last() =~= before);
        if pane.pane_id == id {
            assert forall|k: int| 0 <= k < n - 1 && (#[trigger] from.panes[k]).pane_id
                == id implies from.panes[k].workspace_id != workspace.workspace_id by {
                assert(from.panes[k].pane_id != from.panes[n - 1].pane_id);
            }
        }
    }
}

proof fn lemma_other_rows(from: Sources, workspace: WorkspaceModel, keep: spec_fn(RowModel) -> bool)
    ensures
        (forall|row: RowModel| row.kind is Tab ==> !#[trigger] keep(row)) ==> from.tab_rows(
            workspace,
            from.tabs.len(),
        ).filter(keep).len() == 0,
        (forall|row: RowModel| row.kind is Pane ==> !#[trigger] keep(row)) ==> from.pane_rows(
            workspace,
            from.panes.len(),
        ).filter(keep).len() == 0,
        !keep(from.open_row(workspace)) ==> seq![from.open_row(workspace)].filter(keep).len() == 0,
{
    reveal(Seq::filter);
    if forall|row: RowModel| row.kind is Tab ==> !#[trigger] keep(row) {
        lemma_no_tabs(from, workspace, keep, from.tabs.len());
    }
    if forall|row: RowModel| row.kind is Pane ==> !#[trigger] keep(row) {
        lemma_no_panes(from, workspace, keep, from.panes.len());
    }
    let one = seq![from.open_row(workspace)];
    assert(one.drop_last() =~= Seq::empty());
    assert(Seq::<RowModel>::empty().filter(keep).len() == 0);
    assert(one.last() == from.open_row(workspace));
}

proof fn lemma_no_tabs(
    from: Sources,
    workspace: WorkspaceModel,
    keep: spec_fn(RowModel) -> bool,
    n: nat,
)
    requires
        n <= from.tabs.len(),
        forall|row: RowModel| row.kind is Tab ==> !#[trigger] keep(row),
    ensures
        from.tab_rows(workspace, n).filter(keep).len() == 0,
    decreases n,
{
    reveal(Seq::filter);
    if n > 0 {
        let before = from.tab_rows(workspace, (n - 1) as nat);
        let row = from.tab_row(workspace, from.tabs[n - 1]);
        lemma_no_tabs(from, workspace, keep, (n - 1) as nat);
        assert(!keep(row));
        assert(before.push(row).drop_last() =~= before);
    }
}

proof fn lemma_no_panes(
    from: Sources,
    workspace: WorkspaceModel,
    keep: spec_fn(RowModel) -> bool,
    n: nat,
)
    requires
        n <= from.panes.len(),
        forall|row: RowModel| row.kind is Pane ==> !#[trigger] keep(row),
    ensures
        from.pane_rows(workspace, n).filter(keep).len() == 0,
    decreases n,
{
    reveal(Seq::filter);
    if n > 0 {
        let before = from.pane_rows(workspace, (n - 1) as nat);
        let row = from.pane_row(workspace, from.panes[n - 1]);
        lemma_no_panes(from, workspace, keep, (n - 1) as nat);
        assert(!keep(row));
        assert(before.push(row).drop_last() =~= before);
    }
}

proof fn lemma_live_panes(from: Sources, id: Seq<char>, n: nat)
    requires
        n <= from.workspaces.len(),
        workspaces_differ(from.workspaces),
        model_laws::ids_differ(from.panes),
    ensures
        ({
            let keep = |row: RowModel| row.kind is Pane && row.kind->Pane_pane_id == id;
            let count = from.live_rows(n).filter(keep).len();
            &&& count <= 1
            &&& (forall|w: int, k: int|
                0 <= w < n && 0 <= k < from.panes.len() && (#[trigger] from.panes[k]).pane_id == id
                    ==> from.panes[k].workspace_id != (
                #[trigger] from.workspaces[w]).workspace_id) ==> count == 0
        }),
    decreases n,
{
    reveal(Seq::filter);
    let keep = |row: RowModel| row.kind is Pane && row.kind->Pane_pane_id == id;
    if n > 0 {
        let workspace = from.workspaces[n - 1];
        lemma_live_panes(from, id, (n - 1) as nat);
        model_laws::lemma_live_rows_filtered(from, keep, n);
        lemma_other_rows(from, workspace, keep);
        lemma_panes_once(from, workspace, id, from.panes.len());
        if exists|k: int|
            0 <= k < from.panes.len() && (#[trigger] from.panes[k]).pane_id == id
                && from.panes[k].workspace_id == workspace.workspace_id {
            let m = choose|k: int|
                0 <= k < from.panes.len() && (#[trigger] from.panes[k]).pane_id == id
                    && from.panes[k].workspace_id == workspace.workspace_id;
            assert forall|w: int, k: int|
                0 <= w < n - 1 && 0 <= k < from.panes.len() && (#[trigger] from.panes[k]).pane_id
                    == id implies from.panes[k].workspace_id != (
            #[trigger] from.workspaces[w]).workspace_id by {
                if k < m {
                    assert(from.panes[k].pane_id != from.panes[m].pane_id);
                } else if m < k {
                    assert(from.panes[m].pane_id != from.panes[k].pane_id);
                }
                assert(from.workspaces[w].workspace_id != from.workspaces[n - 1].workspace_id);
            }
        }
    }
}

/// Of a workspace's rows of tabs at most one has an id, and none where it has no such
/// tab.
proof fn lemma_tabs_once(from: Sources, workspace: WorkspaceModel, id: Seq<char>, n: nat)
    requires
        n <= from.tabs.len(),
        forall|i: int, j: int|
            0 <= i < j < from.tabs.len() ==> (#[trigger] from.tabs[i]).tab_id != (
            #[trigger] from.tabs[j]).tab_id,
    ensures
        ({
            let keep = |row: RowModel| row.kind is Tab && row.kind->Tab_tab_id == id;
            let count = from.tab_rows(workspace, n).filter(keep).len();
            &&& count <= 1
            &&& (forall|k: int|
                0 <= k < n && (#[trigger] from.tabs[k]).tab_id == id
                    ==> from.tabs[k].workspace_id != workspace.workspace_id) ==> count == 0
        }),
    decreases n,
{
    reveal(Seq::filter);
    let keep = |row: RowModel| row.kind is Tab && row.kind->Tab_tab_id == id;
    if n > 0 {
        let before = from.tab_rows(workspace, (n - 1) as nat);
        let tab = from.tabs[n - 1];
        let row = from.tab_row(workspace, tab);
        lemma_tabs_once(from, workspace, id, (n - 1) as nat);
        assert(before.push(row).drop_last() =~= before);
        if tab.tab_id == id {
            assert forall|k: int| 0 <= k < n - 1 && (#[trigger] from.tabs[k]).tab_id
                == id implies from.tabs[k].workspace_id != workspace.workspace_id by {
                assert(from.tabs[k].tab_id != from.tabs[n - 1].tab_id);
            }
        }
    }
}

proof fn lemma_live_tabs(from: Sources, id: Seq<char>, n: nat)
    requires
        n <= from.workspaces.len(),
        workspaces_differ(from.workspaces),
        forall|i: int, j: int|
            0 <= i < j < from.tabs.len() ==> (#[trigger] from.tabs[i]).tab_id != (
            #[trigger] from.tabs[j]).tab_id,
    ensures
        ({
            let keep = |row: RowModel| row.kind is Tab && row.kind->Tab_tab_id == id;
            let count = from.live_rows(n).filter(keep).len();
            &&& count <= 1
            &&& (forall|w: int, k: int|
                0 <= w < n && 0 <= k < from.tabs.len() && (#[trigger] from.tabs[k]).tab_id == id
                    ==> from.tabs[k].workspace_id != (#[trigger] from.workspaces[w]).workspace_id)
                ==> count == 0
        }),
    decreases n,
{
    reveal(Seq::filter);
    let keep = |row: RowModel| row.kind is Tab && row.kind->Tab_tab_id == id;
    if n > 0 {
        let workspace = from.workspaces[n - 1];
        lemma_live_tabs(from, id, (n - 1) as nat);
        model_laws::lemma_live_rows_filtered(from, keep, n);
        lemma_other_rows(from, workspace, keep);
        lemma_tabs_once(from, workspace, id, from.tabs.len());
        if exists|k: int|
            0 <= k < from.tabs.len() && (#[trigger] from.tabs[k]).tab_id == id
                && from.tabs[k].workspace_id == workspace.workspace_id {
            let m = choose|k: int|
                0 <= k < from.tabs.len() && (#[trigger] from.tabs[k]).tab_id == id
                    && from.tabs[k].workspace_id == workspace.workspace_id;
            assert forall|w: int, k: int|
                0 <= w < n - 1 && 0 <= k < from.tabs.len() && (#[trigger] from.tabs[k]).tab_id
                    == id implies from.tabs[k].workspace_id != (
            #[trigger] from.workspaces[w]).workspace_id by {
                if k < m {
                    assert(from.tabs[k].tab_id != from.tabs[m].tab_id);
                } else if m < k {
                    assert(from.tabs[m].tab_id != from.tabs[k].tab_id);
                }
                assert(from.workspaces[w].workspace_id != from.workspaces[n - 1].workspace_id);
            }
        }
    }
}

/// Rows of live workspaces come first, then those of tabs, of renamed panes, and of
/// projects.
pub proof fn kinds_come_in_order(from: Sources, i: int, j: int)
    requires
        0 <= i < j < from.rows().len(),
    ensures
        ({
            let a = from.rows()[i].kind;
            let b = from.rows()[j].kind;
            &&& b is Open ==> a is Open
            &&& b is Tab ==> a is Open || a is Tab
            &&& b is Pane ==> !(a is Dormant)
        }),
{
    model_laws::sections_come_in_order(from, i, j);
}

/// Projects come in the order in which their sources gave them.
pub proof fn projects_come_as_they_were_given(from: Sources, i: int, j: int)
    requires
        0 <= i < j < from.rows().len(),
        from.rows()[i].kind is Dormant,
        from.rows()[j].kind is Dormant,
    ensures
        exists|k: int, l: int|
            #![trigger from.dormant[k], from.dormant[l]]
            {
                &&& 0 <= k < l < from.dormant.len()
                &&& from.dormant[k].path == from.rows()[i].path
                &&& from.dormant[l].path == from.rows()[j].path
            },
{
    let keys = from.row_keys();
    let places = order::ordered::<RowKey>(keys);
    order::ordering_is_a_stable_sort::<RowKey>(keys);
    assert(RowKey::precedes(keys[places[j]], keys[places[i]]));
    assert(places[i] < places[j]);
    let live = from.live_rows(from.workspaces.len());
    let projects = from.dormant_rows(from.dormant.len());
    let found = from.found_rows();
    if places[i] < live.len() {
        lemma_live_origin(from, from.workspaces.len(), places[i]);
        assert(found[places[i]] == live[places[i]]);
    }
    let x = places[i] - live.len();
    let y = places[j] - live.len();
    assert(found[places[i]] == projects[x] && found[places[j]] == projects[y]);
    let (k, l) = lemma_dormant_in_order(from, from.dormant.len(), x, y);
    assert(from.dormant[k].path == projects[x].path && from.dormant[l].path == projects[y].path);
}

proof fn lemma_dormant_in_order(from: Sources, n: nat, x: int, y: int) -> (at: (int, int))
    requires
        n <= from.dormant.len(),
        0 <= x < y < from.dormant_rows(n).len(),
    ensures
        0 <= at.0 < at.1 < n,
        from.dormant[at.0].path == from.dormant_rows(n)[x].path,
        from.dormant[at.1].path == from.dormant_rows(n)[y].path,
    decreases n,
{
    let before = from.dormant_rows((n - 1) as nat);
    if y < before.len() {
        lemma_dormant_in_order(from, (n - 1) as nat, x, y)
    } else {
        lemma_dormant_origin(from, (n - 1) as nat, x);
        let k = choose|k: int|
            0 <= k < n - 1 && !from.is_open((#[trigger] from.dormant[k]).path) && before[x]
                == from.dormant_row(from.dormant[k]);
        (k, n - 1)
    }
}

} // verus!
