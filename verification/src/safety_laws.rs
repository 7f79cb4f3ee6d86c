//! What is shown can never drive the terminal: no control character of a title,
//! a label or a path gets through.

use vstd::prelude::*;
use crate::herdr::{PaneModel, TabModel, WorkspaceModel};
use crate::jump_pane;
use crate::jump_pane::TargetModel;
use crate::model;
use crate::model::{KindModel, RowKey, RowModel, Sources};
use crate::order;
use crate::config::ConfigModel;
use crate::sources;
use crate::sources::{CandidateModel, Disk};
use crate::text;
use crate::wire;

verus! {

/// Whether a text has no terminal control character.
pub open spec fn is_safe(value: Seq<char>) -> bool {
    forall|i: int| 0 <= i < value.len() ==> !text::is_control(#[trigger] value[i])
}

/// Whether an optional text has no terminal control character.
pub open spec fn is_safe_option(value: Option<Seq<char>>) -> bool {
    match value {
        Some(value) => is_safe(value),
        None => true,
    }
}

/// A sanitized text has no control character, keeps every other character in its
/// order, and is not changed by sanitizing it again.
pub proof fn sanitized_text_is_safe(value: Seq<char>)
    ensures
        is_safe(text::sanitized(value)),
        text::sanitized(text::sanitized(value)) == text::sanitized(value),
        is_safe(value) ==> text::sanitized(value) == value,
    decreases value.len(),
{
    reveal(Seq::filter);
    if value.len() > 0 {
        let front = value.drop_last();
        let last = value.last();
        sanitized_text_is_safe(front);
        let clean = text::sanitized(front);
        if !text::is_control(last) {
            assert(text::sanitized(value) == clean.push(last));
            assert(clean.push(last).drop_last() =~= clean);
        }
        if is_safe(value) {
            assert forall|i: int| 0 <= i < front.len() implies !text::is_control(
                #[trigger] front[i],
            ) by {
                assert(front[i] == value[i]);
            }
            assert(!text::is_control(value[value.len() - 1]));
            assert(front.push(last) =~= value);
        }
    } else {
        assert(text::sanitized(value) =~= value);
    }
}

proof fn lemma_trimmed_end_is_safe(value: Seq<char>)
    requires
        is_safe(value),
    ensures
        is_safe(text::trimmed_end(value)),
    decreases value.len(),
{
    if value.len() > 0 && text::is_white(value.last()) {
        assert forall|i: int| 0 <= i < value.drop_last().len() implies !text::is_control(
            #[trigger] value.drop_last()[i],
        ) by {
            assert(value.drop_last()[i] == value[i]);
        }
        lemma_trimmed_end_is_safe(value.drop_last());
    }
}

proof fn lemma_trimmed_start_is_safe(value: Seq<char>)
    requires
        is_safe(value),
    ensures
        is_safe(text::trimmed_start(value)),
    decreases value.len(),
{
    if value.len() > 0 && text::is_white(value.first()) {
        assert forall|i: int| 0 <= i < value.drop_first().len() implies !text::is_control(
            #[trigger] value.drop_first()[i],
        ) by {
            assert(value.drop_first()[i] == value[i + 1]);
        }
        lemma_trimmed_start_is_safe(value.drop_first());
    }
}

/// A text that was tidied has no control character.
proof fn lemma_tidy_is_safe(value: Seq<char>)
    ensures
        is_safe(jump_pane::tidy(value)),
{
    sanitized_text_is_safe(value);
    lemma_trimmed_start_is_safe(text::sanitized(value));
    lemma_trimmed_end_is_safe(text::trimmed_start(text::sanitized(value)));
}

/// An optional text that was cleaned has no control character.
proof fn lemma_cleaned_is_safe(value: Option<Seq<char>>)
    ensures
        is_safe_option(text::cleaned(value)),
{
    if let Some(value) = value {
        lemma_tidy_is_safe(value);
    }
}

proof fn lemma_tidy_option_is_safe(value: Option<Seq<char>>)
    ensures
        is_safe_option(jump_pane::tidy_option(value)),
{
    if let Some(value) = value {
        lemma_tidy_is_safe(value);
    }
}

/// Whatever Herdr lists, no label, title, agent or directory of it brings a
/// control character to the picker.
pub proof fn listed_texts_are_safe(workspace: WorkspaceModel, pane: PaneModel, tab: TabModel)
    ensures
        is_safe(wire::clean_workspace(workspace).label),
        is_safe_option(wire::clean_pane(pane).label),
        is_safe_option(wire::clean_pane(pane).title),
        is_safe_option(wire::clean_pane(pane).terminal_title),
        is_safe_option(wire::clean_pane(pane).agent),
        is_safe_option(wire::clean_pane(pane).agent_status),
        is_safe_option(wire::clean_pane(pane).cwd),
        is_safe_option(wire::clean_pane(pane).foreground_cwd),
        is_safe_option(wire::clean_pane(pane).tab_id),
        is_safe_option(wire::clean_tab(tab).label),
        is_safe_option(wire::clean_tab(tab).agent_status),
{
    lemma_cleaned_is_safe(Some(workspace.label));
    lemma_cleaned_is_safe(pane.label);
    lemma_cleaned_is_safe(pane.title);
    lemma_cleaned_is_safe(pane.terminal_title);
    lemma_cleaned_is_safe(pane.agent);
    lemma_cleaned_is_safe(pane.agent_status);
    lemma_cleaned_is_safe(pane.cwd);
    lemma_cleaned_is_safe(pane.foreground_cwd);
    lemma_cleaned_is_safe(pane.tab_id);
    lemma_cleaned_is_safe(tab.label);
    lemma_cleaned_is_safe(tab.agent_status);
}

/// Whatever a runtime lists, no text that a row of Jump Pane mode takes from it
/// has a control character; only the pane's identity is as it was listed.
pub proof fn jump_rows_are_safe(target: TargetModel, pane: PaneModel)
    ensures
        ({
            let entry = jump_pane::entry_of(target, pane);
            &&& is_safe(entry.workspace_id)
            &&& is_safe_option(entry.tab_id)
            &&& is_safe_option(entry.cwd)
            &&& is_safe_option(entry.foreground_cwd)
            &&& is_safe_option(entry.label)
            &&& is_safe_option(entry.title)
            &&& is_safe_option(entry.terminal_title)
            &&& is_safe_option(entry.agent)
            &&& is_safe_option(entry.agent_status)
            &&& is_safe_option(entry.target.remote_host)
            &&& is_safe(jump_pane::short(entry.identity.pane_id))
            &&& entry.identity.pane_id == pane.pane_id
        }),
{
    lemma_tidy_is_safe(pane.workspace_id);
    lemma_tidy_option_is_safe(pane.tab_id);
    lemma_tidy_option_is_safe(pane.cwd);
    lemma_tidy_option_is_safe(pane.foreground_cwd);
    lemma_tidy_option_is_safe(pane.label);
    lemma_tidy_option_is_safe(pane.title);
    lemma_tidy_option_is_safe(pane.terminal_title);
    lemma_tidy_option_is_safe(pane.agent);
    lemma_tidy_option_is_safe(pane.agent_status);
    lemma_tidy_option_is_safe(target.remote_host);
    lemma_tidy_is_safe(pane.pane_id);
    let clean = jump_pane::tidy(pane.pane_id);
    if clean.len() > 8 {
        assert forall|i: int| 0 <= i < 8 implies !text::is_control(
            #[trigger] clean.skip(clean.len() - 8)[i],
        ) by {
            assert(clean.skip(clean.len() - 8)[i] == clean[clean.len() - 8 + i]);
        }
    }
}

/// Whether all texts have no terminal control character.
pub open spec fn are_safe(values: Seq<Seq<char>>) -> bool {
    forall|i: int| 0 <= i < values.len() ==> is_safe(#[trigger] values[i])
}

/// The agent of a row.
pub open spec fn agent_of(kind: KindModel) -> Option<Seq<char>> {
    match kind {
        KindModel::Open { agent, .. } => agent,
        KindModel::Tab { agent, .. } => agent,
        KindModel::Pane { agent, .. } => agent,
        KindModel::Dormant => None,
    }
}

/// Whether nothing that is shown of a row has a control character.
pub open spec fn row_is_safe(row: RowModel) -> bool {
    &&& is_safe(row.name)
    &&& is_safe(row.display)
    &&& are_safe(row.pane_names)
    &&& are_safe(row.tab_names)
    &&& row.space is Some ==> is_safe(row.space->0.label) && is_safe_option(
        row.space->0.disambiguator,
    )
    &&& is_safe_option(agent_of(row.kind))
}

/// Whether nothing that is shown of rows has a control character.
pub open spec fn rows_are_safe(rows: Seq<RowModel>) -> bool {
    forall|i: int| 0 <= i < rows.len() ==> row_is_safe(#[trigger] rows[i])
}

/// A safe row added to safe rows leaves them safe.
proof fn lemma_one_more_is_safe(rows: Seq<RowModel>, row: RowModel)
    requires
        rows_are_safe(rows),
        row_is_safe(row),
    ensures
        rows_are_safe(rows.push(row)),
{
    assert forall|i: int| 0 <= i < rows.push(row).len() implies row_is_safe(
        #[trigger] rows.push(row)[i],
    ) by {
        if i < rows.len() {
            assert(rows.push(row)[i] == rows[i]);
        }
    }
}

/// Whether nothing that was listed has a control character: the texts of the lists
/// are clean, as [`listed_texts_are_safe`] has it, and Herdr's ids are.
pub open spec fn sources_are_safe(from: Sources) -> bool {
    &&& forall|i: int|
        0 <= i < from.workspaces.len() ==> is_safe((#[trigger] from.workspaces[i]).label)
            && is_safe(from.workspaces[i].workspace_id)
    &&& forall|i: int|
        0 <= i < from.panes.len() ==> is_safe_option((#[trigger] from.panes[i]).terminal_title)
            && is_safe_option(from.panes[i].agent) && is_safe(from.panes[i].pane_id)
    &&& forall|i: int| 0 <= i < from.tabs.len() ==> is_safe((#[trigger] from.tabs[i]).tab_id)
    &&& forall|i: int| 0 <= i < from.dormant.len() ==> is_safe((#[trigger] from.dormant[i]).display)
}

/// Joined safe texts are safe.
proof fn lemma_joined_is_safe(a: Seq<char>, b: Seq<char>)
    requires
        is_safe(a),
        is_safe(b),
    ensures
        is_safe(a + b),
{
    assert forall|i: int| 0 <= i < (a + b).len() implies !text::is_control(#[trigger] (a + b)[i]) by {
        if i < a.len() {
            assert((a + b)[i] == a[i]);
        } else {
            assert((a + b)[i] == b[i - a.len()]);
        }
    }
}

/// A directory's name is shown without control characters.
proof fn lemma_display_name_is_safe(path: Seq<char>)
    ensures
        is_safe(model::display_name(path)),
{
    sanitized_text_is_safe(crate::paths::base_name(path));
    reveal_strlit("project");
}

/// What a workspace is shown as is safe.
proof fn lemma_place_is_safe(from: Sources, workspace: WorkspaceModel)
    requires
        is_safe(workspace.label),
        is_safe(workspace.workspace_id),
    ensures
        is_safe(from.place(workspace).name),
        is_safe(from.place(workspace).display),
{
    if let Some(path) = from.directory(workspace.workspace_id) {
        lemma_display_name_is_safe(path);
        sanitized_text_is_safe(crate::paths::collapsed(path, from.host.home));
    }
}

/// The label of a tab is safe.
proof fn lemma_tab_label_is_safe(tab: TabModel)
    ensures
        is_safe_option(model::tab_label(tab)),
{
    if let Some(label) = tab.label {
        lemma_tidy_is_safe(label);
    }
}

/// Names of unnamed panes are safe.
proof fn lemma_pane_names_are_safe(from: Sources, id: Seq<char>, n: nat)
    requires
        sources_are_safe(from),
        n <= from.panes.len(),
    ensures
        are_safe(model::unnamed_panes(from.panes, id, n)),
    decreases n,
{
    if n > 0 {
        lemma_pane_names_are_safe(from, id, (n - 1) as nat);
        assert(is_safe_option(from.panes[n - 1].terminal_title));
    }
}

/// Labels of tabs are safe.
proof fn lemma_tab_names_are_safe(from: Sources, id: Seq<char>, n: nat)
    requires
        sources_are_safe(from),
        n <= from.tabs.len(),
    ensures
        are_safe(model::tab_labels(from.tabs, id, n)),
    decreases n,
{
    if n > 0 {
        lemma_tab_names_are_safe(from, id, (n - 1) as nat);
        lemma_tab_label_is_safe(from.tabs[n - 1]);
    }
}

/// The agent of a tab is safe.
proof fn lemma_tab_agent_is_safe(from: Sources, tab_id: Seq<char>, i: int)
    requires
        sources_are_safe(from),
    ensures
        is_safe_option(model::tab_agent(from.panes, tab_id, i)),
    decreases from.panes.len() - i,
{
    if 0 <= i < from.panes.len() {
        assert(is_safe_option(from.panes[i].agent));
        lemma_tab_agent_is_safe(from, tab_id, i + 1);
    }
}

/// A root pane is one of the panes.
proof fn lemma_root_is_listed(panes: Seq<PaneModel>, id: Seq<char>, n: nat)
    requires
        n <= panes.len(),
    ensures
        model::root_pane(panes, id, n) is Some ==> 0 <= model::root_pane(panes, id, n)->0 < n,
    decreases n,
{
    if n > 0 {
        lemma_root_is_listed(panes, id, (n - 1) as nat);
    }
}

/// Rows of tabs are safe.
proof fn lemma_tab_rows_are_safe(from: Sources, workspace: WorkspaceModel, n: nat)
    requires
        sources_are_safe(from),
        is_safe(workspace.label),
        is_safe(workspace.workspace_id),
        n <= from.tabs.len(),
    ensures
        rows_are_safe(from.tab_rows(workspace, n)),
    decreases n,
{
    if n > 0 {
        let tab = from.tabs[n - 1];
        lemma_tab_rows_are_safe(from, workspace, (n - 1) as nat);
        if from.shows_tab(workspace, tab) {
            lemma_place_is_safe(from, workspace);
            lemma_tab_label_is_safe(tab);
            lemma_tab_agent_is_safe(from, tab.tab_id, 0);
            reveal_strlit(" · ");
            lemma_joined_is_safe(from.place(workspace).display, " · "@);
            lemma_joined_is_safe(from.place(workspace).display + " · "@, tab.tab_id);
            lemma_one_more_is_safe(
                from.tab_rows(workspace, (n - 1) as nat),
                from.tab_row(workspace, tab),
            );
        }
    }
}

/// Rows of renamed panes are safe.
proof fn lemma_pane_rows_are_safe(from: Sources, workspace: WorkspaceModel, n: nat)
    requires
        sources_are_safe(from),
        is_safe(workspace.label),
        is_safe(workspace.workspace_id),
        n <= from.panes.len(),
    ensures
        rows_are_safe(from.pane_rows(workspace, n)),
    decreases n,
{
    if n > 0 {
        let pane = from.panes[n - 1];
        lemma_pane_rows_are_safe(from, workspace, (n - 1) as nat);
        if from.shows_pane(workspace, pane) {
            lemma_place_is_safe(from, workspace);
            lemma_cleaned_is_safe(pane.label);
            reveal_strlit(" · ");
            lemma_joined_is_safe(from.place(workspace).display, " · "@);
            lemma_joined_is_safe(from.place(workspace).display + " · "@, pane.pane_id);
            assert(is_safe_option(pane.agent));
            lemma_one_more_is_safe(
                from.pane_rows(workspace, (n - 1) as nat),
                from.pane_row(workspace, pane),
            );
        }
    }
}

/// The row of a workspace is safe.
proof fn lemma_open_row_is_safe(from: Sources, workspace: WorkspaceModel)
    requires
        sources_are_safe(from),
        is_safe(workspace.label),
        is_safe(workspace.workspace_id),
    ensures
        row_is_safe(from.open_row(workspace)),
{
    let id = workspace.workspace_id;
    lemma_place_is_safe(from, workspace);
    lemma_pane_names_are_safe(from, id, from.panes.len());
    lemma_tab_names_are_safe(from, id, from.tabs.len());
    lemma_root_is_listed(from.panes, id, from.panes.len());
    if let Some(i) = model::root_pane(from.panes, id, from.panes.len()) {
        assert(is_safe_option(from.panes[i].agent));
    }
}

/// Rows of live workspaces are safe.
proof fn lemma_live_rows_are_safe(from: Sources, n: nat)
    requires
        sources_are_safe(from),
        n <= from.workspaces.len(),
    ensures
        rows_are_safe(from.live_rows(n)),
    decreases n,
{
    if n > 0 {
        let workspace = from.workspaces[n - 1];
        let a = from.live_rows((n - 1) as nat);
        let b = from.tab_rows(workspace, from.tabs.len());
        let c = from.pane_rows(workspace, from.panes.len());
        lemma_live_rows_are_safe(from, (n - 1) as nat);
        assert(is_safe(workspace.label) && is_safe(workspace.workspace_id));
        lemma_tab_rows_are_safe(from, workspace, from.tabs.len());
        lemma_pane_rows_are_safe(from, workspace, from.panes.len());
        lemma_open_row_is_safe(from, workspace);
        let all = from.live_rows(n);
        assert forall|i: int| 0 <= i < all.len() implies row_is_safe(#[trigger] all[i]) by {
            if i < a.len() {
                assert(all[i] == a[i]);
            } else if i < a.len() + b.len() {
                assert(all[i] == b[i - a.len()]);
            } else if i < a.len() + b.len() + c.len() {
                assert(all[i] == c[i - a.len() - b.len()]);
            } else {
                assert(all[i] == from.open_row(workspace));
            }
        }
    }
}

/// Rows of projects are safe.
proof fn lemma_dormant_rows_are_safe(from: Sources, n: nat)
    requires
        sources_are_safe(from),
        n <= from.dormant.len(),
    ensures
        rows_are_safe(from.dormant_rows(n)),
    decreases n,
{
    if n > 0 {
        lemma_dormant_rows_are_safe(from, (n - 1) as nat);
        let candidate: CandidateModel = from.dormant[n - 1];
        lemma_display_name_is_safe(candidate.path);
        assert(is_safe(candidate.display));
        lemma_one_more_is_safe(from.dormant_rows((n - 1) as nat), from.dormant_row(candidate));
    }
}

/// Nothing that the picker shows of a row has a control character, whatever the
/// directories on disk and in the registry are called.
pub proof fn picker_rows_are_safe(from: Sources)
    requires
        sources_are_safe(from),
    ensures
        rows_are_safe(from.rows()),
{
    let live = from.live_rows(from.workspaces.len());
    let dormant = from.dormant_rows(from.dormant.len());
    let found = from.found_rows();
    lemma_live_rows_are_safe(from, from.workspaces.len());
    lemma_dormant_rows_are_safe(from, from.dormant.len());
    order::ordering_is_a_stable_sort::<RowKey>(from.row_keys());
    let places = order::ordered::<RowKey>(from.row_keys());
    assert forall|i: int| 0 <= i < from.rows().len() implies row_is_safe(
        #[trigger] from.rows()[i],
    ) by {
        let k = places[i];
        assert(0 <= k < found.len());
        if k < live.len() {
            assert(found[k] == live[k]);
        } else {
            assert(found[k] == dormant[k - live.len()]);
        }
    }
}

/// Whether what is shown of projects has no control character.
pub open spec fn displays_are_safe(found: Seq<CandidateModel>) -> bool {
    forall|i: int| 0 <= i < found.len() ==> is_safe((#[trigger] found[i]).display)
}

/// Finding more projects keeps what is shown safe.
proof fn lemma_resolved_is_safe(
    disk: Disk,
    listed: Seq<Seq<char>>,
    i: int,
    found: Seq<CandidateModel>,
    home: Option<Seq<char>>,
)
    requires
        displays_are_safe(found),
    ensures
        displays_are_safe(disk.resolved(listed, i, found, home)),
    decreases listed.len() - i,
{
    if 0 <= i < listed.len() {
        let more = disk.with_path(found, listed[i], home);
        if let Some(path) = (disk.canonical)(listed[i]) {
            sanitized_text_is_safe(crate::paths::collapsed(path, home));
        }
        assert forall|k: int| 0 <= k < more.len() implies is_safe((#[trigger] more[k]).display) by {
            if k < found.len() {
                assert(more[k] == found[k]);
            }
        }
        lemma_resolved_is_safe(disk, listed, i + 1, more, home);
    }
}

/// Whatever directories are called, projects are shown without control characters;
/// their paths stay as they are.
pub proof fn found_projects_are_safe(
    config: ConfigModel,
    zoxide: Seq<Seq<char>>,
    recent: Seq<Seq<char>>,
    home: Option<Seq<char>>,
    disk: Disk,
)
    ensures
        displays_are_safe(sources::gathered(config, zoxide, recent, home, disk)),
{
    let all = recent + sources::all_expanded(config.paths, home) + disk.projects_under_all(
        sources::all_expanded(config.roots, home),
        0,
    ) + disk.projects(
        if config.use_zoxide {
            zoxide
        } else {
            Seq::empty()
        },
    );
    lemma_resolved_is_safe(disk, all, 0, Seq::empty(), home);
}

} // verus!
