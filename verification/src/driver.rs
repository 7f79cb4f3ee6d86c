//! What the program does around the picker: what it remembers after a run, how it
//! carries a decision out, and how it ends.

use vstd::prelude::*;
use crate::herdr;
use crate::herdr::{Herdr, HerdrError};
use crate::jump_focus::{FocusModel, FocusResult};
use crate::model;
use crate::model::{Kind, KindModel, Row, RowModel};
use crate::paths;
use crate::picker::{Outcome, OutcomeModel, PickerModel, PickerState};
use crate::registry;
use crate::registry::{Registry, RegistryModel};
use crate::lists;
use crate::sources;
use crate::text;

verus! {

broadcast use crate::text::lemma_views_push;

/// A file in a directory of the environment; in the current one where the
/// environment names none.
pub open spec fn file_in(directory: Option<Seq<char>>, name: Seq<char>) -> Seq<char> {
    match directory {
        Some(directory) => paths::child(directory, name),
        None => name,
    }
}

/// Find a file in a directory of the environment.
fn locate(directory: Option<&str>, name: &str) -> (path: String)
    ensures
        path@ == file_in(model::borrowed(directory), name@),
{
    match directory {
        Some(directory) => paths::join(directory, name),
        None => name.to_string(),
    }
}

/// Where the configuration is, by the plugin's configuration directory.
pub fn config_path(directory: Option<&str>) -> (path: String)
    ensures
        path@ == file_in(model::borrowed(directory), "config.toml"@),
{
    locate(directory, "config.toml")
}

/// Where the registry is, by the plugin's state directory.
pub fn state_path(directory: Option<&str>) -> (path: String)
    ensures
        path@ == file_in(model::borrowed(directory), "state.json"@),
{
    locate(directory, "state.json")
}

/// Where the recency of panes is, by the plugin's state directory.
pub fn recency_path(directory: Option<&str>) -> (path: String)
    ensures
        path@ == paths::child(
            match directory {
                Some(directory) => directory@,
                None => "."@,
            },
            "jump-pane-state-v1.json"@,
        ),
{
    match directory {
        Some(directory) => paths::join(directory, "jump-pane-state-v1.json"),
        None => paths::join(".", "jump-pane-state-v1.json"),
    }
}

/// Whether Jump Pane mode is asked for.
pub fn wants_jump_pane(args: &Vec<String>) -> (wanted: bool)
    ensures
        wanted == text::views(args@).contains("--jump-pane"@),
{
    text::holds(args, "--jump-pane")
}

/// How creating a workspace goes when the client answers so: a created workspace
/// is bound to the directory, known by `key`.
pub open spec fn musters<H: Herdr>(
    client: &H,
    directory: Seq<char>,
    key: Seq<char>,
    before: RegistryModel,
    after: RegistryModel,
    created: std::result::Result<String, String>,
) -> bool {
    exists|cwd: &str, label: &str, answer: herdr::Result<String>| #[trigger]
        call_ensures(H::create_workspace, (client, cwd, label), answer) && cwd@ == directory
            && label@ == paths::base_name(directory) && match answer {
            Ok(id) => created is Ok && created->Ok_0@ == id@ && after == before.bound(key, id@),
            Err(error) => created is Err && created->Err_0@ == error@.message() && after == before,
        }
}

/// Create a workspace for a directory and bind it. `key` is the directory with
/// symbolic links resolved.
pub fn create_and_bind<H: Herdr>(
    client: &H,
    registry: &mut Registry,
    directory: &str,
    key: &str,
) -> (created: std::result::Result<String, String>)
    requires
        old(registry).wf(),
    ensures
        final(registry).wf(),
        musters(client, directory@, key@, old(registry)@, final(registry)@, created),
{
    let name = sources::basename(directory);
    let answer = client.create_workspace(directory, name.as_str());
    match answer {
        Ok(id) => {
            registry.bind(key, id.as_str());
            Ok(id)
        },
        Err(error) => Err(error.message()),
    }
}

/// Forget what is bound to workspaces that are gone, where the live ones are
/// known. Returns whether anything was forgotten.
pub fn reconcile_after_refresh(registry: &mut Registry, live_workspace_ids: Option<&Vec<String>>) -> (
    changed: bool)
    requires
        old(registry).wf(),
    ensures
        final(registry).wf(),
        final(registry)@ == reconciled_with(old(registry)@, ids_view(live_workspace_ids)),
        changed == (final(registry)@ != old(registry)@),
{
    match live_workspace_ids {
        Some(live) => registry.reconcile(live.as_slice()),
        None => false,
    }
}

/// Whether to close the pane that the picker was launched in: never the pane that
/// was selected, nor the one that the picker was opened from.
pub fn should_cleanup_launcher(launcher: &str, selected: Option<&str>, origin: Option<&str>) -> (
    close: bool)
    ensures
        close == (Some(launcher@) != model::borrowed(selected) && Some(launcher@)
            != model::borrowed(origin)),
{
    let is_selected = match selected {
        Some(selected) => text::same(launcher, selected),
        None => false,
    };
    let is_origin = match origin {
        Some(origin) => text::same(launcher, origin),
        None => false,
    };
    !is_selected && !is_origin
}

/// The directories that a run of the picker has seen open: absolute ones, and
/// none where the live workspaces are not known.
pub open spec fn seen_open(live_known: bool, opened: Seq<Seq<char>>) -> Seq<Seq<char>> {
    if live_known {
        opened.filter(|path: Seq<char>| paths::is_rooted(path))
    } else {
        Seq::empty()
    }
}

/// List the directories that a run of the picker has seen open.
pub fn projects_to_remember(live_known: bool, opened: &Vec<String>) -> (seen: Vec<String>)
    ensures
        text::views(seen@) == seen_open(live_known, text::views(opened@)),
{
    let ghost all = text::views(opened@);
    let ghost keep = |path: Seq<char>| paths::is_rooted(path);
    let mut seen: Vec<String> = Vec::new();
    let mut i: usize = 0;
    assert(text::views(seen@) =~= Seq::empty());
    if !live_known {
        return seen;
    }
    reveal(Seq::filter);
    assert(text::views(seen@) =~= all.take(0).filter(keep));
    while i < opened.len()
        invariant
            i <= opened@.len(),
            all == text::views(opened@),
            keep == (|path: Seq<char>| paths::is_rooted(path)),
            text::views(seen@) == all.take(i as int).filter(keep),
        decreases opened@.len() - i,
    {
        reveal(Seq::filter);
        assert(all.take(i + 1).drop_last() =~= all.take(i as int));
        assert(all.take(i + 1).last() == opened@[i as int]@);
        if paths::rooted(opened[i].as_str()) {
            seen.push(opened[i].clone());
        }
        i += 1;
    }
    assert(all.take(i as int) =~= all);
    seen
}

/// History after the first `n` of the directories that were seen open.
pub open spec fn remembered_all(recent: Seq<Seq<char>>, keys: Seq<Seq<char>>, n: nat) -> Seq<
    Seq<char>,
>
    decreases n,
{
    if n == 0 {
        recent
    } else {
        registry::remembered(remembered_all(recent, keys, (n - 1) as nat), keys[n - 1])
    }
}

/// Whether any of the first `n` of these directories changed the history when it
/// was taken in.
pub open spec fn history_moves(recent: Seq<Seq<char>>, keys: Seq<Seq<char>>, n: nat) -> bool
    decreases n,
{
    n > 0 && (history_moves(recent, keys, (n - 1) as nat) || remembered_all(recent, keys, n)
        != remembered_all(recent, keys, (n - 1) as nat))
}

/// The registry after a run of the picker: what was open is remembered, what is
/// gone is forgotten, and the workspace that the picker was opened from was used
/// last.
pub open spec fn observed(
    before: RegistryModel,
    keys: Seq<Seq<char>>,
    live: Option<Seq<Seq<char>>>,
    origin: Option<Seq<char>>,
) -> RegistryModel {
    let left = reconciled_with(
        RegistryModel { recent: remembered_all(before.recent, keys, keys.len()), ..before },
        live,
    );
    match origin {
        Some(origin) => used(left, origin),
        None => left,
    }
}

/// The registry without what is gone, where the live workspaces are known.
pub open spec fn reconciled_with(before: RegistryModel, live: Option<Seq<Seq<char>>>) -> RegistryModel {
    match live {
        Some(live) => before.reconciled(live),
        None => before,
    }
}

/// Whether any step of taking in a run of the picker changed the registry.
pub open spec fn run_moves(
    before: RegistryModel,
    keys: Seq<Seq<char>>,
    live: Option<Seq<Seq<char>>>,
    origin: Option<Seq<char>>,
) -> bool {
    let seen = RegistryModel {
        recent: remembered_all(before.recent, keys, keys.len()),
        ..before
    };
    let left = reconciled_with(seen, live);
    history_moves(before.recent, keys, keys.len()) || left != seen || (origin is Some && used(
        left,
        origin->0,
    ) != left)
}

/// An optional list of texts, as a model.
pub open spec fn ids_view(ids: Option<&Vec<String>>) -> Option<Seq<Seq<char>>> {
    match ids {
        Some(ids) => Some(text::views(ids@)),
        None => None,
    }
}

/// Take in what a run of the picker has seen. `keys` are the directories that
/// were open, with symbolic links resolved. Returns whether the registry is to be
/// saved: whether any step of this changed it.
pub fn observe(
    registry: &mut Registry,
    keys: &Vec<String>,
    live_workspace_ids: Option<&Vec<String>>,
    origin_workspace: Option<&str>,
) -> (changed: bool)
    requires
        old(registry).wf(),
    ensures
        final(registry).wf(),
        final(registry)@ == observed(
            old(registry)@,
            text::views(keys@),
            ids_view(live_workspace_ids),
            model::borrowed(origin_workspace),
        ),
        changed == run_moves(
            old(registry)@,
            text::views(keys@),
            ids_view(live_workspace_ids),
            model::borrowed(origin_workspace),
        ),
{
    let ghost before = registry@;
    let ghost all = text::views(keys@);
    let mut changed: bool = false;
    let mut i: usize = 0;
    while i < keys.len()
        invariant
            i <= keys@.len(),
            all == text::views(keys@),
            registry.wf(),
            registry@ == (RegistryModel {
                recent: remembered_all(before.recent, all, i as nat),
                ..before
            }),
            changed == history_moves(before.recent, all, i as nat),
        decreases keys@.len() - i,
    {
        assert(all[i as int] == keys@[i as int]@);
        if registry.remember_project(keys[i].as_str()) {
            changed = true;
        }
        i += 1;
    }
    if reconcile_after_refresh(registry, live_workspace_ids) {
        changed = true;
    }
    if let Some(origin) = origin_workspace {
        if registry.touch(origin) {
            changed = true;
        }
    }
    changed
}

/// What follows a decision.
#[derive(Debug)]
pub enum Next {
    /// The end of the program.
    Leave,
    /// Another run of the picker.
    Again(PickerState),
}

/// How a decision was carried out.
#[derive(Debug)]
pub struct Carried {
    /// What follows, or why it failed.
    pub next: std::result::Result<Next, String>,
    /// Whether the registry may have changed.
    pub changed: bool,
}

impl Carried {
    /// Whether the program ends well.
    pub open spec fn leaves(self) -> bool {
        self.next is Ok && self.next->Ok_0 is Leave
    }

    /// Whether it failed with these words.
    pub open spec fn fails(self, words: Seq<char>) -> bool {
        self.next is Err && self.next->Err_0@ == words
    }

    /// Whether the picker runs again, in this state.
    pub open spec fn reopens(self, state: PickerModel) -> bool {
        self.next matches Ok(Next::Again(kept)) && kept@ == state
    }
}

/// The registry with a workspace used last.
pub open spec fn used(registry: RegistryModel, workspace: Seq<char>) -> RegistryModel {
    RegistryModel { mru: registry::touched(registry.mru, workspace), ..registry }
}

/// How a focus that was asked for ends: a failure changes nothing, a success
/// makes the workspace the one used last.
pub open spec fn after_focus(
    done: herdr::Result<()>,
    workspace: Seq<char>,
    before: RegistryModel,
    after: RegistryModel,
    carried: Carried,
) -> bool {
    match done {
        Ok(_) => after == used(before, workspace) && carried.leaves() && carried.changed == (after
            != before),
        Err(error) => after == before && carried.fails(error@.message()) && !carried.changed,
    }
}

/// How a jump to a row goes when the client answers so. A live workspace, a tab
/// or a pane is focused by its own id; a project gets a workspace.
pub open spec fn jumps<H: Herdr>(
    client: &H,
    row: RowModel,
    key: Seq<char>,
    before: RegistryModel,
    after: RegistryModel,
    carried: Carried,
) -> bool {
    match row.kind {
        KindModel::Open { workspace_id, .. } => exists|id: &str, done: herdr::Result<()>|
            #[trigger] call_ensures(H::focus_workspace, (client, id), done) && id@ == workspace_id
                && after_focus(done, workspace_id, before, after, carried),
        KindModel::Tab { workspace_id, tab_id, .. } => exists|id: &str, done: herdr::Result<()>|
            #[trigger] call_ensures(H::focus_tab, (client, id), done) && id@ == tab_id
                && after_focus(done, workspace_id, before, after, carried),
        KindModel::Pane { workspace_id, pane_id, .. } => exists|id: &str, done: herdr::Result<()>|
            #[trigger] call_ensures(H::focus_pane, (client, id), done) && id@ == pane_id
                && after_focus(done, workspace_id, before, after, carried),
        KindModel::Dormant => opens(client, row, key, before, after, carried),
    }
}

/// How opening a workspace for a row's directory goes when the client answers so.
pub open spec fn opens<H: Herdr>(
    client: &H,
    row: RowModel,
    key: Seq<char>,
    before: RegistryModel,
    after: RegistryModel,
    carried: Carried,
) -> bool {
    exists|bound: RegistryModel, created: std::result::Result<String, String>| #[trigger]
        musters(client, row.path, key, before, bound, created) && match created {
            Ok(id) => after == used(bound, id@) && carried.leaves() && carried.changed,
            Err(words) => after == before && carried.fails(words@) && !carried.changed,
        }
}

/// The registry after a live workspace was closed.
pub open spec fn closed(
    before: RegistryModel,
    path: Seq<char>,
    key: Seq<char>,
    workspace: Seq<char>,
) -> RegistryModel {
    RegistryModel {
        map: if before.map.contains_key(key) && before.map[key] == workspace {
            before.map.remove(key)
        } else {
            before.map
        },
        mru: lists::without(before.mru, workspace),
        recent: if paths::is_rooted(path) {
            registry::remembered(before.recent, key)
        } else {
            before.recent
        },
    }
}

/// How closing a row goes when the client answers so.
pub open spec fn closes<H: Herdr>(
    client: &H,
    row: RowModel,
    key: Seq<char>,
    state: PickerModel,
    before: RegistryModel,
    after: RegistryModel,
    carried: Carried,
) -> bool {
    match row.kind {
        KindModel::Open { workspace_id, .. } => exists|id: &str, done: herdr::Result<()>|
            #[trigger] call_ensures(H::close_workspace, (client, id), done) && id@ == workspace_id
                && match done {
                Ok(_) => after == closed(before, row.path, key, workspace_id) && carried.reopens(
                    state.without(row.id()),
                ) && carried.changed == (after != before),
                Err(error) => after == before && carried.fails(error@.message())
                    && !carried.changed,
            },
        _ => after == before && carried.reopens(state.without(row.id())) && !carried.changed,
    }
}

/// How a decision goes when the client answers so.
pub open spec fn carries<H: Herdr>(
    client: &H,
    outcome: OutcomeModel,
    key: Seq<char>,
    state: PickerModel,
    before: RegistryModel,
    after: RegistryModel,
    carried: Carried,
) -> bool {
    match outcome {
        OutcomeModel::Cancel => after == before && carried.leaves() && !carried.changed,
        OutcomeModel::Jump(row) => jumps(client, row, key, before, after, carried),
        OutcomeModel::ForceNew(row) => if row.kind is Open || row.kind is Dormant {
            opens(client, row, key, before, after, carried)
        } else {
            after == before && carried.leaves() && !carried.changed
        },
        OutcomeModel::Close(row) => closes(client, row, key, state, before, after, carried),
    }
}

/// Take in how a focus went.
fn note_focus(registry: &mut Registry, done: herdr::Result<()>, workspace: &str) -> (carried: Carried)
    requires
        old(registry).wf(),
    ensures
        final(registry).wf(),
        after_focus(done, workspace@, old(registry)@, final(registry)@, carried),
{
    match done {
        Ok(_) => {
            let changed = registry.touch(workspace);
            Carried { next: Ok(Next::Leave), changed }
        },
        Err(error) => Carried { next: Err(error.message()), changed: false },
    }
}

/// Open a workspace for a row's directory.
fn open<H: Herdr>(client: &H, registry: &mut Registry, row: &Row, key: &str) -> (carried: Carried)
    requires
        old(registry).wf(),
    ensures
        final(registry).wf(),
        opens(client, row@, key@, old(registry)@, final(registry)@, carried),
{
    let created = create_and_bind(client, registry, row.path.as_str(), key);
    let ghost bound = registry@;
    let ghost answer = created;
    assert(musters(client, row@.path, key@, old(registry)@, bound, answer));
    match created {
        Ok(id) => {
            registry.touch(id.as_str());
            Carried { next: Ok(Next::Leave), changed: true }
        },
        Err(words) => Carried { next: Err(words), changed: false },
    }
}

/// Jump to a row.
fn jump<H: Herdr>(client: &H, registry: &mut Registry, row: &Row, key: &str) -> (carried: Carried)
    requires
        old(registry).wf(),
    ensures
        final(registry).wf(),
        jumps(client, row@, key@, old(registry)@, final(registry)@, carried),
{
    match &row.kind {
        Kind::Open { workspace_id, .. } => {
            let done = client.focus_workspace(workspace_id.as_str());
            note_focus(registry, done, workspace_id.as_str())
        },
        Kind::Tab { workspace_id, tab_id, .. } => {
            let done = client.focus_tab(tab_id.as_str());
            note_focus(registry, done, workspace_id.as_str())
        },
        Kind::Pane { workspace_id, pane_id, .. } => {
            let done = client.focus_pane(pane_id.as_str());
            note_focus(registry, done, workspace_id.as_str())
        },
        Kind::Dormant => open(client, registry, row, key),
    }
}

/// Close a row.
fn close<H: Herdr>(
    client: &H,
    registry: &mut Registry,
    row: &Row,
    key: &str,
    state: PickerState,
) -> (carried: Carried)
    requires
        old(registry).wf(),
    ensures
        final(registry).wf(),
        closes(client, row@, key@, state@, old(registry)@, final(registry)@, carried),
{
    let ghost before = registry@;
    let mut changed: bool = false;
    if let Kind::Open { workspace_id, .. } = &row.kind {
        let done = client.close_workspace(workspace_id.as_str());
        if let Err(error) = done {
            return Carried { next: Err(error.message()), changed: false };
        }
        if paths::rooted(row.path.as_str()) {
            if registry.remember_project(key) {
                changed = true;
            }
        }
        if registry.unbind_if_bound(key, workspace_id.as_str()) {
            changed = true;
        }
        if registry.forget(workspace_id.as_str()) {
            changed = true;
        }
        assert(registry@ =~= closed(before, row@.path, key@, workspace_id@));
    }
    let mut state = state;
    state.remove(&row.id());
    Carried { next: Ok(Next::Again(state)), changed }
}

/// Carry a decision out. `key` is the row's directory with symbolic links
/// resolved, and `state` what another run of the picker begins with.
pub fn carry_out<H: Herdr>(
    client: &H,
    registry: &mut Registry,
    outcome: &Outcome,
    key: &str,
    state: PickerState,
) -> (carried: Carried)
    requires
        old(registry).wf(),
    ensures
        final(registry).wf(),
        carries(client, outcome@, key@, state@, old(registry)@, final(registry)@, carried),
{
    match outcome {
        Outcome::Cancel => Carried { next: Ok(Next::Leave), changed: false },
        Outcome::Jump(row) => jump(client, registry, row, key),
        Outcome::ForceNew(row) => {
            let fits = matches!(&row.kind, Kind::Open { .. } | Kind::Dormant);
            if fits {
                open(client, registry, row, key)
            } else {
                Carried { next: Ok(Next::Leave), changed: false }
            }
        },
        Outcome::Close(row) => close(client, registry, row, key, state),
    }
}

/// How the program ends when something went wrong at the very end: that is its
/// result where it went well before; otherwise it is only said.
pub fn with_late_failure(
    result: std::result::Result<(), String>,
    failure: String,
) -> (ended: (std::result::Result<(), String>, Option<String>))
    ensures
        result is Ok ==> ended.0 is Err && ended.0->Err_0@ == failure@ && ended.1 is None,
        result is Err ==> ended.0 is Err && ended.0->Err_0@ == result->Err_0@ && ended.1 is Some
            && ended.1->0@ == failure@,
{
    match result {
        Ok(_) => (Err(failure), None),
        Err(first) => (Err(first), Some(failure)),
    }
}

/// Say that the registry could not be saved.
pub fn save_failure(path: &str, error: &str) -> (words: String)
    ensures
        words@ == "save "@ + path@ + ": "@ + error@,
{
    let mut words = text::joined("save ", path);
    words.append(": ");
    words.append(error);
    words
}

/// Say that the launcher's pane could not be closed.
pub fn close_failure(pane: &str, error: &HerdrError) -> (words: String)
    ensures
        words@ == "close picker pane "@ + pane@ + ": "@ + error@.message(),
{
    let mut words = text::joined("close picker pane ", pane);
    words.append(": ");
    words.append(error.message().as_str());
    words
}

/// How Jump Pane mode ends: well after a focus or a cancellation.
pub open spec fn jump_ending(result: FocusModel) -> std::result::Result<(), Seq<char>> {
    match result {
        FocusModel::Focused => Ok(()),
        FocusModel::Stale(message) => if message == "cancelled"@ {
            Ok(())
        } else {
            Err("Jump Pane: Stale("@ + text::debug_text(message) + ")"@)
        },
        FocusModel::Failed(message) => Err(
            "Jump Pane: Failed("@ + text::debug_text(message) + ")"@,
        ),
    }
}

/// Tell how Jump Pane mode ends.
pub fn jump_result(result: FocusResult) -> (ended: std::result::Result<(), String>)
    ensures
        jump_ending(result@) == (match ended {
            Ok(_) => Ok::<(), Seq<char>>(()),
            Err(words) => Err::<(), Seq<char>>(words@),
        }),
{
    match result {
        FocusResult::Focused => Ok(()),
        FocusResult::Stale(message) => {
            if text::same(message.as_str(), "cancelled") {
                return Ok(());
            }
            let mut words = text::joined(
                "Jump Pane: Stale(",
                text::quoted(message.as_str()).as_str(),
            );
            words.append(")");
            Err(words)
        },
        FocusResult::Failed(message) => {
            let mut words = text::joined(
                "Jump Pane: Failed(",
                text::quoted(message.as_str()).as_str(),
            );
            words.append(")");
            Err(words)
        },
    }
}

/// A failed refresh never costs a binding: where the live workspaces are not
/// known, everything that is bound stays bound, and recency loses nothing.
pub proof fn failed_refresh_keeps_bindings(
    before: RegistryModel,
    keys: Seq<Seq<char>>,
    origin: Option<Seq<char>>,
)
    ensures
        observed(before, keys, None, origin).map == before.map,
        forall|workspace: Seq<char>|
            before.mru.contains(workspace) ==> #[trigger] observed(
                before,
                keys,
                None,
                origin,
            ).mru.contains(workspace),
{
    if let Some(origin) = origin {
        lists::lemma_without(before.mru, origin);
        let rest = lists::without(before.mru, origin);
        let after = lists::fronted(before.mru, origin);
        assert forall|workspace: Seq<char>| before.mru.contains(workspace) implies #[trigger] observed(
            before,
            keys,
            None,
            Some(origin),
        ).mru.contains(workspace) by {
            if workspace == origin {
                assert(after[0] == origin);
            } else {
                assert(rest.contains(workspace));
                let i = choose|i: int| 0 <= i < rest.len() && rest[i] == workspace;
                assert(after[i + 1] == workspace);
            }
        }
    }
}

/// The workspace that the picker was opened from is the one used last, whatever
/// else the run has seen.
pub proof fn origin_was_used_last(
    before: RegistryModel,
    keys: Seq<Seq<char>>,
    live: Option<Seq<Seq<char>>>,
    origin: Seq<char>,
)
    ensures
        observed(before, keys, live, Some(origin)).mru.len() > 0,
        observed(before, keys, live, Some(origin)).mru[0] == origin,
{
}

/// Closing a workspace takes away only a binding that still names it, its recency,
/// and nothing of the history.
pub proof fn closing_takes_only_its_own(
    before: RegistryModel,
    path: Seq<char>,
    key: Seq<char>,
    workspace: Seq<char>,
)
    ensures
        forall|directory: Seq<char>|
            directory != key && before.map.contains_key(directory) ==> (#[trigger] closed(
                before,
                path,
                key,
                workspace,
            ).map.contains_key(directory)) && closed(before, path, key, workspace).map[directory]
                == before.map[directory],
        before.map.contains_key(key) && before.map[key] != workspace ==> closed(
            before,
            path,
            key,
            workspace,
        ).map == before.map,
        !closed(before, path, key, workspace).mru.contains(workspace),
        paths::is_rooted(path) ==> closed(before, path, key, workspace).recent[0] == key,
{
    lists::lemma_without(before.mru, workspace);
}

} // verus!
