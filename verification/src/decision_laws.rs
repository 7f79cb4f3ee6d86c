//! What a decision in the picker does to Herdr and to what is remembered.

use vstd::prelude::*;
use crate::driver;
use crate::driver::{Carried, Next};
use crate::herdr;
use crate::herdr::{Herdr, HerdrErrorModel};
use crate::jump_focus::FocusModel;
use crate::lists;
use crate::model::{KindModel, RowModel};
use crate::paths;
use crate::picker::{OutcomeModel, PickerModel};
use crate::registry::RegistryModel;
use crate::registry_laws;
use crate::text;

verus! {

/// A jump to a live workspace focuses just that workspace, which then is the one
/// used last; nothing else that is remembered changes. Where Herdr refuses, nothing
/// changes and its words are passed on.
pub proof fn a_jump_focuses_the_workspace<H: Herdr>(
    client: &H,
    row: RowModel,
    key: Seq<char>,
    state: PickerModel,
    before: RegistryModel,
    after: RegistryModel,
    carried: Carried,
)
    requires
        row.kind is Open,
        driver::carries(client, OutcomeModel::Jump(row), key, state, before, after, carried),
    ensures
        exists|id: &str, done: herdr::Result<()>|
            {
                &&& #[trigger] call_ensures(H::focus_workspace, (client, id), done)
                &&& id@ == row.kind->Open_workspace_id
                &&& done is Ok ==> {
                    &&& carried.next is Ok && carried.next->Ok_0 is Leave
                    &&& after.mru.len() > 0 && after.mru[0] == row.kind->Open_workspace_id
                    &&& after.map == before.map && after.recent == before.recent
                    &&& !carried.changed ==> after == before
                }
                &&& done is Err ==> {
                    &&& carried.next is Err && carried.next->Err_0@ == done->Err_0@.message()
                    &&& after == before && !carried.changed
                }
            },
{
}

/// A jump to a tab focuses just that tab, and its workspace is then the one used
/// last.
pub proof fn a_jump_focuses_the_tab<H: Herdr>(
    client: &H,
    row: RowModel,
    key: Seq<char>,
    state: PickerModel,
    before: RegistryModel,
    after: RegistryModel,
    carried: Carried,
)
    requires
        row.kind is Tab,
        driver::carries(client, OutcomeModel::Jump(row), key, state, before, after, carried),
    ensures
        exists|id: &str, done: herdr::Result<()>|
            {
                &&& #[trigger] call_ensures(H::focus_tab, (client, id), done)
                &&& id@ == row.kind->Tab_tab_id
                &&& done is Ok ==> {
                    &&& carried.next is Ok && carried.next->Ok_0 is Leave
                    &&& after.mru.len() > 0 && after.mru[0] == row.kind->Tab_workspace_id
                    &&& after.map == before.map && after.recent == before.recent
                    &&& !carried.changed ==> after == before
                }
                &&& done is Err ==> {
                    &&& carried.next is Err && carried.next->Err_0@ == done->Err_0@.message()
                    &&& after == before && !carried.changed
                }
            },
{
}

/// A jump to a renamed pane focuses just that pane, and its workspace is then the one
/// used last.
pub proof fn a_jump_focuses_the_pane<H: Herdr>(
    client: &H,
    row: RowModel,
    key: Seq<char>,
    state: PickerModel,
    before: RegistryModel,
    after: RegistryModel,
    carried: Carried,
)
    requires
        row.kind is Pane,
        driver::carries(client, OutcomeModel::Jump(row), key, state, before, after, carried),
    ensures
        exists|id: &str, done: herdr::Result<()>|
            {
                &&& #[trigger] call_ensures(H::focus_pane, (client, id), done)
                &&& id@ == row.kind->Pane_pane_id
                &&& done is Ok ==> {
                    &&& carried.next is Ok && carried.next->Ok_0 is Leave
                    &&& after.mru.len() > 0 && after.mru[0] == row.kind->Pane_workspace_id
                    &&& after.map == before.map && after.recent == before.recent
                    &&& !carried.changed ==> after == before
                }
                &&& done is Err ==> {
                    &&& carried.next is Err && carried.next->Err_0@ == done->Err_0@.message()
                    &&& after == before && !carried.changed
                }
            },
{
}

/// A jump to a project, and a forced new workspace, create one workspace at its
/// directory, named after that. The directory is then bound to it, comes first in
/// history, and the workspace is the one used last; what other directories are bound
/// to stays. Where Herdr refuses, nothing changes and its words are passed on.
pub proof fn opening_creates_and_binds<H: Herdr>(
    client: &H,
    outcome: OutcomeModel,
    row: RowModel,
    key: Seq<char>,
    state: PickerModel,
    before: RegistryModel,
    after: RegistryModel,
    carried: Carried,
)
    requires
        ({
            ||| outcome == OutcomeModel::Jump(row) && row.kind is Dormant
            ||| outcome == OutcomeModel::ForceNew(row) && (row.kind is Dormant || row.kind is Open)
        }),
        before.recent.no_duplicates(),
        before.recent.len() <= 100,
        driver::carries(client, outcome, key, state, before, after, carried),
    ensures
        exists|cwd: &str, label: &str, answer: herdr::Result<String>|
            {
                &&& #[trigger] call_ensures(H::create_workspace, (client, cwd, label), answer)
                &&& cwd@ == row.path
                &&& label@ == paths::base_name(row.path)
                &&& answer is Ok ==> {
                    let id = answer->Ok_0@;
                    &&& carried.next is Ok && carried.next->Ok_0 is Leave && carried.changed
                    &&& after.map.contains_key(key) && after.map[key] == id
                    &&& after.mru.len() > 0 && after.mru[0] == id
                    &&& after.recent.len() > 0 && after.recent[0] == key
                    &&& forall|other: Seq<char>|
                        other != key ==> (#[trigger] after.map.contains_key(other)
                            == before.map.contains_key(other)) && (before.map.contains_key(other)
                            ==> after.map[other] == before.map[other])
                }
                &&& answer is Err ==> {
                    &&& carried.next is Err && carried.next->Err_0@ == answer->Err_0@.message()
                    &&& after == before && !carried.changed
                }
            },
{
    let (bound, created) = choose|
        bound: RegistryModel,
        created: std::result::Result<String, String>,
    | #[trigger]
        driver::musters(client, row.path, key, before, bound, created) && match created {
            Ok(id) => after == driver::used(bound, id@) && carried.leaves() && carried.changed,
            Err(words) => after == before && carried.fails(words@) && !carried.changed,
        };
    registry_laws::opening_keeps_the_order_of_others(before.recent, key);
    registry_laws::opened_project_comes_first(before.recent, key);
}

/// Closing a workspace closes just that one, forgets its recency and the binding that
/// names it, and the picker goes on without its row, with the same query. A binding
/// to another workspace stays. Where Herdr refuses, nothing changes and its words are
/// passed on.
pub proof fn closing_closes_the_workspace<H: Herdr>(
    client: &H,
    row: RowModel,
    key: Seq<char>,
    state: PickerModel,
    before: RegistryModel,
    after: RegistryModel,
    carried: Carried,
)
    requires
        row.kind is Open,
        driver::carries(client, OutcomeModel::Close(row), key, state, before, after, carried),
    ensures
        exists|id: &str, done: herdr::Result<()>|
            {
                let workspace = row.kind->Open_workspace_id;
                &&& #[trigger] call_ensures(H::close_workspace, (client, id), done)
                &&& id@ == workspace
                &&& done is Ok ==> {
                    &&& carried.next is Ok && carried.next->Ok_0 is Again
                    &&& carried.next->Ok_0->Again_0@.query == state.query
                    &&& carried.next->Ok_0->Again_0@.rows == state.rows.filter(
                        |other: RowModel| !other.id().same(row.id()),
                    )
                    &&& !after.mru.contains(workspace)
                    &&& !(after.map.contains_key(key) && after.map[key] == workspace)
                    &&& before.map.contains_key(key) && before.map[key] != workspace
                        ==> after.map.contains_key(key) && after.map[key] == before.map[key]
                    &&& forall|other: Seq<char>|
                        other != key ==> (#[trigger] after.map.contains_key(other)
                            == before.map.contains_key(other)) && (before.map.contains_key(other)
                            ==> after.map[other] == before.map[other])
                    &&& forall|other: Seq<char>|
                        other != workspace ==> (#[trigger] after.mru.contains(other)
                            == before.mru.contains(other))
                    &&& !paths::is_rooted(row.path) ==> after.recent == before.recent
                    &&& paths::is_rooted(row.path) ==> after.recent.len() > 0 && after.recent[0]
                        == key
                    &&& !carried.changed ==> after == before
                }
                &&& done is Err ==> {
                    &&& carried.next is Err && carried.next->Err_0@ == done->Err_0@.message()
                    &&& after == before && !carried.changed
                }
            },
{
    lists::lemma_without(before.mru, row.kind->Open_workspace_id);
}

/// Giving up leaves everything as it is.
pub proof fn giving_up_changes_nothing<H: Herdr>(
    client: &H,
    key: Seq<char>,
    state: PickerModel,
    before: RegistryModel,
    after: RegistryModel,
    carried: Carried,
)
    requires
        driver::carries(client, OutcomeModel::Cancel, key, state, before, after, carried),
    ensures
        after == before,
        !carried.changed,
        carried.next is Ok && carried.next->Ok_0 is Leave,
{
}

/// What was seen open comes first in history, the last of it at the very top, and in
/// the end each directory seen is remembered unless there is no room.
pub proof fn what_was_open_is_remembered(
    before: RegistryModel,
    keys: Seq<Seq<char>>,
    live: Option<Seq<Seq<char>>>,
    origin: Option<Seq<char>>,
)
    requires
        before.recent.no_duplicates(),
        before.recent.len() <= 100,
    ensures
        keys.len() > 0 ==> {
            let after = driver::observed(before, keys, live, origin);
            after.recent.len() > 0 && after.recent[0] == keys.last()
        },
        keys.len() == 0 ==> driver::observed(before, keys, live, origin).recent == before.recent,
        live is Some ==> forall|directory: Seq<char>|
            (#[trigger] driver::observed(before, keys, live, origin).map.contains_key(directory)
                <==> before.map.contains_key(directory) && live->0.contains(
                before.map[directory],
            )),
        live is None ==> driver::observed(before, keys, live, origin).map == before.map,
        origin is Some ==> driver::observed(before, keys, live, origin).mru[0] == origin->0,
        origin is None && live is None ==> driver::observed(before, keys, live, origin).mru
            == before.mru,
{
    lemma_history(before.recent, keys, keys.len());
}

proof fn lemma_history(recent: Seq<Seq<char>>, keys: Seq<Seq<char>>, n: nat)
    requires
        recent.no_duplicates(),
        recent.len() <= 100,
        n <= keys.len(),
    ensures
        driver::remembered_all(recent, keys, n).no_duplicates(),
        driver::remembered_all(recent, keys, n).len() <= 100,
        n > 0 ==> driver::remembered_all(recent, keys, n).len() > 0
            && driver::remembered_all(recent, keys, n)[0] == keys[n - 1],
    decreases n,
{
    if n > 0 {
        lemma_history(recent, keys, (n - 1) as nat);
        let before = driver::remembered_all(recent, keys, (n - 1) as nat);
        registry_laws::opening_keeps_the_order_of_others(before, keys[n - 1]);
        registry_laws::opened_project_comes_first(before, keys[n - 1]);
    }
}

/// Only absolute directories are remembered as seen open, in their order, and none
/// where it is not known what lives.
pub proof fn only_absolute_directories_are_remembered(opened: Seq<Seq<char>>, path: Seq<char>)
    ensures
        driver::seen_open(false, opened).len() == 0,
        driver::seen_open(true, opened).contains(path) <==> opened.contains(path) && path.len() > 0
            && path[0] == '/',
        (forall|i: int|
            0 <= i < opened.len() ==> (#[trigger] opened[i]).len() > 0 && opened[i][0] == '/')
            ==> driver::seen_open(true, opened) == opened,
    decreases opened.len(),
{
    reveal(Seq::filter);
    let seen = driver::seen_open(true, opened);
    if opened.len() > 0 {
        let front = opened.drop_last();
        let before = driver::seen_open(true, front);
        only_absolute_directories_are_remembered(front, path);
        if seen.contains(path) {
            let i = choose|i: int| 0 <= i < seen.len() && seen[i] == path;
            if i < before.len() {
                assert(before[i] == path);
                assert(before.contains(path));
                let k = choose|k: int| 0 <= k < front.len() && front[k] == path;
                assert(opened[k] == path);
            } else {
                assert(opened[opened.len() - 1] == path);
            }
        }
        if opened.contains(path) && path.len() > 0 && path[0] == '/' {
            let k = choose|k: int| 0 <= k < opened.len() && opened[k] == path;
            if k < front.len() {
                assert(front[k] == path);
                assert(before.contains(path));
                let i = choose|i: int| 0 <= i < before.len() && before[i] == path;
                assert(seen[i] == path);
            } else {
                assert(seen[seen.len() - 1] == path);
            }
        }
        if forall|i: int|
            0 <= i < opened.len() ==> (#[trigger] opened[i]).len() > 0 && opened[i][0] == '/' {
            assert forall|i: int| 0 <= i < front.len() implies (#[trigger] front[i]).len() > 0
                && front[i][0] == '/' by {
                assert(front[i] == opened[i]);
            }
            assert(opened[opened.len() - 1].len() > 0);
            assert(front.push(opened.last()) =~= opened);
        }
    } else {
        assert(seen =~= opened);
    }
}

/// What a run of the picker changes of what is remembered is saved: where nothing is to be
/// saved, nothing has changed.
pub proof fn changes_are_saved(
    before: RegistryModel,
    keys: Seq<Seq<char>>,
    live: Option<Seq<Seq<char>>>,
    origin: Option<Seq<char>>,
)
    requires
        !driver::run_moves(before, keys, live, origin),
    ensures
        driver::observed(before, keys, live, origin) == before,
{
    lemma_unmoved(before.recent, keys, keys.len());
}

proof fn lemma_unmoved(recent: Seq<Seq<char>>, keys: Seq<Seq<char>>, n: nat)
    requires
        n <= keys.len(),
        !driver::history_moves(recent, keys, n),
    ensures
        driver::remembered_all(recent, keys, n) == recent,
    decreases n,
{
    if n > 0 {
        lemma_unmoved(recent, keys, (n - 1) as nat);
    }
}

/// Jump Pane mode ends well after a focus and after being cancelled, and tells everything
/// else.
pub proof fn jump_mode_ends_well_or_tells(words: Seq<char>)
    ensures
        driver::jump_ending(FocusModel::Focused) is Ok,
        driver::jump_ending(FocusModel::Stale("cancelled"@)) is Ok,
        words != "cancelled"@ ==> driver::jump_ending(FocusModel::Stale(words)) is Err,
        driver::jump_ending(FocusModel::Failed(words)) is Err,
        driver::jump_ending(FocusModel::Failed(words))->Err_0 == "Jump Pane: Failed("@
            + text::debug_text(words) + ")"@,
        words != "cancelled"@ ==> driver::jump_ending(FocusModel::Stale(words))->Err_0
            == "Jump Pane: Stale("@ + text::debug_text(words) + ")"@,
{
}

/// Files are in the directory that the environment names, or else in the current one.
pub proof fn files_are_where_the_environment_says(directory: Seq<char>, name: Seq<char>)
    ensures
        driver::file_in(None, name) == name,
        driver::file_in(Some(directory), name) == paths::child(directory, name),
{
}

/// The words of an error are passed on as they are.
pub proof fn errors_keep_their_words(words: Seq<char>)
    ensures
        HerdrErrorModel::Spawn(words).message() == words,
        HerdrErrorModel::Command(words).message() == words,
        HerdrErrorModel::InvalidJson(words).message() == words,
        HerdrErrorModel::Cancelled(words).message() == words,
        HerdrErrorModel::Timeout(words).message() == words,
{
}

} // verus!
