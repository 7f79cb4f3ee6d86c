//! What a refresh asks for, and what it sends.

use vstd::prelude::*;
use crate::config::ConfigModel;
use crate::herdr;
use crate::herdr::{
    Herdr, HerdrErrorModel, Pane, PaneModel, TabInfo, Workspace, WorkspaceModel,
};
use crate::model;
use crate::model::{HostModel, RowModel, Sources};
use crate::refresh;
use crate::refresh::{
    ActionModel, EventModel, HerdrData, HerdrModel, MessageModel, ProjectSourceStatus, RefreshModel, Stage,
};
use crate::sources::CandidateModel;
use crate::text;

verus! {

/// A refresh reads the configuration and then asks Herdr; a failure of either is
/// sent, with its words, and ends the refresh.
pub proof fn a_refresh_begins_with_what_it_needs(
    refresh: RefreshModel,
    config: ConfigModel,
    words: Seq<char>,
    error: HerdrErrorModel,
    host: HostModel,
    cancelled: bool,
)
    requires
        refresh.stage is Starting,
    ensures
        refresh.step(EventModel::Begin, false).1 is LoadConfig,
        ({
            let reading = refresh.step(EventModel::Begin, false).0;
            let failed = reading.step(EventModel::Config(Err(words)), cancelled);
            let asking = reading.step(EventModel::Config(Ok(config)), cancelled);
            let refused = asking.0.step(EventModel::Herdr(Err(error), host), cancelled);
            &&& failed.1 == ActionModel::Send(MessageModel::Failed(words))
            &&& failed.0.stage is Over
            &&& asking.1 is LoadHerdr
            &&& refused.1 == ActionModel::Send(MessageModel::Failed(error.message()))
            &&& refused.0.stage is Over
        }),
        refresh.step(EventModel::Begin, true).1 is Stop,
{
}

/// What Herdr told is sent at once, without projects: the rows of its workspaces,
/// panes and tabs, ranked by recency; which workspaces live; and the workspace of the
/// pane that the picker was opened from.
pub proof fn live_rows_are_sent_at_once(refresh: RefreshModel, data: HerdrModel, host: HostModel)
    requires
        refresh.stage is LoadingHerdr,
    ensures
        ({
            let (after, action) = refresh.step(EventModel::Herdr(Ok(data), host), false);
            let snapshot = action->Send_0->Partial_0;
            &&& action is Send && action->Send_0 is Partial
            &&& snapshot.live_workspace_ids == data.live_workspace_ids
            &&& snapshot.project_source_status is Searching
            &&& snapshot.rows == (Sources {
                bound: refresh.bound,
                workspaces: data.workspaces,
                panes: data.panes,
                tabs: data.tabs,
                dormant: Seq::empty(),
                mru: refresh.mru,
                origin: snapshot.origin_workspace,
                host,
            }).rows()
            &&& refresh.origin_pane is None ==> snapshot.origin_workspace is None
            &&& refresh.origin_pane is Some ==> match snapshot.origin_workspace {
                Some(workspace) => exists|k: int|
                    {
                        &&& 0 <= k < data.panes.len()
                        &&& (#[trigger] data.panes[k]).pane_id == refresh.origin_pane->0
                        &&& data.panes[k].workspace_id == workspace
                    },
                None => forall|k: int|
                    0 <= k < data.panes.len() ==> (#[trigger] data.panes[k]).pane_id
                        != refresh.origin_pane->0,
            }
        }),
{
    if let Some(pane) = refresh.origin_pane {
        lemma_workspace_of_pane(data.panes, pane, 0);
    }
}

proof fn lemma_workspace_of_pane(panes: Seq<PaneModel>, id: Seq<char>, i: int)
    requires
        0 <= i <= panes.len(),
    ensures
        match refresh::workspace_of_pane(panes, id, i) {
            Some(workspace) => exists|k: int|
                {
                    &&& i <= k < panes.len()
                    &&& (#[trigger] panes[k]).pane_id == id
                    &&& panes[k].workspace_id == workspace
                },
            None => forall|k: int| i <= k < panes.len() ==> (#[trigger] panes[k]).pane_id != id,
        },
    decreases panes.len() - i,
{
    if i < panes.len() {
        if panes[i].pane_id == id {
            assert(panes[i].pane_id == id);
        } else {
            lemma_workspace_of_pane(panes, id, i + 1);
        }
    }
}

/// A refresh that goes on to its end sends, as its last word, the rows of everything
/// that it has found: Herdr's data and all projects, with equal spaces told apart.
/// On its way it looks up branches, sends what they change, asks zoxide just where
/// that is wanted, and has projects gathered by the configuration, the history and
/// what zoxide printed.
pub proof fn a_refresh_ends_with_everything(
    refresh: RefreshModel,
    config: ConfigModel,
    data: HerdrModel,
    host: HostModel,
    branches: Seq<(Seq<char>, Seq<char>)>,
    printed: Option<(bool, Seq<char>)>,
    projects: Seq<CandidateModel>,
)
    requires
        refresh.stage is Starting,
    ensures
        ({
            let reading = refresh.step(EventModel::Begin, false).0;
            let asking = reading.step(EventModel::Config(Ok(config)), false).0;
            let open = asking.step(EventModel::Herdr(Ok(data), host), false);
            let finding = open.0.step(EventModel::Sent(true), false);
            let found = finding.0.step(EventModel::Branches(branches), false);
            let next = if branches.len() == 0 {
                found
            } else {
                found.0.step(EventModel::Sent(true), false)
            };
            let gathering = if config.use_zoxide {
                next.0.step(EventModel::Zoxide(printed), false)
            } else {
                next
            };
            let last = gathering.0.step(EventModel::Projects(Some(projects)), false);
            let first = open.1->Send_0->Partial_0;
            let told = found.1->Send_0->Partial_0;
            let ready = last.1->Send_0->Ready_0;
            &&& finding.1 is FindBranches
            &&& branches.len() > 0 ==> found.1 is Send && found.1->Send_0 is Partial
            &&& branches.len() > 0 ==> told.rows == model::disambiguated(first.rows, branches)
            &&& branches.len() > 0 ==> told.live_workspace_ids == data.live_workspace_ids
            &&& branches.len() > 0 ==> told.origin_workspace == first.origin_workspace
            &&& config.use_zoxide ==> next.1 is AskZoxide
            &&& gathering.1 is Gather
            &&& gathering.1->config == config
            &&& gathering.1->recent == refresh.recent
            &&& gathering.1->zoxide == (match printed {
                Some((true, lines)) => if config.use_zoxide {
                    refresh::lines_from(lines, 0)
                } else {
                    Seq::empty()
                },
                _ => Seq::empty(),
            })
            &&& last.1 is Send && last.1->Send_0 is Ready
            &&& last.0.stage is Over
            &&& ready.live_workspace_ids == data.live_workspace_ids
            &&& ready.origin_workspace == first.origin_workspace
            &&& ready.project_source_status == (if !config.use_zoxide {
                ProjectSourceStatus::Disabled
            } else {
                match printed {
                    Some((true, _)) => ProjectSourceStatus::Available,
                    _ => ProjectSourceStatus::Unavailable,
                }
            })
            &&& ready.rows == model::disambiguated(
                (Sources {
                    bound: refresh.bound,
                    workspaces: data.workspaces,
                    panes: data.panes,
                    tabs: data.tabs,
                    dormant: projects,
                    mru: refresh.mru,
                    origin: first.origin_workspace,
                    host,
                }).rows(),
                branches,
            )
        }),
{
}

/// Branches are looked up for just those live workspaces whose label another one has
/// too, each at its directory.
pub proof fn branches_are_looked_up_where_labels_are_shared(
    rows: Seq<RowModel>,
    n: nat,
    workspace: Seq<char>,
    path: Seq<char>,
)
    requires
        n <= rows.len(),
    ensures
        refresh::branches_wanted(rows, n).contains((workspace, path)) <==> exists|i: int|
            {
                &&& 0 <= i < n
                &&& (#[trigger] rows[i]).kind is Open
                &&& rows[i].kind->Open_workspace_id == workspace
                &&& rows[i].path == path
                &&& rows[i].space is Some
                &&& exists|j: int|
                    {
                        &&& 0 <= j < rows.len() && j != i
                        &&& (#[trigger] rows[j]).kind is Open
                        &&& rows[j].space is Some
                        &&& rows[j].space->0.label == rows[i].space->0.label
                    }
            },
    decreases n,
{
    let wanted = refresh::branches_wanted(rows, n);
    let pair = (workspace, path);
    if n > 0 {
        let before = refresh::branches_wanted(rows, (n - 1) as nat);
        branches_are_looked_up_where_labels_are_shared(rows, (n - 1) as nat, workspace, path);
        if rows[n - 1].space is Some {
            lemma_shared(rows, n - 1);
        }
        if wanted.contains(pair) {
            let x = choose|x: int| 0 <= x < wanted.len() && wanted[x] == pair;
            if x < before.len() {
                assert(before[x] == pair);
                assert(before.contains(pair));
            } else {
                assert(rows[n - 1].kind is Open);
            }
        }
        if before.contains(pair) {
            let x = choose|x: int| 0 <= x < before.len() && before[x] == pair;
            assert(wanted[x] == pair);
        }
        if exists|i: int|
            {
                &&& 0 <= i < n
                &&& (#[trigger] rows[i]).kind is Open
                &&& rows[i].kind->Open_workspace_id == workspace
                &&& rows[i].path == path
                &&& rows[i].space is Some
                &&& exists|j: int|
                    {
                        &&& 0 <= j < rows.len() && j != i
                        &&& (#[trigger] rows[j]).kind is Open
                        &&& rows[j].space is Some
                        &&& rows[j].space->0.label == rows[i].space->0.label
                    }
            } {
            let i = choose|i: int|
                {
                    &&& 0 <= i < n
                    &&& (#[trigger] rows[i]).kind is Open
                    &&& rows[i].kind->Open_workspace_id == workspace
                    &&& rows[i].path == path
                    &&& rows[i].space is Some
                    &&& exists|j: int|
                        {
                            &&& 0 <= j < rows.len() && j != i
                            &&& (#[trigger] rows[j]).kind is Open
                            &&& rows[j].space is Some
                            &&& rows[j].space->0.label == rows[i].space->0.label
                        }
                };
            if i == n - 1 {
                assert(wanted[before.len() as int] == pair);
            } else {
                assert(before.contains(pair));
            }
        }
    }
}

proof fn lemma_shared(rows: Seq<RowModel>, i: int)
    requires
        0 <= i < rows.len(),
        rows[i].space is Some,
    ensures
        model::label_is_shared(rows, i, rows[i].space->0.label) <==> exists|j: int|
            {
                &&& 0 <= j < rows.len() && j != i
                &&& (#[trigger] rows[j]).kind is Open
                &&& rows[j].space is Some
                &&& rows[j].space->0.label == rows[i].space->0.label
            },
{
    let label = rows[i].space->0.label;
    if model::label_is_shared(rows, i, label) {
        let j = choose|j: int| j != i && #[trigger] model::opens_space(rows, j, label);
        assert(rows[j].kind is Open);
    }
    if exists|j: int|
        {
            &&& 0 <= j < rows.len() && j != i
            &&& (#[trigger] rows[j]).kind is Open
            &&& rows[j].space is Some
            &&& rows[j].space->0.label == rows[i].space->0.label
        } {
        let j = choose|j: int|
            {
                &&& 0 <= j < rows.len() && j != i
                &&& (#[trigger] rows[j]).kind is Open
                &&& rows[j].space is Some
                &&& rows[j].space->0.label == rows[i].space->0.label
            };
        assert(model::opens_space(rows, j, label));
    }
}

/// Whether another live workspace has the label of a row's space.
pub open spec fn shares_label(rows: Seq<RowModel>, i: int, j: int) -> bool {
    &&& 0 <= j < rows.len() && j != i
    &&& rows[j].kind is Open
    &&& rows[j].space is Some
    &&& rows[j].space->0.label == rows[i].space->0.label
}

/// A live workspace whose label no other has needs nothing to be told apart by. One
/// whose label another has is told apart by its branch, the one listed last, where
/// that is known; else by the name of its directory, unless another with that label
/// has it too; else by its number.
pub proof fn equal_labels_are_told_apart(
    rows: Seq<RowModel>,
    branches: Seq<(Seq<char>, Seq<char>)>,
    i: int,
)
    requires
        0 <= i < rows.len(),
        rows[i].kind is Open,
        rows[i].space is Some,
        forall|j: int|
            0 <= j < rows.len() && j != i && (#[trigger] rows[j]).kind is Open
                ==> rows[j].kind.workspace() != rows[i].kind.workspace(),
    ensures
        ({
            let told = model::disambiguated(rows, branches)[i].space->0.disambiguator;
            let shared = exists|j: int| #[trigger] shares_label(rows, i, j);
            let workspace = rows[i].kind->Open_workspace_id;
            let known = exists|b: int|
                0 <= b < branches.len() && (#[trigger] branches[b]).0 == workspace;
            let doubled = exists|j: int| #[trigger]
                shares_label(rows, i, j) && model::display_name(rows[j].path)
                    == model::display_name(rows[i].path);
            &&& model::disambiguated(rows, branches)[i].space->0.label == rows[i].space->0.label
            &&& !shared ==> told is None
            &&& shared && known ==> exists|b: int|
                {
                    &&& 0 <= b < branches.len()
                    &&& (#[trigger] branches[b]).0 == workspace
                    &&& told == Some(branches[b].1)
                    &&& forall|c: int| b < c < branches.len() ==> (#[trigger] branches[c]).0
                        != workspace
                }
            &&& shared && !known && !doubled ==> told == Some(model::display_name(rows[i].path))
            &&& shared && !known && doubled ==> told == match rows[i].space->0.number {
                Some(number) => Some(text::decimal(number as nat)),
                None => None,
            }
        }),
{
    let workspace = rows[i].kind->Open_workspace_id;
    let label = rows[i].space->0.label;
    lemma_owner_is(rows, workspace, 0, i);
    lemma_looked_up(branches, workspace);
    if model::label_is_shared(rows, i, label) {
        let j = choose|j: int| j != i && #[trigger] model::opens_space(rows, j, label);
        assert(shares_label(rows, i, j));
    }
    if model::directory_is_shared(rows, i, label) {
        let j = choose|j: int|
            j != i && #[trigger] model::opens_space(rows, j, label) && model::display_name(
                rows[j].path,
            ) == model::display_name(rows[i].path);
        assert(shares_label(rows, i, j));
    }
    if exists|j: int| #[trigger] shares_label(rows, i, j) {
        let j = choose|j: int| #[trigger] shares_label(rows, i, j);
        assert(model::opens_space(rows, j, label));
    }
    if exists|j: int| #[trigger]
        shares_label(rows, i, j) && model::display_name(rows[j].path) == model::display_name(
            rows[i].path,
        ) {
        let j = choose|j: int| #[trigger]
            shares_label(rows, i, j) && model::display_name(rows[j].path) == model::display_name(
                rows[i].path,
            );
        assert(model::opens_space(rows, j, label));
    }
}

proof fn lemma_owner_is(rows: Seq<RowModel>, workspace: Seq<char>, from: int, i: int)
    requires
        0 <= from <= i < rows.len(),
        rows[i].kind is Open && rows[i].kind.workspace() == Some(workspace) && rows[i].space
            is Some,
        forall|j: int|
            0 <= j < rows.len() && j != i && (#[trigger] rows[j]).kind is Open
                ==> rows[j].kind.workspace() != Some(workspace),
    ensures
        model::space_owner(rows, workspace, from) == Some(i),
    decreases i - from,
{
    if from < i {
        assert(!(rows[from].kind is Open && rows[from].kind.workspace() == Some(workspace)));
        lemma_owner_is(rows, workspace, from + 1, i);
    }
}

proof fn lemma_looked_up(pairs: Seq<(Seq<char>, Seq<char>)>, key: Seq<char>)
    ensures
        match model::looked_up(pairs, key) {
            Some(value) => exists|b: int|
                {
                    &&& 0 <= b < pairs.len()
                    &&& (#[trigger] pairs[b]).0 == key
                    &&& value == pairs[b].1
                    &&& forall|c: int| b < c < pairs.len() ==> (#[trigger] pairs[c]).0 != key
                },
            None => forall|b: int| 0 <= b < pairs.len() ==> (#[trigger] pairs[b]).0 != key,
        },
    decreases pairs.len(),
{
    if pairs.len() > 0 {
        let front = pairs.drop_last();
        lemma_looked_up(front, key);
        if pairs.last().0 == key {
            assert(pairs[pairs.len() - 1].0 == key);
        } else if model::looked_up(front, key) is Some {
            let b = choose|b: int|
                {
                    &&& 0 <= b < front.len()
                    &&& (#[trigger] front[b]).0 == key
                    &&& model::looked_up(front, key)->0 == front[b].1
                    &&& forall|c: int| b < c < front.len() ==> (#[trigger] front[c]).0 != key
                };
            assert(pairs[b] == front[b]);
            assert forall|c: int| b < c < pairs.len() implies (#[trigger] pairs[c]).0 != key by {
                if c < front.len() {
                    assert(front[c] == pairs[c]);
                }
            }
        } else {
            assert forall|b: int| 0 <= b < pairs.len() implies (#[trigger] pairs[b]).0 != key by {
                if b < front.len() {
                    assert(front[b] == pairs[b]);
                }
            }
        }
    }
}

/// A directory is spelled as the machine spells it, where that is known, and as it is
/// given otherwise.
pub proof fn directories_are_spelled_canonically(host: HostModel, directory: Seq<char>, b: int)
    ensures
        (forall|c: int| 0 <= c < host.canonical.len() ==> (#[trigger] host.canonical[c]).0
            != directory) ==> host.canonical_path(directory) == directory,
        0 <= b < host.canonical.len() && host.canonical[b].0 == directory && (forall|c: int|
            b < c < host.canonical.len() ==> (#[trigger] host.canonical[c]).0 != directory)
            ==> host.canonical_path(directory) == host.canonical[b].1,
{
    lemma_looked_up(host.canonical, directory);
}

/// The lines of a text, each ended by a line feed, are the texts before the line
/// feeds.
pub proof fn lines_are_parted_by_line_feeds(line: Seq<char>, rest: Seq<char>)
    requires
        !line.contains('\n'),
    ensures
        refresh::lines_from(line + seq!['\n'] + rest, 0) == seq![
            if line.len() > 0 && line.last() == '\r' {
                line.drop_last()
            } else {
                line
            },
        ] + refresh::lines_from(rest, 0),
        line.len() > 0 ==> refresh::lines_from(line, 0) == seq![line],
        refresh::lines_from(Seq::empty(), 0).len() == 0,
{
    let whole = line + seq!['\n'] + rest;
    assert forall|i: int| 0 <= i < line.len() implies #[trigger] whole[i] != '\n' by {
        assert(line.contains(line[i]));
    }
    lemma_line_end(whole, 0, line.len() as int);
    assert(whole.subrange(0, line.len() as int) =~= line);
    lemma_lines_shifted(line + seq!['\n'], rest, 0);
    assert(line + seq!['\n'] + rest =~= whole);
    if line.len() > 0 {
        assert forall|i: int| 0 <= i < line.len() implies #[trigger] line[i] != '\n' by {
            assert(line.contains(line[i]));
        }
        lemma_line_end(line, 0, line.len() as int);
        assert(line.subrange(0, line.len() as int) =~= line);
    }
}

proof fn lemma_line_end(value: Seq<char>, from: int, end: int)
    requires
        0 <= from <= end <= value.len(),
        end == value.len() || value[end] == '\n',
        forall|i: int| from <= i < end ==> #[trigger] value[i] != '\n',
    ensures
        refresh::line_end(value, from) == end,
    decreases end - from,
{
    if from < end {
        lemma_line_end(value, from + 1, end);
    }
}

proof fn lemma_line_end_shifted(front: Seq<char>, value: Seq<char>, from: int)
    requires
        0 <= from <= value.len(),
    ensures
        refresh::line_end(front + value, front.len() + from) == front.len() + refresh::line_end(
            value,
            from,
        ),
        from <= refresh::line_end(value, from) <= value.len(),
    decreases value.len() - from,
{
    if from < value.len() {
        assert((front + value)[front.len() + from] == value[from]);
        if value[from] != '\n' {
            lemma_line_end_shifted(front, value, from + 1);
        }
    }
}

proof fn lemma_lines_shifted(front: Seq<char>, value: Seq<char>, from: int)
    requires
        0 <= from <= value.len(),
    ensures
        refresh::lines_from(front + value, front.len() + from) == refresh::lines_from(value, from),
    decreases value.len() - from,
{
    let whole = front + value;
    let at = front.len() + from;
    lemma_line_end_shifted(front, value, from);
    if from < value.len() {
        let end = refresh::line_end(value, from);
        assert(whole.subrange(at as int, front.len() + end) =~= value.subrange(from, end));
        if end < value.len() {
            lemma_lines_shifted(front, value, end + 1);
        }
    }
}

/// A program is looked for in the directories in their order: the first place at which
/// it can be run counts.
pub proof fn the_first_executable_counts(
    places: Seq<Seq<char>>,
    executable: Seq<bool>,
    i: int,
)
    requires
        places.len() == executable.len(),
        0 <= i <= places.len(),
    ensures
        match refresh::first_executable(places, executable, i) {
            Some(place) => exists|k: int|
                {
                    &&& i <= k < places.len()
                    &&& #[trigger] executable[k]
                    &&& places[k] == place
                    &&& forall|l: int| i <= l < k ==> !#[trigger] executable[l]
                },
            None => forall|k: int| i <= k < places.len() ==> !#[trigger] executable[k],
        },
    decreases places.len() - i,
{
    if i < places.len() {
        if executable[i] {
            assert(executable[i]);
        } else {
            the_first_executable_counts(places, executable, i + 1);
        }
    }
}

/// A branch is what Git printed, without white space around it and without control
/// characters; where nothing is left there is none.
pub proof fn a_branch_is_what_git_printed(printed: Seq<char>)
    ensures
        ({
            let branch = text::sanitized(text::trimmed(printed));
            &&& text::is_blank(branch) <==> refresh::branch_in(printed) is None
            &&& refresh::branch_in(printed) is Some ==> refresh::branch_in(printed)->0 == branch
        }),
{
}

/// The workspaces that live are those that Herdr listed; without tabs a snapshot has
/// none, and what was listed is kept as it is.
pub proof fn what_herdr_listed_is_kept(
    workspaces: Seq<WorkspaceModel>,
    panes: Seq<PaneModel>,
    k: int,
)
    requires
        0 <= k < workspaces.len(),
    ensures
        ({
            let known = refresh::all_known(workspaces, panes, None);
            &&& known.workspaces == workspaces
            &&& known.panes == panes
            &&& known.tabs.len() == 0
            &&& known.live_workspace_ids is Some
            &&& known.live_workspace_ids->0.len() == workspaces.len()
            &&& known.live_workspace_ids->0[k] == workspaces[k].workspace_id
        }),
{
}

/// A program is looked for by its name below each directory, in their order.
pub proof fn programs_are_looked_for_below_directories(
    name: Seq<char>,
    directories: Seq<Seq<char>>,
    k: int,
)
    requires
        0 <= k < directories.len(),
    ensures
        refresh::program_places(name, directories).len() == directories.len(),
        refresh::program_places(name, directories)[k] == crate::paths::child(directories[k], name),
{
}

/// Loading gives what was answered: without workspaces nothing is known, and nothing is
/// taken for closed; without panes it fails with their error; and without tabs the rest
/// is still known.
pub proof fn loading_gives_what_was_answered<H: Herdr>(
    client: &H,
    workspaces: herdr::Result<Vec<Workspace>>,
    panes: herdr::Result<Vec<Pane>>,
    tabs: herdr::Result<Vec<TabInfo>>,
    loaded: herdr::Result<HerdrData>,
)
    requires
        refresh::loads(client, loaded),
        forall|answer: herdr::Result<Vec<Workspace>>| #[trigger]
            call_ensures(H::list_workspaces, (client,), answer) ==> answer == workspaces,
        forall|answer: herdr::Result<Vec<Pane>>| #[trigger]
            call_ensures(H::list_panes, (client,), answer) ==> answer == panes,
        forall|answer: herdr::Result<Vec<TabInfo>>| #[trigger]
            call_ensures(H::list_tabs, (client,), answer) ==> answer == tabs,
    ensures
        loaded is Err <==> workspaces is Ok && panes is Err,
        loaded is Err ==> loaded->Err_0@ == panes->Err_0@,
        workspaces is Err ==> loaded->Ok_0@.workspaces.len() == 0 && loaded->Ok_0@.panes.len() == 0
            && loaded->Ok_0@.tabs.len() == 0 && loaded->Ok_0@.live_workspace_ids is None,
        workspaces is Ok && panes is Ok ==> {
            let data = loaded->Ok_0@;
            let listed = text::views(workspaces->Ok_0@);
            &&& data.workspaces == listed
            &&& data.panes == text::views(panes->Ok_0@)
            &&& data.live_workspace_ids is Some
            &&& data.live_workspace_ids->0.len() == listed.len()
            &&& forall|k: int|
                0 <= k < listed.len() ==> #[trigger] data.live_workspace_ids->0[k]
                    == listed[k].workspace_id
            &&& panes->Ok_0@.len() > 0 && tabs is Ok ==> data.tabs == text::views(tabs->Ok_0@)
            &&& panes->Ok_0@.len() == 0 || tabs is Err ==> data.tabs.len() == 0
        },
{
    if workspaces is Ok && panes is Ok && panes->Ok_0@.len() == 0 {
        assert(text::views(panes->Ok_0@) =~= Seq::empty());
    }
}

} // verus!
