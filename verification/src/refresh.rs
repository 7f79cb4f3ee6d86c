//! Refreshing the picker: what Herdr has, then what else there is to open.

use vstd::prelude::*;
use crate::config;
use crate::config::{Config, ConfigModel};
use crate::herdr;
use crate::herdr::{Herdr, HerdrErrorModel, Pane, PaneModel, TabInfo, TabModel, Workspace, WorkspaceModel};
use crate::model;
use crate::model::{Host, HostModel, Kind, Row, RowModel, Sources};
use crate::sources::{Candidate, CandidateModel};
use crate::text;

verus! {

broadcast use crate::text::lemma_views_push;

/// Whether zoxide's directories are among the projects.
#[derive(Debug, Clone, Copy, PartialEq, Eq, Structural)]
pub enum ProjectSourceStatus {
    Searching,
    Available,
    Unavailable,
    Disabled,
}

/// The rows at one moment.
#[derive(Debug)]
pub struct Snapshot {
    pub rows: Vec<Row>,
    /// Whether zoxide's directories are among the projects.
    pub project_source_status: ProjectSourceStatus,
    /// `None` means that the workspace query failed, so that bindings must not be
    /// reconciled against this incomplete snapshot.
    pub live_workspace_ids: Option<Vec<String>>,
    /// The workspace that the picker was opened from, where it is known.
    pub origin_workspace: Option<String>,
}

/// The view of a [`Snapshot`].
#[verifier::ext_equal]
pub struct SnapshotModel {
    pub rows: Seq<RowModel>,
    pub project_source_status: ProjectSourceStatus,
    pub live_workspace_ids: Option<Seq<Seq<char>>>,
    pub origin_workspace: Option<Seq<char>>,
}

impl View for Snapshot {
    type V = SnapshotModel;

    open spec fn view(&self) -> SnapshotModel {
        SnapshotModel {
            rows: text::views(self.rows@),
            project_source_status: self.project_source_status,
            live_workspace_ids: config::list_view(self.live_workspace_ids),
            origin_workspace: text::view_of(self.origin_workspace),
        }
    }
}

/// What a refresh has to say.
#[derive(Debug)]
pub enum Message {
    /// Herdr's data is there; projects are still being looked for.
    Partial(Snapshot),
    /// Everything is there.
    Ready(Snapshot),
    /// The refresh failed.
    Failed(String),
}

/// The view of a [`Message`].
#[verifier::ext_equal]
pub enum MessageModel {
    Partial(SnapshotModel),
    Ready(SnapshotModel),
    Failed(Seq<char>),
}

impl View for Message {
    type V = MessageModel;

    open spec fn view(&self) -> MessageModel {
        match self {
            Message::Partial(snapshot) => MessageModel::Partial(snapshot@),
            Message::Ready(snapshot) => MessageModel::Ready(snapshot@),
            Message::Failed(error) => MessageModel::Failed(error@),
        }
    }
}

/// What Herdr has.
#[derive(Debug)]
pub struct HerdrData {
    pub workspaces: Vec<Workspace>,
    pub panes: Vec<Pane>,
    pub tabs: Vec<TabInfo>,
    /// The ids of the workspaces; `None` when the query failed.
    pub live_workspace_ids: Option<Vec<String>>,
}

/// The view of a [`HerdrData`].
#[verifier::ext_equal]
pub struct HerdrModel {
    pub workspaces: Seq<WorkspaceModel>,
    pub panes: Seq<PaneModel>,
    pub tabs: Seq<TabModel>,
    pub live_workspace_ids: Option<Seq<Seq<char>>>,
}

impl View for HerdrData {
    type V = HerdrModel;

    open spec fn view(&self) -> HerdrModel {
        HerdrModel {
            workspaces: text::views(self.workspaces@),
            panes: text::views(self.panes@),
            tabs: text::views(self.tabs@),
            live_workspace_ids: config::list_view(self.live_workspace_ids),
        }
    }
}

/// The ids of workspaces.
pub open spec fn ids_of(workspaces: Seq<WorkspaceModel>) -> Seq<Seq<char>> {
    Seq::new(workspaces.len(), |i: int| workspaces[i].workspace_id)
}

/// What is known when the workspaces could not be listed: nothing is live, and
/// nothing is known to be dead.
pub open spec fn nothing_known() -> HerdrModel {
    HerdrModel {
        workspaces: Seq::empty(),
        panes: Seq::empty(),
        tabs: Seq::empty(),
        live_workspace_ids: None,
    }
}

/// What is known when workspaces and panes were listed. Tabs are an extra: where
/// they could not be listed there are none.
pub open spec fn all_known(
    workspaces: Seq<WorkspaceModel>,
    panes: Seq<PaneModel>,
    tabs: Option<Seq<TabModel>>,
) -> HerdrModel {
    HerdrModel {
        workspaces,
        panes,
        tabs: match tabs {
            Some(tabs) => tabs,
            None => Seq::empty(),
        },
        live_workspace_ids: Some(ids_of(workspaces)),
    }
}

/// What is known when the workspaces could not be listed.
pub fn without_workspaces() -> (data: HerdrData)
    ensures
        data@ == nothing_known(),
{
    let data = HerdrData {
        workspaces: Vec::new(),
        panes: Vec::new(),
        tabs: Vec::new(),
        live_workspace_ids: None,
    };
    assert(data@ =~= nothing_known());
    data
}

/// The view of an optional list of tabs.
pub open spec fn tabs_view(tabs: Option<Vec<TabInfo>>) -> Option<Seq<TabModel>> {
    match tabs {
        Some(tabs) => Some(text::views(tabs@)),
        None => None,
    }
}

/// What is known when workspaces and panes were listed.
pub fn with_lists(
    workspaces: Vec<Workspace>,
    panes: Vec<Pane>,
    tabs: Option<Vec<TabInfo>>,
) -> (data: HerdrData)
    ensures
        data@ == all_known(text::views(workspaces@), text::views(panes@), tabs_view(tabs)),
{
    let ghost wanted = ids_of(text::views(workspaces@));
    let mut ids: Vec<String> = Vec::new();
    let mut i: usize = 0;
    while i < workspaces.len()
        invariant
            i <= workspaces@.len(),
            wanted == ids_of(text::views(workspaces@)),
            text::views(ids@) == wanted.take(i as int),
        decreases workspaces@.len() - i,
    {
        ids.push(workspaces[i].workspace_id.clone());
        assert(wanted.take(i + 1) =~= wanted.take(i as int).push(wanted[i as int]));
        i += 1;
    }
    assert(wanted.take(i as int) =~= wanted);
    let tabs = match tabs {
        Some(tabs) => tabs,
        None => {
            let none: Vec<TabInfo> = Vec::new();
            assert(text::views(none@) =~= Seq::empty());
            none
        },
    };
    HerdrData { workspaces, panes, tabs, live_workspace_ids: Some(ids) }
}

/// What loading gives when the client answers so: a failed workspace query gives
/// nothing, a failed pane query fails, tabs are asked for only where there are
/// panes, and a failed tab query gives no tabs.
pub open spec fn loads<H: Herdr>(client: &H, loaded: herdr::Result<HerdrData>) -> bool {
    exists|workspaces: herdr::Result<Vec<Workspace>>| #[trigger]
        call_ensures(H::list_workspaces, (client,), workspaces) && match workspaces {
            Err(_) => loaded is Ok && loaded->Ok_0@ == nothing_known(),
            Ok(workspaces) => loads_panes(client, text::views(workspaces@), loaded),
        }
}

/// The part of [`loads`] after the workspaces.
pub open spec fn loads_panes<H: Herdr>(
    client: &H,
    workspaces: Seq<WorkspaceModel>,
    loaded: herdr::Result<HerdrData>,
) -> bool {
    exists|panes: herdr::Result<Vec<Pane>>| #[trigger]
        call_ensures(H::list_panes, (client,), panes) && match panes {
            Err(error) => loaded is Err && loaded->Err_0@ == error@,
            Ok(panes) => if panes@.len() == 0 {
                loaded is Ok && loaded->Ok_0@ == all_known(workspaces, Seq::empty(), None)
            } else {
                loads_tabs(client, workspaces, text::views(panes@), loaded)
            },
        }
}

/// The part of [`loads`] after the panes.
pub open spec fn loads_tabs<H: Herdr>(
    client: &H,
    workspaces: Seq<WorkspaceModel>,
    panes: Seq<PaneModel>,
    loaded: herdr::Result<HerdrData>,
) -> bool {
    exists|tabs: herdr::Result<Vec<TabInfo>>| #[trigger]
        call_ensures(H::list_tabs, (client,), tabs) && loaded is Ok && loaded->Ok_0@ == all_known(
            workspaces,
            panes,
            match tabs {
                Ok(tabs) => Some(text::views(tabs@)),
                Err(_) => None,
            },
        )
}

/// Load what Herdr has. A failed workspace query is no evidence that bindings are
/// stale: there are then no live rows, projects stay usable, and nothing is
/// reconciled.
pub fn load_herdr<H: Herdr>(client: &H) -> (loaded: herdr::Result<HerdrData>)
    ensures
        loads(client, loaded),
{
    let listed = client.list_workspaces();
    let workspaces = match listed {
        Ok(workspaces) => workspaces,
        Err(_) => {
            return Ok(without_workspaces());
        },
    };
    let listed_panes = client.list_panes();
    let panes = match listed_panes {
        Ok(panes) => panes,
        Err(error) => {
            return Err(error);
        },
    };
    if panes.len() == 0 {
        assert(text::views(panes@) =~= Seq::empty());
        return Ok(with_lists(workspaces, panes, None));
    }
    let listed_tabs = client.list_tabs();
    let tabs = match listed_tabs {
        Ok(tabs) => Some(tabs),
        Err(_) => None,
    };
    Ok(with_lists(workspaces, panes, tabs))
}

/// The workspace of a pane: that of the first one listed with its id.
pub open spec fn workspace_of_pane(panes: Seq<PaneModel>, pane_id: Seq<char>, i: int) -> Option<
    Seq<char>,
>
    decreases panes.len() - i,
{
    if i < 0 || i >= panes.len() {
        None
    } else if panes[i].pane_id == pane_id {
        Some(panes[i].workspace_id)
    } else {
        workspace_of_pane(panes, pane_id, i + 1)
    }
}

/// The workspace that the picker was opened from.
pub open spec fn origin_in(panes: Seq<PaneModel>, pane_id: Option<Seq<char>>) -> Option<Seq<char>> {
    match pane_id {
        Some(pane_id) => workspace_of_pane(panes, pane_id, 0),
        None => None,
    }
}

/// Find the workspace of a pane.
fn find_workspace(panes: &Vec<Pane>, pane_id: &str) -> (workspace: Option<String>)
    ensures
        text::view_of(workspace) == workspace_of_pane(text::views(panes@), pane_id@, 0),
{
    let ghost all = text::views(panes@);
    let mut i: usize = 0;
    while i < panes.len()
        invariant
            i <= panes@.len(),
            all == text::views(panes@),
            workspace_of_pane(all, pane_id@, 0) == workspace_of_pane(all, pane_id@, i as int),
        decreases panes@.len() - i,
    {
        assert(all[i as int] == panes@[i as int]@);
        if text::same(panes[i].pane_id.as_str(), pane_id) {
            return Some(panes[i].workspace_id.clone());
        }
        i += 1;
    }
    None
}

/// Find the workspace that the picker was opened from, by its pane.
pub fn find_origin(panes: &Vec<Pane>, pane_id: &Option<String>) -> (origin: Option<String>)
    ensures
        text::view_of(origin) == origin_in(text::views(panes@), text::view_of(*pane_id)),
{
    match pane_id {
        None => None,
        Some(pane_id) => find_workspace(panes, pane_id.as_str()),
    }
}

/// Whether the branch of a row's directory is wanted: the row is a live workspace
/// whose label another live workspace has too.
pub open spec fn wants_branch(rows: Seq<RowModel>, i: int) -> bool {
    rows[i].kind is Open && rows[i].space is Some && model::label_is_shared(
        rows,
        i,
        rows[i].space->0.label,
    )
}

/// The workspaces among the first `n` rows whose branch is wanted, with their
/// directories.
pub open spec fn branches_wanted(rows: Seq<RowModel>, n: nat) -> Seq<(Seq<char>, Seq<char>)>
    decreases n,
{
    if n == 0 {
        Seq::empty()
    } else {
        let before = branches_wanted(rows, (n - 1) as nat);
        if wants_branch(rows, n - 1) {
            before.push((rows[n - 1].kind.workspace()->0, rows[n - 1].path))
        } else {
            before
        }
    }
}

/// Whether another live workspace than row `i` has the given space label.
fn shares_label(rows: &Vec<Row>, i: usize, label: &str) -> (shared: bool)
    requires
        i < rows@.len(),
    ensures
        shared == model::label_is_shared(text::views(rows@), i as int, label@),
{
    let ghost all = text::views(rows@);
    let mut j: usize = 0;
    while j < rows.len()
        invariant
            j <= rows@.len(),
            all == text::views(rows@),
            forall|k: int|
                0 <= k < j && k != i ==> !#[trigger] model::opens_space(all, k, label@),
        decreases rows@.len() - j,
    {
        assert(all[j as int] == rows@[j as int]@);
        if j != i {
            if let (Kind::Open { .. }, Some(space)) = (&rows[j].kind, &rows[j].space) {
                if text::same(space.label.as_str(), label) {
                    assert(model::opens_space(all, j as int, label@));
                    return true;
                }
            }
        }
        j += 1;
    }
    false
}

/// The workspaces whose Git branch is to be looked up, with their directories:
/// those whose label another live workspace has too.
pub fn duplicate_space_branches(rows: &Vec<Row>) -> (wanted: Vec<(String, String)>)
    ensures
        text::views(wanted@) == branches_wanted(text::views(rows@), rows@.len()),
{
    let ghost all = text::views(rows@);
    let mut wanted: Vec<(String, String)> = Vec::new();
    let mut i: usize = 0;
    assert(text::views(wanted@) =~= branches_wanted(all, 0));
    while i < rows.len()
        invariant
            i <= rows@.len(),
            all == text::views(rows@),
            text::views(wanted@) == branches_wanted(all, i as nat),
        decreases rows@.len() - i,
    {
        assert(all[i as int] == rows@[i as int]@);
        if let (Kind::Open { workspace_id, .. }, Some(space)) = (&rows[i].kind, &rows[i].space) {
            if shares_label(rows, i, space.label.as_str()) {
                wanted.push((workspace_id.clone(), rows[i].path.clone()));
            }
        }
        i += 1;
    }
    wanted
}

/// The branch that Git printed, if any.
pub open spec fn branch_in(printed: Seq<char>) -> Option<Seq<char>> {
    let branch = text::sanitized(text::trimmed(printed));
    if text::is_blank(branch) {
        None
    } else {
        Some(branch)
    }
}

/// Read the branch from what Git printed; a lookup that failed gives none.
pub fn branch_name(succeeded: bool, printed: &str) -> (branch: Option<String>)
    ensures
        text::view_of(branch) == (if succeeded {
            branch_in(printed@)
        } else {
            None
        }),
{
    if !succeeded {
        return None;
    }
    let core = text::trim(printed);
    let branch = text::sanitize_text(core.as_str());
    if text::blank(branch.as_str()) {
        None
    } else {
        Some(branch)
    }
}

/// A line without the carriage return at its end.
pub open spec fn without_return(line: Seq<char>) -> Seq<char> {
    if line.len() > 0 && line.last() == '\r' {
        line.drop_last()
    } else {
        line
    }
}

/// The lines of a text from `from` on: parted by line feeds, each without a
/// carriage return before its line feed. A line feed at the end begins no further
/// line, and a carriage return that no line feed follows stays.
pub open spec fn lines_from(value: Seq<char>, from: int) -> Seq<Seq<char>>
    decreases value.len() - from,
{
    if from < 0 || from >= value.len() {
        Seq::empty()
    } else {
        let end = line_end(value, from);
        let line = value.subrange(from, end);
        if end < value.len() && end >= from {
            seq![without_return(line)] + lines_from(value, end + 1)
        } else {
            seq![line]
        }
    }
}

/// Where the line that starts at `from` ends.
pub open spec fn line_end(value: Seq<char>, from: int) -> int
    decreases value.len() - from,
{
    if from >= value.len() || value[from] == '\n' {
        from
    } else {
        line_end(value, from + 1)
    }
}

/// The lines of a text.
pub fn lines_of(value: &str) -> (lines: Vec<String>)
    ensures
        text::views(lines@) == lines_from(value@, 0),
{
    let chars = text::chars_of(value);
    let mut lines: Vec<String> = Vec::new();
    let mut from: usize = 0;
    assert(text::views(lines@) + lines_from(value@, 0) =~= lines_from(value@, 0));
    while from < chars.len()
        invariant
            chars@ == value@,
            from <= chars@.len(),
            text::views(lines@) + lines_from(value@, from as int) == lines_from(value@, 0),
        decreases chars@.len() - from,
    {
        let ghost before = text::views(lines@);
        let mut end: usize = from;
        while end < chars.len() && chars[end] != '\n'
            invariant
                chars@ == value@,
                from <= end <= chars@.len(),
                line_end(value@, from as int) == line_end(value@, end as int),
            decreases chars@.len() - end,
        {
            end += 1;
        }
        let last: usize = if end < chars.len() && end > from && chars[end - 1] == '\r' {
            end - 1
        } else {
            end
        };
        let line = text::text_between(&chars, from, last);
        proof {
            let whole = value@.subrange(from as int, end as int);
            assert(whole.len() > 0 ==> whole.last() == value@[end - 1]);
            assert(line@ =~= if end < value@.len() {
                without_return(whole)
            } else {
                whole
            });
        }
        lines.push(line);
        let next: usize = if end < chars.len() {
            end + 1
        } else {
            end
        };
        proof {
            let here = seq![line@];
            let rest = lines_from(value@, next as int);
            assert(lines_from(value@, from as int) =~= here + rest);
            assert(before + (here + rest) =~= before.push(line@) + rest);
        }
        from = next;
    }
    assert(text::views(lines@) + Seq::<Seq<char>>::empty() =~= text::views(lines@));
    lines
}

/// What zoxide has to offer, when it was asked.
pub open spec fn zoxide_offer(
    enabled: bool,
    cancelled: bool,
    printed: Option<(bool, Seq<char>)>,
) -> (Seq<Seq<char>>, ProjectSourceStatus) {
    if !enabled {
        (Seq::empty(), ProjectSourceStatus::Disabled)
    } else if cancelled {
        (Seq::empty(), ProjectSourceStatus::Searching)
    } else {
        match printed {
            Some((true, lines)) => (lines_from(lines, 0), ProjectSourceStatus::Available),
            _ => (Seq::empty(), ProjectSourceStatus::Unavailable),
        }
    }
}

/// The view of what a command printed.
pub open spec fn printed_view(printed: Option<(bool, String)>) -> Option<(bool, Seq<char>)> {
    match printed {
        Some((succeeded, lines)) => Some((succeeded, lines@)),
        None => None,
    }
}

/// Read what zoxide printed. `printed` is whether it succeeded and its output;
/// none where it could not be run.
pub fn zoxide_lines(enabled: bool, cancelled: bool, printed: Option<(bool, String)>) -> (offer: (
    Vec<String>,
    ProjectSourceStatus,
))
    ensures
        (text::views(offer.0@), offer.1) == zoxide_offer(enabled, cancelled, printed_view(printed)),
{
    let none: Vec<String> = Vec::new();
    assert(text::views(none@) =~= Seq::empty());
    if !enabled {
        return (none, ProjectSourceStatus::Disabled);
    }
    if cancelled {
        return (none, ProjectSourceStatus::Searching);
    }
    match printed {
        Some((succeeded, lines)) => {
            if succeeded {
                (lines_of(lines.as_str()), ProjectSourceStatus::Available)
            } else {
                (none, ProjectSourceStatus::Unavailable)
            }
        },
        None => (none, ProjectSourceStatus::Unavailable),
    }
}

/// The places where a program may be, in the order in which they are tried: the
/// directories of the search path, then fallback ones.
pub open spec fn program_places(
    name: Seq<char>,
    directories: Seq<Seq<char>>,
) -> Seq<Seq<char>> {
    Seq::new(directories.len(), |i: int| crate::paths::child(directories[i], name))
}

/// The places where a program may be, in the order in which they are tried.
pub fn executable_candidates(name: &str, path: &Vec<String>, fallback_dirs: &Vec<String>) -> (places:
    Vec<String>)
    ensures
        text::views(places@) == program_places(
            name@,
            text::views(path@) + text::views(fallback_dirs@),
        ),
{
    let ghost all = text::views(path@) + text::views(fallback_dirs@);
    let ghost wanted = program_places(name@, all);
    let mut places: Vec<String> = Vec::new();
    let mut i: usize = 0;
    while i < path.len()
        invariant
            i <= path@.len(),
            all == text::views(path@) + text::views(fallback_dirs@),
            wanted == program_places(name@, all),
            text::views(places@) == wanted.take(i as int),
        decreases path@.len() - i,
    {
        assert(all[i as int] == path@[i as int]@);
        places.push(crate::paths::join(path[i].as_str(), name));
        assert(wanted.take(i + 1) =~= wanted.take(i as int).push(wanted[i as int]));
        i += 1;
    }
    let mut k: usize = 0;
    while k < fallback_dirs.len()
        invariant
            k <= fallback_dirs@.len(),
            all == text::views(path@) + text::views(fallback_dirs@),
            wanted == program_places(name@, all),
            text::views(places@) == wanted.take(path@.len() + k),
        decreases fallback_dirs@.len() - k,
    {
        let ghost at = path@.len() + k;
        assert(all[at] == fallback_dirs@[k as int]@);
        places.push(crate::paths::join(fallback_dirs[k].as_str(), name));
        assert(wanted.take(at + 1) =~= wanted.take(at).push(wanted[at]));
        k += 1;
    }
    assert(wanted.take(path@.len() + k) =~= wanted);
    places
}

/// The first place that holds an executable.
pub open spec fn first_executable(
    places: Seq<Seq<char>>,
    executable: Seq<bool>,
    i: int,
) -> Option<Seq<char>>
    decreases places.len() - i,
{
    if i < 0 || i >= places.len() || i >= executable.len() {
        None
    } else if executable[i] {
        Some(places[i])
    } else {
        first_executable(places, executable, i + 1)
    }
}

/// Choose a program: the first of the places that holds an executable, given for
/// each whether it does.
pub fn resolve_executable(places: &Vec<String>, executable: &Vec<bool>) -> (program: Option<String>)
    ensures
        text::view_of(program) == first_executable(text::views(places@), executable@, 0),
{
    let ghost all = text::views(places@);
    let mut i: usize = 0;
    while i < places.len() && i < executable.len()
        invariant
            i <= places@.len(),
            i <= executable@.len(),
            all == text::views(places@),
            first_executable(all, executable@, 0) == first_executable(all, executable@, i as int),
        decreases places@.len() - i,
    {
        assert(all[i as int] == places@[i as int]@);
        if executable[i] {
            return Some(places[i].clone());
        }
        i += 1;
    }
    None
}

/// How far a refresh has come.
#[derive(Debug, Clone, Copy, PartialEq, Eq)]
pub enum Stage {
    Starting,
    LoadingConfig,
    LoadingHerdr,
    SendingOpen,
    FindingBranches,
    SendingBranches,
    AskingZoxide,
    Gathering,
    Over,
}

/// What a refresh wants done.
#[derive(Debug)]
pub enum RefreshAction {
    LoadConfig,
    LoadHerdr,
    Send(Message),
    /// Look up the Git branch of these workspaces' directories.
    FindBranches(Vec<(String, String)>),
    AskZoxide,
    /// Gather projects, with zoxide's lines and the recent ones.
    Gather { config: Config, zoxide: Vec<String>, recent: Vec<String> },
    Stop,
}

/// The view of a [`RefreshAction`].
#[verifier::ext_equal]
pub enum ActionModel {
    LoadConfig,
    LoadHerdr,
    Send(MessageModel),
    FindBranches(Seq<(Seq<char>, Seq<char>)>),
    AskZoxide,
    Gather { config: ConfigModel, zoxide: Seq<Seq<char>>, recent: Seq<Seq<char>> },
    Stop,
}

impl View for RefreshAction {
    type V = ActionModel;

    open spec fn view(&self) -> ActionModel {
        match self {
            RefreshAction::LoadConfig => ActionModel::LoadConfig,
            RefreshAction::LoadHerdr => ActionModel::LoadHerdr,
            RefreshAction::Send(message) => ActionModel::Send(message@),
            RefreshAction::FindBranches(wanted) => ActionModel::FindBranches(
                text::views(wanted@),
            ),
            RefreshAction::AskZoxide => ActionModel::AskZoxide,
            RefreshAction::Gather { config, zoxide, recent } => ActionModel::Gather {
                config: config@,
                zoxide: text::views(zoxide@),
                recent: text::views(recent@),
            },
            RefreshAction::Stop => ActionModel::Stop,
        }
    }
}

/// What was done for a refresh.
#[derive(Debug)]
pub enum RefreshEvent {
    Begin,
    Config(std::result::Result<Config, String>),
    /// Herdr's data, and what the machine knows about the directories in it.
    Herdr(herdr::Result<HerdrData>, Host),
    /// Whether the message still had a reader.
    Sent(bool),
    /// Workspaces with their Git branches.
    Branches(Vec<(String, String)>),
    /// Whether zoxide succeeded and what it printed; none where it did not run.
    Zoxide(Option<(bool, String)>),
    /// The projects; none where the search was interrupted.
    Projects(Option<Vec<Candidate>>),
}

/// The view of a [`RefreshEvent`].
#[verifier::ext_equal]
pub enum EventModel {
    Begin,
    Config(std::result::Result<ConfigModel, Seq<char>>),
    Herdr(std::result::Result<HerdrModel, HerdrErrorModel>, HostModel),
    Sent(bool),
    Branches(Seq<(Seq<char>, Seq<char>)>),
    Zoxide(Option<(bool, Seq<char>)>),
    Projects(Option<Seq<CandidateModel>>),
}

impl View for RefreshEvent {
    type V = EventModel;

    open spec fn view(&self) -> EventModel {
        match self {
            RefreshEvent::Begin => EventModel::Begin,
            RefreshEvent::Config(loaded) => EventModel::Config(
                match loaded {
                    Ok(config) => Ok(config@),
                    Err(error) => Err(error@),
                },
            ),
            RefreshEvent::Herdr(loaded, host) => EventModel::Herdr(
                match loaded {
                    Ok(data) => Ok(data@),
                    Err(error) => Err(error@),
                },
                host@,
            ),
            RefreshEvent::Sent(received) => EventModel::Sent(*received),
            RefreshEvent::Branches(branches) => EventModel::Branches(text::views(branches@)),
            RefreshEvent::Zoxide(printed) => EventModel::Zoxide(printed_view(*printed)),
            RefreshEvent::Projects(found) => EventModel::Projects(
                match found {
                    Some(found) => Some(text::views(found@)),
                    None => None,
                },
            ),
        }
    }
}

/// A refresh: first what is live, as soon as it is known, then with branches
/// where labels need them, then with all projects.
#[derive(Debug)]
pub struct Refresh {
    stage: Stage,
    bound: Vec<(String, String)>,
    recent: Vec<String>,
    mru: Vec<String>,
    origin_pane: Option<String>,
    config: Config,
    data: HerdrData,
    host: Host,
    origin: Option<String>,
    open_rows: Vec<Row>,
    branches: Vec<(String, String)>,
    status: ProjectSourceStatus,
}

/// The view of a [`Refresh`].
#[verifier::ext_equal]
pub struct RefreshModel {
    pub stage: Stage,
    pub bound: Seq<(Seq<char>, Seq<char>)>,
    pub recent: Seq<Seq<char>>,
    pub mru: Seq<Seq<char>>,
    pub origin_pane: Option<Seq<char>>,
    pub config: ConfigModel,
    pub data: HerdrModel,
    pub host: HostModel,
    pub origin: Option<Seq<char>>,
    pub open_rows: Seq<RowModel>,
    pub branches: Seq<(Seq<char>, Seq<char>)>,
    pub status: ProjectSourceStatus,
}

impl View for Refresh {
    type V = RefreshModel;

    closed spec fn view(&self) -> RefreshModel {
        RefreshModel {
            stage: self.stage,
            bound: text::views(self.bound@),
            recent: text::views(self.recent@),
            mru: text::views(self.mru@),
            origin_pane: text::view_of(self.origin_pane),
            config: self.config@,
            data: self.data@,
            host: self.host@,
            origin: text::view_of(self.origin),
            open_rows: text::views(self.open_rows@),
            branches: text::views(self.branches@),
            status: self.status,
        }
    }
}

impl RefreshModel {
    /// The rows for Herdr's data and given projects.
    pub open spec fn rows(self, projects: Seq<CandidateModel>) -> Seq<RowModel> {
        (Sources {
            bound: self.bound,
            workspaces: self.data.workspaces,
            panes: self.data.panes,
            tabs: self.data.tabs,
            dormant: projects,
            mru: self.mru,
            origin: self.origin,
            host: self.host,
        }).rows()
    }

    /// A snapshot of given rows.
    pub open spec fn snapshot(
        self,
        rows: Seq<RowModel>,
        status: ProjectSourceStatus,
    ) -> SnapshotModel {
        SnapshotModel {
            rows,
            project_source_status: status,
            live_workspace_ids: self.data.live_workspace_ids,
            origin_workspace: self.origin,
        }
    }

    /// The refresh ended, with a last thing to do.
    pub open spec fn ended(self, action: ActionModel) -> (RefreshModel, ActionModel) {
        (RefreshModel { stage: Stage::Over, ..self }, action)
    }

    /// The refresh with Herdr's data: what is live goes out at once.
    pub open spec fn with_data(self, data: HerdrModel, host: HostModel) -> (
        RefreshModel,
        ActionModel,
    ) {
        let known = RefreshModel {
            stage: Stage::SendingOpen,
            data,
            host,
            origin: origin_in(data.panes, self.origin_pane),
            ..self
        };
        let rows = known.rows(Seq::empty());
        (
            RefreshModel { open_rows: rows, ..known },
            ActionModel::Send(
                MessageModel::Partial(known.snapshot(rows, ProjectSourceStatus::Searching)),
            ),
        )
    }

    /// The refresh with branches: where there are any, what is live goes out again.
    pub open spec fn with_branches(self, branches: Seq<(Seq<char>, Seq<char>)>) -> (
        RefreshModel,
        ActionModel,
    ) {
        let known = RefreshModel { branches, ..self };
        if branches.len() == 0 {
            known.asking_zoxide()
        } else {
            let rows = model::disambiguated(self.open_rows, branches);
            (
                RefreshModel { stage: Stage::SendingBranches, open_rows: rows, ..known },
                ActionModel::Send(
                    MessageModel::Partial(known.snapshot(rows, ProjectSourceStatus::Searching)),
                ),
            )
        }
    }

    /// The refresh as it turns to zoxide, where that is wanted.
    pub open spec fn asking_zoxide(self) -> (RefreshModel, ActionModel) {
        if self.config.use_zoxide {
            (RefreshModel { stage: Stage::AskingZoxide, ..self }, ActionModel::AskZoxide)
        } else {
            self.gathering(Seq::empty(), ProjectSourceStatus::Disabled)
        }
    }

    /// The refresh as it gathers projects.
    pub open spec fn gathering(self, zoxide: Seq<Seq<char>>, status: ProjectSourceStatus) -> (
        RefreshModel,
        ActionModel,
    ) {
        (
            RefreshModel { stage: Stage::Gathering, status, ..self },
            ActionModel::Gather { config: self.config, zoxide, recent: self.recent },
        )
    }

    /// The refresh with all projects: everything goes out.
    pub open spec fn with_projects(self, projects: Seq<CandidateModel>) -> (
        RefreshModel,
        ActionModel,
    ) {
        let rows = model::disambiguated(self.rows(projects), self.branches);
        self.ended(
            ActionModel::Send(MessageModel::Ready(self.snapshot(rows, self.status))),
        )
    }

    /// The refresh after an event, and what it wants done next.
    pub open spec fn step(self, event: EventModel, cancelled: bool) -> (
        RefreshModel,
        ActionModel,
    ) {
        match (self.stage, event) {
            (Stage::Starting, EventModel::Begin) => if cancelled {
                self.ended(ActionModel::Stop)
            } else {
                (RefreshModel { stage: Stage::LoadingConfig, ..self }, ActionModel::LoadConfig)
            },
            (Stage::LoadingConfig, EventModel::Config(Ok(config))) => (
                RefreshModel { stage: Stage::LoadingHerdr, config, ..self },
                ActionModel::LoadHerdr,
            ),
            (Stage::LoadingConfig, EventModel::Config(Err(error))) => self.ended(
                ActionModel::Send(MessageModel::Failed(error)),
            ),
            (Stage::LoadingHerdr, EventModel::Herdr(Ok(data), host)) => if cancelled {
                self.ended(ActionModel::Stop)
            } else {
                self.with_data(data, host)
            },
            (Stage::LoadingHerdr, EventModel::Herdr(Err(error), _)) => self.ended(
                ActionModel::Send(MessageModel::Failed(error.message())),
            ),
            (Stage::SendingOpen, EventModel::Sent(true)) => (
                RefreshModel { stage: Stage::FindingBranches, ..self },
                ActionModel::FindBranches(branches_wanted(self.open_rows, self.open_rows.len())),
            ),
            (Stage::FindingBranches, EventModel::Branches(branches)) => if cancelled {
                self.ended(ActionModel::Stop)
            } else {
                self.with_branches(branches)
            },
            (Stage::SendingBranches, EventModel::Sent(true)) => self.asking_zoxide(),
            (Stage::AskingZoxide, EventModel::Zoxide(printed)) => {
                let (lines, status) = zoxide_offer(self.config.use_zoxide, cancelled, printed);
                self.gathering(lines, status)
            },
            (Stage::Gathering, EventModel::Projects(Some(projects))) => if cancelled {
                self.ended(ActionModel::Stop)
            } else {
                self.with_projects(projects)
            },
            _ => self.ended(ActionModel::Stop),
        }
    }
}

/// Copy an optional list of texts.
pub fn copied_ids(ids: &Option<Vec<String>>) -> (copy: Option<Vec<String>>)
    ensures
        config::list_view(copy) == config::list_view(*ids),
{
    match ids {
        Some(ids) => Some(text::copied_all(ids)),
        None => None,
    }
}

impl Refresh {
    /// A refresh before it has begun.
    pub fn new(
        bound: Vec<(String, String)>,
        recent_projects: Vec<String>,
        mru: Vec<String>,
        origin_pane_id: Option<String>,
    ) -> (refresh: Refresh)
        ensures
            refresh@ == (RefreshModel {
                stage: Stage::Starting,
                bound: text::views(bound@),
                recent: text::views(recent_projects@),
                mru: text::views(mru@),
                origin_pane: text::view_of(origin_pane_id),
                config: ConfigModel {
                    paths: Seq::empty(),
                    roots: Seq::empty(),
                    use_zoxide: true,
                },
                data: nothing_known(),
                host: HostModel { home: None, canonical: Seq::empty() },
                origin: None,
                open_rows: Seq::empty(),
                branches: Seq::empty(),
                status: ProjectSourceStatus::Searching,
            }),
    {
        let refresh = Refresh {
            stage: Stage::Starting,
            bound,
            recent: recent_projects,
            mru,
            origin_pane: origin_pane_id,
            config: Config::default(),
            data: without_workspaces(),
            host: Host::bare(),
            origin: None,
            open_rows: Vec::new(),
            branches: Vec::new(),
            status: ProjectSourceStatus::Searching,
        };
        assert(refresh@.host.canonical =~= Seq::empty());
        assert(refresh@.open_rows =~= Seq::empty());
        assert(refresh@.branches =~= Seq::empty());
        refresh
    }

    /// The rows for Herdr's data and given projects.
    fn assemble(&self, projects: &Vec<Candidate>) -> (rows: Vec<Row>)
        ensures
            text::views(rows@) == self@.rows(text::views(projects@)),
    {
        let origin: Option<&str> = match &self.origin {
            Some(origin) => Some(origin.as_str()),
            None => None,
        };
        model::assemble(
            self.bound.as_slice(),
            self.data.workspaces.as_slice(),
            self.data.panes.as_slice(),
            self.data.tabs.as_slice(),
            projects.as_slice(),
            self.mru.as_slice(),
            origin,
            &self.host,
        )
    }

    /// A snapshot of given rows.
    fn snapshot(&self, rows: Vec<Row>, status: ProjectSourceStatus) -> (snapshot: Snapshot)
        ensures
            snapshot@ == self@.snapshot(text::views(rows@), status),
    {
        Snapshot {
            rows,
            project_source_status: status,
            live_workspace_ids: copied_ids(&self.data.live_workspace_ids),
            origin_workspace: text::copied(&self.origin),
        }
    }

    /// Take in Herdr's data.
    fn take_data(&mut self, data: HerdrData, host: Host) -> (action: RefreshAction)
        ensures
            (final(self)@, action@) == old(self)@.with_data(data@, host@),
    {
        self.stage = Stage::SendingOpen;
        self.origin = find_origin(&data.panes, &self.origin_pane);
        self.data = data;
        self.host = host;
        let none: Vec<Candidate> = Vec::new();
        assert(text::views(none@) =~= Seq::empty());
        let rows = self.assemble(&none);
        let snapshot = self.snapshot(
            model::copied_rows(&rows),
            ProjectSourceStatus::Searching,
        );
        self.open_rows = rows;
        RefreshAction::Send(Message::Partial(snapshot))
    }

    /// Turn to zoxide, where that is wanted.
    fn ask_zoxide(&mut self) -> (action: RefreshAction)
        ensures
            (final(self)@, action@) == old(self)@.asking_zoxide(),
    {
        if self.config.use_zoxide {
            self.stage = Stage::AskingZoxide;
            RefreshAction::AskZoxide
        } else {
            let none: Vec<String> = Vec::new();
            assert(text::views(none@) =~= Seq::empty());
            self.gather(none, ProjectSourceStatus::Disabled)
        }
    }

    /// Gather projects.
    fn gather(&mut self, zoxide: Vec<String>, status: ProjectSourceStatus) -> (action:
        RefreshAction)
        ensures
            (final(self)@, action@) == old(self)@.gathering(text::views(zoxide@), status),
    {
        self.stage = Stage::Gathering;
        self.status = status;
        RefreshAction::Gather {
            config: self.config.clone(),
            zoxide,
            recent: text::copied_all(&self.recent),
        }
    }

    /// Take in branches.
    fn take_branches(&mut self, branches: Vec<(String, String)>) -> (action: RefreshAction)
        ensures
            (final(self)@, action@) == old(self)@.with_branches(text::views(branches@)),
    {
        let none = branches.len() == 0;
        assert(none == (text::views(branches@).len() == 0));
        self.branches = branches;
        if none {
            return self.ask_zoxide();
        }
        let mut rows = model::copied_rows(&self.open_rows);
        model::apply_space_disambiguators(&mut rows, self.branches.as_slice());
        let snapshot = self.snapshot(
            model::copied_rows(&rows),
            ProjectSourceStatus::Searching,
        );
        self.open_rows = rows;
        self.stage = Stage::SendingBranches;
        RefreshAction::Send(Message::Partial(snapshot))
    }

    /// Take in projects.
    fn take_projects(&mut self, projects: &Vec<Candidate>) -> (action: RefreshAction)
        ensures
            (final(self)@, action@) == old(self)@.with_projects(text::views(projects@)),
    {
        let mut rows = self.assemble(projects);
        model::apply_space_disambiguators(&mut rows, self.branches.as_slice());
        let snapshot = self.snapshot(rows, self.status);
        self.stage = Stage::Over;
        RefreshAction::Send(Message::Ready(snapshot))
    }

    /// Go on after an event. An event out of turn ends the refresh.
    pub fn step(&mut self, event: RefreshEvent, cancelled: bool) -> (action: RefreshAction)
        ensures
            (final(self)@, action@) == old(self)@.step(event@, cancelled),
    {
        match (self.stage, event) {
            (Stage::Starting, RefreshEvent::Begin) => {
                if !cancelled {
                    self.stage = Stage::LoadingConfig;
                    return RefreshAction::LoadConfig;
                }
            },
            (Stage::LoadingConfig, RefreshEvent::Config(Ok(config))) => {
                self.config = config;
                self.stage = Stage::LoadingHerdr;
                return RefreshAction::LoadHerdr;
            },
            (Stage::LoadingConfig, RefreshEvent::Config(Err(error))) => {
                self.stage = Stage::Over;
                return RefreshAction::Send(Message::Failed(error));
            },
            (Stage::LoadingHerdr, RefreshEvent::Herdr(Ok(data), host)) => {
                if !cancelled {
                    return self.take_data(data, host);
                }
            },
            (Stage::LoadingHerdr, RefreshEvent::Herdr(Err(error), _)) => {
                self.stage = Stage::Over;
                return RefreshAction::Send(Message::Failed(error.message()));
            },
            (Stage::SendingOpen, RefreshEvent::Sent(true)) => {
                self.stage = Stage::FindingBranches;
                return RefreshAction::FindBranches(duplicate_space_branches(&self.open_rows));
            },
            (Stage::FindingBranches, RefreshEvent::Branches(branches)) => {
                if !cancelled {
                    return self.take_branches(branches);
                }
            },
            (Stage::SendingBranches, RefreshEvent::Sent(true)) => {
                return self.ask_zoxide();
            },
            (Stage::AskingZoxide, RefreshEvent::Zoxide(printed)) => {
                let (lines, status) = zoxide_lines(self.config.use_zoxide, cancelled, printed);
                return self.gather(lines, status);
            },
            (Stage::Gathering, RefreshEvent::Projects(Some(projects))) => {
                if !cancelled {
                    return self.take_projects(&projects);
                }
            },
            _ => {},
        }
        self.stage = Stage::Over;
        RefreshAction::Stop
    }
}

/// A failed workspace query never looks like an empty one: the snapshots of a
/// refresh name live workspaces only where Herdr listed them.
pub proof fn snapshots_name_only_listed_workspaces(
    refresh: RefreshModel,
    event: EventModel,
    cancelled: bool,
)
    ensures
        match refresh.step(event, cancelled).1 {
            ActionModel::Send(MessageModel::Partial(snapshot)) => snapshot.live_workspace_ids
                == refresh.step(event, cancelled).0.data.live_workspace_ids,
            ActionModel::Send(MessageModel::Ready(snapshot)) => snapshot.live_workspace_ids
                == refresh.step(event, cancelled).0.data.live_workspace_ids,
            _ => true,
        },
{
}

/// A refresh that is over stays over: nothing follows a final message or an end.
pub proof fn nothing_follows_the_end(refresh: RefreshModel, event: EventModel, cancelled: bool)
    ensures
        refresh.stage is Over ==> refresh.step(event, cancelled).1 is Stop,
        refresh.step(event, cancelled).1 is Stop ==> refresh.step(event, cancelled).0.stage is Over,
        refresh.step(event, cancelled).1 matches ActionModel::Send(MessageModel::Ready(_))
            ==> refresh.step(event, cancelled).0.stage is Over,
        refresh.step(event, cancelled).1 matches ActionModel::Send(MessageModel::Failed(_))
            ==> refresh.step(event, cancelled).0.stage is Over,
{
}

/// A cancelled refresh sends no further snapshot from Herdr's data, branches or
/// projects.
pub proof fn cancelled_refresh_sends_no_snapshot(refresh: RefreshModel, event: EventModel)
    ensures
        match refresh.step(event, true).1 {
            ActionModel::Send(MessageModel::Partial(_)) => false,
            ActionModel::Send(MessageModel::Ready(_)) => false,
            _ => true,
        },
{
}

} // verus!
