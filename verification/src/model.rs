//! The rows of the picker: one per live workspace, one per tab and renamed pane,
//! and one per project that is not open.

use vstd::prelude::*;
use crate::herdr;
use crate::herdr::{Pane, PaneModel, TabInfo, TabModel, Workspace, WorkspaceModel};
use crate::order;
use crate::order::Ranked;
use crate::paths;
use crate::sources;
use crate::sources::{Candidate, CandidateModel};
use crate::text;

verus! {

broadcast use crate::text::lemma_views_push;

/// What an agent is doing.
#[derive(Debug, Clone, Copy, PartialEq, Eq, Structural)]
pub enum AgentState {
    Blocked,
    Working,
    Done,
    Idle,
    Unknown,
}

/// The state that a status word stands for.
pub open spec fn agent_state(value: Seq<char>) -> AgentState {
    if value == "blocked"@ {
        AgentState::Blocked
    } else if value == "working"@ {
        AgentState::Working
    } else if value == "done"@ {
        AgentState::Done
    } else if value == "idle"@ {
        AgentState::Idle
    } else {
        AgentState::Unknown
    }
}

impl AgentState {
    /// The priority of a state; the most urgent is 0.
    pub open spec fn priority(self) -> u8 {
        match self {
            AgentState::Blocked => 0,
            AgentState::Working => 1,
            AgentState::Done => 2,
            AgentState::Idle => 3,
            AgentState::Unknown => 4,
        }
    }

    /// The symbol of a state.
    pub open spec fn symbol(self) -> Seq<char> {
        match self {
            AgentState::Blocked => "●"@,
            AgentState::Working => "◐"@,
            AgentState::Done => "✓"@,
            AgentState::Idle => "○"@,
            AgentState::Unknown => "·"@,
        }
    }

    /// The name of a state.
    pub open spec fn name(self) -> Seq<char> {
        match self {
            AgentState::Blocked => "blocked"@,
            AgentState::Working => "working"@,
            AgentState::Done => "done"@,
            AgentState::Idle => "idle"@,
            AgentState::Unknown => "unknown"@,
        }
    }

    /// The state that a status word stands for.
    pub fn from_str(value: &str) -> (state: Self)
        ensures
            state == agent_state(value@),
    {
        if text::same(value, "blocked") {
            AgentState::Blocked
        } else if text::same(value, "working") {
            AgentState::Working
        } else if text::same(value, "done") {
            AgentState::Done
        } else if text::same(value, "idle") {
            AgentState::Idle
        } else {
            AgentState::Unknown
        }
    }

    /// The priority of this state.
    pub fn rank(self) -> (rank: u8)
        ensures
            rank == self.priority(),
    {
        match self {
            AgentState::Blocked => 0,
            AgentState::Working => 1,
            AgentState::Done => 2,
            AgentState::Idle => 3,
            AgentState::Unknown => 4,
        }
    }

    /// The symbol of this state.
    pub fn glyph(self) -> (glyph: &'static str)
        ensures
            glyph@ == self.symbol(),
    {
        match self {
            AgentState::Blocked => "●",
            AgentState::Working => "◐",
            AgentState::Done => "✓",
            AgentState::Idle => "○",
            AgentState::Unknown => "·",
        }
    }

    /// The name of this state.
    pub fn word(self) -> (word: &'static str)
        ensures
            word@ == self.name(),
    {
        match self {
            AgentState::Blocked => "blocked",
            AgentState::Working => "working",
            AgentState::Done => "done",
            AgentState::Idle => "idle",
            AgentState::Unknown => "unknown",
        }
    }
}

/// The name of a state stands for that state.
pub proof fn state_names_read_back(state: AgentState)
    ensures
        agent_state(state.name()) == state,
{
    reveal_strlit("blocked");
    reveal_strlit("working");
    reveal_strlit("done");
    reveal_strlit("idle");
    reveal_strlit("unknown");
    assert("blocked"@[0] == 'b');
    assert("working"@[0] == 'w');
    assert("done"@[0] == 'd');
    assert("idle"@[0] == 'i');
    assert("unknown"@[0] == 'u');
}

/// What a row stands for.
#[allow(inconsistent_fields)]
#[derive(Debug, PartialEq, Eq)]
pub enum Kind {
    /// A live workspace.
    Open { workspace_id: String, state: AgentState, agent: Option<String> },
    /// A tab inside an open workspace. Enter focuses this exact tab.
    Tab { workspace_id: String, tab_id: String, state: AgentState, agent: Option<String> },
    /// A pane the user renamed. Enter focuses this exact pane.
    Pane {
        workspace_id: String,
        tab_id: Option<String>,
        pane_id: String,
        state: AgentState,
        agent: Option<String>,
    },
    /// A project that is not open.
    Dormant,
}

/// The view of a [`Kind`].
#[allow(inconsistent_fields)]
#[verifier::ext_equal]
pub enum KindModel {
    Open { workspace_id: Seq<char>, state: AgentState, agent: Option<Seq<char>> },
    Tab {
        workspace_id: Seq<char>,
        tab_id: Seq<char>,
        state: AgentState,
        agent: Option<Seq<char>>,
    },
    Pane {
        workspace_id: Seq<char>,
        tab_id: Option<Seq<char>>,
        pane_id: Seq<char>,
        state: AgentState,
        agent: Option<Seq<char>>,
    },
    Dormant,
}

impl View for Kind {
    type V = KindModel;

    open spec fn view(&self) -> KindModel {
        match self {
            Kind::Open { workspace_id, state, agent } => KindModel::Open {
                workspace_id: workspace_id@,
                state: *state,
                agent: text::view_of(*agent),
            },
            Kind::Tab { workspace_id, tab_id, state, agent } => KindModel::Tab {
                workspace_id: workspace_id@,
                tab_id: tab_id@,
                state: *state,
                agent: text::view_of(*agent),
            },
            Kind::Pane { workspace_id, tab_id, pane_id, state, agent } => KindModel::Pane {
                workspace_id: workspace_id@,
                tab_id: text::view_of(*tab_id),
                pane_id: pane_id@,
                state: *state,
                agent: text::view_of(*agent),
            },
            Kind::Dormant => KindModel::Dormant,
        }
    }
}

impl Clone for Kind {
    fn clone(&self) -> (copy: Self)
        ensures
            copy == *self,
    {
        match self {
            Kind::Open { workspace_id, state, agent } => Kind::Open {
                workspace_id: workspace_id.clone(),
                state: *state,
                agent: text::copied(agent),
            },
            Kind::Tab { workspace_id, tab_id, state, agent } => Kind::Tab {
                workspace_id: workspace_id.clone(),
                tab_id: tab_id.clone(),
                state: *state,
                agent: text::copied(agent),
            },
            Kind::Pane { workspace_id, tab_id, pane_id, state, agent } => Kind::Pane {
                workspace_id: workspace_id.clone(),
                tab_id: text::copied(tab_id),
                pane_id: pane_id.clone(),
                state: *state,
                agent: text::copied(agent),
            },
            Kind::Dormant => Kind::Dormant,
        }
    }
}

impl KindModel {
    /// The section of a row: live workspaces, their tabs, renamed panes, then
    /// projects.
    pub open spec fn section(self) -> u8 {
        match self {
            KindModel::Open { .. } => 0,
            KindModel::Tab { .. } => 1,
            KindModel::Pane { .. } => 2,
            KindModel::Dormant => 3,
        }
    }

    /// The workspace that a live row belongs to.
    pub open spec fn workspace(self) -> Option<Seq<char>> {
        match self {
            KindModel::Open { workspace_id, .. } => Some(workspace_id),
            KindModel::Tab { workspace_id, .. } => Some(workspace_id),
            KindModel::Pane { workspace_id, .. } => Some(workspace_id),
            KindModel::Dormant => None,
        }
    }
}

/// What identifies a row across refreshes.
#[derive(Debug, PartialEq, Eq, Hash)]
pub enum RowId {
    Open(String),
    Tab(String),
    Pane(String),
    Project(String),
}

/// The view of a [`RowId`].
#[verifier::ext_equal]
pub enum RowIdModel {
    Open(Seq<char>),
    Tab(Seq<char>),
    Pane(Seq<char>),
    Project(Seq<char>),
}

impl RowIdModel {
    /// Whether two identities are the same: equal ids, or two spellings of one
    /// project path.
    pub open spec fn same(self, other: RowIdModel) -> bool {
        match (self, other) {
            (RowIdModel::Open(a), RowIdModel::Open(b)) => a == b,
            (RowIdModel::Tab(a), RowIdModel::Tab(b)) => a == b,
            (RowIdModel::Pane(a), RowIdModel::Pane(b)) => a == b,
            (RowIdModel::Project(a), RowIdModel::Project(b)) => paths::same_path(a, b),
            _ => false,
        }
    }
}

impl View for RowId {
    type V = RowIdModel;

    open spec fn view(&self) -> RowIdModel {
        match self {
            RowId::Open(id) => RowIdModel::Open(id@),
            RowId::Tab(id) => RowIdModel::Tab(id@),
            RowId::Pane(id) => RowIdModel::Pane(id@),
            RowId::Project(path) => RowIdModel::Project(path@),
        }
    }
}

impl Clone for RowId {
    fn clone(&self) -> (copy: Self)
        ensures
            copy == *self,
    {
        match self {
            RowId::Open(id) => RowId::Open(id.clone()),
            RowId::Tab(id) => RowId::Tab(id.clone()),
            RowId::Pane(id) => RowId::Pane(id.clone()),
            RowId::Project(path) => RowId::Project(path.clone()),
        }
    }
}

impl RowId {
    /// Decide whether two identities are the same.
    pub fn same(&self, other: &RowId) -> (equal: bool)
        ensures
            equal == self@.same(other@),
    {
        match (self, other) {
            (RowId::Open(a), RowId::Open(b)) => text::same(a.as_str(), b.as_str()),
            (RowId::Tab(a), RowId::Tab(b)) => text::same(a.as_str(), b.as_str()),
            (RowId::Pane(a), RowId::Pane(b)) => text::same(a.as_str(), b.as_str()),
            (RowId::Project(a), RowId::Project(b)) => paths::equal_paths(a.as_str(), b.as_str()),
            _ => false,
        }
    }
}

/// The space (labelled workspace) that a live row belongs to.
#[derive(Debug, PartialEq, Eq)]
pub struct SpaceContext {
    pub label: String,
    /// What tells this space from others with the same label.
    pub disambiguator: Option<String>,
    /// Herdr's workspace number.
    pub number: Option<usize>,
}

/// The view of a [`SpaceContext`].
#[verifier::ext_equal]
pub struct SpaceModel {
    pub label: Seq<char>,
    pub disambiguator: Option<Seq<char>>,
    pub number: Option<usize>,
}

impl View for SpaceContext {
    type V = SpaceModel;

    open spec fn view(&self) -> SpaceModel {
        SpaceModel {
            label: self.label@,
            disambiguator: text::view_of(self.disambiguator),
            number: self.number,
        }
    }
}

impl Clone for SpaceContext {
    fn clone(&self) -> (copy: Self)
        ensures
            copy == *self,
    {
        SpaceContext {
            label: self.label.clone(),
            disambiguator: text::copied(&self.disambiguator),
            number: self.number,
        }
    }
}

/// Copy an optional space.
pub fn copied_space(space: &Option<SpaceContext>) -> (copy: Option<SpaceContext>)
    ensures
        copy == *space,
{
    match space {
        Some(space) => Some(space.clone()),
        None => None,
    }
}

/// One row of the picker.
#[derive(Debug, PartialEq, Eq)]
pub struct Row {
    pub name: String,
    pub path: String,
    pub display: String,
    /// Names of the unnamed panes of an open workspace, in Herdr's order.
    pub pane_names: Vec<String>,
    /// Labels of the workspace's tabs, in Herdr's order.
    pub tab_names: Vec<String>,
    /// The space that a live row belongs to, where it is labelled.
    pub space: Option<SpaceContext>,
    pub kind: Kind,
}

/// The view of a [`Row`].
#[verifier::ext_equal]
pub struct RowModel {
    pub name: Seq<char>,
    pub path: Seq<char>,
    pub display: Seq<char>,
    pub pane_names: Seq<Seq<char>>,
    pub tab_names: Seq<Seq<char>>,
    pub space: Option<SpaceModel>,
    pub kind: KindModel,
}

impl RowModel {
    /// What identifies the row.
    pub open spec fn id(self) -> RowIdModel {
        match self.kind {
            KindModel::Open { workspace_id, .. } => RowIdModel::Open(workspace_id),
            KindModel::Tab { tab_id, .. } => RowIdModel::Tab(tab_id),
            KindModel::Pane { pane_id, .. } => RowIdModel::Pane(pane_id),
            KindModel::Dormant => RowIdModel::Project(self.path),
        }
    }
}

impl View for Row {
    type V = RowModel;

    open spec fn view(&self) -> RowModel {
        RowModel {
            name: self.name@,
            path: self.path@,
            display: self.display@,
            pane_names: text::views(self.pane_names@),
            tab_names: text::views(self.tab_names@),
            space: text::view_of(self.space),
            kind: self.kind@,
        }
    }
}

impl Clone for Row {
    fn clone(&self) -> (copy: Self)
        ensures
            copy@ == self@,
    {
        Row {
            name: self.name.clone(),
            path: self.path.clone(),
            display: self.display.clone(),
            pane_names: text::copied_all(&self.pane_names),
            tab_names: text::copied_all(&self.tab_names),
            space: copied_space(&self.space),
            kind: self.kind.clone(),
        }
    }
}

impl Row {
    /// What identifies this row across refreshes.
    pub fn id(&self) -> (id: RowId)
        ensures
            id@ == self@.id(),
    {
        match &self.kind {
            Kind::Open { workspace_id, .. } => RowId::Open(workspace_id.clone()),
            Kind::Tab { tab_id, .. } => RowId::Tab(tab_id.clone()),
            Kind::Pane { pane_id, .. } => RowId::Pane(pane_id.clone()),
            Kind::Dormant => RowId::Project(self.path.clone()),
        }
    }
}

/// Copy rows.
pub fn copied_rows(rows: &Vec<Row>) -> (copy: Vec<Row>)
    ensures
        text::views(copy@) == text::views(rows@),
{
    let ghost all = text::views(rows@);
    let mut copy: Vec<Row> = Vec::new();
    let mut i: usize = 0;
    while i < rows.len()
        invariant
            i <= rows@.len(),
            all == text::views(rows@),
            text::views(copy@) == all.take(i as int),
        decreases rows@.len() - i,
    {
        copy.push(rows[i].clone());
        assert(all.take(i + 1) =~= all.take(i as int).push(all[i as int]));
        i += 1;
    }
    assert(all.take(i as int) =~= all);
    copy
}

/// What the machine knows about directories: the user's home, and the canonical
/// spelling of the directories that exist.
#[derive(Debug, PartialEq, Eq)]
pub struct Host {
    pub home: Option<String>,
    /// Directories with their canonical spelling.
    pub canonical: Vec<(String, String)>,
}

/// The view of a [`Host`].
#[verifier::ext_equal]
pub struct HostModel {
    pub home: Option<Seq<char>>,
    pub canonical: Seq<(Seq<char>, Seq<char>)>,
}

/// The value listed last for a key.
pub open spec fn looked_up(pairs: Seq<(Seq<char>, Seq<char>)>, key: Seq<char>) -> Option<Seq<char>>
    decreases pairs.len(),
{
    if pairs.len() == 0 {
        None
    } else if pairs.last().0 == key {
        Some(pairs.last().1)
    } else {
        looked_up(pairs.drop_last(), key)
    }
}

impl HostModel {
    /// The canonical spelling of a directory; the directory as it is given when
    /// none is known.
    pub open spec fn canonical_path(self, dir: Seq<char>) -> Seq<char> {
        match looked_up(self.canonical, dir) {
            Some(path) => path,
            None => dir,
        }
    }
}

impl View for Host {
    type V = HostModel;

    open spec fn view(&self) -> HostModel {
        HostModel { home: text::view_of(self.home), canonical: text::views(self.canonical@) }
    }
}

/// Find the value listed last for a key.
pub fn look_up(pairs: &[(String, String)], key: &str) -> (value: Option<String>)
    ensures
        text::view_of(value) == looked_up(text::views(pairs@), key@),
{
    let ghost all = text::views(pairs@);
    let mut left: usize = pairs.len();
    assert(all.take(left as int) =~= all);
    while left > 0
        invariant
            left <= pairs@.len(),
            all == text::views(pairs@),
            looked_up(all, key@) == looked_up(all.take(left as int), key@),
        decreases left,
    {
        assert(all.take(left as int).last() == (pairs@[left - 1].0@, pairs@[left - 1].1@));
        assert(all.take(left as int).drop_last() =~= all.take(left - 1));
        left -= 1;
        if text::same(pairs[left].0.as_str(), key) {
            return Some(pairs[left].1.clone());
        }
    }
    None
}

impl Host {
    /// A host with the user's home directory, as [`sources::home_dir`] gives it,
    /// and the given canonical spellings.
    pub fn current(canonical: Vec<(String, String)>) -> (host: Host)
        ensures
            call_ensures(sources::home_dir, (), host.home),
            host.canonical == canonical,
    {
        Host { home: sources::home_dir(), canonical }
    }

    /// A host that knows nothing.
    pub fn bare() -> (host: Host)
        ensures
            host.home is None,
            host.canonical@.len() == 0,
    {
        Host { home: None, canonical: Vec::new() }
    }

    /// The canonical spelling of a directory.
    pub fn canon(&self, dir: &str) -> (path: String)
        ensures
            path@ == self@.canonical_path(dir@),
    {
        match look_up(self.canonical.as_slice(), dir) {
            Some(path) => path,
            None => dir.to_string(),
        }
    }

    /// Write the home directory as `~`.
    pub fn collapse(&self, path: &str) -> (shown: String)
        ensures
            shown@ == paths::collapsed(path@, self@.home),
    {
        match &self.home {
            Some(home) => paths::collapse_under(path, Some(home.as_str())),
            None => paths::collapse_under(path, None),
        }
    }
}

/// The name shown for a directory: its last piece without control characters,
/// or a placeholder when nothing printable is left.
pub open spec fn display_name(path: Seq<char>) -> Seq<char> {
    let name = text::sanitized(paths::base_name(path));
    if text::is_blank(name) {
        "project"@
    } else {
        name
    }
}

/// Control-stripped last piece of a path, for display. The path itself stays
/// untouched for identity and workspace creation.
pub fn display_name_for(path: &str) -> (name: String)
    ensures
        name@ == display_name(path@),
{
    let name = text::sanitize_text(sources::basename(path).as_str());
    if text::blank(name.as_str()) {
        "project".to_string()
    } else {
        name
    }
}

/// The display name of a tab. A label equal to the tab's number means "never
/// renamed" and gives none; without a number the label is kept.
pub open spec fn tab_label(tab: TabModel) -> Option<Seq<char>> {
    match tab.label {
        None => None,
        Some(label) => {
            let label = text::trimmed(text::sanitized(label));
            if label.len() == 0 || (tab.number is Some && label == text::decimal(
                tab.number->0 as nat,
            )) {
                None
            } else {
                Some(label)
            }
        },
    }
}

/// The display name of a tab, or `None` when it carries no useful name.
pub fn tab_display_label(tab: &TabInfo) -> (label: Option<String>)
    ensures
        text::view_of(label) == tab_label(tab@),
{
    match &tab.label {
        None => None,
        Some(label) => {
            let clean = text::sanitize_text(label.as_str());
            let core = text::trim(clean.as_str());
            if core.as_str().is_empty() {
                return None;
            }
            if let Some(number) = tab.number {
                if text::same(core.as_str(), text::number_text(number).as_str()) {
                    return None;
                }
            }
            Some(core)
        },
    }
}

/// The number by which root panes are chosen; panes without one come last.
pub open spec fn root_number(pane: PaneModel) -> usize {
    match pane.number() {
        Some(number) => number,
        None => usize::MAX,
    }
}

/// Whether a pane comes before another as a root: by number, then by id.
pub open spec fn root_before(a: PaneModel, b: PaneModel) -> bool {
    root_number(a) < root_number(b) || (root_number(a) == root_number(b) && !text::at_most(
        b.pane_id,
        a.pane_id,
    ))
}

/// Decide [`root_before`].
pub fn root_key_less(a: &Pane, b: &Pane) -> (less: bool)
    ensures
        less == root_before(a@, b@),
{
    let left: usize = root_key(a);
    let right: usize = root_key(b);
    left < right || (left == right && !text::not_after(b.pane_id.as_str(), a.pane_id.as_str()))
}

/// The number by which root panes are chosen.
pub fn root_key(pane: &Pane) -> (key: usize)
    ensures
        key == root_number(pane@),
{
    match pane.number() {
        Some(number) => number,
        None => usize::MAX,
    }
}

/// The root pane of a workspace among the first `n` panes: the one that comes
/// before all others, and the first listed of equals.
pub open spec fn root_pane(panes: Seq<PaneModel>, id: Seq<char>, n: nat) -> Option<int>
    decreases n,
{
    if n == 0 {
        None
    } else {
        let before = root_pane(panes, id, (n - 1) as nat);
        if panes[n - 1].workspace_id != id {
            before
        } else {
            match before {
                None => Some(n - 1),
                Some(best) => if root_before(panes[n - 1], panes[best]) {
                    Some(n - 1)
                } else {
                    Some(best)
                },
            }
        }
    }
}

/// Names of the unnamed panes of a workspace among the first `n` panes.
pub open spec fn unnamed_panes(panes: Seq<PaneModel>, id: Seq<char>, n: nat) -> Seq<Seq<char>>
    decreases n,
{
    if n == 0 {
        Seq::empty()
    } else {
        let before = unnamed_panes(panes, id, (n - 1) as nat);
        let pane = panes[n - 1];
        if pane.workspace_id == id && pane.label is None && pane.display_name() is Some {
            before.push(pane.display_name()->0)
        } else {
            before
        }
    }
}

/// Distinct labels of the tabs of a workspace among the first `n` tabs.
pub open spec fn tab_labels(tabs: Seq<TabModel>, id: Seq<char>, n: nat) -> Seq<Seq<char>>
    decreases n,
{
    if n == 0 {
        Seq::empty()
    } else {
        let before = tab_labels(tabs, id, (n - 1) as nat);
        let tab = tabs[n - 1];
        if tab.workspace_id == id && tab_label(tab) is Some && !before.contains(tab_label(tab)->0) {
            before.push(tab_label(tab)->0)
        } else {
            before
        }
    }
}

/// The agent of the first pane in a tab that has one, among the panes from `i`.
pub open spec fn tab_agent(panes: Seq<PaneModel>, tab_id: Seq<char>, i: int) -> Option<Seq<char>>
    decreases panes.len() - i,
{
    if i < 0 || i >= panes.len() {
        None
    } else if panes[i].tab_id == Some(tab_id) && panes[i].agent is Some {
        panes[i].agent
    } else {
        tab_agent(panes, tab_id, i + 1)
    }
}

/// The directory bound to a workspace; of several, the one listed last.
pub open spec fn bound_directory(
    bound: Seq<(Seq<char>, Seq<char>)>,
    id: Seq<char>,
) -> Option<Seq<char>>
    decreases bound.len(),
{
    if bound.len() == 0 {
        None
    } else if bound.last().1 == id {
        Some(bound.last().0)
    } else {
        bound_directory(bound.drop_last(), id)
    }
}

/// Everything that the rows are made from.
#[verifier::ext_equal]
pub struct Sources {
    /// Directories with the workspace that each is bound to.
    pub bound: Seq<(Seq<char>, Seq<char>)>,
    pub workspaces: Seq<WorkspaceModel>,
    pub panes: Seq<PaneModel>,
    pub tabs: Seq<TabModel>,
    pub dormant: Seq<CandidateModel>,
    pub mru: Seq<Seq<char>>,
    pub origin: Option<Seq<char>>,
    pub host: HostModel,
}

/// What a workspace is shown as.
#[verifier::ext_equal]
pub struct Place {
    pub name: Seq<char>,
    pub display: Seq<char>,
    pub path: Seq<char>,
}

impl Sources {
    /// The root pane of a workspace.
    pub open spec fn root(self, id: Seq<char>) -> Option<PaneModel> {
        match root_pane(self.panes, id, self.panes.len()) {
            Some(i) => Some(self.panes[i]),
            None => None,
        }
    }

    /// The directory of a workspace: its binding, or else the canonical
    /// directory of its root pane.
    pub open spec fn directory(self, id: Seq<char>) -> Option<Seq<char>> {
        match bound_directory(self.bound, id) {
            Some(path) => Some(path),
            None => match self.root(id) {
                Some(pane) => match pane.cwd {
                    Some(cwd) => Some(self.host.canonical_path(cwd)),
                    None => None,
                },
                None => None,
            },
        }
    }

    /// What a workspace is shown as. Without a directory, its label, or else its
    /// id.
    pub open spec fn place(self, workspace: WorkspaceModel) -> Place {
        match self.directory(workspace.workspace_id) {
            Some(path) => Place {
                name: display_name(path),
                display: text::sanitized(paths::collapsed(path, self.host.home)),
                path,
            },
            None => {
                let fallback = if text::is_blank(workspace.label) {
                    workspace.workspace_id
                } else {
                    workspace.label
                };
                Place { name: fallback, display: fallback, path: fallback }
            },
        }
    }

    /// The row of a tab.
    pub open spec fn tab_row(self, workspace: WorkspaceModel, tab: TabModel) -> RowModel {
        RowModel {
            name: tab_label(tab)->0,
            path: self.place(workspace).path,
            display: self.place(workspace).display + " · "@ + tab.tab_id,
            pane_names: Seq::empty(),
            tab_names: Seq::empty(),
            space: space_of(workspace),
            kind: KindModel::Tab {
                workspace_id: workspace.workspace_id,
                tab_id: tab.tab_id,
                state: agent_state(
                    match tab.agent_status {
                        Some(status) => status,
                        None => workspace.agent_status,
                    },
                ),
                agent: tab_agent(self.panes, tab.tab_id, 0),
            },
        }
    }

    /// Whether a tab has a row under a workspace.
    pub open spec fn shows_tab(self, workspace: WorkspaceModel, tab: TabModel) -> bool {
        tab.workspace_id == workspace.workspace_id && tab_label(tab) is Some
    }

    /// The rows of the first `n` tabs under a workspace.
    pub open spec fn tab_rows(self, workspace: WorkspaceModel, n: nat) -> Seq<RowModel>
        decreases n,
    {
        if n == 0 {
            Seq::empty()
        } else {
            let before = self.tab_rows(workspace, (n - 1) as nat);
            if self.shows_tab(workspace, self.tabs[n - 1]) {
                before.push(self.tab_row(workspace, self.tabs[n - 1]))
            } else {
                before
            }
        }
    }

    /// The row of a renamed pane.
    pub open spec fn pane_row(self, workspace: WorkspaceModel, pane: PaneModel) -> RowModel {
        RowModel {
            name: text::cleaned(pane.label)->0,
            path: self.place(workspace).path,
            display: self.place(workspace).display + " · "@ + pane.pane_id,
            pane_names: Seq::empty(),
            tab_names: Seq::empty(),
            space: space_of(workspace),
            kind: KindModel::Pane {
                workspace_id: workspace.workspace_id,
                tab_id: pane.tab_id,
                pane_id: pane.pane_id,
                state: agent_state(
                    match pane.agent_status {
                        Some(status) => status,
                        None => ""@,
                    },
                ),
                agent: pane.agent,
            },
        }
    }

    /// Whether a pane has a row under a workspace.
    pub open spec fn shows_pane(self, workspace: WorkspaceModel, pane: PaneModel) -> bool {
        pane.workspace_id == workspace.workspace_id && text::cleaned(pane.label) is Some
    }

    /// The rows of the first `n` panes under a workspace.
    pub open spec fn pane_rows(self, workspace: WorkspaceModel, n: nat) -> Seq<RowModel>
        decreases n,
    {
        if n == 0 {
            Seq::empty()
        } else {
            let before = self.pane_rows(workspace, (n - 1) as nat);
            if self.shows_pane(workspace, self.panes[n - 1]) {
                before.push(self.pane_row(workspace, self.panes[n - 1]))
            } else {
                before
            }
        }
    }

    /// The row of a workspace.
    pub open spec fn open_row(self, workspace: WorkspaceModel) -> RowModel {
        let id = workspace.workspace_id;
        RowModel {
            name: self.place(workspace).name,
            path: self.place(workspace).path,
            display: self.place(workspace).display,
            pane_names: unnamed_panes(self.panes, id, self.panes.len()),
            tab_names: tab_labels(self.tabs, id, self.tabs.len()),
            space: space_of(workspace),
            kind: KindModel::Open {
                workspace_id: id,
                state: agent_state(workspace.agent_status),
                agent: match self.root(id) {
                    Some(pane) => pane.agent,
                    None => None,
                },
            },
        }
    }

    /// The rows of the first `n` workspaces: of each its tabs, its renamed panes,
    /// and itself.
    pub open spec fn live_rows(self, n: nat) -> Seq<RowModel>
        decreases n,
    {
        if n == 0 {
            Seq::empty()
        } else {
            let workspace = self.workspaces[n - 1];
            self.live_rows((n - 1) as nat) + self.tab_rows(workspace, self.tabs.len())
                + self.pane_rows(workspace, self.panes.len()) + seq![self.open_row(workspace)]
        }
    }

    /// Whether a directory is that of a live workspace.
    pub open spec fn is_open(self, path: Seq<char>) -> bool {
        exists|i: int|
            0 <= i < self.workspaces.len() && paths::same_path(
                (#[trigger] self.place(self.workspaces[i])).path,
                path,
            )
    }

    /// The row of a project that is not open.
    pub open spec fn dormant_row(self, candidate: CandidateModel) -> RowModel {
        RowModel {
            name: display_name(candidate.path),
            path: candidate.path,
            display: candidate.display,
            pane_names: Seq::empty(),
            tab_names: Seq::empty(),
            space: None,
            kind: KindModel::Dormant,
        }
    }

    /// The rows of the first `n` projects, without those that are open.
    pub open spec fn dormant_rows(self, n: nat) -> Seq<RowModel>
        decreases n,
    {
        if n == 0 {
            Seq::empty()
        } else {
            let before = self.dormant_rows((n - 1) as nat);
            if self.is_open(self.dormant[n - 1].path) {
                before
            } else {
                before.push(self.dormant_row(self.dormant[n - 1]))
            }
        }
    }

    /// All rows, in the order in which they are found.
    pub open spec fn found_rows(self) -> Seq<RowModel> {
        self.live_rows(self.workspaces.len()) + self.dormant_rows(self.dormant.len())
    }

    /// The keys of the rows found.
    pub open spec fn row_keys(self) -> Seq<RowKeyModel> {
        row_keys(self.found_rows(), self.mru, self.origin)
    }

    /// All rows, ranked.
    pub open spec fn rows(self) -> Seq<RowModel> {
        order::arranged(self.found_rows(), order::ordered::<RowKey>(self.row_keys()))
    }
}

/// The space of a workspace, where it is labelled.
pub open spec fn space_of(workspace: WorkspaceModel) -> Option<SpaceModel> {
    if text::is_blank(workspace.label) {
        None
    } else {
        Some(SpaceModel { label: workspace.label, disambiguator: None, number: workspace.number })
    }
}

/// The key by which rows are ranked: section, recency, agent state and name.
pub struct RowKey {
    pub group: u8,
    pub position: usize,
    pub rank: u8,
    pub name: String,
}

/// The view of a [`RowKey`].
#[verifier::ext_equal]
pub struct RowKeyModel {
    pub group: u8,
    pub position: usize,
    pub rank: u8,
    pub name: Seq<char>,
}

impl View for RowKey {
    type V = RowKeyModel;

    open spec fn view(&self) -> RowKeyModel {
        RowKeyModel {
            group: self.group,
            position: self.position,
            rank: self.rank,
            name: self.name@,
        }
    }
}

impl Ranked for RowKey {
    /// Projects all compare equal, so they keep the order of their sources.
    open spec fn precedes(a: RowKeyModel, b: RowKeyModel) -> bool {
        if a.group != b.group {
            a.group < b.group
        } else if a.group == 3 {
            true
        } else if a.position != b.position {
            a.position < b.position
        } else if a.rank != b.rank {
            a.rank < b.rank
        } else {
            text::at_most(a.name, b.name)
        }
    }

    proof fn total(a: RowKeyModel, b: RowKeyModel) {
        text::lemma_at_most_total(a.name, b.name);
    }

    proof fn transitive(a: RowKeyModel, b: RowKeyModel, c: RowKeyModel) {
        if text::at_most(a.name, b.name) && text::at_most(b.name, c.name) {
            text::lemma_at_most_transitive(a.name, b.name, c.name);
        }
    }

    fn may_precede(&self, other: &Self) -> (before: bool) {
        if self.group != other.group {
            self.group < other.group
        } else if self.group == 3 {
            true
        } else if self.position != other.position {
            self.position < other.position
        } else if self.rank != other.rank {
            self.rank < other.rank
        } else {
            text::not_after(self.name.as_str(), other.name.as_str())
        }
    }
}

/// The recency of a workspace: its place in the list of most recently used ones.
/// Those never used come after all of these, and the one that the picker was
/// opened from comes last of all.
pub open spec fn recency(id: Seq<char>, mru: Seq<Seq<char>>, origin: Option<Seq<char>>) -> usize {
    if origin == Some(id) {
        usize::MAX
    } else {
        match text::position(mru, id) {
            Some(at) => at as usize,
            None => (usize::MAX - 1) as usize,
        }
    }
}

/// The key of a row.
pub open spec fn row_key(
    row: RowModel,
    mru: Seq<Seq<char>>,
    origin: Option<Seq<char>>,
) -> RowKeyModel {
    match row.kind {
        KindModel::Open { workspace_id, state, .. } => RowKeyModel {
            group: 0,
            position: recency(workspace_id, mru, origin),
            rank: state.priority(),
            name: text::lowercase(row.name),
        },
        KindModel::Tab { state, .. } => RowKeyModel {
            group: 1,
            position: 0,
            rank: state.priority(),
            name: text::lowercase(row.name),
        },
        KindModel::Pane { state, .. } => RowKeyModel {
            group: 2,
            position: 0,
            rank: state.priority(),
            name: text::lowercase(row.name),
        },
        KindModel::Dormant => RowKeyModel {
            group: 3,
            position: 0,
            rank: 0,
            name: text::lowercase(row.name),
        },
    }
}

/// The keys of rows.
pub open spec fn row_keys(
    rows: Seq<RowModel>,
    mru: Seq<Seq<char>>,
    origin: Option<Seq<char>>,
) -> Seq<RowKeyModel> {
    Seq::new(rows.len(), |i: int| row_key(rows[i], mru, origin))
}

/// The view of an optional borrowed text.
pub open spec fn borrowed(text: Option<&str>) -> Option<Seq<char>> {
    match text {
        Some(text) => Some(text@),
        None => None,
    }
}

/// An optional text, borrowed.
pub fn lent(value: &Option<String>) -> (borrowed: Option<&str>)
    ensures
        self::borrowed(borrowed) == text::view_of(*value),
{
    match value {
        Some(value) => Some(value.as_str()),
        None => None,
    }
}

/// Find the root pane of a workspace.
fn find_root(panes: &[Pane], id: &str) -> (root: Option<usize>)
    ensures
        match root {
            Some(i) => i < panes@.len() && root_pane(text::views(panes@), id@, panes@.len())
                == Some(i as int),
            None => root_pane(text::views(panes@), id@, panes@.len()) is None,
        },
{
    let ghost all = text::views(panes@);
    let mut root: Option<usize> = None;
    let mut i: usize = 0;
    while i < panes.len()
        invariant
            i <= panes@.len(),
            all == text::views(panes@),
            match root {
                Some(best) => best < i && root_pane(all, id@, i as nat) == Some(best as int),
                None => root_pane(all, id@, i as nat) is None,
            },
        decreases panes@.len() - i,
    {
        assert(all[i as int] == panes@[i as int]@);
        if text::same(panes[i].workspace_id.as_str(), id) {
            root = match root {
                None => Some(i),
                Some(best) => {
                    assert(all[best as int] == panes@[best as int]@);
                    if root_key_less(&panes[i], &panes[best]) {
                        Some(i)
                    } else {
                        Some(best)
                    }
                },
            };
        }
        i += 1;
    }
    root
}

/// Names of the unnamed panes of a workspace.
fn collect_pane_names(panes: &[Pane], id: &str) -> (names: Vec<String>)
    ensures
        text::views(names@) == unnamed_panes(text::views(panes@), id@, panes@.len()),
{
    let ghost all = text::views(panes@);
    let mut names: Vec<String> = Vec::new();
    let mut i: usize = 0;
    assert(text::views(names@) =~= Seq::empty());
    while i < panes.len()
        invariant
            i <= panes@.len(),
            all == text::views(panes@),
            text::views(names@) == unnamed_panes(all, id@, i as nat),
        decreases panes@.len() - i,
    {
        assert(all[i as int] == panes@[i as int]@);
        if panes[i].label.is_none() && text::same(panes[i].workspace_id.as_str(), id) {
            if let Some(name) = panes[i].display_name() {
                names.push(name.to_string());
            }
        }
        i += 1;
    }
    names
}

/// Distinct labels of the tabs of a workspace.
fn collect_tab_names(tabs: &[TabInfo], id: &str) -> (names: Vec<String>)
    ensures
        text::views(names@) == tab_labels(text::views(tabs@), id@, tabs@.len()),
{
    let ghost all = text::views(tabs@);
    let mut names: Vec<String> = Vec::new();
    let mut i: usize = 0;
    assert(text::views(names@) =~= Seq::empty());
    while i < tabs.len()
        invariant
            i <= tabs@.len(),
            all == text::views(tabs@),
            text::views(names@) == tab_labels(all, id@, i as nat),
        decreases tabs@.len() - i,
    {
        assert(all[i as int] == tabs@[i as int]@);
        if text::same(tabs[i].workspace_id.as_str(), id) {
            if let Some(label) = tab_display_label(&tabs[i]) {
                if !text::holds(&names, label.as_str()) {
                    names.push(label);
                }
            }
        }
        i += 1;
    }
    names
}

/// Find the agent of a tab.
fn find_tab_agent(panes: &[Pane], tab_id: &str) -> (agent: Option<String>)
    ensures
        text::view_of(agent) == tab_agent(text::views(panes@), tab_id@, 0),
{
    let ghost all = text::views(panes@);
    let mut i: usize = 0;
    while i < panes.len()
        invariant
            i <= panes@.len(),
            all == text::views(panes@),
            tab_agent(all, tab_id@, 0) == tab_agent(all, tab_id@, i as int),
        decreases panes@.len() - i,
    {
        assert(all[i as int] == panes@[i as int]@);
        if let Some(tab) = &panes[i].tab_id {
            if text::same(tab.as_str(), tab_id) && panes[i].agent.is_some() {
                return text::copied(&panes[i].agent);
            }
        }
        i += 1;
    }
    None
}

/// Find the directory bound to a workspace.
fn find_bound(bound: &[(String, String)], id: &str) -> (directory: Option<String>)
    ensures
        text::view_of(directory) == bound_directory(text::views(bound@), id@),
{
    let ghost all = text::views(bound@);
    let mut n: usize = bound.len();
    assert(all.take(n as int) =~= all);
    while n > 0
        invariant
            n <= bound@.len(),
            all == text::views(bound@),
            bound_directory(all, id@) == bound_directory(all.take(n as int), id@),
        decreases n,
    {
        proof {
            assert(all.take(n as int).last() == (bound@[n - 1].0@, bound@[n - 1].1@));
            assert(all.take(n as int).drop_last() =~= all.take(n - 1));
        }
        if text::same(bound[n - 1].1.as_str(), id) {
            return Some(bound[n - 1].0.clone());
        }
        n -= 1;
    }
    None
}

/// The space of a workspace.
fn space_for(workspace: &Workspace) -> (space: Option<SpaceContext>)
    ensures
        text::view_of(space) == space_of(workspace@),
{
    if text::blank(workspace.label.as_str()) {
        None
    } else {
        Some(
            SpaceContext {
                label: workspace.label.clone(),
                disambiguator: None,
                number: workspace.number,
            },
        )
    }
}

/// What a workspace is shown as: name, display and path.
fn find_place(
    bound: &[(String, String)],
    workspace: &Workspace,
    panes: &[Pane],
    host: &Host,
    Ghost(from): Ghost<Sources>,
) -> (place: (String, String, String))
    requires
        from.bound == text::views(bound@),
        from.panes == text::views(panes@),
        from.host == host@,
    ensures
        place.0@ == from.place(workspace@).name,
        place.1@ == from.place(workspace@).display,
        place.2@ == from.place(workspace@).path,
{
    let id = workspace.workspace_id.as_str();
    let directory: Option<String> = match find_bound(bound, id) {
        Some(path) => Some(path),
        None => match find_root(panes, id) {
            Some(root) => {
                assert(from.panes[root as int] == panes@[root as int]@);
                match &panes[root].cwd {
                    Some(cwd) => Some(host.canon(cwd.as_str())),
                    None => None,
                }
            },
            None => None,
        },
    };
    assert(text::view_of(directory) == from.directory(workspace@.workspace_id));
    match directory {
        Some(path) => {
            let shown = host.collapse(path.as_str());
            (display_name_for(path.as_str()), text::sanitize_text(shown.as_str()), path)
        },
        None => {
            let fallback = if text::blank(workspace.label.as_str()) {
                workspace.workspace_id.clone()
            } else {
                workspace.label.clone()
            };
            (fallback.clone(), fallback.clone(), fallback)
        },
    }
}

/// A place inside a workspace's display: `display · id`.
fn inside(display: &str, id: &str) -> (shown: String)
    ensures
        shown@ == display@ + " · "@ + id@,
{
    let mut shown = text::joined(display, " · ");
    shown.append(id);
    shown
}

/// Add the rows of the tabs of a workspace.
fn push_tab_rows(
    rows: &mut Vec<Row>,
    workspace: &Workspace,
    place: &(String, String, String),
    tabs: &[TabInfo],
    panes: &[Pane],
    Ghost(from): Ghost<Sources>,
)
    requires
        from.tabs == text::views(tabs@),
        from.panes == text::views(panes@),
        place.1@ == from.place(workspace@).display,
        place.2@ == from.place(workspace@).path,
    ensures
        text::views(final(rows)@) == text::views(old(rows)@) + from.tab_rows(
            workspace@,
            tabs@.len(),
        ),
{
    let ghost before = text::views(rows@);
    let mut i: usize = 0;
    assert(before + from.tab_rows(workspace@, 0) =~= before);
    while i < tabs.len()
        invariant
            i <= tabs@.len(),
            from.tabs == text::views(tabs@),
            from.panes == text::views(panes@),
            place.1@ == from.place(workspace@).display,
            place.2@ == from.place(workspace@).path,
            text::views(rows@) == before + from.tab_rows(workspace@, i as nat),
        decreases tabs@.len() - i,
    {
        let tab = &tabs[i];
        assert(from.tabs[i as int] == tab@);
        if text::same(tab.workspace_id.as_str(), workspace.workspace_id.as_str()) {
            if let Some(label) = tab_display_label(tab) {
                let state = match &tab.agent_status {
                    Some(status) => AgentState::from_str(status.as_str()),
                    None => AgentState::from_str(workspace.agent_status.as_str()),
                };
                let row = Row {
                    name: label,
                    path: place.2.clone(),
                    display: inside(place.1.as_str(), tab.tab_id.as_str()),
                    pane_names: Vec::new(),
                    tab_names: Vec::new(),
                    space: space_for(workspace),
                    kind: Kind::Tab {
                        workspace_id: workspace.workspace_id.clone(),
                        tab_id: tab.tab_id.clone(),
                        state,
                        agent: find_tab_agent(panes, tab.tab_id.as_str()),
                    },
                };
                assert(row@ =~= from.tab_row(workspace@, tab@));
                rows.push(row);
            }
        }
        proof {
            let shown = from.tab_rows(workspace@, i as nat);
            assert(before + shown.push(from.tab_row(workspace@, tab@)) =~= (before + shown).push(
                from.tab_row(workspace@, tab@),
            ));
        }
        i += 1;
    }
}

/// Add the rows of the renamed panes of a workspace.
fn push_pane_rows(
    rows: &mut Vec<Row>,
    workspace: &Workspace,
    place: &(String, String, String),
    panes: &[Pane],
    Ghost(from): Ghost<Sources>,
)
    requires
        from.panes == text::views(panes@),
        place.1@ == from.place(workspace@).display,
        place.2@ == from.place(workspace@).path,
    ensures
        text::views(final(rows)@) == text::views(old(rows)@) + from.pane_rows(
            workspace@,
            panes@.len(),
        ),
{
    let ghost before = text::views(rows@);
    let mut i: usize = 0;
    assert(before + from.pane_rows(workspace@, 0) =~= before);
    while i < panes.len()
        invariant
            i <= panes@.len(),
            from.panes == text::views(panes@),
            place.1@ == from.place(workspace@).display,
            place.2@ == from.place(workspace@).path,
            text::views(rows@) == before + from.pane_rows(workspace@, i as nat),
        decreases panes@.len() - i,
    {
        let pane = &panes[i];
        assert(from.panes[i as int] == pane@);
        if text::same(pane.workspace_id.as_str(), workspace.workspace_id.as_str()) {
            if let Some(label) = herdr::clean(text::copied(&pane.label)) {
                let state = match &pane.agent_status {
                    Some(status) => AgentState::from_str(status.as_str()),
                    None => AgentState::from_str(""),
                };
                let row = Row {
                    name: label,
                    path: place.2.clone(),
                    display: inside(place.1.as_str(), pane.pane_id.as_str()),
                    pane_names: Vec::new(),
                    tab_names: Vec::new(),
                    space: space_for(workspace),
                    kind: Kind::Pane {
                        workspace_id: workspace.workspace_id.clone(),
                        tab_id: text::copied(&pane.tab_id),
                        pane_id: pane.pane_id.clone(),
                        state,
                        agent: text::copied(&pane.agent),
                    },
                };
                assert(row@ =~= from.pane_row(workspace@, pane@));
                rows.push(row);
            }
        }
        proof {
            let shown = from.pane_rows(workspace@, i as nat);
            assert(before + shown.push(from.pane_row(workspace@, pane@)) =~= (before + shown).push(
                from.pane_row(workspace@, pane@),
            ));
        }
        i += 1;
    }
}

/// The row of a workspace.
fn open_row(
    workspace: &Workspace,
    place: (String, String, String),
    tabs: &[TabInfo],
    panes: &[Pane],
    Ghost(from): Ghost<Sources>,
) -> (row: Row)
    requires
        from.tabs == text::views(tabs@),
        from.panes == text::views(panes@),
        place.0@ == from.place(workspace@).name,
        place.1@ == from.place(workspace@).display,
        place.2@ == from.place(workspace@).path,
    ensures
        row@ == from.open_row(workspace@),
{
    let id = workspace.workspace_id.as_str();
    let agent = match find_root(panes, id) {
        Some(root) => {
            assert(from.panes[root as int] == panes@[root as int]@);
            text::copied(&panes[root].agent)
        },
        None => None,
    };
    let (name, display, path) = place;
    let row = Row {
        name,
        path,
        display,
        pane_names: collect_pane_names(panes, id),
        tab_names: collect_tab_names(tabs, id),
        space: space_for(workspace),
        kind: Kind::Open {
            workspace_id: workspace.workspace_id.clone(),
            state: AgentState::from_str(workspace.agent_status.as_str()),
            agent,
        },
    };
    assert(row@ =~= from.open_row(workspace@));
    row
}

/// Whether a list of paths holds a spelling of a path.
fn holds_path(known: &Vec<String>, path: &str) -> (found: bool)
    ensures
        found == exists|i: int|
            0 <= i < known@.len() && paths::same_path((#[trigger] known@[i])@, path@),
{
    let mut i: usize = 0;
    while i < known.len()
        invariant
            i <= known@.len(),
            forall|k: int|
                0 <= k < i ==> !paths::same_path((#[trigger] known@[k])@, path@),
        decreases known@.len() - i,
    {
        if paths::equal_paths(known[i].as_str(), path) {
            return true;
        }
        i += 1;
    }
    false
}

/// Rank a row.
pub fn sort_key(row: &Row, mru: &[String], origin_workspace: Option<&str>) -> (key: RowKey)
    ensures
        key@ == row_key(row@, text::views(mru@), borrowed(origin_workspace)),
{
    let name = text::to_lowercase(row.name.as_str());
    match &row.kind {
        Kind::Open { workspace_id, state, .. } => {
            let from_here = match origin_workspace {
                Some(origin) => text::same(workspace_id.as_str(), origin),
                None => false,
            };
            let position: usize = if from_here {
                usize::MAX
            } else {
                match find_in(mru, workspace_id.as_str()) {
                    Some(at) => at,
                    None => usize::MAX - 1,
                }
            };
            RowKey { group: 0, position, rank: state.rank(), name }
        },
        Kind::Tab { state, .. } => RowKey { group: 1, position: 0, rank: state.rank(), name },
        Kind::Pane { state, .. } => RowKey { group: 2, position: 0, rank: state.rank(), name },
        Kind::Dormant => RowKey { group: 3, position: 0, rank: 0, name },
    }
}

/// Find where a text first stands in a slice.
fn find_in(texts: &[String], wanted: &str) -> (at: Option<usize>)
    ensures
        match at {
            Some(i) => text::position(text::views(texts@), wanted@) == Some(i as int),
            None => text::position(text::views(texts@), wanted@) is None,
        },
{
    let ghost all = text::views(texts@);
    let mut i: usize = 0;
    while i < texts.len()
        invariant
            i <= texts@.len(),
            all == text::views(texts@),
            text::position(all.take(i as int), wanted@) is None,
        decreases texts@.len() - i,
    {
        proof {
            assert(all.take(i + 1).drop_last() =~= all.take(i as int));
            assert(all.take(i + 1).last() == texts@[i as int]@);
        }
        if text::same(texts[i].as_str(), wanted) {
            proof {
                text::lemma_position_prefix(all, wanted@, i + 1);
            }
            return Some(i);
        }
        i += 1;
    }
    assert(all.take(i as int) =~= all);
    None
}

/// Put rows into the order of their keys.
fn rank_rows(rows: Vec<Row>, mru: &[String], origin_workspace: Option<&str>) -> (ranked: Vec<Row>)
    ensures
        text::views(ranked@) == order::arranged(
            text::views(rows@),
            order::ordered::<RowKey>(
                row_keys(text::views(rows@), text::views(mru@), borrowed(origin_workspace)),
            ),
        ),
{
    let ghost all = text::views(rows@);
    let ghost wanted = row_keys(all, text::views(mru@), borrowed(origin_workspace));
    let mut keys: Vec<RowKey> = Vec::new();
    let mut i: usize = 0;
    while i < rows.len()
        invariant
            i <= rows@.len(),
            all == text::views(rows@),
            wanted == row_keys(all, text::views(mru@), borrowed(origin_workspace)),
            text::views(keys@) == wanted.take(i as int),
        decreases rows@.len() - i,
    {
        keys.push(sort_key(&rows[i], mru, origin_workspace));
        assert(wanted.take(i + 1) =~= wanted.take(i as int).push(wanted[i as int]));
        i += 1;
    }
    assert(wanted.take(i as int) =~= wanted);
    let order = order::stable_order(&keys);
    let mut ranked: Vec<Row> = Vec::new();
    let mut k: usize = 0;
    let ghost places = order::positions(order@);
    while k < order.len()
        invariant
            k <= order@.len(),
            all == text::views(rows@),
            places == order::positions(order@),
            order::is_permutation(places, rows@.len()),
            text::views(ranked@) == order::arranged(all, places).take(k as int),
        decreases order@.len() - k,
    {
        assert(places[k as int] == order@[k as int] as int);
        ranked.push(rows[order[k]].clone());
        assert(order::arranged(all, places).take(k + 1) =~= order::arranged(all, places).take(
            k as int,
        ).push(all[places[k as int]]));
        k += 1;
    }
    assert(order::arranged(all, places).take(k as int) =~= order::arranged(all, places));
    ranked
}

/// One row per live workspace, with its tabs and renamed panes, and one per
/// project that is not open. The directory of a workspace is the one bound to
/// it, which survives `cd`; otherwise that of its root pane. Projects whose
/// directory is open are dropped. Live rows come first.
pub fn assemble(
    bound: &[(String, String)],
    workspaces: &[Workspace],
    panes: &[Pane],
    tabs: &[TabInfo],
    dormant: &[Candidate],
    mru: &[String],
    origin_workspace: Option<&str>,
    host: &Host,
) -> (rows: Vec<Row>)
    ensures
        text::views(rows@) == (Sources {
            bound: text::views(bound@),
            workspaces: text::views(workspaces@),
            panes: text::views(panes@),
            tabs: text::views(tabs@),
            dormant: text::views(dormant@),
            mru: text::views(mru@),
            origin: borrowed(origin_workspace),
            host: host@,
        }).rows(),
{
    let ghost from = Sources {
        bound: text::views(bound@),
        workspaces: text::views(workspaces@),
        panes: text::views(panes@),
        tabs: text::views(tabs@),
        dormant: text::views(dormant@),
        mru: text::views(mru@),
        origin: borrowed(origin_workspace),
        host: host@,
    };
    let mut rows: Vec<Row> = Vec::new();
    let mut open_directories: Vec<String> = Vec::new();
    let mut i: usize = 0;
    assert(text::views(rows@) =~= from.live_rows(0));
    while i < workspaces.len()
        invariant
            i <= workspaces@.len(),
            from.bound == text::views(bound@),
            from.workspaces == text::views(workspaces@),
            from.panes == text::views(panes@),
            from.tabs == text::views(tabs@),
            from.host == host@,
            text::views(rows@) == from.live_rows(i as nat),
            open_directories@.len() == i,
            forall|k: int|
                0 <= k < i ==> (#[trigger] open_directories@[k])@ == from.place(
                    from.workspaces[k],
                ).path,
        decreases workspaces@.len() - i,
    {
        let workspace = &workspaces[i];
        assert(from.workspaces[i as int] == workspace@);
        let place = find_place(bound, workspace, panes, host, Ghost(from));
        open_directories.push(place.2.clone());
        push_tab_rows(&mut rows, workspace, &place, tabs, panes, Ghost(from));
        push_pane_rows(&mut rows, workspace, &place, panes, Ghost(from));
        let ghost before = text::views(rows@);
        rows.push(open_row(workspace, place, tabs, panes, Ghost(from)));
        assert(text::views(rows@) =~= before + seq![from.open_row(workspace@)]);
        i += 1;
    }
    let ghost live = text::views(rows@);
    let mut d: usize = 0;
    assert(live + from.dormant_rows(0) =~= live);
    while d < dormant.len()
        invariant
            d <= dormant@.len(),
            from.dormant == text::views(dormant@),
            text::views(rows@) == live + from.dormant_rows(d as nat),
            open_directories@.len() == from.workspaces.len(),
            forall|k: int|
                0 <= k < open_directories@.len() ==> (#[trigger] open_directories@[k])@
                    == from.place(from.workspaces[k]).path,
        decreases dormant@.len() - d,
    {
        let candidate = &dormant[d];
        assert(from.dormant[d as int] == candidate@);
        let open = holds_path(&open_directories, candidate.path.as_str());
        proof {
            if open {
                let k = choose|k: int|
                    0 <= k < open_directories@.len() && paths::same_path(
                        (#[trigger] open_directories@[k])@,
                        candidate.path@,
                    );
                assert(paths::same_path(from.place(from.workspaces[k]).path, candidate.path@));
            } else if from.is_open(candidate.path@) {
                let k = choose|k: int|
                    0 <= k < from.workspaces.len() && paths::same_path(
                        (#[trigger] from.place(from.workspaces[k])).path,
                        candidate.path@,
                    );
                assert(paths::same_path(open_directories@[k]@, candidate.path@));
            }
        }
        if !open {
            let row = Row {
                name: display_name_for(candidate.path.as_str()),
                path: candidate.path.clone(),
                display: candidate.display.clone(),
                pane_names: Vec::new(),
                tab_names: Vec::new(),
                space: None,
                kind: Kind::Dormant,
            };
            assert(row@ =~= from.dormant_row(candidate@));
            rows.push(row);
        }
        proof {
            let shown = from.dormant_rows(d as nat);
            assert(live + shown.push(from.dormant_row(candidate@)) =~= (live + shown).push(
                from.dormant_row(candidate@),
            ));
        }
        d += 1;
    }
    rank_rows(rows, mru, origin_workspace)
}

/// Whether two rows belong together: distinct rows of one workspace, or a
/// project and a row of the same directory.
pub open spec fn related(active: RowModel, row: RowModel) -> bool {
    !active.id().same(row.id()) && match (active.kind.workspace(), row.kind.workspace()) {
        (Some(a), Some(b)) => a == b,
        _ => paths::same_path(active.path, row.path),
    }
}

/// The workspace that a live row belongs to.
pub fn workspace_of(kind: &Kind) -> (id: Option<&str>)
    ensures
        borrowed(id) == kind@.workspace(),
{
    match kind {
        Kind::Open { workspace_id, .. } => Some(workspace_id.as_str()),
        Kind::Tab { workspace_id, .. } => Some(workspace_id.as_str()),
        Kind::Pane { workspace_id, .. } => Some(workspace_id.as_str()),
        Kind::Dormant => None,
    }
}

/// Decide whether two rows belong together.
pub fn is_related(active: &Row, row: &Row) -> (found: bool)
    ensures
        found == related(active@, row@),
{
    if active.id().same(&row.id()) {
        return false;
    }
    match (workspace_of(&active.kind), workspace_of(&row.kind)) {
        (Some(a), Some(b)) => text::same(a, b),
        _ => paths::equal_paths(active.path.as_str(), row.path.as_str()),
    }
}

/// Whether row `i` is a live workspace with the given space label.
pub open spec fn opens_space(rows: Seq<RowModel>, i: int, label: Seq<char>) -> bool {
    0 <= i < rows.len() && rows[i].kind is Open && rows[i].space is Some && rows[i].space->0.label
        == label
}

/// Whether another live workspace than row `i` has the given space label.
pub open spec fn label_is_shared(rows: Seq<RowModel>, i: int, label: Seq<char>) -> bool {
    exists|j: int| j != i && #[trigger] opens_space(rows, j, label)
}

/// Whether another live workspace than row `i` has the given space label and the
/// same directory name.
pub open spec fn directory_is_shared(rows: Seq<RowModel>, i: int, label: Seq<char>) -> bool {
    exists|j: int|
        j != i && #[trigger] opens_space(rows, j, label) && display_name(rows[j].path)
            == display_name(rows[i].path)
}

/// What tells the space of the workspace in row `i` from others with its label:
/// its Git branch, or else its directory name where that is distinct, or else
/// its number. A label that nothing else has needs nothing.
pub open spec fn disambiguator(
    rows: Seq<RowModel>,
    branches: Seq<(Seq<char>, Seq<char>)>,
    i: int,
) -> Option<Seq<char>> {
    let space = rows[i].space->0;
    let branch = looked_up(branches, rows[i].kind.workspace()->0);
    if !label_is_shared(rows, i, space.label) {
        None
    } else if branch is Some {
        branch
    } else if !directory_is_shared(rows, i, space.label) {
        Some(display_name(rows[i].path))
    } else {
        match space.number {
            Some(number) => Some(text::decimal(number as nat)),
            None => None,
        }
    }
}

/// The first labelled live workspace of a given id, from row `i` on.
pub open spec fn space_owner(rows: Seq<RowModel>, workspace: Seq<char>, i: int) -> Option<int>
    decreases rows.len() - i,
{
    if i < 0 || i >= rows.len() {
        None
    } else if rows[i].kind is Open && rows[i].kind.workspace() == Some(workspace)
        && rows[i].space is Some {
        Some(i)
    } else {
        space_owner(rows, workspace, i + 1)
    }
}

/// A row with its space told from others with the same label.
pub open spec fn disambiguated_row(
    rows: Seq<RowModel>,
    branches: Seq<(Seq<char>, Seq<char>)>,
    i: int,
) -> RowModel {
    match (rows[i].space, rows[i].kind.workspace()) {
        (Some(space), Some(workspace)) => match space_owner(rows, workspace, 0) {
            Some(owner) => RowModel {
                space: Some(
                    SpaceModel { disambiguator: disambiguator(rows, branches, owner), ..space },
                ),
                ..rows[i]
            },
            None => rows[i],
        },
        _ => rows[i],
    }
}

/// All rows with their spaces told from others with the same label.
pub open spec fn disambiguated(
    rows: Seq<RowModel>,
    branches: Seq<(Seq<char>, Seq<char>)>,
) -> Seq<RowModel> {
    Seq::new(rows.len(), |i: int| disambiguated_row(rows, branches, i))
}

/// Decide [`opens_space`] for a row of the list.
fn opens(rows: &Vec<Row>, i: usize, label: &str) -> (found: bool)
    requires
        i < rows@.len(),
    ensures
        found == opens_space(text::views(rows@), i as int, label@),
{
    assert(text::views(rows@)[i as int] == rows@[i as int]@);
    match (&rows[i].kind, &rows[i].space) {
        (Kind::Open { .. }, Some(space)) => text::same(space.label.as_str(), label),
        _ => false,
    }
}

/// Decide [`label_is_shared`] and [`directory_is_shared`].
fn shares(rows: &Vec<Row>, i: usize, label: &str) -> (found: (bool, bool))
    requires
        i < rows@.len(),
    ensures
        found.0 == label_is_shared(text::views(rows@), i as int, label@),
        found.1 == directory_is_shared(text::views(rows@), i as int, label@),
{
    let ghost all = text::views(rows@);
    let mine = display_name_for(rows[i].path.as_str());
    let mut label_shared = false;
    let mut directory_shared = false;
    let mut j: usize = 0;
    while j < rows.len()
        invariant
            i < rows@.len(),
            j <= rows@.len(),
            all == text::views(rows@),
            mine@ == display_name(all[i as int].path),
            label_shared == exists|k: int|
                0 <= k < j && k != i && #[trigger] opens_space(all, k, label@),
            directory_shared == exists|k: int|
                0 <= k < j && k != i && #[trigger] opens_space(all, k, label@) && display_name(
                    all[k].path,
                ) == display_name(all[i as int].path),
        decreases rows@.len() - j,
    {
        if j != i && opens(rows, j, label) {
            assert(opens_space(all, j as int, label@));
            assert(all[j as int] == rows@[j as int]@);
            label_shared = true;
            if text::same(display_name_for(rows[j].path.as_str()).as_str(), mine.as_str()) {
                directory_shared = true;
            }
        }
        j += 1;
    }
    (label_shared, directory_shared)
}

/// Work out [`disambiguator`].
fn disambiguator_for(rows: &Vec<Row>, branches: &[(String, String)], i: usize) -> (found: Option<
    String,
>)
    requires
        i < rows@.len(),
        text::views(rows@)[i as int].kind is Open,
        text::views(rows@)[i as int].space is Some,
    ensures
        text::view_of(found) == disambiguator(text::views(rows@), text::views(branches@), i as int),
{
    assert(text::views(rows@)[i as int] == rows@[i as int]@);
    match (&rows[i].kind, &rows[i].space) {
        (Kind::Open { workspace_id, .. }, Some(space)) => {
            let (label_shared, directory_shared) = shares(rows, i, space.label.as_str());
            if !label_shared {
                return None;
            }
            let branch = look_up(branches, workspace_id.as_str());
            if branch.is_some() {
                return branch;
            }
            if !directory_shared {
                return Some(display_name_for(rows[i].path.as_str()));
            }
            match space.number {
                Some(number) => Some(text::number_text(number)),
                None => None,
            }
        },
        _ => None,
    }
}

/// Find [`space_owner`].
fn find_owner(rows: &Vec<Row>, workspace: &str) -> (owner: Option<usize>)
    ensures
        match owner {
            Some(i) => i < rows@.len() && space_owner(text::views(rows@), workspace@, 0) == Some(
                i as int,
            ) && text::views(rows@)[i as int].kind is Open
                && text::views(rows@)[i as int].space is Some,
            None => space_owner(text::views(rows@), workspace@, 0) is None,
        },
{
    let ghost all = text::views(rows@);
    let mut i: usize = 0;
    while i < rows.len()
        invariant
            i <= rows@.len(),
            all == text::views(rows@),
            space_owner(all, workspace@, 0) == space_owner(all, workspace@, i as int),
        decreases rows@.len() - i,
    {
        assert(all[i as int] == rows@[i as int]@);
        if let Kind::Open { workspace_id, .. } = &rows[i].kind {
            if rows[i].space.is_some() && text::same(workspace_id.as_str(), workspace) {
                return Some(i);
            }
        }
        i += 1;
    }
    None
}

/// Tell spaces with the same label apart: by Git branch where there is one, else
/// by a distinct directory name, else by workspace number. Tabs and panes follow
/// their workspace. Other rows stay as they are.
pub fn apply_space_disambiguators(rows: &mut Vec<Row>, branches: &[(String, String)])
    ensures
        text::views(final(rows)@) == disambiguated(text::views(old(rows)@), text::views(branches@)),
{
    let ghost all = text::views(rows@);
    let ghost wanted = disambiguated(all, text::views(branches@));
    let mut updated: Vec<Row> = Vec::new();
    let mut i: usize = 0;
    while i < rows.len()
        invariant
            i <= rows@.len(),
            all == text::views(rows@),
            wanted == disambiguated(all, text::views(branches@)),
            text::views(updated@) == wanted.take(i as int),
        decreases rows@.len() - i,
    {
        assert(all[i as int] == rows@[i as int]@);
        let mut row = rows[i].clone();
        let owner: Option<usize> = match (&rows[i].space, workspace_of(&rows[i].kind)) {
            (Some(_), Some(workspace)) => find_owner(rows, workspace),
            _ => None,
        };
        if let Some(owner) = owner {
            if let Some(space) = &rows[i].space {
                row.space = Some(
                    SpaceContext {
                        label: space.label.clone(),
                        disambiguator: disambiguator_for(rows, branches, owner),
                        number: space.number,
                    },
                );
            }
        }
        assert(row@ =~= wanted[i as int]);
        updated.push(row);
        assert(wanted.take(i + 1) =~= wanted.take(i as int).push(wanted[i as int]));
        i += 1;
    }
    assert(wanted.take(i as int) =~= wanted);
    *rows = updated;
}

} // verus!
