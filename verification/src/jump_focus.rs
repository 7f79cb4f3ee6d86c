//! Listing the panes of a runtime, and focusing one of them: only after it has
//! been found again, in the same workspace and tab.

use vstd::prelude::*;
use crate::config;
use crate::herdr;
use crate::herdr::{Herdr, Pane, PaneModel, TabInfo, TabModel};
use crate::jump_pane;
use crate::jump_pane::{EntryModel, IdentityModel, PaneEntry, PaneIdentity, RuntimeTarget, TargetModel};
use crate::text;

verus! {

broadcast use crate::text::lemma_views_push;

/// Whether a list, where there is one, has a text.
pub open spec fn lets_through(list: Option<Seq<Seq<char>>>, value: Seq<char>) -> bool {
    match list {
        Some(list) => list.contains(value),
        None => true,
    }
}

/// Whether a runtime's filter lets a pane through.
pub open spec fn is_allowed(target: TargetModel, entry: EntryModel) -> bool {
    let filter = target.filter;
    &&& lets_through(filter.runtime, target.id) || lets_through(filter.runtime, target.name)
    &&& lets_through(
        filter.host,
        match target.remote_host {
            Some(host) => host,
            None => "local"@,
        },
    )
    &&& lets_through(filter.workspace, entry.workspace_id)
    &&& lets_through(
        filter.status,
        match entry.agent_status {
            Some(status) => status,
            None => "unknown"@,
        },
    )
    &&& filter.include_hidden || !entry.hidden
    &&& filter.include_plugin || !entry.plugin
    &&& filter.include_floating || !entry.floating
    &&& filter.include_suppressed || !entry.suppressed
}

/// Decide whether a list, where there is one, has a text.
fn passes(list: &Option<Vec<String>>, value: &str) -> (found: bool)
    ensures
        found == lets_through(config::list_view(*list), value@),
{
    match list {
        Some(list) => text::holds(list, value),
        None => true,
    }
}

/// Decide whether a runtime's filter lets a pane through.
pub fn allowed(target: &RuntimeTarget, entry: &PaneEntry) -> (shown: bool)
    ensures
        shown == is_allowed(target@, entry@),
{
    let filter = &target.filter;
    let host = match &target.remote_host {
        Some(host) => host.as_str(),
        None => "local",
    };
    let status = match &entry.agent_status {
        Some(status) => status.as_str(),
        None => "unknown",
    };
    (passes(&filter.runtime, target.id.as_str()) || passes(&filter.runtime, target.name.as_str()))
        && passes(&filter.host, host) && passes(&filter.workspace, entry.workspace_id.as_str())
        && passes(&filter.status, status) && (filter.include_hidden || !entry.hidden) && (
    filter.include_plugin || !entry.plugin) && (filter.include_floating || !entry.floating) && (
    filter.include_suppressed || !entry.suppressed)
}

/// The workspace and the label of a tab: those of the last of the first `n` tabs
/// that have its id and a label.
pub open spec fn labelled_tab(tabs: Seq<TabModel>, id: Seq<char>, n: nat) -> Option<
    (Seq<char>, Seq<char>),
>
    decreases n,
{
    if n == 0 {
        None
    } else if tabs[n - 1].tab_id == id && tabs[n - 1].label is Some {
        Some((tabs[n - 1].workspace_id, tabs[n - 1].label->0))
    } else {
        labelled_tab(tabs, id, (n - 1) as nat)
    }
}

/// The label of a pane's tab. A tab of another workspace is not the pane's; a tab
/// without a workspace may be.
pub open spec fn tab_label_of(tabs: Seq<TabModel>, pane: PaneModel) -> Option<Seq<char>> {
    match pane.tab_id {
        Some(id) => match labelled_tab(tabs, id, tabs.len()) {
            Some((workspace, label)) => if workspace.len() == 0 || workspace
                == pane.workspace_id {
                Some(label)
            } else {
                None
            },
            None => None,
        },
        None => None,
    }
}

/// The row of a pane, with the label of its tab.
pub open spec fn row_of(target: TargetModel, pane: PaneModel, tabs: Seq<TabModel>) -> EntryModel {
    EntryModel {
        tab_label: tab_label_of(tabs, pane),
        ..jump_pane::entry_of(target, pane)
    }
}

/// The rows of the first `n` panes, as far as the runtime's filter lets them
/// through.
pub open spec fn rows_of(
    target: TargetModel,
    panes: Seq<PaneModel>,
    tabs: Seq<TabModel>,
    n: nat,
) -> Seq<EntryModel>
    decreases n,
{
    if n == 0 {
        Seq::empty()
    } else {
        let before = rows_of(target, panes, tabs, (n - 1) as nat);
        let row = row_of(target, panes[n - 1], tabs);
        if is_allowed(target, row) {
            before.push(row)
        } else {
            before
        }
    }
}

/// Find the workspace and the label of a tab.
fn find_tab(tabs: &Vec<TabInfo>, id: &str) -> (found: Option<usize>)
    ensures
        match found {
            Some(i) => i < tabs@.len() && tabs@[i as int].label is Some && labelled_tab(
                text::views(tabs@),
                id@,
                tabs@.len(),
            ) == Some((tabs@[i as int].workspace_id@, tabs@[i as int].label->0@)),
            None => labelled_tab(text::views(tabs@), id@, tabs@.len()) is None,
        },
{
    let ghost all = text::views(tabs@);
    let mut n: usize = tabs.len();
    while n > 0
        invariant
            n <= tabs@.len(),
            all == text::views(tabs@),
            labelled_tab(all, id@, tabs@.len()) == labelled_tab(all, id@, n as nat),
        decreases n,
    {
        assert(all[n - 1] == tabs@[n - 1]@);
        if tabs[n - 1].label.is_some() && text::same(tabs[n - 1].tab_id.as_str(), id) {
            return Some(n - 1);
        }
        n -= 1;
    }
    None
}

/// The label of a pane's tab.
fn label_for(tabs: &Vec<TabInfo>, pane: &Pane) -> (label: Option<String>)
    ensures
        text::view_of(label) == tab_label_of(text::views(tabs@), pane@),
{
    if let Some(id) = &pane.tab_id {
        if let Some(i) = find_tab(tabs, id.as_str()) {
            let tab = &tabs[i];
            if tab.workspace_id.as_str().is_empty() || text::same(
                tab.workspace_id.as_str(),
                pane.workspace_id.as_str(),
            ) {
                return text::copied(&tab.label);
            }
        }
    }
    None
}

/// Make rows of panes, with the labels of their tabs.
pub fn pane_rows(target: &RuntimeTarget, panes: &Vec<Pane>, tabs: &Vec<TabInfo>) -> (rows: Vec<
    PaneEntry,
>)
    ensures
        text::views(rows@) == rows_of(
            target@,
            text::views(panes@),
            text::views(tabs@),
            panes@.len(),
        ),
{
    let ghost listed = text::views(panes@);
    let ghost known = text::views(tabs@);
    let mut rows: Vec<PaneEntry> = Vec::new();
    let mut i: usize = 0;
    assert(text::views(rows@) =~= Seq::empty());
    while i < panes.len()
        invariant
            i <= panes@.len(),
            listed == text::views(panes@),
            known == text::views(tabs@),
            text::views(rows@) == rows_of(target@, listed, known, i as nat),
        decreases panes@.len() - i,
    {
        assert(listed[i as int] == panes@[i as int]@);
        let label = label_for(tabs, &panes[i]);
        let row = PaneEntry::from_pane(target.clone(), panes[i].clone()).with_tab_label(label);
        if allowed(target, &row) {
            rows.push(row);
        }
        i += 1;
    }
    rows
}

/// What listing a runtime gives when the client answers so: a failed pane query
/// fails, tabs are asked for only where there are panes, and a failed tab query
/// leaves panes without labels.
pub open spec fn lists<H: Herdr>(
    client: &H,
    target: TargetModel,
    snapped: herdr::Result<Vec<PaneEntry>>,
) -> bool {
    exists|panes: herdr::Result<Vec<Pane>>| #[trigger]
        call_ensures(H::list_panes, (client,), panes) && match panes {
            Err(error) => snapped is Err && snapped->Err_0@ == error@,
            Ok(panes) => if panes@.len() == 0 {
                snapped is Ok && snapped->Ok_0@.len() == 0
            } else {
                lists_labelled(client, target, text::views(panes@), snapped)
            },
        }
}

/// The part of [`lists`] after the panes.
pub open spec fn lists_labelled<H: Herdr>(
    client: &H,
    target: TargetModel,
    panes: Seq<PaneModel>,
    snapped: herdr::Result<Vec<PaneEntry>>,
) -> bool {
    exists|tabs: herdr::Result<Vec<TabInfo>>| #[trigger]
        call_ensures(H::list_tabs, (client,), tabs) && snapped is Ok && text::views(
            snapped->Ok_0@,
        ) == rows_of(
            target,
            panes,
            match tabs {
                Ok(tabs) => text::views(tabs@),
                Err(_) => Seq::empty(),
            },
            panes.len(),
        )
}

/// List the panes of a runtime.
pub fn snapshot<H: Herdr>(client: &H, target: RuntimeTarget) -> (snapped: herdr::Result<
    Vec<PaneEntry>,
>)
    ensures
        lists(client, target@, snapped),
{
    let listed = client.list_panes();
    let panes = match listed {
        Ok(panes) => panes,
        Err(error) => {
            return Err(error);
        },
    };
    if panes.len() == 0 {
        return Ok(Vec::new());
    }
    let listed_tabs = client.list_tabs();
    let tabs = match listed_tabs {
        Ok(tabs) => tabs,
        Err(_) => {
            let none: Vec<TabInfo> = Vec::new();
            assert(text::views(none@) =~= Seq::empty());
            none
        },
    };
    Ok(pane_rows(&target, &panes, &tabs))
}

/// How focusing a pane went.
#[derive(Debug, PartialEq, Eq)]
pub enum FocusResult {
    Focused,
    /// The pane is not the one that was listed.
    Stale(String),
    Failed(String),
}

/// The view of a [`FocusResult`].
#[verifier::ext_equal]
pub enum FocusModel {
    Focused,
    Stale(Seq<char>),
    Failed(Seq<char>),
}

impl View for FocusResult {
    type V = FocusModel;

    open spec fn view(&self) -> FocusModel {
        match self {
            FocusResult::Focused => FocusModel::Focused,
            FocusResult::Stale(message) => FocusModel::Stale(message@),
            FocusResult::Failed(message) => FocusModel::Failed(message@),
        }
    }
}

/// Why a row cannot be activated at all, where it cannot.
pub open spec fn refusal(entry: EntryModel) -> Option<FocusModel> {
    if !entry.runtime_available {
        Some(FocusModel::Failed("backend unavailable for this runtime"@))
    } else if !entry.focus_supported {
        Some(FocusModel::Failed("absolute pane focus is unsupported for this runtime"@))
    } else {
        None
    }
}

/// Decide whether a row can be activated at all.
pub fn refuse(entry: &PaneEntry) -> (result: Option<FocusResult>)
    ensures
        text::view_of(result) == refusal(entry@),
{
    if !entry.runtime_available {
        Some(FocusResult::Failed("backend unavailable for this runtime".to_string()))
    } else if !entry.focus_supported {
        Some(
            FocusResult::Failed(
                "absolute pane focus is unsupported for this runtime".to_string(),
            ),
        )
    } else {
        None
    }
}

/// The first pane with an id, from `i` on.
pub open spec fn pane_with(panes: Seq<PaneModel>, id: Seq<char>, i: int) -> Option<int>
    decreases panes.len() - i,
{
    if i < 0 || i >= panes.len() {
        None
    } else if panes[i].pane_id == id {
        Some(i)
    } else {
        pane_with(panes, id, i + 1)
    }
}

/// Whether a live pane is the one that a row was made of: it has its workspace,
/// and its tab where both are known. Its directory may have changed.
pub open spec fn is_pane_of(pane: PaneModel, entry: EntryModel) -> bool {
    text::sanitized(pane.workspace_id) == entry.workspace_id && (entry.tab_id is None
        || pane.tab_id is None || pane.tab_id == entry.tab_id)
}

/// Why a row does not stand for a live pane any more, where it does not.
pub open spec fn staleness(live: Seq<PaneModel>, entry: EntryModel) -> Option<FocusModel> {
    match pane_with(live, entry.identity.pane_id, 0) {
        None => Some(FocusModel::Stale("pane is stale; results refreshed"@)),
        Some(i) => if is_pane_of(live[i], entry) {
            None
        } else {
            Some(FocusModel::Stale("pane identity changed; results refreshed"@))
        },
    }
}

/// Decide whether a row still stands for a live pane.
pub fn check_live(live: &Vec<Pane>, entry: &PaneEntry) -> (result: Option<FocusResult>)
    ensures
        text::view_of(result) == staleness(text::views(live@), entry@),
{
    let ghost all = text::views(live@);
    let mut i: usize = 0;
    while i < live.len()
        invariant
            i <= live@.len(),
            all == text::views(live@),
            pane_with(all, entry.identity.pane_id@, 0) == pane_with(
                all,
                entry.identity.pane_id@,
                i as int,
            ),
        decreases live@.len() - i,
    {
        assert(all[i as int] == live@[i as int]@);
        let pane = &live[i];
        if text::same(pane.pane_id.as_str(), entry.identity.pane_id.as_str()) {
            let workspace = text::sanitize_text(pane.workspace_id.as_str());
            let same_tab = match (&entry.tab_id, &pane.tab_id) {
                (Some(listed), Some(now)) => text::same(now.as_str(), listed.as_str()),
                _ => true,
            };
            if text::same(workspace.as_str(), entry.workspace_id.as_str()) && same_tab {
                return None;
            }
            return Some(
                FocusResult::Stale("pane identity changed; results refreshed".to_string()),
            );
        }
        i += 1;
    }
    Some(FocusResult::Stale("pane is stale; results refreshed".to_string()))
}

/// How focusing goes when the client answers so. Panes are listed anew, and one is
/// focused only where the row still stands for it.
pub open spec fn focuses<H: Herdr>(client: &H, entry: EntryModel, result: FocusModel) -> bool {
    match refusal(entry) {
        Some(refused) => result == refused,
        None => exists|live: herdr::Result<Vec<Pane>>| #[trigger]
            call_ensures(H::list_panes, (client,), live) && match live {
                Err(error) => result == FocusModel::Failed(
                    "backend unavailable: "@ + jump_pane::tidy(error@.message()),
                ),
                Ok(live) => match staleness(text::views(live@), entry) {
                    Some(stale) => result == stale,
                    None => focuses_live(client, entry, result),
                },
            },
    }
}

/// The part of [`focuses`] after the pane was found again.
pub open spec fn focuses_live<H: Herdr>(client: &H, entry: EntryModel, result: FocusModel) -> bool {
    exists|id: &str, done: herdr::Result<()>| #[trigger]
        call_ensures(H::focus_pane, (client, id), done) && id@ == entry.identity.pane_id && result
            == match done {
            Ok(_) => FocusModel::Focused,
            Err(error) => FocusModel::Failed(
                jump_pane::tidy("focus failed: "@ + error@.message()),
            ),
        }
}

/// Focus the pane of a row.
pub fn focus_selected<H: Herdr>(client: &H, entry: &PaneEntry) -> (result: FocusResult)
    ensures
        focuses(client, entry@, result@),
{
    if let Some(refused) = refuse(entry) {
        return refused;
    }
    let listed = client.list_panes();
    let live = match listed {
        Ok(live) => live,
        Err(error) => {
            let words = jump_pane::sanitize(error.message().as_str());
            return FocusResult::Failed(text::joined("backend unavailable: ", words.as_str()));
        },
    };
    if let Some(stale) = check_live(&live, entry) {
        return stale;
    }
    let done = client.focus_pane(entry.identity.pane_id.as_str());
    match done {
        Ok(_) => FocusResult::Focused,
        Err(error) => {
            let words = text::joined("focus failed: ", error.message().as_str());
            FocusResult::Failed(jump_pane::sanitize(words.as_str()))
        },
    }
}

/// How many applications are asked for at the same time at most.
pub const MAX_ENRICH_ACTIVE: usize = 4;

/// The first runtime with an id, from `i` on.
pub open spec fn target_with(targets: Seq<TargetModel>, id: Seq<char>, i: int) -> Option<int>
    decreases targets.len() - i,
{
    if i < 0 || i >= targets.len() {
        None
    } else if targets[i].id == id {
        Some(i)
    } else {
        target_with(targets, id, i + 1)
    }
}

/// Find a runtime by its id.
pub fn find_target(targets: &Vec<RuntimeTarget>, id: &str) -> (found: Option<usize>)
    ensures
        match found {
            Some(i) => i < targets@.len() && target_with(text::views(targets@), id@, 0) == Some(
                i as int,
            ),
            None => target_with(text::views(targets@), id@, 0) is None,
        },
{
    let ghost all = text::views(targets@);
    let mut i: usize = 0;
    while i < targets.len()
        invariant
            i <= targets@.len(),
            all == text::views(targets@),
            target_with(all, id@, 0) == target_with(all, id@, i as int),
        decreases targets@.len() - i,
    {
        assert(all[i as int] == targets@[i as int]@);
        if text::same(targets[i].id.as_str(), id) {
            return Some(i);
        }
        i += 1;
    }
    None
}

/// What to ask: of which runtime, for which pane.
#[derive(Debug)]
pub struct EnrichmentJob {
    pub target: usize,
    pub identity: PaneIdentity,
}

/// The view of an [`EnrichmentJob`].
#[verifier::ext_equal]
pub struct JobModel {
    pub target: int,
    pub identity: IdentityModel,
}

impl View for EnrichmentJob {
    type V = JobModel;

    open spec fn view(&self) -> JobModel {
        JobModel { target: self.target as int, identity: self.identity@ }
    }
}

/// The jobs for the first `n` of the chosen rows whose runtime is known.
pub open spec fn jobs_for(
    entries: Seq<EntryModel>,
    chosen: Seq<int>,
    targets: Seq<TargetModel>,
    n: nat,
) -> Seq<JobModel>
    decreases n,
{
    if n == 0 {
        Seq::empty()
    } else {
        let before = jobs_for(entries, chosen, targets, (n - 1) as nat);
        let at = chosen[n - 1];
        if 0 <= at < entries.len() {
            match target_with(targets, entries[at].identity.runtime_id, 0) {
                Some(target) => before.push(
                    JobModel { target, identity: entries[at].identity },
                ),
                None => before,
            }
        } else {
            before
        }
    }
}

/// List the jobs for the chosen rows.
pub fn enrichment_jobs(
    entries: &Vec<PaneEntry>,
    chosen: &Vec<usize>,
    targets: &Vec<RuntimeTarget>,
) -> (jobs: Vec<EnrichmentJob>)
    ensures
        text::views(jobs@) == jobs_for(
            text::views(entries@),
            crate::order::positions(chosen@),
            text::views(targets@),
            chosen@.len(),
        ),
{
    let ghost all = text::views(entries@);
    let ghost places = crate::order::positions(chosen@);
    let ghost known = text::views(targets@);
    let mut jobs: Vec<EnrichmentJob> = Vec::new();
    let mut i: usize = 0;
    assert(text::views(jobs@) =~= Seq::empty());
    while i < chosen.len()
        invariant
            i <= chosen@.len(),
            all == text::views(entries@),
            places == crate::order::positions(chosen@),
            known == text::views(targets@),
            text::views(jobs@) == jobs_for(all, places, known, i as nat),
        decreases chosen@.len() - i,
    {
        let at: usize = chosen[i];
        assert(places[i as int] == at as int);
        if at < entries.len() {
            assert(all[at as int] == entries@[at as int]@);
            if let Some(target) = find_target(targets, entries[at].identity.runtime_id.as_str()) {
                jobs.push(EnrichmentJob { target, identity: entries[at].identity.clone() });
            }
        }
        i += 1;
    }
    jobs
}

/// The jobs that run together, from `from` on: a few at a time.
pub open spec fn batches_from(jobs: Seq<JobModel>, from: int) -> Seq<Seq<JobModel>>
    decreases jobs.len() - from,
{
    if from < 0 || from >= jobs.len() {
        Seq::empty()
    } else if jobs.len() - from <= MAX_ENRICH_ACTIVE {
        seq![jobs.skip(from)]
    } else {
        seq![jobs.subrange(from, from + MAX_ENRICH_ACTIVE)] + batches_from(
            jobs,
            from + MAX_ENRICH_ACTIVE,
        )
    }
}

/// The view of batches.
pub open spec fn batches_view(batches: Seq<Vec<EnrichmentJob>>) -> Seq<Seq<JobModel>> {
    Seq::new(batches.len(), |i: int| text::views(batches[i]@))
}

/// Put jobs into batches that run together.
pub fn enrichment_batches(jobs: Vec<EnrichmentJob>) -> (batches: Vec<Vec<EnrichmentJob>>)
    ensures
        batches_view(batches@) == batches_from(text::views(jobs@), 0),
{
    let ghost all = text::views(jobs@);
    let mut batches: Vec<Vec<EnrichmentJob>> = Vec::new();
    let mut from: usize = 0;
    assert(batches_view(batches@) + batches_from(all, 0) =~= batches_from(all, 0));
    while from < jobs.len()
        invariant
            from <= jobs@.len(),
            all == text::views(jobs@),
            batches_view(batches@) + batches_from(all, from as int) == batches_from(all, 0),
        decreases jobs@.len() - from,
    {
        let to: usize = if jobs.len() - from <= MAX_ENRICH_ACTIVE {
            jobs.len()
        } else {
            from + MAX_ENRICH_ACTIVE
        };
        let mut batch: Vec<EnrichmentJob> = Vec::new();
        let mut k: usize = from;
        assert(text::views(batch@) =~= all.subrange(from as int, k as int));
        while k < to
            invariant
                from <= k <= to <= jobs@.len(),
                all == text::views(jobs@),
                text::views(batch@) == all.subrange(from as int, k as int),
            decreases to - k,
        {
            let job = EnrichmentJob {
                target: jobs[k].target,
                identity: jobs[k].identity.clone(),
            };
            assert(job@ == all[k as int]);
            batch.push(job);
            assert(all.subrange(from as int, k + 1) =~= all.subrange(from as int, k as int).push(
                all[k as int],
            ));
            k += 1;
        }
        let ghost before = batches_view(batches@);
        let ghost one = text::views(batch@);
        batches.push(batch);
        proof {
            assert(batches_view(batches@) =~= before.push(one));
            assert(to == jobs@.len() ==> one =~= all.skip(from as int));
            assert(batches_from(all, from as int) =~= seq![one] + batches_from(all, to as int));
            assert(before + (seq![one] + batches_from(all, to as int)) =~= before.push(one)
                + batches_from(all, to as int));
        }
        from = to;
    }
    assert(batches_view(batches@) + Seq::<Seq<JobModel>>::empty() =~= batches_view(batches@));
    batches
}

} // verus!
