//! Jump Pane mode: rows, ranking, refreshed runtimes, focus, and a run of it.

use herdr_muster::config::{JumpPaneConfig, JumpPaneFilter, JumpPaneSession};
use herdr_muster::fuzzy::FuzzyMatcher;
use herdr_muster::herdr::{Herdr, HerdrError, Pane, Result, TabInfo, Workspace};
use herdr_muster::jump_focus::{
    allowed, check_live, enrichment_batches, enrichment_jobs, focus_selected, refuse, snapshot,
    EnrichmentJob, FocusResult, MAX_ENRICH_ACTIVE,
};
use herdr_muster::jump_list::{
    enrichment_candidates, filter, filter_scored, merge_runtime, recency_for_file, recency_from_file,
    viewport_start, JumpPaneState, PaneRecency, Scores, MAX_ENRICH_CANDIDATES,
};
use herdr_muster::jump_pane::{
    collapse_path, path_basename, sanitize, short_id, targets_under, PaneEntry, PaneIdentity,
    RuntimeTarget,
};
use herdr_muster::jump_session::{
    render, AfterFocus, JumpAction, JumpPane, UiState, MAX_RENDER_ROWS,
};
use herdr_muster::session::{Key, KeyPress};
use std::sync::atomic::{AtomicBool, Ordering};
use std::sync::Arc;

fn pane(id: &str, workspace: &str, cwd: Option<&str>) -> Pane {
    Pane {
        pane_id: id.into(),
        workspace_id: workspace.into(),
        tab_id: Some("tab".into()),
        cwd: cwd.map(str::to_owned),
        foreground_cwd: None,
        agent: Some("agent".into()),
        agent_status: Some("working".into()),
        label: Some("label".into()),
        title: None,
        terminal_title: None,
        focused: false,
        hidden: false,
        plugin: false,
        floating: false,
        suppressed: false,
    }
}

fn entry(id: &str) -> PaneEntry {
    PaneEntry::from_pane(
        RuntimeTarget::default("herdr".into()),
        pane(id, "w", Some("/Users/test/Downloads")),
    )
}

#[test]
fn rows_have_all_fields_and_short_id() {
    let e = entry("w:pabcdefghi");
    assert!(e.primary_display().contains("efghi"));
    assert!(
        e.secondary_display(None).contains("default") && e.secondary_display(None).contains("working")
    );
}
#[test]
fn duplicate_directories_keep_identity() {
    assert_ne!(entry("a").identity, entry("b").identity);
}
#[test]
fn deterministic_order_is_input_independent() {
    let a = entry("a");
    let b = entry("b");
    let mut x = JumpPaneState::default();
    x.replace(vec![b.clone(), a.clone()]);
    let mut y = JumpPaneState::default();
    y.replace(vec![a, b]);
    assert_eq!(
        x.entries.iter().map(|e| &e.identity).collect::<Vec<_>>(),
        y.entries.iter().map(|e| &e.identity).collect::<Vec<_>>()
    );
}
#[test]
fn selection_survives_refresh_and_query() {
    let mut s = JumpPaneState {
        query: "label".into(),
        ..Default::default()
    };
    s.replace(vec![entry("b"), entry("a")]);
    s.selected = 1;
    let selected = s.selected().unwrap().identity.clone();
    s.replace(vec![entry("a"), entry("b")]);
    assert_eq!(s.query, "label");
    assert_eq!(s.selected().unwrap().identity, selected);
}
#[test]
fn scoped_filter_excludes_hidden_and_unlisted_workspace() {
    let mut target = RuntimeTarget::default("herdr".into());
    target.filter.workspace = Some(vec!["w1".into()]);
    let mut hidden = entry("hidden");
    hidden.hidden = true;
    assert!(!allowed(&target, &hidden));
    let mut visible = entry("visible");
    visible.workspace_id = "w1".into();
    assert!(allowed(&target, &visible));
}
#[test]
fn large_snapshot_filter_is_bounded_without_process_lookup() {
    let entries: Vec<_> = (0..5_000)
        .map(|i| entry(&format!("large-pane-{i}")))
        .collect();
    let mut matcher = FuzzyMatcher::new();
    let rows = filter(&entries, "large-pane-4999", &mut matcher, &[], None);
    assert_eq!(rows.len(), 1);
    assert_eq!(entries[rows[0]].identity.pane_id, "large-pane-4999");
}
#[test]
fn application_only_query_uses_all_ranked_candidates_and_caps_at_32() {
    let entries: Vec<_> = (0..40).map(|i| entry(&format!("pane-{i}"))).collect();
    let mut matcher = FuzzyMatcher::new();
    let visible = filter(&entries, "not-an-application-yet", &mut matcher, &[], None);
    assert!(visible.is_empty());
    let candidates = enrichment_candidates(&entries, &visible, &[], None, &mut matcher);
    assert_eq!(candidates.len(), MAX_ENRICH_CANDIDATES);
    assert_eq!(candidates[0], 0);
}
#[test]
fn viewport_keeps_selected_row_visible_beyond_render_cap() {
    assert_eq!(viewport_start(100, 0, MAX_RENDER_ROWS), 0);
    assert_eq!(viewport_start(100, 99, MAX_RENDER_ROWS), 36);
    for selected in 0..100 {
        let start = viewport_start(100, selected, MAX_RENDER_ROWS);
        assert!(selected >= start && selected < start + MAX_RENDER_ROWS);
    }
}
#[test]
fn foreground_cwd_out_ranks_stale_base_cwd() {
    let mut stale = entry("stale");
    stale.cwd = Some("/Users/test/Downloads".into());
    stale.foreground_cwd = Some("/Users/test/project".into());
    let mut current = entry("current");
    current.cwd = Some("/Users/test/other".into());
    current.foreground_cwd = Some("/Users/test/Downloads".into());
    let mut matcher = FuzzyMatcher::new();
    let rows = filter(
        &[stale, current],
        "/Users/test/Downloads",
        &mut matcher,
        &[],
        None,
    );
    assert_eq!(rows, vec![1, 0]);
}
#[test]
fn unsupported_focus_rows_are_visible_but_non_activatable() {
    let mut target = RuntimeTarget::default("herdr".into());
    target.focus_supported = false;
    let row = PaneEntry::from_pane(target, pane("unsupported", "w", None));
    assert_eq!(
        filter(
            std::slice::from_ref(&row),
            "",
            &mut FuzzyMatcher::new(),
            &[],
            None,
        ),
        vec![0]
    );
    assert!(matches!(
        focus_selected(&NoopHerdr, &row),
        FocusResult::Failed(_)
    ));
}
struct NoopHerdr;
impl Herdr for NoopHerdr {
    fn list_workspaces(&self) -> Result<Vec<Workspace>> {
        Ok(Vec::new())
    }
    fn list_panes(&self) -> Result<Vec<Pane>> {
        Ok(Vec::new())
    }
    fn create_workspace(&self, _: &str, _: &str) -> Result<String> {
        unreachable!()
    }
    fn focus_workspace(&self, _: &str) -> Result<()> {
        unreachable!()
    }
    fn close_workspace(&self, _: &str) -> Result<()> {
        unreachable!()
    }
    fn close_pane(&self, _: &str) -> Result<()> {
        unreachable!()
    }
}
struct CwdChangingHerdr {
    live_pane: Pane,
    focused: Arc<AtomicBool>,
}
impl Herdr for CwdChangingHerdr {
    fn list_workspaces(&self) -> Result<Vec<Workspace>> {
        Ok(Vec::new())
    }
    fn list_panes(&self) -> Result<Vec<Pane>> {
        Ok(vec![self.live_pane.clone()])
    }
    fn focus_pane(&self, _: &str) -> Result<()> {
        self.focused.store(true, Ordering::Relaxed);
        Ok(())
    }
    fn create_workspace(&self, _: &str, _: &str) -> Result<String> {
        unreachable!()
    }
    fn focus_workspace(&self, _: &str) -> Result<()> {
        unreachable!()
    }
    fn close_workspace(&self, _: &str) -> Result<()> {
        unreachable!()
    }
    fn close_pane(&self, _: &str) -> Result<()> {
        unreachable!()
    }
}

#[test]
fn cwd_change_with_same_workspace_and_tab_revalidates_and_focuses() {
    let original = pane("cwd-changing", "workspace", Some("/old/path"));
    let mut live = original.clone();
    live.cwd = Some("/new/path".into());
    let focused = Arc::new(AtomicBool::new(false));
    let client = CwdChangingHerdr {
        live_pane: live,
        focused: focused.clone(),
    };
    let entry = PaneEntry::from_pane(RuntimeTarget::default("unused".into()), original);
    assert_ne!(entry.cwd.as_deref(), Some("/new/path"));
    assert_eq!(focus_selected(&client, &entry), FocusResult::Focused);
    assert!(focused.load(Ordering::Relaxed));
}

#[test]
fn runtime_host_is_sanitized_and_searchable() {
    let mut target = RuntimeTarget::default("herdr".into());
    target.remote_host = Some("remote\u{1b}[31m.example".into());
    let row = PaneEntry::from_pane(target, pane("host", "w", None));
    assert_eq!(
        row.target.remote_host.as_deref(),
        Some("remote[31m.example")
    );
    assert!(row.search_fields().contains(&"remote[31m.example"));
    assert!(row.secondary_display(None).contains("remote"));
}
#[test]
fn stale_close_before_focus_retains_query_and_other_runtime() {
    let mut live = entry("live");
    live.identity.runtime_id = "live".into();
    live.target.id = "live".into();
    let mut closed = entry("closed");
    closed.identity.runtime_id = "closed".into();
    closed.target.id = "closed".into();
    let mut state = JumpPaneState {
        query: "keep-me".into(),
        ..Default::default()
    };
    state.replace(vec![live.clone(), closed]);
    assert!(merge_runtime(&mut state, "closed", Ok(Vec::new())).is_none());
    assert_eq!(state.query, "keep-me");
    assert!(state.entries.iter().any(|e| e.identity == live.identity));
}
#[test]
fn backend_loss_disables_only_failed_runtime() {
    let mut one = entry("one");
    one.identity.runtime_id = "one".into();
    one.target.id = "one".into();
    let mut two = entry("two");
    two.identity.runtime_id = "two".into();
    two.target.id = "two".into();
    let mut state = JumpPaneState {
        entries: vec![one, two],
        ..Default::default()
    };
    assert!(merge_runtime(
        &mut state,
        "one",
        Err(HerdrError::Command("lost".into()))
    )
    .is_some());
    assert!(!state.entries[0].runtime_available);
    assert!(state.entries[1].runtime_available);
    assert_eq!(state.filtered().len(), 2);
}
#[test]
fn runtime_refresh_preserves_other_runtime_and_nearest_selection() {
    let mut a = entry("a");
    let mut b = entry("b");
    a.identity.runtime_id = "one".into();
    a.target.id = "one".into();
    b.identity.runtime_id = "two".into();
    b.target.id = "two".into();
    let mut state = JumpPaneState {
        query: "label".into(),
        ..Default::default()
    };
    state.replace(vec![a.clone(), b.clone()]);
    state.selected = state
        .filtered()
        .iter()
        .position(|i| state.entries[*i].identity == b.identity)
        .unwrap();
    let mut replacement = b.clone();
    replacement.cwd = Some("/Users/test/Downloads/new".into());
    merge_runtime(&mut state, "two", Ok(vec![replacement])).unwrap_or_default();
    assert_eq!(state.query, "label");
    assert!(state.entries.iter().any(|e| e.identity.runtime_id == "one"));
    assert_eq!(state.selected().unwrap().identity.runtime_id, "two");
}

fn tab_info(tab_id: &str, workspace: &str, label: Option<&str>) -> TabInfo {
    TabInfo {
        tab_id: tab_id.into(),
        workspace_id: workspace.into(),
        label: label.map(str::to_owned),
        number: None,
        agent_status: None,
    }
}

/// Pane/tab double whose tab list is configurable, so every degradation path
/// (error, timeout, cancellation, empty) is exercised without a CLI.
struct TabHerdr {
    panes: Vec<Pane>,
    tabs: Result<Vec<TabInfo>>,
    tab_calls: Arc<std::sync::atomic::AtomicUsize>,
}

impl TabHerdr {
    fn new(panes: Vec<Pane>, tabs: Vec<TabInfo>) -> Self {
        Self {
            panes,
            tabs: Ok(tabs),
            tab_calls: Arc::new(std::sync::atomic::AtomicUsize::new(0)),
        }
    }
    fn failing(panes: Vec<Pane>, error: HerdrError) -> Self {
        Self {
            panes,
            tabs: Err(error),
            tab_calls: Arc::new(std::sync::atomic::AtomicUsize::new(0)),
        }
    }
    fn tab_calls(&self) -> usize {
        self.tab_calls.load(Ordering::Relaxed)
    }
}

impl Herdr for TabHerdr {
    fn list_workspaces(&self) -> Result<Vec<Workspace>> {
        Ok(Vec::new())
    }
    fn list_panes(&self) -> Result<Vec<Pane>> {
        Ok(self.panes.clone())
    }
    fn list_tabs(&self) -> Result<Vec<TabInfo>> {
        self.tab_calls.fetch_add(1, Ordering::Relaxed);
        self.tabs.clone()
    }
    fn focus_pane(&self, _: &str) -> Result<()> {
        Ok(())
    }
    fn create_workspace(&self, _: &str, _: &str) -> Result<String> {
        unreachable!()
    }
    fn focus_workspace(&self, _: &str) -> Result<()> {
        unreachable!()
    }
    fn close_workspace(&self, _: &str) -> Result<()> {
        unreachable!()
    }
    fn close_pane(&self, _: &str) -> Result<()> {
        unreachable!()
    }
}

fn target() -> RuntimeTarget {
    RuntimeTarget::default("herdr".into())
}

#[test]
fn tab_label_is_joined_by_exact_tab_id() {
    let client = TabHerdr::new(
        vec![pane("p1", "w", None)],
        vec![tab_info("tab", "w", Some("api server"))],
    );
    let rows = snapshot(&client, target()).unwrap();

    assert_eq!(rows.len(), 1);
    assert_eq!(rows[0].tab_id.as_deref(), Some("tab"));
    assert_eq!(rows[0].tab_label.as_deref(), Some("api server"));
}

#[test]
fn tab_label_requires_matching_workspace_id() {
    let client = TabHerdr::new(
        vec![pane("p1", "w", None)],
        vec![tab_info("tab", "other-workspace", Some("wrong tab"))],
    );
    assert_eq!(snapshot(&client, target()).unwrap()[0].tab_label, None);

    // Older payloads may omit workspace_id; an empty value still joins.
    let client = TabHerdr::new(
        vec![pane("p1", "w", None)],
        vec![tab_info("tab", "", Some("legacy"))],
    );
    assert_eq!(
        snapshot(&client, target()).unwrap()[0].tab_label.as_deref(),
        Some("legacy")
    );
}

#[test]
fn missing_or_blank_tab_metadata_leaves_pane_searchable() {
    let mut no_tab = pane("no-tab", "w", None);
    no_tab.tab_id = None;
    let mut unknown_tab = pane("unknown-tab", "w", None);
    unknown_tab.tab_id = Some("not-listed".into());
    let client = TabHerdr::new(
        vec![no_tab, pane("blank-label", "w", None), unknown_tab],
        vec![tab_info("tab", "w", None)],
    );
    let rows = snapshot(&client, target()).unwrap();

    assert_eq!(rows.len(), 3);
    assert!(rows.iter().all(|row| row.tab_label.is_none()));
    assert!(rows.iter().all(|row| !row.search_fields().is_empty()));
    let mut matcher = FuzzyMatcher::new();
    assert_eq!(filter(&rows, "label", &mut matcher, &[], None).len(), 3);
}

#[test]
fn multiple_panes_in_one_tab_share_the_tab_label() {
    let client = TabHerdr::new(
        vec![pane("p1", "w", None), pane("p2", "w", None)],
        vec![tab_info("tab", "w", Some("shared"))],
    );
    let rows = snapshot(&client, target()).unwrap();

    assert_eq!(rows[0].tab_label.as_deref(), Some("shared"));
    assert_eq!(rows[1].tab_label.as_deref(), Some("shared"));
}

#[test]
fn duplicate_tab_labels_keep_distinct_pane_identity() {
    let mut first = pane("p1", "w", None);
    first.tab_id = Some("tab-a".into());
    let mut second = pane("p2", "w", None);
    second.tab_id = Some("tab-b".into());
    let client = TabHerdr::new(
        vec![first, second],
        vec![
            tab_info("tab-a", "w", Some("same")),
            tab_info("tab-b", "w", Some("same")),
        ],
    );
    let rows = snapshot(&client, target()).unwrap();

    assert_eq!(rows[0].tab_label.as_deref(), Some("same"));
    assert_eq!(rows[1].tab_label.as_deref(), Some("same"));
    assert_ne!(rows[0].identity, rows[1].identity);
}

#[test]
fn tab_list_failure_preserves_pane_navigation() {
    let client = TabHerdr::failing(
        vec![pane("p1", "w", None)],
        HerdrError::Command("tab list exploded".into()),
    );
    let rows = snapshot(&client, target()).unwrap();

    assert_eq!(rows.len(), 1);
    assert_eq!(rows[0].tab_label, None);
    assert!(rows[0].runtime_available);
    assert!(rows[0].focus_supported);
    assert_eq!(focus_selected(&client, &rows[0]), FocusResult::Focused);
}

#[test]
fn tab_labels_do_not_leak_across_runtimes() {
    let mut first = target();
    first.id = "first".into();
    let mut second = target();
    second.id = "second".into();
    let one = TabHerdr::new(
        vec![pane("p1", "w", None)],
        vec![tab_info("tab", "w", Some("from-first"))],
    );
    let two = TabHerdr::new(
        vec![pane("p1", "w", None)],
        vec![tab_info("tab", "w", Some("from-second"))],
    );
    let rows_one = snapshot(&one, first).unwrap();
    let rows_two = snapshot(&two, second).unwrap();

    assert_eq!(rows_one[0].tab_label.as_deref(), Some("from-first"));
    assert_eq!(rows_two[0].tab_label.as_deref(), Some("from-second"));
    assert_ne!(rows_one[0].identity, rows_two[0].identity);
}

#[test]
fn empty_pane_list_skips_tab_lookup() {
    let client = TabHerdr::new(Vec::new(), vec![tab_info("tab", "w", Some("unused"))]);
    assert!(snapshot(&client, target()).unwrap().is_empty());
    assert_eq!(client.tab_calls(), 0);
}

#[test]
fn tab_label_is_searchable_without_replacing_pane_name() {
    let mut row = entry("p1");
    row.tab_label = Some("release checklist".into());
    let mut sibling = entry("p2");
    sibling.tab_label = Some("release checklist".into());
    let mut matcher = FuzzyMatcher::new();

    // One tab label matches every pane in that tab, as an ordinary field.
    assert_eq!(
        filter(
            &[row.clone(), sibling],
            "checklist",
            &mut matcher,
            &[],
            None
        ),
        vec![0, 1]
    );
    assert_eq!(
        filter(std::slice::from_ref(&row), "label", &mut matcher, &[], None),
        vec![0]
    );
    assert_eq!(row.primary_display(), "label [p1]");
}

#[test]
fn tab_label_does_not_enable_cross_field_fuzzy_matches() {
    let mut row = entry("p1");
    row.tab_label = Some("alpha".into());
    row.title = Some("beta".into());
    let mut matcher = FuzzyMatcher::new();

    assert!(filter(
        std::slice::from_ref(&row),
        "alphabeta",
        &mut matcher,
        &[],
        None
    )
    .is_empty());
}

#[test]
fn secondary_display_prefers_tab_label_then_tab_id() {
    let mut labeled = entry("p1");
    labeled.tab_label = Some("api server".into());
    let context = labeled.secondary_display(None);
    assert!(context.contains(" / api server"), "{context}");
    assert!(!context.contains(" / tab"), "{context}");

    let plain = entry("p1");
    assert!(plain.secondary_display(None).contains(" / tab"));
}

#[test]
fn secondary_display_omits_tab_context_when_absent() {
    let mut row = entry("p1");
    row.tab_id = None;
    row.tab_label = None;
    row.cwd = None;
    row.foreground_cwd = None;

    assert!(!row.secondary_display(None).contains(" / "));
}

#[test]
fn tab_id_remains_searchable_alongside_tab_label() {
    let mut row = entry("p1");
    row.tab_label = Some("human name".into());
    let mut matcher = FuzzyMatcher::new();

    assert!(row.search_fields().contains(&"tab"));
    assert_eq!(
        filter(std::slice::from_ref(&row), "tab", &mut matcher, &[], None),
        vec![0]
    );
}

#[test]
fn duplicate_pane_names_stay_distinguishable_with_tab_labels() {
    let mut first = entry("p1");
    first.tab_label = Some("tab one".into());
    let mut second = entry("p2");
    second.tab_label = Some("tab two".into());

    assert_ne!(first.primary_display(), second.primary_display());
    assert_ne!(first.secondary_display(None), second.secondary_display(None));
}

#[test]
fn unnamed_pane_is_discoverable_by_tab_label_and_shows_short_id() {
    let mut unnamed = pane("p7", "w", None);
    unnamed.label = None;
    unnamed.title = None;
    unnamed.terminal_title = None;
    unnamed.cwd = None;
    let mut row = PaneEntry::from_pane(target(), unnamed);
    row.tab_label = Some("build logs".into());
    let mut matcher = FuzzyMatcher::new();

    assert_eq!(
        filter(std::slice::from_ref(&row), "build", &mut matcher, &[], None),
        vec![0]
    );
    assert!(row.primary_display().contains(&short_id("p7")));
}

#[test]
fn refresh_removes_stale_tab_labels() {
    let target = target();
    let runtime_id = target.id.clone();
    let labeled = TabHerdr::new(
        vec![pane("p1", "w", None)],
        vec![tab_info("tab", "w", Some("api"))],
    );
    let mut state = JumpPaneState::default();
    merge_runtime(&mut state, &runtime_id, snapshot(&labeled, target.clone()));
    assert_eq!(state.entries[0].tab_label.as_deref(), Some("api"));

    let unlabeled = TabHerdr::new(vec![pane("p1", "w", None)], Vec::new());
    merge_runtime(&mut state, &runtime_id, snapshot(&unlabeled, target));

    assert_eq!(state.entries.len(), 1);
    assert_eq!(state.entries[0].tab_label, None);
}

#[test]
fn selection_survives_refresh_with_tab_labels() {
    let target = target();
    let runtime_id = target.id.clone();
    let initial = TabHerdr::new(
        vec![pane("p1", "w", None), pane("p2", "w", None)],
        vec![tab_info("tab", "w", Some("api"))],
    );
    let mut state = JumpPaneState::default();
    merge_runtime(&mut state, &runtime_id, snapshot(&initial, target.clone()));
    state.selected = 1;
    let selected = state.selected().unwrap().identity.clone();

    let refreshed = TabHerdr::new(
        vec![pane("p1", "w", None), pane("p2", "w", None)],
        vec![tab_info("tab", "w", Some("api renamed"))],
    );
    merge_runtime(
        &mut state,
        &runtime_id,
        snapshot(&refreshed, target.clone()),
    );

    assert_eq!(state.selected().unwrap().identity, selected);
    assert_eq!(
        state.selected().unwrap().tab_label.as_deref(),
        Some("api renamed")
    );

    // The selected pane disappearing falls back to the nearest valid row.
    let shrunken = TabHerdr::new(
        vec![pane("p1", "w", None)],
        vec![tab_info("tab", "w", Some("api renamed"))],
    );
    merge_runtime(&mut state, &runtime_id, snapshot(&shrunken, target));

    assert_eq!(state.entries.len(), 1);
    assert_eq!(state.selected, 0);
    assert_eq!(
        state.selected().unwrap().tab_label.as_deref(),
        Some("api renamed")
    );
}

#[test]
fn tab_list_timeout_degrades_to_unlabeled_panes() {
    let client = TabHerdr::failing(
        vec![pane("p1", "w", None)],
        HerdrError::Timeout("tab list timed out".into()),
    );
    let rows = snapshot(&client, target()).unwrap();

    assert_eq!(rows.len(), 1);
    assert_eq!(rows[0].tab_label, None);
    assert!(rows[0].runtime_available);
}

#[test]
fn tab_list_cancellation_degrades_to_unlabeled_panes() {
    let client = TabHerdr::failing(
        vec![pane("p1", "w", None)],
        HerdrError::Cancelled("cancelled".into()),
    );
    let rows = snapshot(&client, target()).unwrap();

    assert_eq!(rows.len(), 1);
    assert_eq!(rows[0].tab_label, None);
    assert_eq!(focus_selected(&client, &rows[0]), FocusResult::Focused);
}

#[test]
fn failed_runtime_tab_list_does_not_disable_other_runtimes() {
    let mut broken_target = target();
    broken_target.id = "broken".into();
    let mut good_target = target();
    good_target.id = "good".into();
    let broken = TabHerdr::failing(
        vec![pane("p1", "w", None)],
        HerdrError::Command("boom".into()),
    );
    let good = TabHerdr::new(
        vec![pane("p2", "w", None)],
        vec![tab_info("tab", "w", Some("api"))],
    );
    let mut state = JumpPaneState::default();
    merge_runtime(
        &mut state,
        "broken",
        snapshot(&broken, broken_target.clone()),
    );
    merge_runtime(&mut state, "good", snapshot(&good, good_target.clone()));

    assert_eq!(state.entries.len(), 2);
    assert!(state.entries.iter().all(|row| row.runtime_available));
    let labeled = state
        .entries
        .iter()
        .find(|row| row.identity.runtime_id == "good")
        .unwrap();
    assert_eq!(labeled.tab_label.as_deref(), Some("api"));
    assert!(state.entries.iter().any(|row| row.tab_label.is_none()));
}

#[test]
fn named_pane_focus_unchanged_with_tab_labels() {
    let original = pane("focus-me", "workspace", Some("/old/path"));
    let mut live = original.clone();
    live.cwd = Some("/new/path".into());
    let focused = Arc::new(AtomicBool::new(false));
    let client = CwdChangingHerdr {
        live_pane: live,
        focused: focused.clone(),
    };
    let mut row = PaneEntry::from_pane(target(), original);
    row.tab_label = Some("renamed tab".into());

    assert_eq!(focus_selected(&client, &row), FocusResult::Focused);
    assert!(focused.load(Ordering::Relaxed));
}

#[test]
fn recency_is_bounded_and_keeps_the_latest_first() {
    let mut recency = PaneRecency::default();
    for i in 0..150 {
        recency.touch(PaneIdentity {
            runtime_id: "r".into(),
            pane_id: i.to_string(),
        });
    }
    let (version, identities) = recency_for_file(&recency);
    assert_eq!(version, 1);
    assert_eq!(identities.len(), 100);
    assert_eq!(identities[0].pane_id, "149");
    let got = recency_from_file(version, identities);
    assert_eq!(got.0.len(), 100);
    assert_eq!(got.0, recency.0);
}

#[test]
fn recency_of_another_version_or_without_names_is_ignored() {
    let id = |runtime: &str, pane: &str| PaneIdentity {
        runtime_id: runtime.into(),
        pane_id: pane.into(),
    };
    assert!(recency_from_file(0, vec![id("r", "p")]).0.is_empty());
    let got = recency_from_file(1, vec![id("r", "a"), id("", "b"), id("r", ""), id("r", "c")]);
    assert_eq!(got.0, vec![id("r", "a"), id("r", "c")]);
}

#[test]
fn touching_moves_to_the_front_without_duplicates() {
    let id = |pane: &str| PaneIdentity {
        runtime_id: "r".into(),
        pane_id: pane.into(),
    };
    let mut recency = PaneRecency(vec![id("a"), id("b"), id("c")]);
    recency.touch(id("b"));
    assert_eq!(recency.0, vec![id("b"), id("a"), id("c")]);
}

#[test]
fn texts_are_tidied_and_shortened() {
    assert_eq!(sanitize(" \u{1b}[1m x \u{7} "), "[1m x");
    assert_eq!(short_id("w:pabcdefghi"), "bcdefghi");
    assert_eq!(short_id("p7"), "p7");
    assert_eq!(path_basename("/a/b//"), Some("b".into()));
    assert_eq!(path_basename("///"), None);
    assert_eq!(path_basename("plain"), Some("plain".into()));
    assert_eq!(collapse_path("/home/me", Some("/home/me")), "~");
    assert_eq!(collapse_path("/home/me/x", Some("/home/me")), "~/x");
    assert_eq!(collapse_path("/home/meow", Some("/home/me")), "/home/meow");
    assert_eq!(collapse_path("/home/me/x", None), "/home/me/x");
}

#[test]
fn rows_show_where_a_pane_runs() {
    let mut row = entry("w1:p12345678");
    row.target.remote_host = Some("box".into());
    row.application = Some("vim".into());
    assert_eq!(row.primary_display(), "label [12345678]");
    assert_eq!(
        row.secondary_display(Some("/Users/test")),
        "~/Downloads · default · w @ box / tab · agent · working · vim"
    );
    row.label = None;
    assert_eq!(row.primary_display(), "Downloads [12345678]");
    row.cwd = None;
    assert_eq!(row.primary_display(), "12345678 [12345678]");
    assert_eq!(row.path(), None);
}

#[test]
fn search_fields_are_distinct_and_never_empty() {
    let mut row = entry("p1");
    row.title = Some("label".into());
    row.terminal_title = Some(String::new());
    row.focused = true;
    assert_eq!(
        row.search_fields(),
        vec![
            "p1",
            "w",
            "tab",
            "/Users/test/Downloads",
            "label",
            "agent",
            "working",
            "default",
            "focused"
        ]
    );
}

fn session(name: &str) -> JumpPaneSession {
    JumpPaneSession {
        name: name.into(),
        command: None,
        args: Vec::new(),
        remote: None,
        socket: None,
        filter: JumpPaneFilter::default(),
    }
}

#[test]
fn targets_are_the_default_one_and_the_configured_ones() {
    let mut work = session("work");
    work.args = vec!["-x".into()];
    work.socket = Some("~/work.sock".into());
    work.command = Some("/opt/herdr".into());
    let mut remote = session("  ");
    remote.remote = Some("box\u{7}".into());
    let config = JumpPaneConfig {
        sessions: vec![work, remote],
    };
    let targets = targets_under(&config, "herdr", Some("/home/me"));
    assert_eq!(targets.len(), 3);
    assert_eq!(targets[0], RuntimeTarget::default("herdr".into()));
    assert_eq!(targets[1].id, "session:work:0");
    assert_eq!(targets[1].command, "/opt/herdr");
    assert_eq!(targets[1].arg_prefix, vec!["-x", "--session", "work"]);
    assert_eq!(targets[1].socket.as_deref(), Some("/home/me/work.sock"));
    assert!(targets[1].focus_supported);
    assert_eq!(targets[2].name, "session-1");
    assert_eq!(targets[2].command, "herdr");
    assert_eq!(targets[2].remote_host.as_deref(), Some("box"));
    assert_eq!(targets[2].arg_prefix, vec!["--remote", "box\u{7}"]);
    assert!(!targets[2].focus_supported);
}

#[test]
fn filters_apply_to_every_property() {
    let mut target = RuntimeTarget::default("herdr".into());
    let row = entry("p");
    assert!(allowed(&target, &row));
    target.filter.runtime = Some(vec!["other".into()]);
    assert!(!allowed(&target, &row));
    target.filter.runtime = Some(vec!["default".into()]);
    target.filter.host = Some(vec!["local".into()]);
    assert!(allowed(&target, &row));
    target.filter.host = Some(vec!["box".into()]);
    assert!(!allowed(&target, &row));
    target.filter.host = None;
    target.filter.status = Some(vec!["unknown".into()]);
    assert!(!allowed(&target, &row));
    let mut silent = entry("p");
    silent.agent_status = None;
    assert!(allowed(&target, &silent));
    silent.plugin = true;
    assert!(!allowed(&target, &silent));
    target.filter.include_plugin = true;
    silent.floating = true;
    silent.suppressed = true;
    target.filter.include_floating = true;
    assert!(!allowed(&target, &silent));
    target.filter.include_suppressed = true;
    assert!(allowed(&target, &silent));
}

#[test]
fn later_tabs_with_the_same_id_win() {
    let client = TabHerdr::new(
        vec![pane("p1", "w", None)],
        vec![
            tab_info("tab", "w", Some("first")),
            tab_info("tab", "w", Some("second")),
            tab_info("tab", "w", None),
        ],
    );
    assert_eq!(
        snapshot(&client, target()).unwrap()[0].tab_label.as_deref(),
        Some("second")
    );
}

#[test]
fn focus_is_refused_or_stale_with_a_reason() {
    let mut row = entry("p");
    row.runtime_available = false;
    assert_eq!(
        refuse(&row),
        Some(FocusResult::Failed("backend unavailable for this runtime".into()))
    );
    row.runtime_available = true;
    row.focus_supported = false;
    assert_eq!(
        refuse(&row),
        Some(FocusResult::Failed(
            "absolute pane focus is unsupported for this runtime".into()
        ))
    );
    row.focus_supported = true;
    assert_eq!(refuse(&row), None);
    assert_eq!(
        check_live(&Vec::new(), &row),
        Some(FocusResult::Stale("pane is stale; results refreshed".into()))
    );
    assert_eq!(
        check_live(&vec![pane("p", "elsewhere", None)], &row),
        Some(FocusResult::Stale("pane identity changed; results refreshed".into()))
    );
    let mut moved = pane("p", "w", None);
    moved.tab_id = Some("other".into());
    assert_eq!(
        check_live(&vec![moved.clone()], &row),
        Some(FocusResult::Stale("pane identity changed; results refreshed".into()))
    );
    moved.tab_id = None;
    assert_eq!(check_live(&vec![moved], &row), None);
}

/// A runtime whose panes cannot be listed, or whose focus fails.
struct BrokenHerdr {
    lists: bool,
}

impl Herdr for BrokenHerdr {
    fn list_workspaces(&self) -> Result<Vec<Workspace>> {
        Ok(Vec::new())
    }
    fn list_panes(&self) -> Result<Vec<Pane>> {
        if self.lists {
            Ok(vec![pane("p", "w", None)])
        } else {
            Err(HerdrError::Timeout(" slow\u{7} ".into()))
        }
    }
    fn focus_pane(&self, _: &str) -> Result<()> {
        Err(HerdrError::Command("no \u{1b}socket ".into()))
    }
    fn create_workspace(&self, _: &str, _: &str) -> Result<String> {
        unreachable!()
    }
    fn focus_workspace(&self, _: &str) -> Result<()> {
        unreachable!()
    }
    fn close_workspace(&self, _: &str) -> Result<()> {
        unreachable!()
    }
    fn close_pane(&self, _: &str) -> Result<()> {
        unreachable!()
    }
}

#[test]
fn failed_backends_say_why() {
    assert_eq!(
        focus_selected(&BrokenHerdr { lists: false }, &entry("p")),
        FocusResult::Failed("backend unavailable: slow".into())
    );
    assert_eq!(
        focus_selected(&BrokenHerdr { lists: true }, &entry("p")),
        FocusResult::Failed("focus failed: no socket".into())
    );
    assert!(snapshot(&BrokenHerdr { lists: false }, target()).is_err());
}

#[test]
fn ranking_prefers_exact_then_recent_then_close_then_quiet() {
    let mut exact = entry("exact");
    exact.label = Some("LABEL".into());
    let mut longer = entry("longer");
    longer.label = Some("label of another".into());
    let mut matcher = FuzzyMatcher::new();
    assert_eq!(
        filter(&[longer, exact], "label", &mut matcher, &[], None),
        vec![1, 0]
    );

    let mut busy = entry("a-busy");
    busy.agent_status = Some("blocked".into());
    let quiet = entry("z-quiet");
    let mut near = entry("m-near");
    near.workspace_id = "here".into();
    let recent = entry("y-recent");
    let rows = [busy, quiet, near, recent];
    let recency = [rows[3].identity.clone()];
    assert_eq!(
        filter(&rows, "", &mut matcher, &recency, Some(("here", Some("tab")))),
        vec![3, 2, 1, 0]
    );
}

#[test]
fn jobs_run_a_few_at_a_time_and_only_for_known_runtimes() {
    let mut entries: Vec<PaneEntry> = (0..9).map(|i| entry(&format!("p{i}"))).collect();
    entries[3].identity.runtime_id = "gone".into();
    let chosen: Vec<usize> = vec![0, 1, 2, 3, 4, 5, 6, 7, 8, 99];
    let jobs = enrichment_jobs(&entries, &chosen, &vec![target()]);
    assert_eq!(jobs.len(), 8);
    assert!(jobs.iter().all(|job: &EnrichmentJob| job.target == 0));
    let batches = enrichment_batches(jobs);
    assert_eq!(
        batches.iter().map(Vec::len).collect::<Vec<_>>(),
        vec![MAX_ENRICH_ACTIVE, 4]
    );
    assert_eq!(batches[0][3].identity.pane_id, "p4");
    assert!(enrichment_batches(Vec::new()).is_empty());
}

#[test]
fn candidates_are_distinct() {
    let entries = vec![entry("a"), entry("b")];
    let mut matcher = FuzzyMatcher::new();
    assert_eq!(
        enrichment_candidates(&entries, &[1, 1, 0, 1], &[], None, &mut matcher),
        vec![1, 0]
    );
}

#[test]
fn ui_states_have_words() {
    assert_eq!(UiState::Loading.message(), "loading panes…");
    assert_eq!(UiState::Ready.message(), "ready");
    assert_eq!(UiState::EmptyRuntime.message(), "no panes available");
    assert_eq!(UiState::ZeroMatches.message(), "no matches");
    assert_eq!(UiState::Stale("s".into()).message(), "s");
    assert_eq!(UiState::BackendUnavailable("b".into()).message(), "b");
    assert_eq!(UiState::FocusFailure("f".into()).message(), "f");
    assert_eq!(UiState::Success.message(), "focused");
    assert_eq!(UiState::Cancelled.message(), "cancelled");
}

#[test]
fn screens_are_lines_of_text() {
    let mut unavailable = entry("p2");
    unavailable.runtime_available = false;
    let mut unsupported = entry("p3");
    unsupported.focus_supported = false;
    let state = JumpPaneState {
        entries: vec![entry("p1"), unavailable, unsupported],
        query: "\u{1b}q".into(),
        selected: 1,
        ..Default::default()
    };
    let lines = render(
        &state,
        &vec![0, 1, 2],
        &UiState::Ready,
        &vec!["bad\u{7}".into()],
        Some("/Users/test"),
    );
    assert_eq!(lines.len(), 8);
    assert_eq!(lines[0], "\u{1b}[2J\u{1b}[HJump Pane · ready · query: q");
    assert_eq!(lines[1], "  label [p1]");
    assert_eq!(lines[2], "  ~/Downloads · default · w / tab · agent · working");
    assert_eq!(lines[3], "> label [p2] [unavailable]");
    assert_eq!(lines[5], "  label [p3] [focus unsupported]");
    assert_eq!(lines[7], "! bad");
}

#[test]
fn long_lists_are_cut_around_the_selection() {
    let state = JumpPaneState {
        entries: (0..100).map(|i| entry(&format!("p{i}"))).collect(),
        selected: 99,
        ..Default::default()
    };
    let filtered: Vec<usize> = (0..100).collect();
    let lines = render(&state, &filtered, &UiState::Ready, &Vec::new(), None);
    assert_eq!(lines.len(), 1 + 2 * MAX_RENDER_ROWS + 1);
    assert_eq!(lines[1], "  label [p36]");
    assert_eq!(lines[127], "> label [p99]");
    assert_eq!(lines[129], "… 36 more");
}

fn press(key: Key) -> KeyPress {
    KeyPress {
        key,
        control: false,
        alt: false,
    }
}

fn started(entries: Vec<PaneEntry>) -> JumpPane {
    let mut run = JumpPane::new(JumpPaneState::default(), vec![target()], vec![Ok(entries)]);
    run.settle();
    run
}

#[test]
fn runs_focus_the_selected_pane_and_remember_it() {
    let mut run = started(vec![entry("b"), entry("a")]);
    assert!(matches!(run.press(press(Key::Down)), JumpAction::Stay));
    match run.press(press(Key::Enter)) {
        JumpAction::Focus { target, entry } => {
            assert_eq!(target, 0);
            assert_eq!(entry.identity.pane_id, "b");
            assert_eq!(
                run.after_focus(&entry.identity, FocusResult::Focused),
                AfterFocus::Done
            );
            let (version, identities) = run.remembered();
            assert_eq!(version, 1);
            assert_eq!(identities, vec![entry.identity]);
        }
        other => panic!("{other:?}"),
    }
}

#[test]
fn escape_leaves_and_control_j_is_enter() {
    let mut run = started(vec![entry("a")]);
    let enter = KeyPress {
        key: Key::Char('j'),
        control: true,
        alt: false,
    };
    assert!(matches!(run.press(enter), JumpAction::Focus { .. }));
    match run.press(press(Key::Esc)) {
        JumpAction::Leave(FocusResult::Stale(message)) => assert_eq!(message, "cancelled"),
        other => panic!("{other:?}"),
    }
}

#[test]
fn typing_filters_and_backspace_widens() {
    let mut other = entry("b");
    other.label = Some("zebra".into());
    let mut run = started(vec![entry("a"), other]);
    for c in "zebra".chars() {
        run.press(press(Key::Char(c)));
    }
    run.settle();
    let lines = run.lines(None);
    assert_eq!(lines.len(), 3);
    assert_eq!(lines[1], "> zebra [b]");
    for _ in 0..6 {
        run.press(press(Key::Backspace));
    }
    run.settle();
    assert_eq!(run.lines(None).len(), 5);
    for c in "zzzz".chars() {
        run.press(press(Key::Char(c)));
    }
    run.settle();
    assert!(run.lines(None)[0].contains("no matches"));
    assert!(matches!(run.press(press(Key::Enter)), JumpAction::Stay));
}

#[test]
fn stale_panes_are_listed_again() {
    let mut run = started(vec![entry("a"), entry("b")]);
    assert_eq!(run.enrich(), vec![0, 1]);
    assert!(run.enrich().is_empty());
    assert_eq!(
        run.after_focus(&entry("a").identity, FocusResult::Stale("gone".into())),
        AfterFocus::Refresh
    );
    assert!(run.lines(None)[0].contains("gone"));
    run.refresh(0, Ok(vec![entry("b")]));
    run.settle();
    assert_eq!(run.lines(None).len(), 3);
    assert_eq!(run.enrich(), vec![0]);
    run.refresh(0, Err(HerdrError::Command("lost".into())));
    run.settle();
    let lines = run.lines(None);
    assert!(lines[1].ends_with("[unavailable]"));
    assert_eq!(lines.last().unwrap(), "! default: lost");
    assert!(lines[0].contains("default: lost"));
}

#[test]
fn failures_are_told_apart() {
    let mut run = started(vec![entry("a")]);
    let identity = entry("a").identity;
    assert_eq!(
        run.after_focus(&identity, FocusResult::Failed("focus failed: x".into())),
        AfterFocus::Stay
    );
    assert!(run.lines(None)[0].contains("focus failed: x"));
    run.after_focus(
        &identity,
        FocusResult::Failed("backend unavailable: y".into()),
    );
    assert!(run.lines(None)[0].contains("backend unavailable: y"));
}

#[test]
fn failed_runtimes_do_not_hide_the_others() {
    let mut named = target();
    named.id = "session:x:0".into();
    named.name = "x".into();
    let mut run = JumpPane::new(
        JumpPaneState::default(),
        vec![target(), named],
        vec![Ok(vec![entry("a")]), Err(HerdrError::Command("down".into()))],
    );
    run.settle();
    let lines = run.lines(None);
    assert!(lines[0].contains("x: down"));
    assert_eq!(lines[1], "> label [a]");
    assert_eq!(lines[3], "! x: down");
}

#[test]
fn told_applications_become_searchable() {
    let mut run = started(vec![entry("a"), entry("b")]);
    run.tell(&entry("b").identity, Some("emacs".into()));
    for c in "emacs".chars() {
        run.press(press(Key::Char(c)));
    }
    run.settle();
    assert_eq!(run.lines(None)[1], "> label [b]");
    let batches = run.jobs(&vec![0, 1]);
    assert_eq!(batches.len(), 1);
    assert_eq!(batches[0].len(), 2);
}

#[test]
fn unknown_runtimes_cannot_be_focused() {
    let mut stray = entry("a");
    stray.identity.runtime_id = "elsewhere".into();
    let mut run = started(vec![stray]);
    assert!(matches!(run.press(press(Key::Enter)), JumpAction::Stay));
    assert!(run.lines(None)[0].contains("runtime target unavailable"));
    let mut odd = entry("a");
    odd.target.id = "elsewhere".into();
    let mut run = started(vec![odd]);
    assert!(matches!(run.press(press(Key::Enter)), JumpAction::Stay));
    assert!(run.lines(None)[0].contains("runtime identity changed; refresh required"));
}

#[test]
fn scored_panes_are_ranked_by_their_scores() {
    let scores = |best, foreground| Scores { best, foreground };
    let mut exact = entry("d");
    exact.label = Some("Query".into());
    let entries = vec![entry("a"), entry("b"), entry("c"), exact, entry("e")];
    let given = vec![
        scores(Some(10), None),
        scores(Some(90), None),
        scores(None, Some(99)),
        scores(Some(1), None),
        scores(Some(5), Some(3)),
    ];
    // The foreground directory counts most, then a field that is the query.
    assert_eq!(
        filter_scored(&entries, "query", &given, &[], None),
        vec![4, 3, 1, 0]
    );
    let recent = vec![entry("a").identity];
    let alike = vec![scores(Some(0), None); entries.len()];
    assert_eq!(
        filter_scored(&entries, "", &alike, &recent, None),
        vec![0, 1, 2, 3, 4]
    );
}

#[test]
fn runtimes_with_one_name_have_ids_of_their_own() {
    let config = JumpPaneConfig {
        sessions: vec![
            session("work"),
            session("work"),
            session("work:1"),
            session(" "),
        ],
    };
    let targets = targets_under(&config, "herdr", None);
    let ids: Vec<&str> = targets.iter().map(|target| target.id.as_str()).collect();
    assert_eq!(
        ids,
        vec![
            "default",
            "session:work:0",
            "session:work:1",
            "session:work:1:2",
            "session:session-3:3"
        ]
    );
}

#[test]
fn searches_do_not_depend_on_the_order_of_panes() {
    let entries: Vec<PaneEntry> = ["c", "a", "d", "b"].iter().map(|id| entry(id)).collect();
    let mut matcher = FuzzyMatcher::new();
    for query in ["", "label", "nothing matches this"] {
        let mut found = |order: &[usize]| {
            let listed: Vec<PaneEntry> = order.iter().map(|&i| entries[i].clone()).collect();
            let recency = [entries[2].identity.clone()];
            filter(&listed, query, &mut matcher, &recency, None)
                .iter()
                .map(|&i| listed[i].identity.clone())
                .collect::<Vec<PaneIdentity>>()
        };
        let first = found(&[0, 1, 2, 3]);
        for order in [[3, 2, 1, 0], [2, 0, 3, 1], [1, 3, 0, 2]] {
            assert_eq!(found(&order), first);
        }
    }
}
