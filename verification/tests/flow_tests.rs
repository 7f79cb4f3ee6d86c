//! Whole runs against made-up runtimes: rows are found by what is typed, and only
//! the exact workspace, tab or pane is focused.

use herdr_muster::driver::carry_out;
use herdr_muster::herdr::{Herdr, HerdrError, Pane, Result, TabInfo, Workspace};
use herdr_muster::config::{JumpPaneConfig, JumpPaneFilter, JumpPaneSession};
use herdr_muster::jump_focus::{
    enrichment_batches, enrichment_jobs, focus_selected, snapshot, FocusResult, MAX_ENRICH_ACTIVE,
};
use herdr_muster::jump_list::{enrichment_candidates, filter, JumpPaneState};
use herdr_muster::jump_pane::{targets_under, PaneEntry, RuntimeTarget};
use herdr_muster::jump_session::{JumpAction, JumpPane};
use herdr_muster::fuzzy::FuzzyMatcher;
use herdr_muster::model::{assemble, Host};
use herdr_muster::picker::PickerState;
use herdr_muster::refresh::{load_herdr, Message, ProjectSourceStatus, Snapshot};
use herdr_muster::registry::Registry;
use herdr_muster::session::{Feed, Key, KeyPress, Picker};
use herdr_muster::wire::parse_process_name;
use std::cell::RefCell;

/// A runtime that notes its calls.
#[derive(Default)]
struct Runtime {
    workspaces: Vec<Workspace>,
    panes: Vec<Pane>,
    tabs: Vec<TabInfo>,
    down: bool,
    no_tabs: bool,
    calls: RefCell<Vec<String>>,
}

impl Runtime {
    fn note(&self, call: String) {
        self.calls.borrow_mut().push(call);
    }

    fn called(&self, word: &str) -> bool {
        self.calls.borrow().iter().any(|call| call.contains(word))
    }
}

impl Herdr for Runtime {
    fn list_workspaces(&self) -> Result<Vec<Workspace>> {
        self.note("workspace list".into());
        Ok(self.workspaces.clone())
    }
    fn list_panes(&self) -> Result<Vec<Pane>> {
        self.note("pane list".into());
        if self.down {
            return Err(HerdrError::Command("unavailable".into()));
        }
        Ok(self.panes.clone())
    }
    fn list_tabs(&self) -> Result<Vec<TabInfo>> {
        self.note("tab list".into());
        if self.no_tabs {
            return Err(HerdrError::Command("tab-list-unavailable".into()));
        }
        Ok(self.tabs.clone())
    }
    fn focus_tab(&self, id: &str) -> Result<()> {
        self.note(format!("tab.focus {id}"));
        Ok(())
    }
    fn focus_pane(&self, id: &str) -> Result<()> {
        self.note(format!("pane.focus {id}"));
        Ok(())
    }
    fn process_name(&self, id: &str) -> Result<Option<String>> {
        self.note(format!("process-info {id}"));
        if id == "failed" {
            return Err(HerdrError::Command("intentional failure for failed".into()));
        }
        parse_process_name(&format!(
            "{{\"result\":{{\"processes\":[{{\"name\":\"app-{id}\"}}]}}}}"
        ))
    }
    fn create_workspace(&self, _cwd: &str, _label: &str) -> Result<String> {
        self.note("workspace create".into());
        Ok("new".into())
    }
    fn focus_workspace(&self, id: &str) -> Result<()> {
        self.note(format!("workspace focus {id}"));
        Ok(())
    }
    fn close_workspace(&self, _id: &str) -> Result<()> {
        self.note("workspace close".into());
        Ok(())
    }
    fn close_pane(&self, _id: &str) -> Result<()> {
        self.note("pane close".into());
        Ok(())
    }
}

fn pane(id: &str, workspace: &str, tab: &str, cwd: &str, label: Option<&str>) -> Pane {
    Pane {
        pane_id: id.into(),
        workspace_id: workspace.into(),
        tab_id: Some(tab.into()),
        cwd: Some(cwd.into()),
        foreground_cwd: None,
        agent: None,
        agent_status: None,
        label: label.map(str::to_owned),
        title: None,
        terminal_title: None,
        focused: false,
        hidden: false,
        plugin: false,
        floating: false,
        suppressed: false,
    }
}

fn tab(id: &str, workspace: &str, label: &str) -> TabInfo {
    TabInfo {
        tab_id: id.into(),
        workspace_id: workspace.into(),
        label: Some(label.into()),
        number: None,
        agent_status: None,
    }
}

fn work() -> Runtime {
    let mut editor = pane("w1:p1", "w1", "w1:t1", "/Users/me/work", Some("editor"));
    editor.agent = Some("codex".into());
    editor.agent_status = Some("working".into());
    let mut shell = pane("w1:p2", "w1", "w1:t1", "/Users/me/work", None);
    shell.terminal_title = Some("unnamed shell".into());
    Runtime {
        workspaces: vec![Workspace {
            workspace_id: "w1".into(),
            label: "work".into(),
            number: None,
            agent_status: "working".into(),
        }],
        panes: vec![editor, shell],
        tabs: vec![tab("w1:t1", "w1", "shell"), tab("w1:t2", "w1", "build logs")],
        ..Runtime::default()
    }
}

fn press(key: Key) -> KeyPress {
    KeyPress {
        key,
        control: false,
        alt: false,
    }
}

/// Open the picker, type, press Enter and carry out the decision. What was shown
/// before anything was typed is returned.
fn pick(runtime: &Runtime, query: &str) -> String {
    let data = load_herdr(runtime).unwrap();
    let rows = assemble(
        &[],
        &data.workspaces,
        &data.panes,
        &data.tabs,
        &[],
        &[],
        None,
        &Host::bare(),
    );
    let mut run = Picker::new(PickerState::default());
    run.receive(Feed::Message(Message::Ready(Snapshot {
        rows,
        project_source_status: ProjectSourceStatus::Disabled,
        live_workspace_ids: data.live_workspace_ids,
        origin_workspace: None,
    })));
    run.settle();
    let shown: Vec<String> = run.frame(140).items.iter().map(|item| item.line.text()).collect();
    for c in query.chars() {
        assert!(run.press(press(Key::Char(c))).is_none());
        run.settle();
    }
    let outcome = run.press(press(Key::Enter)).expect("a decision");
    let mut registry = Registry::default();
    carry_out(runtime, &mut registry, &outcome, "/Users/me/work", PickerState::default())
        .next
        .unwrap();
    shown.join("\n")
}

#[test]
fn picker_tab_row_is_searchable_and_focuses_the_exact_tab() {
    let runtime = work();
    let rendered = pick(&runtime, "build logs");
    assert!(runtime.called("tab.focus w1:t2"));
    assert!(!runtime.called("pane.focus"));
    // The tab is listed as a row before any query is typed.
    assert!(rendered.contains("build logs"), "{rendered}");
}

#[test]
fn picker_renamed_pane_row_is_searchable_and_focuses_the_exact_pane() {
    let runtime = work();
    let rendered = pick(&runtime, "editor");
    assert!(runtime.called("pane.focus w1:p1"));
    assert!(!runtime.called("tab.focus"));
    assert!(rendered.contains("editor"), "{rendered}");
}

#[test]
fn picker_unnamed_pane_is_not_a_row_but_stays_searchable() {
    // "unnamed shell" is a terminal title, not a rename: the workspace row
    // keeps it searchable, and Enter focuses the workspace, not a pane.
    let runtime = work();
    pick(&runtime, "unnamed shell");
    assert!(!runtime.called("pane.focus"));
    assert!(!runtime.called("tab.focus"));
    assert!(runtime.called("workspace focus w1"));
}

fn session(name: &str, socket: &str) -> JumpPaneSession {
    JumpPaneSession {
        name: name.into(),
        command: Some("/tmp/fake-herdr.sh".into()),
        args: Vec::new(),
        remote: Some(format!("{name}.example")),
        socket: Some(socket.into()),
        filter: JumpPaneFilter::default(),
    }
}

fn labels() -> Vec<TabInfo> {
    vec![
        tab("tab-one", "workspace-one", "one tab label"),
        tab("tab-two", "workspace-two", "two tab label"),
        tab("tab-three", "workspace-two", "three tab label"),
    ]
}

/// The default runtime, which has no panes, and two others with colliding ids.
fn three() -> Vec<Runtime> {
    let mut one = pane(
        "collision",
        "workspace-one",
        "tab-one",
        "/stale/Downloads",
        Some("one-agent"),
    );
    one.foreground_cwd = Some("/one/project".into());
    one.agent = Some("codex".into());
    one.agent_status = Some("working".into());
    let mut two = pane(
        "collision",
        "workspace-two",
        "tab-two",
        "/two/project",
        Some("two-shell"),
    );
    two.foreground_cwd = Some("/Users/test/Downloads".into());
    let ordinary = pane(
        "ordinary",
        "workspace-two",
        "tab-three",
        "/two/other",
        Some("ordinary"),
    );
    vec![
        Runtime::default(),
        Runtime {
            panes: vec![one],
            tabs: labels(),
            ..Runtime::default()
        },
        Runtime {
            panes: vec![two, ordinary],
            tabs: labels(),
            ..Runtime::default()
        },
    ]
}

/// List the panes of all runtimes, type, press a last key, and focus what it
/// chose. What was shown at first is returned.
fn jump(runtimes: &[Runtime], query: &str, last: Key) -> (String, Option<FocusResult>) {
    let config = JumpPaneConfig {
        sessions: vec![session("one", "/tmp/one.sock"), session("two", "/tmp/two.sock")],
    };
    let targets = targets_under(&config, "herdr", None);
    assert_eq!(targets.len(), runtimes.len());
    let listed = targets
        .iter()
        .zip(runtimes)
        .map(|(target, runtime)| snapshot(runtime, target.clone()))
        .collect();
    let mut run = JumpPane::new(JumpPaneState::default(), targets, listed);
    run.settle();
    let shown = run.lines(None).join("\n");
    for c in query.chars() {
        assert!(matches!(run.press(press(Key::Char(c))), JumpAction::Stay));
        run.settle();
    }
    match run.press(press(last)) {
        JumpAction::Focus { target, entry } => {
            let result = focus_selected(&runtimes[target], &entry);
            (shown, Some(result))
        }
        _ => (shown, None),
    }
}

#[test]
fn jump_pane_e2e_routes_colliding_ids_and_never_runs_workspace_actions() {
    let runtimes = three();
    let (_, result) = jump(&runtimes, "Downloads", Key::Enter);
    assert_eq!(result, Some(FocusResult::Focused));
    assert!(runtimes[2].called("pane.focus collision"));
    assert!(!runtimes[1].called("pane.focus"));
    for runtime in &runtimes {
        assert!(!runtime.called("workspace create"));
        assert!(!runtime.called("workspace focus"));
        assert!(!runtime.called("pane create"));
        assert!(!runtime.called("pane close"));
    }
}

#[test]
fn jump_pane_e2e_escape_and_scoped_runtime_failure_keep_other_rows() {
    let mut runtimes = three();
    runtimes[1].down = true;
    let (output, result) = jump(&runtimes, "", Key::Esc);
    assert!(output.contains("two-shell") || output.contains("ordinary"));
    assert!(runtimes[1].called("pane list") && runtimes[2].called("pane list"));
    assert_eq!(result, None);
    assert!(!runtimes[1].called("pane.focus"));
    assert!(!runtimes[2].called("pane.focus"));
}

#[test]
fn jump_pane_e2e_selects_ordinary_no_agent_pane() {
    let runtimes = three();
    jump(&runtimes, "ordinary", Key::Enter);
    assert!(!runtimes[1].called("pane.focus"));
    assert!(runtimes[2].called("pane.focus ordinary"));
}

#[test]
fn tab_label_search_focuses_exact_pane() {
    let runtimes = three();
    jump(&runtimes, "two tab label", Key::Enter);
    assert!(runtimes[2].called("tab list"), "tab list was not invoked");
    // "two tab label" belongs to the tab of session two's colliding pane.
    assert!(runtimes[2].called("pane.focus collision"));
    assert!(!runtimes[1].called("pane.focus"));
    assert!(!runtimes[2].called("workspace create"));
    assert!(!runtimes[2].called("workspace focus"));
}

#[test]
fn tab_list_failure_still_lists_and_focuses_panes() {
    let mut runtimes = three();
    runtimes[1].no_tabs = true;
    runtimes[2].no_tabs = true;
    let (output, _) = jump(&runtimes, "Downloads", Key::Enter);
    assert!(runtimes[2].called("tab list"));
    assert!(output.contains("two-shell") || output.contains("collision"));
    assert!(runtimes[2].called("pane.focus collision"));
    assert!(!runtimes[1].called("pane.focus"));
}

fn entry(id: &str) -> PaneEntry {
    PaneEntry::from_pane(
        RuntimeTarget::default("unused".into()),
        pane(id, "w", "tab", "/old", None),
    )
}

#[test]
fn initial_snapshot_and_filter_do_not_call_process_info_until_enrichment_starts() {
    let runtime = Runtime {
        panes: vec![pane("pane-1", "w", "tab", "/old", None)],
        ..Runtime::default()
    };
    let target = RuntimeTarget::default("unused".into());
    let entries = snapshot(&runtime, target.clone()).unwrap();
    let mut matcher = FuzzyMatcher::new();
    let visible = filter(&entries, "", &mut matcher, &[], None);
    assert_eq!(visible, vec![0]);
    assert!(
        !runtime.called("process-info"),
        "snapshot/filter must be process-info free"
    );
    let candidates = enrichment_candidates(&entries, &visible, &[], None, &mut matcher);
    let batches = enrichment_batches(enrichment_jobs(&entries, &candidates, &vec![target]));
    assert_eq!(batches.len(), 1);
    assert_eq!(batches[0].len(), 1);
    let identity = &batches[0][0].identity;
    assert_eq!(identity.pane_id, "pane-1");
    assert_eq!(
        runtime.process_name(&identity.pane_id),
        Ok(Some("app-pane-1".to_string()))
    );
}

#[test]
fn enrichment_schedules_at_most_32_candidates_with_four_active_lookups() {
    let entries: Vec<_> = (0..40).map(|i| entry(&format!("pane-{i}"))).collect();
    let mut matcher = FuzzyMatcher::new();
    let visible: Vec<usize> = (0..entries.len()).collect();
    let candidates = enrichment_candidates(&entries, &visible, &[], None, &mut matcher);
    assert_eq!(candidates.len(), 32);
    let target = RuntimeTarget::default("unused".into());
    let batches = enrichment_batches(enrichment_jobs(&entries, &candidates, &vec![target]));
    assert_eq!(batches.iter().map(Vec::len).sum::<usize>(), 32);
    assert!(batches.iter().all(|batch| batch.len() <= MAX_ENRICH_ACTIVE));
}

#[test]
fn failed_enrichment_is_partial_and_successful_applications_remain_searchable() {
    let runtime = Runtime::default();
    let mut enriched: Vec<_> = ["ok-a", "failed", "ok-b"].into_iter().map(entry).collect();
    for row in &mut enriched {
        row.application = runtime
            .process_name(&row.identity.pane_id)
            .ok()
            .flatten();
    }
    assert_eq!(enriched[1].application, None);
    assert_eq!(
        enriched
            .iter()
            .filter_map(|entry| entry.application.as_deref())
            .collect::<Vec<_>>(),
        vec!["app-ok-a", "app-ok-b"]
    );
    let mut matcher = FuzzyMatcher::new();
    assert_eq!(
        filter(&enriched, "app-ok-b", &mut matcher, &[], None),
        vec![2]
    );
}

#[test]
fn re_enrichment_updates_application_after_refresh() {
    let target = RuntimeTarget::default("unused".into());
    let mut run = JumpPane::new(
        JumpPaneState::default(),
        vec![target],
        vec![Ok(vec![entry("changing")])],
    );
    let identity = entry("changing").identity;
    let matches = |run: &mut JumpPane, query: &str| {
        for c in query.chars() {
            run.press(press(Key::Char(c)));
        }
        run.settle();
        let found = run.lines(None).len() > 1;
        for _ in query.chars() {
            run.press(press(Key::Backspace));
        }
        run.settle();
        found
    };
    run.tell(&identity, Some("old-app".into()));
    assert!(matches(&mut run, "old-app"));
    run.tell(&identity, Some("new-app".into()));
    assert!(matches(&mut run, "new-app"));
    assert!(!matches(&mut run, "old-app"));
}
