//! A refresh: what Herdr has, where programs are, and the messages in their order.

use herdr_muster::config::Config;
use herdr_muster::herdr::{Herdr, HerdrError, Pane, Result, TabInfo, Workspace};
use herdr_muster::model::{assemble, Host, Kind};
use herdr_muster::refresh::{
    branch_name, executable_candidates, find_origin, lines_of, load_herdr, resolve_executable,
    zoxide_lines, HerdrData, Message, ProjectSourceStatus, Refresh, RefreshAction, RefreshEvent,
};
use herdr_muster::sources::Candidate;

struct FakeHerdr {
    fail_workspaces: bool,
    fail_panes: bool,
    fail_tabs: bool,
}

fn workspace(id: &str, label: &str, status: &str) -> Workspace {
    Workspace {
        workspace_id: id.into(),
        label: label.into(),
        number: None,
        agent_status: status.into(),
    }
}

fn pane(id: &str, workspace: &str, cwd: &str, label: Option<&str>) -> Pane {
    Pane {
        pane_id: id.into(),
        workspace_id: workspace.into(),
        tab_id: None,
        cwd: Some(cwd.into()),
        foreground_cwd: None,
        agent: None,
        agent_status: None,
        label: label.map(str::to_owned),
        title: None,
        terminal_title: None,
        focused: false,
        hidden: false,
        plugin: false,
        floating: false,
        suppressed: false,
    }
}

impl Herdr for FakeHerdr {
    fn list_workspaces(&self) -> Result<Vec<Workspace>> {
        if self.fail_workspaces {
            Err(HerdrError::Command("workspace failure".into()))
        } else {
            Ok(vec![workspace("w1", "api", "working")])
        }
    }

    fn list_panes(&self) -> Result<Vec<Pane>> {
        if self.fail_panes {
            Err(HerdrError::Command("pane failure".into()))
        } else {
            Ok(vec![pane("w1:p1", "w1", "/api", Some("editor"))])
        }
    }

    fn list_tabs(&self) -> Result<Vec<TabInfo>> {
        if self.fail_tabs {
            Err(HerdrError::Command("tab failure".into()))
        } else {
            Ok(vec![TabInfo {
                tab_id: "w1:t1".into(),
                workspace_id: "w1".into(),
                label: Some("api tab".into()),
                number: None,
                agent_status: None,
            }])
        }
    }

    fn create_workspace(&self, _cwd: &str, _label: &str) -> Result<String> {
        unreachable!()
    }

    fn focus_workspace(&self, _id: &str) -> Result<()> {
        unreachable!()
    }

    fn close_workspace(&self, _id: &str) -> Result<()> {
        unreachable!()
    }

    fn close_pane(&self, _id: &str) -> Result<()> {
        unreachable!()
    }
}

#[test]
fn resolves_zoxide_outside_a_sparse_plugin_path() {
    let places = executable_candidates(
        "zoxide",
        &vec!["/tmp/inherited".into()],
        &vec!["/tmp/homebrew".into()],
    );
    assert_eq!(places, vec!["/tmp/inherited/zoxide", "/tmp/homebrew/zoxide"]);
    assert_eq!(
        resolve_executable(&places, &vec![false, true]).as_deref(),
        Some("/tmp/homebrew/zoxide")
    );
}

#[test]
fn executable_from_path_precedes_fallback_directory() {
    let places = executable_candidates(
        "zoxide",
        &vec!["/tmp/inherited".into()],
        &vec!["/tmp/fallback".into()],
    );
    assert_eq!(
        resolve_executable(&places, &vec![true, true]).as_deref(),
        Some("/tmp/inherited/zoxide")
    );
    assert_eq!(resolve_executable(&places, &vec![false, false]), None);
    assert_eq!(resolve_executable(&Vec::new(), &vec![true]), None);
}

#[test]
fn successful_refresh_distinguishes_valid_live_data() {
    let data = load_herdr(&FakeHerdr {
        fail_workspaces: false,
        fail_panes: false,
        fail_tabs: false,
    })
    .unwrap();
    assert_eq!(data.live_workspace_ids, Some(vec!["w1".into()]));
    assert_eq!(data.panes[0].display_name(), Some("editor"));
}

#[test]
fn workspace_failure_leaves_live_set_unavailable_and_projects_dormant() {
    let data = load_herdr(&FakeHerdr {
        fail_workspaces: true,
        fail_panes: false,
        fail_tabs: false,
    })
    .unwrap();

    assert!(data.workspaces.is_empty());
    assert!(data.panes.is_empty());
    assert_eq!(data.live_workspace_ids, None);
    let projects = vec![Candidate {
        path: "/configured".into(),
        display: "/configured".into(),
    }];
    let rows = assemble(
        &[],
        &data.workspaces,
        &data.panes,
        &data.tabs,
        &projects,
        &[],
        None,
        &Host::bare(),
    );
    assert!(matches!(rows.as_slice(), [row] if matches!(row.kind, Kind::Dormant)));
}

#[test]
fn pane_failure_rejects_the_whole_snapshot() {
    let error = load_herdr(&FakeHerdr {
        fail_workspaces: false,
        fail_panes: true,
        fail_tabs: false,
    })
    .unwrap_err();
    assert!(error.message().contains("pane failure"));
}

#[test]
fn tab_list_is_loaded_into_snapshot_data() {
    let data = load_herdr(&FakeHerdr {
        fail_workspaces: false,
        fail_panes: false,
        fail_tabs: false,
    })
    .unwrap();

    assert_eq!(data.tabs.len(), 1);
    assert_eq!(data.tabs[0].label.as_deref(), Some("api tab"));
}

#[test]
fn tab_list_failure_degrades_to_rows_without_tab_names() {
    let data = load_herdr(&FakeHerdr {
        fail_workspaces: false,
        fail_panes: false,
        fail_tabs: true,
    })
    .unwrap();

    assert!(data.tabs.is_empty());
    let rows = assemble(
        &[],
        &data.workspaces,
        &data.panes,
        &data.tabs,
        &[],
        &[],
        None,
        &Host::bare(),
    );
    // The workspace row and the renamed-pane row both survive without tabs.
    assert_eq!(rows.len(), 2);
    assert!(rows.iter().all(|row| row.tab_names.is_empty()));
    assert!(rows[0].pane_names.is_empty());
    assert!(matches!(rows[1].kind, Kind::Pane { .. }));
}

/// A runtime with no panes must not pay for the extra tab call at all.
struct NoPaneHerdr;

impl Herdr for NoPaneHerdr {
    fn list_workspaces(&self) -> Result<Vec<Workspace>> {
        Ok(vec![workspace("w1", "api", "idle")])
    }

    fn list_panes(&self) -> Result<Vec<Pane>> {
        Ok(Vec::new())
    }

    fn list_tabs(&self) -> Result<Vec<TabInfo>> {
        unreachable!("tab list must be skipped when there are no panes")
    }

    fn create_workspace(&self, _cwd: &str, _label: &str) -> Result<String> {
        unreachable!()
    }

    fn focus_workspace(&self, _id: &str) -> Result<()> {
        unreachable!()
    }

    fn close_workspace(&self, _id: &str) -> Result<()> {
        unreachable!()
    }

    fn close_pane(&self, _id: &str) -> Result<()> {
        unreachable!()
    }
}

#[test]
fn empty_pane_list_skips_the_tab_call() {
    let data = load_herdr(&NoPaneHerdr).unwrap();

    assert!(data.panes.is_empty());
    assert!(data.tabs.is_empty());
}

#[test]
fn origins_are_found_by_their_pane() {
    let panes = vec![
        pane("w1:p1", "w1", "/a", None),
        pane("w2:p9", "w2", "/b", None),
    ];
    assert_eq!(find_origin(&panes, &Some("w2:p9".into())).as_deref(), Some("w2"));
    assert_eq!(find_origin(&panes, &Some("w3:p1".into())), None);
    assert_eq!(find_origin(&panes, &None), None);
}

#[test]
fn branches_are_the_cleaned_output_of_a_successful_lookup() {
    assert_eq!(branch_name(true, " main\n").as_deref(), Some("main"));
    assert_eq!(branch_name(true, "a\u{1b}b\n").as_deref(), Some("ab"));
    assert_eq!(branch_name(true, "\n"), None);
    assert_eq!(branch_name(false, "main\n"), None);
}

#[test]
fn outputs_are_read_line_by_line() {
    assert_eq!(lines_of("/a\n/b\r\n/c"), vec!["/a", "/b", "/c"]);
    assert_eq!(lines_of("/a\n"), vec!["/a"]);
    assert_eq!(lines_of("\n\n"), vec!["", ""]);
    assert!(lines_of("").is_empty());
    // Only a carriage return before a line feed goes.
    assert_eq!(lines_of("a\r"), vec!["a\r"]);
    assert_eq!(lines_of("a\r\r\nb\rc\r\n\r"), vec!["a\r", "b\rc", "\r"]);
    for printed in ["a\r", "\r\n", "\n\r", "a\r\nb\r", "\r\r\n\r\n", "x\ny\r\n\n"] {
        assert_eq!(lines_of(printed), printed.lines().collect::<Vec<_>>());
    }
}

#[test]
fn zoxide_tells_whether_it_could_be_asked() {
    let printed = || Some((true, "/a\n/b\n".to_string()));
    assert_eq!(
        zoxide_lines(true, false, printed()),
        (vec!["/a".into(), "/b".into()], ProjectSourceStatus::Available)
    );
    assert_eq!(
        zoxide_lines(false, false, printed()),
        (vec![], ProjectSourceStatus::Disabled)
    );
    assert_eq!(
        zoxide_lines(true, true, printed()),
        (vec![], ProjectSourceStatus::Searching)
    );
    assert_eq!(
        zoxide_lines(true, false, Some((false, "/a\n".into()))),
        (vec![], ProjectSourceStatus::Unavailable)
    );
    assert_eq!(
        zoxide_lines(true, false, None),
        (vec![], ProjectSourceStatus::Unavailable)
    );
}

fn config(use_zoxide: bool) -> Config {
    Config {
        paths: vec!["/always".into()],
        roots: vec![],
        use_zoxide,
    }
}

fn two_spaces() -> HerdrData {
    HerdrData {
        workspaces: vec![
            workspace("w1", "api", "blocked"),
            workspace("w2", "web", "working"),
        ],
        panes: vec![
            pane("w1:p1", "w1", "/dev/api", None),
            pane("w2:p1", "w2", "/dev/web", None),
            pane("w2:p9", "w2", "/dev/web", None),
        ],
        tabs: Vec::new(),
        live_workspace_ids: Some(vec!["w1".into(), "w2".into()]),
    }
}

fn names(message: &Message) -> Vec<String> {
    match message {
        Message::Partial(snapshot) | Message::Ready(snapshot) => {
            snapshot.rows.iter().map(|row| row.name.clone()).collect()
        }
        Message::Failed(error) => panic!("refresh failed: {error}"),
    }
}

#[test]
fn spawn_orders_open_rows_by_recency_with_origin_last() {
    let mut refresh = Refresh::new(
        Vec::new(),
        Vec::new(),
        vec!["w1".to_string(), "w2".to_string()],
        Some("w2:p9".into()),
    );
    assert!(matches!(refresh.step(RefreshEvent::Begin, false), RefreshAction::LoadConfig));
    let settings = Config {
        paths: vec![],
        roots: vec![],
        use_zoxide: false,
    };
    assert!(matches!(
        refresh.step(RefreshEvent::Config(Ok(settings)), false),
        RefreshAction::LoadHerdr
    ));
    match refresh.step(RefreshEvent::Herdr(Ok(two_spaces()), Host::bare()), false) {
        RefreshAction::Send(Message::Partial(partial)) => {
            assert_eq!(partial.project_source_status, ProjectSourceStatus::Searching);
        }
        other => panic!("{other:?}"),
    }
    match refresh.step(RefreshEvent::Sent(true), false) {
        RefreshAction::FindBranches(wanted) => assert!(wanted.is_empty()),
        other => panic!("{other:?}"),
    }
    match refresh.step(RefreshEvent::Branches(Vec::new()), false) {
        RefreshAction::Gather { zoxide, recent, .. } => {
            assert!(zoxide.is_empty());
            assert!(recent.is_empty());
        }
        other => panic!("{other:?}"),
    }
    match refresh.step(RefreshEvent::Projects(Some(Vec::new())), false) {
        RefreshAction::Send(Message::Ready(ready)) => {
            assert_eq!(ready.origin_workspace.as_deref(), Some("w2"));
            assert_eq!(ready.project_source_status, ProjectSourceStatus::Disabled);
            let names: Vec<_> = ready.rows.iter().map(|row| row.name.as_str()).collect();
            assert_eq!(names, vec!["api", "web"]);
        }
        other => panic!("{other:?}"),
    }
    assert!(matches!(refresh.step(RefreshEvent::Sent(true), false), RefreshAction::Stop));
}

#[test]
fn labels_that_repeat_are_told_apart_by_branches() {
    let mut data = two_spaces();
    data.workspaces[1].label = "api".into();
    let mut refresh = Refresh::new(Vec::new(), vec!["/recent".into()], Vec::new(), None);
    refresh.step(RefreshEvent::Begin, false);
    refresh.step(RefreshEvent::Config(Ok(config(true))), false);
    refresh.step(RefreshEvent::Herdr(Ok(data), Host::bare()), false);
    match refresh.step(RefreshEvent::Sent(true), false) {
        RefreshAction::FindBranches(mut wanted) => {
            wanted.sort();
            assert_eq!(
                wanted,
                vec![
                    ("w1".to_string(), "/dev/api".to_string()),
                    ("w2".to_string(), "/dev/web".to_string())
                ]
            );
        }
        other => panic!("{other:?}"),
    }
    let branches = vec![("w1".to_string(), "main".to_string())];
    match refresh.step(RefreshEvent::Branches(branches), false) {
        RefreshAction::Send(Message::Partial(partial)) => {
            let row = partial.rows.iter().find(|row| row.path == "/dev/api").unwrap();
            assert_eq!(
                row.space.as_ref().unwrap().disambiguator.as_deref(),
                Some("main")
            );
        }
        other => panic!("{other:?}"),
    }
    assert!(matches!(refresh.step(RefreshEvent::Sent(true), false), RefreshAction::AskZoxide));
    let printed = Some((true, "/z\n".to_string()));
    match refresh.step(RefreshEvent::Zoxide(printed), false) {
        RefreshAction::Gather { config, zoxide, recent } => {
            assert_eq!(config.paths, vec!["/always"]);
            assert_eq!(zoxide, vec!["/z"]);
            assert_eq!(recent, vec!["/recent"]);
        }
        other => panic!("{other:?}"),
    }
    let projects = vec![Candidate {
        path: "/z".into(),
        display: "/z".into(),
    }];
    match refresh.step(RefreshEvent::Projects(Some(projects)), false) {
        RefreshAction::Send(message) => {
            assert_eq!(names(&message).last().map(String::as_str), Some("z"));
        }
        other => panic!("{other:?}"),
    }
}

#[test]
fn failures_end_a_refresh_with_a_message() {
    let mut refresh = Refresh::new(Vec::new(), Vec::new(), Vec::new(), None);
    refresh.step(RefreshEvent::Begin, false);
    match refresh.step(RefreshEvent::Config(Err("bad config".into())), false) {
        RefreshAction::Send(Message::Failed(error)) => assert_eq!(error, "bad config"),
        other => panic!("{other:?}"),
    }
    let mut refresh = Refresh::new(Vec::new(), Vec::new(), Vec::new(), None);
    refresh.step(RefreshEvent::Begin, false);
    refresh.step(RefreshEvent::Config(Ok(config(true))), false);
    let failed = RefreshEvent::Herdr(Err(HerdrError::Command("gone".into())), Host::bare());
    match refresh.step(failed, false) {
        RefreshAction::Send(Message::Failed(error)) => assert_eq!(error, "gone"),
        other => panic!("{other:?}"),
    }
    assert!(matches!(refresh.step(RefreshEvent::Begin, false), RefreshAction::Stop));
}

#[test]
fn cancelled_refreshes_stop() {
    let mut refresh = Refresh::new(Vec::new(), Vec::new(), Vec::new(), None);
    assert!(matches!(refresh.step(RefreshEvent::Begin, true), RefreshAction::Stop));
    let mut refresh = Refresh::new(Vec::new(), Vec::new(), Vec::new(), None);
    refresh.step(RefreshEvent::Begin, false);
    refresh.step(RefreshEvent::Config(Ok(config(true))), false);
    assert!(matches!(
        refresh.step(RefreshEvent::Herdr(Ok(two_spaces()), Host::bare()), true),
        RefreshAction::Stop
    ));
    let mut refresh = Refresh::new(Vec::new(), Vec::new(), Vec::new(), None);
    refresh.step(RefreshEvent::Begin, false);
    refresh.step(RefreshEvent::Config(Ok(config(true))), false);
    refresh.step(RefreshEvent::Herdr(Ok(two_spaces()), Host::bare()), false);
    assert!(matches!(refresh.step(RefreshEvent::Sent(false), false), RefreshAction::Stop));
}
