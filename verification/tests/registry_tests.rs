//! The registry, and what the program does with it.

use herdr_muster::driver::{
    carry_out, close_failure, config_path, create_and_bind, jump_result, observe,
    projects_to_remember, recency_path, reconcile_after_refresh, save_failure,
    should_cleanup_launcher, state_path, wants_jump_pane, with_late_failure, Next,
};
use herdr_muster::herdr::{Herdr, HerdrError, Pane, Result, Workspace};
use herdr_muster::jump_focus::FocusResult;
use herdr_muster::model::{AgentState, Kind, Row};
use herdr_muster::picker::{Outcome, PickerState};
use herdr_muster::registry::{Registry, SavedBinding};
use std::cell::RefCell;

#[test]
fn bind_unbind_lookup() {
    let mut registry = Registry::default();
    registry.bind("/a", "w1");
    assert_eq!(registry.workspace_for("/a").map(String::as_str), Some("w1"));
    assert!(registry.unbind_if_bound("/a", "w1"));
    assert!(registry.workspace_for("/a").is_none());
}

#[test]
fn project_history_survives_close_and_reconcile_and_tracks_reopens() {
    let mut registry = Registry::default();
    registry.bind("/a", "w1");
    registry.bind("/b", "w2");
    assert_eq!(registry.recent_projects(), vec!["/b", "/a"]);

    assert!(registry.unbind_if_bound("/b", "w2"));
    assert!(registry.reconcile(&[]));
    assert_eq!(registry.recent_projects(), vec!["/b", "/a"]);

    registry.remember_project("/a");
    assert_eq!(registry.recent_projects(), vec!["/a", "/b"]);
}

fn saved(directory: &str, key: &str, is_symlink: bool, workspace: &str) -> SavedBinding {
    SavedBinding {
        directory: directory.into(),
        canonical: key.into(),
        is_symlink,
        workspace: workspace.into(),
    }
}

#[test]
fn old_registry_bindings_seed_project_history() {
    let registry = Registry::load(
        vec![saved("/legacy", "/legacy", false, "w1")],
        Vec::new(),
        Vec::new(),
    );

    assert_eq!(registry.recent_projects(), vec!["/legacy"]);
}

#[test]
fn reconcile_drops_dead() {
    let mut registry = Registry::default();
    registry.bind("/a", "w1");
    registry.bind("/b", "w2");
    let live: Vec<String> = vec!["w2".to_string()];
    assert!(registry.reconcile(&live));
    assert!(registry.workspace_for("/a").is_none());
    assert_eq!(registry.workspace_for("/b").map(String::as_str), Some("w2"));
}

#[test]
fn mru_touch_forget_and_reconcile() {
    let mut registry = Registry::default();
    assert!(registry.touch("w1"));
    assert!(!registry.touch("w1"));
    assert!(registry.touch("w2"));
    assert_eq!(registry.mru(), &["w2".to_string(), "w1".to_string()]);
    assert!(registry.touch("w1"));
    assert_eq!(registry.mru(), &["w1".to_string(), "w2".to_string()]);

    let live: Vec<String> = vec!["w2".to_string()];
    assert!(registry.reconcile(&live));
    assert_eq!(registry.mru(), &["w2".to_string()]);
    assert!(!registry.forget("w3"));
    assert!(registry.forget("w2"));
    assert!(registry.mru().is_empty());
}

#[test]
fn unbind_if_bound_preserves_a_newer_rebinding() {
    let mut registry = Registry::default();
    registry.bind("/a", "w1");
    registry.bind("/a", "w2");

    assert!(!registry.unbind_if_bound("/a", "w1"));
    assert_eq!(registry.workspace_for("/a").map(String::as_str), Some("w2"));
    assert!(registry.unbind_if_bound("/a", "w2"));
    assert!(registry.workspace_for("/a").is_none());
}

#[test]
fn loading_symlink_aliases_prefers_the_canonical_legacy_key() {
    let registry = Registry::load(
        vec![
            saved("/d/alias", "/d/real", true, "alias-workspace"),
            saved("/d/real", "/d/real", false, "real-workspace"),
        ],
        Vec::new(),
        Vec::new(),
    );
    assert_eq!(
        registry.workspace_for("/d/real").map(String::as_str),
        Some("real-workspace")
    );
}

#[test]
fn saved_registries_load_back() {
    let mut registry = Registry::default();
    registry.bind("/b", "w2");
    registry.bind("/a", "w1");
    registry.touch("w1");
    let pairs = registry.live_map();
    assert_eq!(
        pairs,
        vec![
            ("/a".to_string(), "w1".to_string()),
            ("/b".to_string(), "w2".to_string())
        ]
    );
    let again = Registry::load(
        pairs
            .iter()
            .map(|(directory, workspace)| saved(directory, directory, false, workspace))
            .collect(),
        registry.mru().to_vec(),
        registry.recent_projects(),
    );
    assert_eq!(again.live_map(), registry.live_map());
    assert_eq!(again.mru(), registry.mru());
    assert_eq!(again.recent_projects(), registry.recent_projects());
}

#[test]
fn history_is_bounded() {
    let mut registry = Registry::default();
    for i in 0..150 {
        registry.remember_project(&format!("/p{i}"));
    }
    let recent = registry.recent_projects();
    assert_eq!(recent.len(), 100);
    assert_eq!(recent[0], "/p149");
    assert_eq!(recent[99], "/p50");
    assert!(!registry.remember_project("/p149"));
}

#[test]
fn failed_refresh_never_clears_registry_bindings() {
    let mut registry = Registry::default();
    registry.bind("/api", "w1");

    assert!(!reconcile_after_refresh(&mut registry, None));
    assert_eq!(
        registry.workspace_for("/api").map(String::as_str),
        Some("w1")
    );
}

#[test]
fn launcher_cleanup_never_closes_selected_origin() {
    assert!(!should_cleanup_launcher("pane-1", Some("pane-1"), None));
    assert!(!should_cleanup_launcher("pane-1", None, Some("pane-1")));
    assert!(should_cleanup_launcher(
        "launcher",
        Some("selected"),
        Some("origin")
    ));
}

#[test]
fn successful_empty_refresh_reconciles_registry() {
    let mut registry = Registry::default();
    registry.bind("/api", "w1");

    assert!(reconcile_after_refresh(&mut registry, Some(&Vec::new())));
    assert!(registry.workspace_for("/api").is_none());
}

#[test]
fn files_are_found_by_the_environment() {
    assert_eq!(config_path(Some("/c")), "/c/config.toml");
    assert_eq!(config_path(None), "config.toml");
    assert_eq!(state_path(Some("/s/")), "/s/state.json");
    assert_eq!(state_path(None), "state.json");
    assert_eq!(recency_path(Some("/s")), "/s/jump-pane-state-v1.json");
    assert_eq!(recency_path(None), "./jump-pane-state-v1.json");
    assert!(wants_jump_pane(&vec!["muster".into(), "--jump-pane".into()]));
    assert!(!wants_jump_pane(&vec!["muster".into()]));
}

#[test]
fn only_absolute_open_paths_are_remembered() {
    let opened: Vec<String> = vec!["/a".into(), "label".into(), "/b".into()];
    assert_eq!(projects_to_remember(true, &opened), vec!["/a", "/b"]);
    assert!(projects_to_remember(false, &opened).is_empty());
}

#[test]
fn a_run_updates_history_recency_and_bindings() {
    let mut registry = Registry::default();
    registry.bind("/dead", "w9");
    registry.touch("w9");
    let live: Vec<String> = vec!["w1".into()];
    assert!(observe(
        &mut registry,
        &vec!["/a".into(), "/b".into()],
        Some(&live),
        Some("w1")
    ));
    assert_eq!(registry.recent_projects(), vec!["/b", "/a", "/dead"]);
    assert_eq!(registry.mru(), &["w1".to_string()]);
    assert!(registry.workspace_for("/dead").is_none());
    assert!(!observe(
        &mut registry,
        &vec!["/b".into()],
        Some(&live),
        Some("w1")
    ));
}

/// A runtime that notes what it is asked for, and may refuse it.
struct Recorder {
    calls: RefCell<Vec<String>>,
    refuse: bool,
}

impl Recorder {
    fn new(refuse: bool) -> Self {
        Recorder {
            calls: RefCell::new(Vec::new()),
            refuse,
        }
    }

    fn note(&self, call: String) -> Result<()> {
        self.calls.borrow_mut().push(call);
        if self.refuse {
            Err(HerdrError::Command("refused".into()))
        } else {
            Ok(())
        }
    }
}

impl Herdr for Recorder {
    fn list_workspaces(&self) -> Result<Vec<Workspace>> {
        Ok(Vec::new())
    }
    fn list_panes(&self) -> Result<Vec<Pane>> {
        Ok(Vec::new())
    }
    fn focus_tab(&self, id: &str) -> Result<()> {
        self.note(format!("tab {id}"))
    }
    fn focus_pane(&self, id: &str) -> Result<()> {
        self.note(format!("pane {id}"))
    }
    fn create_workspace(&self, cwd: &str, label: &str) -> Result<String> {
        self.note(format!("create {cwd} {label}"))
            .map(|_| "new".to_string())
    }
    fn focus_workspace(&self, id: &str) -> Result<()> {
        self.note(format!("workspace {id}"))
    }
    fn close_workspace(&self, id: &str) -> Result<()> {
        self.note(format!("close {id}"))
    }
    fn close_pane(&self, _id: &str) -> Result<()> {
        Ok(())
    }
}

fn row(path: &str, kind: Kind) -> Row {
    Row {
        name: "row".into(),
        path: path.into(),
        display: "row".into(),
        pane_names: Vec::new(),
        tab_names: Vec::new(),
        space: None,
        kind,
    }
}

fn open_kind(id: &str) -> Kind {
    Kind::Open {
        workspace_id: id.into(),
        state: AgentState::Idle,
        agent: None,
    }
}

fn tab_kind(workspace: &str, id: &str) -> Kind {
    Kind::Tab {
        workspace_id: workspace.into(),
        tab_id: id.into(),
        state: AgentState::Idle,
        agent: None,
    }
}

fn pane_kind(workspace: &str, id: &str) -> Kind {
    Kind::Pane {
        workspace_id: workspace.into(),
        tab_id: None,
        pane_id: id.into(),
        state: AgentState::Idle,
        agent: None,
    }
}

#[test]
fn created_workspaces_are_bound() {
    let client = Recorder::new(false);
    let mut registry = Registry::default();
    assert_eq!(
        create_and_bind(&client, &mut registry, "/dev/api", "/real/api"),
        Ok("new".to_string())
    );
    assert_eq!(*client.calls.borrow(), vec!["create /dev/api api"]);
    assert_eq!(
        registry.workspace_for("/real/api").map(String::as_str),
        Some("new")
    );
    let mut untouched = Registry::default();
    assert_eq!(
        create_and_bind(&Recorder::new(true), &mut untouched, "/a", "/a"),
        Err("refused".to_string())
    );
    assert!(untouched.live_map().is_empty());
}

#[test]
fn jumps_focus_the_exact_row() {
    let cases = vec![
        (open_kind("w1"), "workspace w1"),
        (tab_kind("w1", "w1:t2"), "tab w1:t2"),
        (pane_kind("w1", "w1:p3"), "pane w1:p3"),
    ];
    for (kind, call) in cases {
        let client = Recorder::new(false);
        let mut registry = Registry::default();
        let carried = carry_out(
            &client,
            &mut registry,
            &Outcome::Jump(row("/a", kind)),
            "/a",
            PickerState::default(),
        );
        assert!(matches!(carried.next, Ok(Next::Leave)));
        assert!(carried.changed);
        assert_eq!(*client.calls.borrow(), vec![call]);
        assert_eq!(registry.mru(), &["w1".to_string()]);
    }
}

#[test]
fn refused_jumps_change_nothing() {
    let client = Recorder::new(true);
    let mut registry = Registry::default();
    let carried = carry_out(
        &client,
        &mut registry,
        &Outcome::Jump(row("/a", open_kind("w1"))),
        "/a",
        PickerState::default(),
    );
    assert!(matches!(&carried.next, Err(error) if error == "refused"));
    assert!(!carried.changed);
    assert!(registry.mru().is_empty());
}

#[test]
fn projects_and_forced_rows_get_workspaces() {
    for outcome in [
        Outcome::Jump(row("/a", Kind::Dormant)),
        Outcome::ForceNew(row("/a", Kind::Dormant)),
        Outcome::ForceNew(row("/a", open_kind("w1"))),
    ] {
        let client = Recorder::new(false);
        let mut registry = Registry::default();
        let carried = carry_out(&client, &mut registry, &outcome, "/a", PickerState::default());
        assert!(matches!(carried.next, Ok(Next::Leave)));
        assert!(carried.changed);
        assert_eq!(*client.calls.borrow(), vec!["create /a a"]);
        assert_eq!(registry.mru(), &["new".to_string()]);
    }
    let client = Recorder::new(false);
    let mut registry = Registry::default();
    let carried = carry_out(
        &client,
        &mut registry,
        &Outcome::ForceNew(row("/a", tab_kind("w", "t"))),
        "/a",
        PickerState::default(),
    );
    assert!(matches!(carried.next, Ok(Next::Leave)));
    assert!(client.calls.borrow().is_empty());
}

#[test]
fn closing_reopens_the_picker_without_the_row() {
    let client = Recorder::new(false);
    let mut registry = Registry::default();
    registry.bind("/a", "w1");
    registry.touch("w1");
    registry.touch("w2");
    let state = PickerState {
        rows: vec![row("/a", open_kind("w1")), row("/b", open_kind("w2"))],
        query: String::new(),
        selected: 1,
    };
    let carried = carry_out(
        &client,
        &mut registry,
        &Outcome::Close(row("/a", open_kind("w1"))),
        "/a",
        state,
    );
    assert!(carried.changed);
    match carried.next {
        Ok(Next::Again(state)) => {
            assert_eq!(state.rows.len(), 1);
            assert_eq!(state.rows[0].path, "/b");
            assert_eq!(state.selected, 0);
        }
        other => panic!("{other:?}"),
    }
    assert_eq!(*client.calls.borrow(), vec!["close w1"]);
    assert!(registry.workspace_for("/a").is_none());
    assert_eq!(registry.mru(), &["w2".to_string()]);
    assert_eq!(registry.recent_projects(), vec!["/a"]);
}

#[test]
fn closing_keeps_a_newer_binding() {
    let mut registry = Registry::default();
    registry.bind("/a", "w2");
    let carried = carry_out(
        &Recorder::new(false),
        &mut registry,
        &Outcome::Close(row("/a", open_kind("w1"))),
        "/a",
        PickerState::default(),
    );
    assert!(!carried.changed);
    assert_eq!(registry.workspace_for("/a").map(String::as_str), Some("w2"));
}

#[test]
fn cancelling_changes_nothing() {
    let client = Recorder::new(false);
    let mut registry = Registry::default();
    let carried = carry_out(
        &client,
        &mut registry,
        &Outcome::Cancel,
        "",
        PickerState::default(),
    );
    assert!(matches!(carried.next, Ok(Next::Leave)));
    assert!(!carried.changed);
    assert!(client.calls.borrow().is_empty());
}

#[test]
fn the_first_failure_is_the_result() {
    assert_eq!(
        with_late_failure(Ok(()), "late".into()),
        (Err("late".to_string()), None)
    );
    assert_eq!(
        with_late_failure(Err("first".into()), "late".into()),
        (Err("first".to_string()), Some("late".to_string()))
    );
    assert_eq!(save_failure("/s/state.json", "full"), "save /s/state.json: full");
    assert_eq!(
        close_failure("p1", &HerdrError::Command("gone".into())),
        "close picker pane p1: gone"
    );
}

#[test]
fn jump_pane_ends_well_after_focus_or_cancellation() {
    assert_eq!(jump_result(FocusResult::Focused), Ok(()));
    assert_eq!(jump_result(FocusResult::Stale("cancelled".into())), Ok(()));
    assert_eq!(
        jump_result(FocusResult::Stale("gone".into())),
        Err("Jump Pane: Stale(\"gone\")".to_string())
    );
    assert_eq!(
        jump_result(FocusResult::Failed("a \"b\"".into())),
        Err("Jump Pane: Failed(\"a \\\"b\\\"\")".to_string())
    );
}

fn reloaded(registry: &Registry) -> Registry {
    let bindings = registry
        .live_map()
        .iter()
        .enumerate()
        .map(|(i, (directory, workspace))| saved(directory, directory, i % 3 == 1, workspace))
        .collect();
    Registry::load(bindings, registry.mru().to_vec(), registry.recent_projects())
}

#[test]
fn a_saved_registry_loads_back_as_it_was() {
    let mut registry = Registry::default();
    let same = |registry: &Registry| {
        let back = reloaded(registry);
        assert_eq!(back.live_map(), registry.live_map());
        assert_eq!(back.mru(), registry.mru());
        assert_eq!(back.recent_projects(), registry.recent_projects());
    };
    same(&registry);
    for n in 0..105 {
        registry.bind(&format!("/dir{n}"), &format!("w{n}"));
        registry.touch(&format!("w{}", n % 7));
        same(&registry);
    }
    assert_eq!(registry.recent_projects().len(), 100);
    registry.remember_project("/elsewhere");
    assert!(registry.unbind_if_bound("/dir3", "w3"));
    assert!(registry.forget("w2"));
    same(&registry);
    assert!(registry.reconcile(&["w104".to_string(), "w0".to_string()]));
    assert_eq!(registry.live_map().len(), 2);
    same(&registry);
}
