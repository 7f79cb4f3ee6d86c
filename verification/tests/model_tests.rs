//! Rows of the picker: how they are assembled, ranked, related and told apart.

use herdr_muster::herdr::{Pane, TabInfo, Workspace};
use herdr_muster::model::{
    apply_space_disambiguators, assemble, display_name_for, is_related, look_up, AgentState, Host, Kind,
    Row, RowId,
};
use herdr_muster::sources::Candidate;
use herdr_muster::wire::{parse_panes, parse_tabs, parse_workspaces};

fn workspace(id: &str, label: &str, status: &str) -> Workspace {
    Workspace {
        workspace_id: id.into(),
        label: label.into(),
        number: None,
        agent_status: status.into(),
    }
}

fn candidate(path: &str) -> Candidate {
    Candidate {
        path: path.into(),
        display: path.into(),
    }
}

fn pane(id: &str, workspace: &str, cwd: Option<&str>, agent: Option<&str>) -> Pane {
    pane_with_name(id, workspace, cwd, agent, None)
}

fn pane_with_name(
    id: &str,
    workspace: &str,
    cwd: Option<&str>,
    agent: Option<&str>,
    name: Option<&str>,
) -> Pane {
    Pane {
        pane_id: id.into(),
        workspace_id: workspace.into(),
        tab_id: None,
        cwd: cwd.map(Into::into),
        foreground_cwd: None,
        agent: agent.map(Into::into),
        agent_status: None,
        label: name.map(Into::into),
        title: None,
        terminal_title: None,
        focused: false,
        hidden: false,
        plugin: false,
        floating: false,
        suppressed: false,
    }
}

#[test]
fn open_from_registry_and_from_pane_cwd_with_sort() {
    let mut bound: Vec<(String, String)> = Vec::new();
    bound.push(("/dev/web".to_string(), "w1".to_string()));
    let workspaces = vec![
        workspace("w1", "web", "working"),
        workspace("w2", "api", "blocked"),
    ];
    let panes = vec![
        pane_with_name(
            "w1:p1",
            "w1",
            Some("/tmp/moved"),
            Some("codex"),
            Some("editor"),
        ),
        pane_with_name("w1:p2", "w1", Some("/tmp/moved"), None, Some("tests")),
        pane("w2:p2", "w2", Some("/other"), None),
        pane("w2:p1", "w2", Some("/dev/api"), None),
    ];
    let dormant = vec![
        candidate("/dev/api"),
        candidate("/dev/zeta"),
        candidate("/dev/alpha"),
    ];

    let rows = assemble(&bound, &workspaces, &panes, &[], &dormant, &[], None, &Host::bare());

    assert_eq!(rows[0].name, "api");
    assert!(matches!(
        rows[0].kind,
        Kind::Open {
            state: AgentState::Blocked,
            ..
        }
    ));
    assert_eq!(rows[1].name, "web");
    assert_eq!(rows[1].path, "/dev/web");
    // Named panes are not listed on the workspace row; they are rows.
    assert!(rows[1].pane_names.is_empty());
    match &rows[1].kind {
        Kind::Open { agent, .. } => assert_eq!(agent.as_deref(), Some("codex")),
        _ => panic!("expected open row"),
    }
    // Renamed panes get their own rows, after every open workspace.
    assert_eq!(rows[2].name, "editor");
    assert!(matches!(rows[2].kind, Kind::Pane { .. }));
    assert_eq!(rows[3].name, "tests");
    assert!(matches!(rows[3].kind, Kind::Pane { .. }));
    assert_eq!(rows[4].name, "zeta");
    assert!(matches!(rows[4].kind, Kind::Dormant));
    assert_eq!(rows[5].name, "alpha");
    assert_eq!(rows.len(), 6);
}

#[test]
fn open_rows_rank_by_most_recently_used_with_origin_last() {
    let mut bound: Vec<(String, String)> = Vec::new();
    bound.push(("/dev/web".to_string(), "w1".to_string()));
    bound.push(("/dev/api".to_string(), "w2".to_string()));
    bound.push(("/dev/other".to_string(), "w3".to_string()));
    bound.push(("/dev/never".to_string(), "w4".to_string()));
    let workspaces = vec![
        workspace("w1", "web", "working"),
        workspace("w2", "api", "blocked"),
        workspace("w3", "other", "idle"),
        workspace("w4", "never", "idle"),
    ];
    let panes = vec![
        pane("w1:p1", "w1", Some("/dev/web"), None),
        pane("w2:p1", "w2", Some("/dev/api"), None),
        pane("w3:p1", "w3", Some("/dev/other"), None),
        pane("w4:p1", "w4", Some("/dev/never"), None),
    ];
    let dormant = vec![candidate("/dev/zeta")];
    let mru = vec!["w3".to_string(), "w1".to_string()];

    // The workspace the picker was opened from sorts last — after the
    // MRU order and after never-focused workspaces — because Escape
    // already returns to it; the previous MRU front leads instead.
    let rows = assemble(&bound, &workspaces, &panes, &[], &dormant, &mru, Some("w2"), &Host::bare());
    assert_eq!(rows[0].name, "other");
    assert_eq!(rows[1].name, "web");
    assert_eq!(rows[2].name, "never");
    assert_eq!(rows[3].name, "api");
    assert_eq!(rows[4].name, "zeta");
    assert_eq!(rows.len(), 5);

    // Without an origin, persisted MRU order applies; never-focused
    // workspaces sort after it by agent-state priority, then name.
    let rows = assemble(&bound, &workspaces, &panes, &[], &dormant, &mru, None, &Host::bare());
    assert_eq!(rows[0].name, "other");
    assert_eq!(rows[1].name, "web");
    assert_eq!(rows[2].name, "api");
    assert_eq!(rows[3].name, "never");
    assert_eq!(rows[4].name, "zeta");
    assert_eq!(rows.len(), 5);
}

#[test]
fn alphabetic_pane_numbers_select_the_lowest_root() {
    let workspaces = vec![workspace("wJ", "workspace", "idle")];
    let panes = vec![
        pane("wJ:pT", "wJ", Some("/wrong"), None),
        pane("wJ:pJ", "wJ", Some("/right"), Some("codex")),
    ];

    let rows = assemble(&[], &workspaces, &panes, &[], &[], &[], None, &Host::bare());

    assert_eq!(rows[0].path, "/right");
    assert!(matches!(
        &rows[0].kind,
        Kind::Open { agent, .. } if agent.as_deref() == Some("codex")
    ));
}

#[test]
fn missing_cwd_uses_workspace_label_and_malformed_ids_tie_break() {
    let workspaces = vec![workspace("w1", "fallback", "idle")];
    let panes = vec![
        pane("w1:p?", "w1", Some("/z"), None),
        pane("w1:p!", "w1", None, None),
    ];

    let rows = assemble(&[], &workspaces, &panes, &[], &[], &[], None, &Host::bare());

    assert_eq!(rows[0].name, "fallback");
    assert_eq!(rows[0].path, "fallback");
}

#[test]
fn missing_cwd_uses_a_sanitized_workspace_label() {
    let workspaces =
        parse_workspaces(Ok(vec![workspace("w1", "\u{1b}[2Jfallback", "idle")])).unwrap();

    let rows = assemble(&[], &workspaces, &[], &[], &[], &[], None, &Host::bare());

    assert_eq!(rows[0].name, "[2Jfallback");
    assert_eq!(rows[0].display, "[2Jfallback");
}

#[test]
fn row_identity_is_stable() {
    let open = Row {
        name: "api".into(),
        path: "/api".into(),
        display: "/api".into(),
        pane_names: Vec::new(),
        tab_names: Vec::new(),
        space: None,
        kind: Kind::Open {
            workspace_id: "w1".into(),
            state: AgentState::Idle,
            agent: None,
        },
    };
    assert_eq!(open.id(), RowId::Open("w1".into()));
}

fn tab(id: &str, workspace: &str, label: Option<&str>) -> TabInfo {
    TabInfo {
        tab_id: id.into(),
        workspace_id: workspace.into(),
        label: label.map(str::to_owned),
        number: None,
        agent_status: None,
    }
}

fn numbered_tab(id: &str, workspace: &str, label: Option<&str>, number: usize) -> TabInfo {
    let mut tab = tab(id, workspace, label);
    tab.number = Some(number);
    tab
}

#[test]
fn assemble_joins_tab_labels_by_workspace_id() {
    let workspaces = vec![
        workspace("w1", "api", "idle"),
        workspace("w2", "web", "idle"),
    ];
    let panes = vec![
        pane("w1:p1", "w1", Some("/api"), None),
        pane("w2:p1", "w2", Some("/web"), None),
    ];
    let tabs = vec![
        tab("w1:t1", "w1", Some("api server")),
        tab("w1:t2", "w1", Some("logs")),
        tab("w2:t1", "w2", Some("web ui")),
        tab("w9:t1", "w9", Some("orphan")),
    ];

    let rows = assemble(&[], &workspaces, &panes, &tabs, &[], &[], None, &Host::bare());

    assert_eq!(rows[0].tab_names, vec!["api server", "logs"]);
    assert_eq!(rows[1].tab_names, vec!["web ui"]);
}

#[test]
fn tab_labels_are_optional_sanitized_and_deduplicated() {
    let workspaces = vec![workspace("w1", "api", "idle")];
    let panes = vec![pane("w1:p1", "w1", Some("/api"), None)];
    let tabs = vec![
        tab("w1:t1", "w1", Some("\u{1b}[2Japi")),
        tab("w1:t2", "w1", Some("api")),
        tab("w1:t3", "w1", None),
        tab("w1:t4", "w1", Some("   ")),
    ];

    let rows = assemble(&[], &workspaces, &panes, &tabs, &[], &[], None, &Host::bare());
    assert_eq!(rows[0].tab_names, vec!["[2Japi", "api"]);

    // No tab list at all: rows stay intact and simply carry no tab names.
    let rows = assemble(&[], &workspaces, &panes, &[], &[], &[], None, &Host::bare());
    assert!(rows[0].tab_names.is_empty());
    assert_eq!(rows[0].name, "api");
}

#[test]
fn tab_rows_and_renamed_pane_rows_are_listed_and_jumpable() {
    let workspaces = vec![workspace("w1", "api", "working")];
    let mut editor =
        pane_with_name("w1:p1", "w1", Some("/api"), Some("codex"), Some("editor"));
    editor.tab_id = Some("w1:t1".into());
    let mut unnamed = pane_with_name("w1:p2", "w1", Some("/api"), None, None);
    unnamed.tab_id = Some("w1:t1".into());
    let panes = vec![editor, unnamed];
    let tabs = vec![
        tab("w1:t1", "w1", Some("api server")),
        tab("w1:t2", "w1", Some("logs")),
    ];

    let rows = assemble(&[], &workspaces, &panes, &tabs, &[], &[], None, &Host::bare());
    let names: Vec<_> = rows.iter().map(|row| row.name.as_str()).collect();

    // Workspaces first, then tabs, then renamed panes.
    assert_eq!(names, vec!["api", "api server", "logs", "editor"]);
    assert_eq!(rows[1].id(), RowId::Tab("w1:t1".into()));
    assert_eq!(rows[3].id(), RowId::Pane("w1:p1".into()));
    assert!(rows[1].display.contains("w1:t1"), "{}", rows[1].display);
    assert!(rows[3].display.contains("w1:p1"), "{}", rows[3].display);
    match &rows[1].kind {
        Kind::Tab {
            workspace_id,
            tab_id,
            agent,
            ..
        } => {
            assert_eq!(workspace_id, "w1");
            assert_eq!(tab_id, "w1:t1");
            assert_eq!(agent.as_deref(), Some("codex"));
        }
        _ => panic!("expected tab row"),
    }
    match &rows[3].kind {
        Kind::Pane {
            workspace_id,
            pane_id,
            ..
        } => {
            assert_eq!(workspace_id, "w1");
            assert_eq!(pane_id, "w1:p1");
        }
        _ => panic!("expected pane row"),
    }
    // The unnamed pane is not a row; it stays visible via the open row.
    assert!(!names.contains(&"w1:p2"));
    assert!(rows[0].pane_names.is_empty());
}

#[test]
fn tab_rows_use_the_tab_agent_state() {
    let workspaces = vec![workspace("w1", "api", "idle")];
    let panes = vec![pane("w1:p1", "w1", Some("/api"), None)];
    let mut working = tab("w1:t1", "w1", Some("api server"));
    working.agent_status = Some("working".into());

    let rows = assemble(
        &[],
        &workspaces,
        &panes,
        &[working],
        &[],
        &[],
        None,
        &Host::bare(),
    );

    match &rows[1].kind {
        Kind::Tab { state, .. } => assert_eq!(*state, AgentState::Working),
        _ => panic!("expected tab row"),
    }
}

#[test]
fn default_numbered_tabs_are_hidden_from_rows_and_context() {
    let workspaces = vec![workspace("w1", "api", "idle")];
    let panes = vec![pane("w1:p1", "w1", Some("/api"), None)];
    let tabs = vec![
        numbered_tab("w1:t1", "w1", Some("1"), 1),
        numbered_tab("w1:t2", "w1", Some("build logs"), 2),
    ];

    let rows = assemble(&[], &workspaces, &panes, &tabs, &[], &[], None, &Host::bare());

    let names: Vec<_> = rows.iter().map(|row| row.name.as_str()).collect();
    assert_eq!(names, vec!["api", "build logs"]);
    // The workspace row's inline tab context hides defaults too.
    assert_eq!(rows[0].tab_names, vec!["build logs"]);
}

#[test]
fn tabs_without_a_number_are_kept() {
    let workspaces = vec![workspace("w1", "api", "idle")];
    let panes = vec![pane("w1:p1", "w1", Some("/api"), None)];

    // Older payloads omit `number`; the label is then the only signal, so
    // it is shown rather than guessed away.
    let rows = assemble(
        &[],
        &workspaces,
        &panes,
        &[tab("w1:t1", "w1", Some("1"))],
        &[],
        &[],
        None,
        &Host::bare(),
    );

    assert_eq!(rows.len(), 2);
    assert_eq!(rows[1].name, "1");
}

#[test]
fn agent_states_have_names_ranks_and_glyphs() {
    let all = [
        (AgentState::Blocked, "blocked"),
        (AgentState::Working, "working"),
        (AgentState::Done, "done"),
        (AgentState::Idle, "idle"),
        (AgentState::Unknown, "unknown"),
    ];
    for (state, word) in all {
        assert_eq!(AgentState::from_str(word), state);
        assert_eq!(state.word(), word);
        assert!(!state.glyph().is_empty());
    }
    assert_eq!(AgentState::from_str("odd"), AgentState::Unknown);
    for pair in all.windows(2) {
        assert!(pair[0].0.rank() < pair[1].0.rank());
    }
}

#[test]
fn directories_are_named_by_their_last_piece() {
    assert_eq!(display_name_for("/dev/api/"), "api");
    assert_eq!(display_name_for("/dev/\u{1b}x"), "x");
}

fn labelled(id: &str, label: &str, number: usize, cwd: &str) -> (Workspace, Pane) {
    (
        Workspace {
            workspace_id: id.into(),
            label: label.into(),
            number: Some(number),
            agent_status: "idle".into(),
        },
        pane(&format!("{id}:p1"), id, Some(cwd), None),
    )
}

#[test]
fn equal_space_labels_are_told_apart() {
    let spaces = [
        labelled("w1", "shop", 1, "/a/web"),
        labelled("w2", "shop", 2, "/b/api"),
        labelled("w3", "shop", 3, "/c/api"),
        labelled("w4", "alone", 4, "/d/alone"),
    ];
    let workspaces: Vec<Workspace> = spaces.iter().map(|(space, _)| space.clone()).collect();
    let panes: Vec<Pane> = spaces.iter().map(|(_, pane)| pane.clone()).collect();
    let mut rows = assemble(&[], &workspaces, &panes, &[], &[], &[], None, &Host::bare());
    let branches = vec![("w2".to_string(), "main".to_string())];
    apply_space_disambiguators(&mut rows, &branches);
    let shown = |id: &str| {
        rows.iter()
            .find(|row| row.id() == RowId::Open(id.into()))
            .and_then(|row| row.space.as_ref())
            .and_then(|space| space.disambiguator.clone())
    };
    // A branch comes first, then a distinct directory, then the number.
    assert_eq!(shown("w2").as_deref(), Some("main"));
    assert_eq!(shown("w1").as_deref(), Some("web"));
    assert_eq!(shown("w3").as_deref(), Some("3"));
    assert_eq!(shown("w4"), None);
    let again = rows.iter().map(Clone::clone).collect::<Vec<Row>>();
    apply_space_disambiguators(&mut rows, &branches);
    assert_eq!(rows, again);
}

#[test]
fn the_branch_listed_last_counts() {
    let spaces = [
        labelled("w1", "shop", 1, "/a/web"),
        labelled("w2", "shop", 2, "/b/api"),
    ];
    let workspaces: Vec<Workspace> = spaces.iter().map(|(space, _)| space.clone()).collect();
    let panes: Vec<Pane> = spaces.iter().map(|(_, pane)| pane.clone()).collect();
    let mut rows = assemble(&[], &workspaces, &panes, &[], &[], &[], None, &Host::bare());
    let branches = vec![
        ("w2".to_string(), "main".to_string()),
        ("w1".to_string(), "other".to_string()),
        ("w2".to_string(), "topic".to_string()),
    ];
    assert_eq!(look_up(&branches, "w2").as_deref(), Some("topic"));
    assert_eq!(look_up(&branches, "w3"), None);
    apply_space_disambiguators(&mut rows, &branches);
    let shown = |id: &str| {
        rows.iter()
            .find(|row| row.id() == RowId::Open(id.into()))
            .and_then(|row| row.space.as_ref()?.disambiguator.clone())
    };
    assert_eq!(shown("w1").as_deref(), Some("other"));
    assert_eq!(shown("w2").as_deref(), Some("topic"));
}

#[test]
fn rows_of_one_workspace_or_directory_are_related() {
    let workspaces = vec![workspace("w1", "api", "idle"), workspace("w2", "web", "idle")];
    let panes = vec![
        pane("w1:p1", "w1", Some("/api"), None),
        pane("w2:p1", "w2", Some("/web"), None),
    ];
    let tabs = vec![tab("w1:t1", "w1", Some("logs"))];
    let rows = assemble(&[], &workspaces, &panes, &tabs, &[], &[], None, &Host::bare());
    assert!(is_related(&rows[0], &rows[2]));
    assert!(is_related(&rows[2], &rows[0]));
    assert!(!is_related(&rows[1], &rows[2]));
}

#[test]
fn homes_are_collapsed_and_links_resolved() {
    let host = Host {
        home: Some("/home/me".into()),
        canonical: vec![("/link".into(), "/home/me/real".into())],
    };
    let rows = assemble(
        &[],
        &[workspace("w1", "x", "idle")],
        &[pane("w1:p1", "w1", Some("/link"), None)],
        &[],
        &[],
        &[],
        None,
        &host,
    );
    assert_eq!(rows[0].path, "/home/me/real");
    assert_eq!(rows[0].display, "~/real");
    assert_eq!(rows[0].name, "real");
}

#[test]
fn hostile_names_never_reach_the_terminal() {
    let bad = "\u{1b}]0;x\u{7}\u{9b}1m";
    let mut shell = pane("w1:p1", "w1", Some("/x"), None);
    shell.terminal_title = Some(bad.into());
    shell.agent = Some(bad.into());
    let mut named = pane("w1:p2", "w1", Some("/x"), None);
    named.label = Some(format!("n{bad}"));
    let workspaces = parse_workspaces(Ok(vec![workspace("w1", &format!("l{bad}"), "idle")])).unwrap();
    let panes = parse_panes(Ok(vec![shell, named])).unwrap();
    let tabs = parse_tabs(Ok(vec![tab("w1:t1", "w1", Some(&format!("t{bad}")))])).unwrap();
    let bound = vec![(format!("/dev/{bad}"), "w1".to_string())];
    let dormant = vec![Candidate {
        path: format!("/other/{bad}"),
        display: "/other".into(),
    }];
    let rows = assemble(
        &bound,
        &workspaces,
        &panes,
        &tabs,
        &dormant,
        &[],
        None,
        &Host::bare(),
    );
    assert_eq!(rows.len(), 4);
    // Identity is untouched; what is shown is clean.
    assert_eq!(rows[0].path, format!("/dev/{bad}"));
    for row in &rows {
        let mut shown = vec![row.name.clone(), row.display.clone()];
        shown.extend(row.pane_names.iter().cloned());
        shown.extend(row.tab_names.iter().cloned());
        shown.extend(row.space.iter().map(|space| space.label.clone()));
        for text in shown {
            assert!(!text.chars().any(char::is_control), "{text:?}");
        }
    }
}

#[test]
fn open_rows_do_not_depend_on_the_order_of_panes() {
    let workspaces = vec![workspace("w1", "api", "idle"), workspace("w2", "web", "working")];
    let panes = [
        pane("w1:p2", "w1", Some("/second"), Some("late")),
        pane("w2:p1", "w2", Some("/web"), None),
        pane("w1:p1", "w1", Some("/first"), Some("codex")),
        pane("w1:pX", "w1", Some("/last"), None),
    ];
    let shown = |order: &[usize]| {
        let listed: Vec<Pane> = order.iter().map(|&i| panes[i].clone()).collect();
        let mru = vec!["w1".to_string()];
        let rows = assemble(&[], &workspaces, &listed, &[], &[], &mru, None, &Host::bare());
        rows.into_iter()
            .filter(|row| matches!(row.kind, Kind::Open { .. }))
            .map(|row| Row {
                pane_names: vec![],
                ..row
            })
            .collect::<Vec<Row>>()
    };
    let first = shown(&[0, 1, 2, 3]);
    assert_eq!(first.len(), 2);
    assert_eq!(first[0].path, "/first");
    assert_eq!(
        first[0].kind,
        Kind::Open {
            workspace_id: "w1".into(),
            state: AgentState::Idle,
            agent: Some("codex".into()),
        }
    );
    for order in [[3, 2, 1, 0], [2, 0, 3, 1], [1, 3, 0, 2]] {
        assert_eq!(shown(&order), first);
    }
}

#[test]
fn tabs_only_add_their_own_rows() {
    let workspaces = vec![workspace("w1", "api", "idle"), workspace("w2", "web", "working")];
    let panes = vec![
        pane("w1:p1", "w1", Some("/api"), None),
        pane_with_name("w2:p1", "w2", Some("/web"), None, Some("server")),
    ];
    let tabs = vec![tab("w1:t1", "w1", Some("logs")), tab("w2:t1", "w2", Some("build"))];
    let dormant = vec![candidate("/other"), candidate("/api")];
    let with = assemble(&[], &workspaces, &panes, &tabs, &dormant, &[], None, &Host::bare());
    let without = assemble(&[], &workspaces, &panes, &[], &dormant, &[], None, &Host::bare());
    assert_eq!(with.len(), without.len() + 2);
    let left: Vec<Row> = with
        .into_iter()
        .filter(|row| !matches!(row.kind, Kind::Tab { .. }))
        .map(|row| Row {
            tab_names: vec![],
            ..row
        })
        .collect();
    assert_eq!(left, without);
}
