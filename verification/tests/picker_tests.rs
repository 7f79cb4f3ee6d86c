//! The picker: search, selection, rendering, quick jumps, the mouse, and a run of it.

use herdr_muster::fuzzy::FuzzyMatcher;
use herdr_muster::model::{is_related, AgentState, Kind, Row, RowId, SpaceContext};
use herdr_muster::picker::{
    alt_digit_index, mac_option_digit, nth_open_jump, Outcome, PickerState,
};
use herdr_muster::refresh::{Message, ProjectSourceStatus, Snapshot};
use herdr_muster::render::{
    build, build_with_anchor, header_item, pane_summary, row_line, row_line_with_relation, secondary_context,
    space_header_item, state_color, tab_summary,
};
use herdr_muster::screen::{
    empty_item, enter_action, footer_line, keycap, mouse_in_area, mouse_row_index,
    mouse_scroll_target, prompt_line, spread, title_line, Area, MouseKind,
};
use herdr_muster::search::{filter, filter_scored};
use herdr_muster::session::{Feed, Key, KeyPress, Picker};
use herdr_muster::style::{Color, Line, ListItem, Span, Style};
use herdr_muster::width::{display_width, fit, pad_to_width, truncate_to_width};

fn open(name: &str, display: &str, path: &str, pane_names: &[&str]) -> Row {
    Row {
        name: name.into(),
        path: path.into(),
        display: display.into(),
        pane_names: pane_names.iter().map(|name| (*name).into()).collect(),
        tab_names: Vec::new(),
        space: Some(SpaceContext {
            label: name.into(),
            disambiguator: None,
            number: None,
        }),
        kind: Kind::Open {
            workspace_id: name.into(),
            state: AgentState::Working,
            agent: Some("codex".into()),
        },
    }
}

fn open_with_tabs(
    name: &str,
    display: &str,
    path: &str,
    pane_names: &[&str],
    tab_names: &[&str],
) -> Row {
    let mut row = open(name, display, path, pane_names);
    row.tab_names = tab_names.iter().map(|name| (*name).into()).collect();
    row
}

fn project(name: &str, display: &str, path: &str) -> Row {
    Row {
        name: name.into(),
        path: path.into(),
        display: display.into(),
        pane_names: Vec::new(),
        tab_names: Vec::new(),
        space: None,
        kind: Kind::Dormant,
    }
}

#[test]
fn unnamed_pane_names_stay_searchable_on_the_workspace_row() {
    let rows = vec![
        open("workspace", "~/work", "/Users/me/work", &["shell"]),
        open_with_tabs(
            "labeled",
            "~/labeled",
            "/Users/me/labeled",
            &[],
            &["api server"],
        ),
    ];
    let mut matcher = FuzzyMatcher::new();

    // Unnamed panes have no row of their own, so the workspace row keeps
    // them searchable. Tab names are owned by tab rows instead.
    assert_eq!(filter(&rows, "shell", &mut matcher), vec![0]);
    assert!(filter(&rows, "api server", &mut matcher).is_empty());
}

#[test]
fn open_row_shows_tab_names_only_when_present() {
    let labeled = open_with_tabs(
        "workspace",
        "~/work",
        "/Users/me/work",
        &["editor"],
        &["api server", "logs"],
    );
    let line = row_line(&labeled, 120, None).text();
    assert!(line.contains("workspace"), "{line}");
    assert!(line.contains("panes: editor"), "{line}");
    assert!(line.contains("tabs: api server · logs"), "{line}");

    let plain = open("workspace", "~/work", "/Users/me/work", &["editor"]);
    let line = row_line(&plain, 120, None).text();
    assert!(!line.contains("tabs:"), "{line}");
}

#[test]
fn filtering_groups_sections_even_when_project_scores_higher() {
    let rows = vec![
        project("api", "~/api", "/Users/me/api"),
        open("workspace", "~/work", "/Users/me/work", &["api-dashboard"]),
    ];
    let mut matcher = FuzzyMatcher::new();

    assert_eq!(filter(&rows, "api", &mut matcher), vec![1, 0]);
    assert_eq!(filter(&rows, "", &mut matcher), vec![1, 0]);
}

#[test]
fn searches_full_open_paths_and_open_only_metadata() {
    let rows = vec![
        open("web", "~/web", "/Users/me/web", &["backend"]),
        project("web", "~/web", "/Users/me/web"),
    ];
    let mut matcher = FuzzyMatcher::new();

    assert_eq!(filter(&rows, "/Users/me/web", &mut matcher), vec![0]);
    assert_eq!(filter(&rows, "backend", &mut matcher), vec![0]);
    assert_eq!(filter(&rows, "codex", &mut matcher), vec![0]);
    assert_eq!(filter(&rows, "working", &mut matcher), vec![0]);
}

#[test]
fn fuzzy_matches_do_not_cross_metadata_fields() {
    let rows = vec![
        open(
            "instructional-design-agent",
            "~/Projects/00-in-progress/instructional-design-agent",
            "/Users/me/Projects/00-in-progress/instructional-design-agent",
            &[],
        ),
        project(
            "deadpotatodotcom",
            "~/Projects/00-in-progress/deadpotatodotcom",
            "/Users/me/Projects/00-in-progress/deadpotatodotcom",
        ),
    ];
    let mut matcher = FuzzyMatcher::new();

    assert_eq!(filter(&rows, "deadpo", &mut matcher), vec![1]);
}

#[test]
fn snapshot_updates_keep_query_and_selection_identity() {
    let mut state = PickerState {
        rows: vec![
            open("one", "~/one", "/one", &[]),
            open("two", "~/two", "/two", &[]),
        ],
        query: "o".into(),
        selected: 1,
    };
    let mut matcher = FuzzyMatcher::new();
    let snapshot = Snapshot {
        rows: vec![
            open("two", "~/two", "/two", &[]),
            open("one", "~/one", "/one", &[]),
        ],
        project_source_status: ProjectSourceStatus::Available,
        live_workspace_ids: Some(Vec::new()),
        origin_workspace: None,
    };

    state.apply_snapshot(snapshot, &mut matcher);

    assert_eq!(state.query, "o");
    let filtered = state.filtered(&mut matcher);
    assert_eq!(
        state.selected_row(&filtered).unwrap().id(),
        RowId::Open("two".into())
    );
}

#[test]
fn partial_refresh_retains_filtered_dormant_selection() {
    let mut state = PickerState {
        rows: vec![
            open("open", "~/open", "/open", &[]),
            project("dormant", "~/dormant", "/dormant"),
        ],
        query: "dorm".into(),
        selected: 0,
    };
    let mut matcher = FuzzyMatcher::new();
    state.apply_partial(
        Snapshot {
            rows: vec![open("open", "~/open", "/open", &[])],
            project_source_status: ProjectSourceStatus::Searching,
            live_workspace_ids: Some(vec!["open".into()]),

            origin_workspace: None,
        },
        &mut matcher,
    );

    let filtered = state.filtered(&mut matcher);
    assert_eq!(state.query, "dorm");
    assert_eq!(
        state.selected_row(&filtered).unwrap().id(),
        RowId::Project("/dormant".into())
    );
}

#[test]
fn row_rendering_never_exceeds_available_width() {
    let open_row = open(
        "api",
        "~/a/very/long/path",
        "/a/very/long/path",
        &["界界界界界界界界界界", "editor", "editor", "tests"],
    );
    let project_row = project("project", "~/a/very/long/project/path", "/project");

    for width in 0..80 {
        assert!(
            row_line(&open_row, width, Some(9)).width() <= width,
            "open width {width}"
        );
        assert!(
            row_line(&open_row, width, None).width() <= width,
            "open without number width {width}"
        );
        assert!(
            row_line(&project_row, width, None).width() <= width,
            "project width {width}"
        );
    }
}

#[test]
fn open_rows_show_their_quick_jump_number() {
    let rows = vec![
        open("api", "~/api", "/api", &[]),
        project("dormant", "~/dormant", "/dormant"),
        open("web", "~/web", "/web", &[]),
    ];
    let state = PickerState {
        rows,
        query: String::new(),
        selected: 0,
    };
    let mut matcher = FuzzyMatcher::new();
    let filtered = state.filtered(&mut matcher);
    assert_eq!(filtered, vec![0, 2, 1]);

    // Open rows are numbered 1..9, 0 by their position among open
    // matches; dormant rows get no number.
    let first = row_line(&state.rows[filtered[0]], 60, Some(1)).text();
    assert!(first.contains("1 "), "{first:?}");
    assert!(first.contains("api"));
    let second = row_line(&state.rows[filtered[1]], 60, Some(2)).text();
    assert!(second.contains("2 "), "{second:?}");
    assert!(second.contains("web"));
    let dormant = row_line(&state.rows[filtered[2]], 60, None).text();
    assert!(dormant.contains("dormant"));
    assert!(!dormant.contains("0 "), "{dormant:?}");
}

#[test]
fn tenth_open_row_uses_zero_for_quick_jump_number() {
    let rows: Vec<_> = (0..10)
        .map(|index| open(&format!("project-{index}"), "~/project", "/project", &[]))
        .collect();
    let state = PickerState {
        rows,
        query: String::new(),
        selected: 0,
    };
    let mut matcher = FuzzyMatcher::new();
    let filtered = state.filtered(&mut matcher);

    let first = row_line(&state.rows[filtered[0]], 60, Some(1)).text();
    let tenth = row_line(&state.rows[filtered[9]], 60, Some(0)).text();
    assert!(first.contains("1 "), "{first:?}");
    assert!(tenth.contains("0 "), "{tenth:?}");
}

#[test]
fn truncation_is_grapheme_and_display_width_aware() {
    assert_eq!(display_width(&truncate_to_width("界界界", 5)), 5);
    assert_eq!(truncate_to_width("e\u{301}clair", 2), "e\u{301}…");
    assert_eq!(truncate_to_width("hello", 0), "");
}

#[test]
fn display_deduplicates_names_and_reports_more() {
    let row = open(
        "api",
        "~/api",
        "/api",
        &["editor", "editor", "tests", "shell"],
    );
    assert_eq!(pane_summary(&row).as_deref(), Some("editor · tests +1"));
}

#[test]
fn alt_digit_maps_to_row_indexes() {
    assert_eq!(alt_digit_index('1'), Some(0));
    assert_eq!(alt_digit_index('2'), Some(1));
    assert_eq!(alt_digit_index('9'), Some(8));
    assert_eq!(alt_digit_index('0'), Some(9));
    assert_eq!(alt_digit_index('a'), None);
}

#[test]
fn mac_option_glyphs_map_to_row_indexes() {
    assert_eq!(mac_option_digit('¡'), Some(0));
    assert_eq!(mac_option_digit('™'), Some(1));
    assert_eq!(mac_option_digit('∞'), Some(4));
    assert_eq!(mac_option_digit('º'), Some(9));
    assert_eq!(mac_option_digit('x'), None);
}

#[test]
fn nth_open_jump_skips_dormant_rows_and_selects() {
    let mut state = PickerState {
        rows: vec![
            open("three", "~/three", "/three", &[]),
            project("dormant", "~/dormant", "/dormant"),
            open("two", "~/two", "/two", &[]),
            project("dormant2", "~/dormant2", "/dormant2"),
            open("one", "~/one", "/one", &[]),
        ],
        query: String::new(),
        selected: 0,
    };
    let mut matcher = FuzzyMatcher::new();
    let filtered = state.filtered(&mut matcher);
    assert_eq!(filtered, vec![0, 2, 4, 1, 3]);

    // The internal indexes skip dormant rows: 0 -> first open, 1 ->
    // second open, etc. `selected` tracks the filtered position of the
    // found row.
    assert_eq!(
        nth_open_jump(&mut state, &filtered, 0).unwrap().name,
        "three"
    );
    assert_eq!(state.selected, 0);
    assert_eq!(nth_open_jump(&mut state, &filtered, 1).unwrap().name, "two");
    assert_eq!(state.selected, 1);
    assert_eq!(nth_open_jump(&mut state, &filtered, 2).unwrap().name, "one");
    assert_eq!(state.selected, 2);
    assert!(nth_open_jump(&mut state, &filtered, 99).is_none());
}

fn tab_row(name: &str, workspace: &str, tab_id: &str, display: &str) -> Row {
    Row {
        name: name.into(),
        path: "/Users/me/work".into(),
        display: display.into(),
        pane_names: Vec::new(),
        tab_names: Vec::new(),
        space: Some(SpaceContext {
            label: workspace.into(),
            disambiguator: None,
            number: None,
        }),
        kind: Kind::Tab {
            workspace_id: workspace.into(),
            tab_id: tab_id.into(),
            state: AgentState::Working,
            agent: Some("codex".into()),
        },
    }
}

fn pane_row(name: &str, workspace: &str, pane_id: &str, display: &str) -> Row {
    Row {
        name: name.into(),
        path: "/Users/me/work".into(),
        display: display.into(),
        pane_names: Vec::new(),
        tab_names: Vec::new(),
        space: Some(SpaceContext {
            label: workspace.into(),
            disambiguator: None,
            number: None,
        }),
        kind: Kind::Pane {
            workspace_id: workspace.into(),
            tab_id: Some("w1:t1".into()),
            pane_id: pane_id.into(),
            state: AgentState::Idle,
            agent: None,
        },
    }
}

#[test]
fn parent_space_labels_match_and_group_child_rows() {
    let mut first = tab_row(
        "Research: MTF bull-run rules audit",
        "w1",
        "w1:t1",
        "~/work · w1:t1",
    );
    first.space.as_mut().unwrap().label = "newsletter".into();
    let mut second = tab_row("Research: onset day1/day2", "w1", "w1:t2", "~/work · w1:t2");
    second.space.as_mut().unwrap().label = "newsletter".into();
    let mut third = tab_row("api logs", "w2", "w2:t1", "~/api · w2:t1");
    third.space.as_mut().unwrap().label = "pi-planning-profile".into();
    let rows = vec![
        open("workspace", "~/work", "/Users/me/work", &["shell"]),
        first,
        second,
        third,
    ];
    let mut matcher = FuzzyMatcher::new();

    assert_eq!(filter(&rows, "newsletter", &mut matcher), vec![1, 2]);
    let filtered = vec![0, 1, 2, 3];
    let (items, selected_position, _) = build(&rows, &filtered, 3, 100);
    let debug: Vec<String> = items.iter().map(|item| format!("{item:?}")).collect();
    assert!(debug
        .iter()
        .any(|item| item.contains("SPACE") && item.contains("newsletter")));
    assert!(debug
        .iter()
        .any(|item| item.contains("SPACE") && item.contains("pi-planning-profile")));
    assert_eq!(selected_position, 7);
}

#[test]
fn tab_and_pane_rows_are_searchable_in_their_own_sections() {
    let rows = vec![
        open("workspace", "~/work", "/Users/me/work", &["shell"]),
        tab_row("api server", "w1", "w1:t2", "~/work · w1:t2"),
        pane_row("editor", "w1", "w1:p1", "~/work · w1:p1"),
        project("dormant", "~/dormant", "/Users/me/dormant"),
    ];
    let mut matcher = FuzzyMatcher::new();

    // Empty query keeps section order: workspaces, tabs, panes, projects.
    assert_eq!(filter(&rows, "", &mut matcher), vec![0, 1, 2, 3]);
    assert_eq!(filter(&rows, "api server", &mut matcher), vec![1]);
    assert_eq!(filter(&rows, "editor", &mut matcher), vec![2]);
    assert_eq!(filter(&rows, "w1:t2", &mut matcher), vec![1]);
    assert_eq!(filter(&rows, "w1:p1", &mut matcher), vec![2]);
    assert_eq!(filter(&rows, "dormant", &mut matcher), vec![3]);
}

#[test]
fn tab_cycles_to_first_row_of_each_populated_section_and_wraps() {
    let rows = vec![
        open("workspace", "common", "/Users/me/work", &[]),
        tab_row("first tab", "w1", "w1:t1", "common"),
        tab_row("second tab", "w1", "w1:t2", "common"),
        pane_row("editor", "w1", "w1:p1", "common"),
        project("project", "common", "/Users/me/project"),
    ];
    let mut state = PickerState {
        rows,
        query: String::new(),
        selected: 2,
    };
    let mut matcher = FuzzyMatcher::new();
    let filtered = state.filtered(&mut matcher);

    // From within TABS, jump to the first actionable PANES row.
    state.next_section(&filtered);
    assert_eq!(state.selected, 3);
    // Continue in section order, then wrap to OPEN and TABS.
    state.next_section(&filtered);
    assert_eq!(state.selected, 4);
    state.next_section(&filtered);
    assert_eq!(state.selected, 0);
    state.next_section(&filtered);
    assert_eq!(state.selected, 1);
}

#[test]
fn tab_skips_sections_removed_by_filtering_and_stays_put_if_alone() {
    let rows = vec![
        open("workspace", "common", "/Users/me/work", &[]),
        tab_row("api", "w1", "w1:t1", "unmatched"),
        pane_row("editor", "w1", "w1:p1", "unmatched"),
        project("project", "common", "/Users/me/project"),
    ];
    let mut state = PickerState {
        rows,
        query: "common".into(),
        selected: 0,
    };
    let mut matcher = FuzzyMatcher::new();
    let filtered = state.filtered(&mut matcher);
    assert_eq!(filtered, vec![0, 3]);

    // TABS and PANES are empty in this filtered view, so jump directly to
    // PROJECTS rather than a section header or a non-matching row.
    state.next_section(&filtered);
    assert_eq!(state.selected, 1);
    state.next_section(&filtered);
    assert_eq!(state.selected, 0);

    state.query = "editor".into();
    state.selected = 0;
    let filtered = state.filtered(&mut matcher);
    assert_eq!(filtered, vec![2]);
    state.next_section(&filtered);
    assert_eq!(state.selected, 0);
}

#[test]
fn tab_and_pane_rows_render_like_rows_without_quick_jump_numbers() {
    let tab = tab_row("api server", "w1", "w1:t2", "~/work · w1:t2");
    let text = row_line(&tab, 120, None).text();
    assert!(text.contains("api server"), "{text}");
    assert!(text.contains("w1:t2"), "{text}");
    assert!(!text.starts_with("1 "), "{text}");

    let pane = pane_row("editor", "w1", "w1:p1", "~/work · w1:p1");
    let text = row_line(&pane, 120, None).text();
    assert!(text.contains("editor"), "{text}");
    assert!(text.contains("w1:p1"), "{text}");
}

#[test]
fn selected_workspace_marks_related_rows_across_sections() {
    let rows = vec![
        open("w1", "~/work", "/work", &[]),
        tab_row("api", "w1", "w1:t1", "~/work · w1:t1"),
        pane_row("editor", "w1", "w1:p1", "~/work · w1:p1"),
        project("work", "~/work", "/work"),
        project("other", "~/other", "/other"),
    ];
    assert!(is_related(&rows[0], &rows[1]));
    assert!(is_related(&rows[0], &rows[2]));
    assert!(is_related(&rows[0], &rows[3]));
    assert!(!is_related(&rows[0], &rows[4]));

    let linked = row_line_with_relation(&rows[1], 60, None, true, false).text();
    assert!(linked.contains("↳"), "{linked}");

    let anchor_id = rows[0].id();
    let filtered: Vec<usize> = (0..rows.len()).collect();
    let (items, selected_position, _) =
        build_with_anchor(&rows, &filtered, 1, 60, Some(&anchor_id));
    assert_eq!(selected_position, 3);
    assert!(format!("{:?}", items[1]).contains("●"));
    assert!(format!("{:?}", items[3]).contains("↳"));
}

#[test]
fn build_adds_headers_for_every_section() {
    let rows = vec![
        open("workspace", "~/work", "/Users/me/work", &["shell"]),
        tab_row("api server", "w1", "w1:t2", "~/work · w1:t2"),
        pane_row("editor", "w1", "w1:p1", "~/work · w1:p1"),
        project("dormant", "~/dormant", "/Users/me/dormant"),
    ];
    let filtered: Vec<usize> = (0..rows.len()).collect();
    let (items, selected_position, row_positions) = build(&rows, &filtered, 0, 100);

    // Four sections, so four headers plus one item per row.
    assert_eq!(items.len(), rows.len() + 4);
    assert_eq!(selected_position, 1);
    assert_eq!(
        row_positions,
        vec![None, Some(0), None, Some(1), None, Some(2), None, Some(3)]
    );
    let debug: Vec<String> = items.iter().map(|item| format!("{item:?}")).collect();
    assert!(debug[0].contains("OPEN"), "{}", debug[0]);
    assert!(debug[2].contains("TABS"), "{}", debug[2]);
    assert!(debug[4].contains("PANES"), "{}", debug[4]);
    assert!(debug[6].contains("PROJECTS"), "{}", debug[6]);
}

#[test]
fn mouse_click_maps_visible_list_rows_and_ignores_headers_and_bounds() {
    let area = Area {
        x: 10,
        y: 5,
        width: 20,
        height: 3,
    };
    let row_positions = [None, Some(0), None, Some(1), Some(2)];

    assert_eq!(mouse_row_index(10, 5, area, 1, &row_positions), Some(0));
    assert_eq!(mouse_row_index(10, 6, area, 1, &row_positions), None);
    assert_eq!(mouse_row_index(10, 7, area, 1, &row_positions), Some(1));
    assert_eq!(mouse_row_index(30, 5, area, 1, &row_positions), None);
    assert_eq!(mouse_row_index(10, 8, area, 1, &row_positions), None);
    assert!(!mouse_in_area(30, 5, area));
    assert!(!mouse_in_area(10, 8, area));
}

#[test]
fn mouse_scroll_moves_selection_within_filtered_rows() {
    assert_eq!(mouse_scroll_target(1, 3, MouseKind::ScrollUp), Some(0));
    assert_eq!(
        mouse_scroll_target(1, 3, MouseKind::ScrollDown),
        Some(2)
    );
    assert_eq!(mouse_scroll_target(0, 3, MouseKind::ScrollUp), None);
    assert_eq!(mouse_scroll_target(2, 3, MouseKind::ScrollDown), None);
    assert_eq!(mouse_scroll_target(0, 0, MouseKind::ScrollDown), None);
}

#[test]
fn open_workspace_paths_excludes_tabs_panes_and_dormant_projects() {
    let state = PickerState {
        rows: vec![
            open("w1", "~/work", "/work", &[]),
            tab_row("api", "w1", "w1:t1", "~/work"),
            pane_row("editor", "w1", "w1:p1", "~/work"),
            project("other", "~/other", "/other"),
        ],
        query: String::new(),
        selected: 0,
    };

    assert_eq!(state.open_workspace_paths(), vec!["/work"]);
}

#[test]
fn enter_action_distinguishes_focus_from_opening_a_project() {
    let workspace = open("w1", "~/work", "/work", &[]);
    let tab = tab_row("api", "w1", "w1:t1", "~/work");
    let pane = pane_row("editor", "w1", "w1:p1", "~/work");
    let project = project("other", "~/other", "/other");

    assert_eq!(enter_action(&workspace.kind), "focus");
    assert_eq!(enter_action(&tab.kind), "focus");
    assert_eq!(enter_action(&pane.kind), "focus");
    assert_eq!(enter_action(&project.kind), "open project");
}

#[test]
fn empty_picker_messages_explain_project_discovery_state() {
    let searching = format!(
        "{:?}",
        empty_item(true, true, ProjectSourceStatus::Searching, None, "", 80)
    );
    assert!(searching.contains("Searching projects"), "{searching}");

    let unavailable = format!(
        "{:?}",
        empty_item(false, false, ProjectSourceStatus::Unavailable, None, "", 80)
    );
    assert!(
        unavailable.contains("zoxide suggestions unavailable"),
        "{unavailable}"
    );

    let no_matches = format!(
        "{:?}",
        empty_item(
            false,
            false,
            ProjectSourceStatus::Available,
            None,
            "missing",
            80
        )
    );
    assert!(
        no_matches.contains("No matching workspaces or projects"),
        "{no_matches}"
    );
}

#[test]
fn alt_digit_quick_jump_ignores_tab_and_pane_rows() {
    let mut state = PickerState {
        rows: vec![
            open("one", "~/one", "/one", &[]),
            tab_row("api server", "w1", "w1:t1", "~/one · w1:t1"),
            pane_row("editor", "w1", "w1:p1", "~/one · w1:p1"),
            open("two", "~/two", "/two", &[]),
        ],
        query: String::new(),
        selected: 0,
    };
    let mut matcher = FuzzyMatcher::new();
    let filtered = state.filtered(&mut matcher);

    assert_eq!(filtered, vec![0, 3, 1, 2]);
    assert_eq!(nth_open_jump(&mut state, &filtered, 0).unwrap().name, "one");
    assert_eq!(nth_open_jump(&mut state, &filtered, 1).unwrap().name, "two");
    assert!(nth_open_jump(&mut state, &filtered, 2).is_none());
}

fn texts(items: &[ListItem]) -> Vec<String> {
    items.iter().map(|item| item.line.text()).collect()
}

#[test]
fn lists_are_titled_by_section_and_space() {
    let mut second = tab_row("logs", "w2", "w2:t1", "~/b");
    second.space.as_mut().unwrap().disambiguator = Some("folder: b".into());
    let rows = vec![
        open("w1", "~/a", "/a", &[]),
        tab_row("api", "w1", "w1:t1", "~/a"),
        second,
        pane_row("editor", "w1", "w1:p1", "~/a"),
        project("c", "~/c", "/c"),
    ];
    let filtered: Vec<usize> = (0..rows.len()).collect();
    let (items, selected, positions) = build(&rows, &filtered, 4, 60);
    let lines = texts(&items);
    assert_eq!(lines[0], "── OPEN — LIVE WORKSPACES");
    assert_eq!(lines[2], "── TABS — OPEN WORKSPACES");
    assert_eq!(lines[3], "  ↳ SPACE · w1");
    assert_eq!(lines[5], "  ↳ SPACE · w2 · folder: b");
    assert_eq!(lines[7], "── PANES — IN SPACE w1");
    assert_eq!(lines[9], "── PROJECTS — NOT OPEN YET");
    assert_eq!(selected, 10);
    assert_eq!(positions.len(), items.len());
    assert_eq!(positions[selected], Some(4));
}

#[test]
fn shown_numbers_jump_to_their_rows() {
    let rows: Vec<Row> = (0..12)
        .map(|i| open(&format!("w{i}"), "~/p", &format!("/p{i}"), &[]))
        .collect();
    let mut state = PickerState {
        rows,
        query: String::new(),
        selected: 0,
    };
    let filtered = state.filtered(&mut FuzzyMatcher::new());
    let (items, _, positions) = build(&state.rows, &filtered, 0, 60);
    let mut numbered = 0;
    for (item, position) in items.iter().zip(positions) {
        let Some(position) = position else { continue };
        let first = item.line.text().chars().next().unwrap();
        match alt_digit_index(first) {
            Some(index) => {
                numbered += 1;
                assert!(nth_open_jump(&mut state, &filtered, index).is_some());
                assert_eq!(state.selected, position);
            }
            None => assert!(position >= 10),
        }
    }
    assert_eq!(numbered, 10);
}

#[test]
fn contexts_say_what_a_row_holds() {
    let row = open_with_tabs("api", "~/api", "/api", &["a", "b", "c"], &["t", "t"]);
    assert_eq!(pane_summary(&row).as_deref(), Some("a · b +1"));
    assert_eq!(tab_summary(&row).as_deref(), Some("t"));
    assert_eq!(secondary_context(&row), "panes: a · b +1 · ~/api · tabs: t");
    let mut dormant = project("p", "", "/p");
    assert_eq!(tab_summary(&dormant), None);
    dormant.tab_names = vec!["x".into(), "y".into()];
    assert_eq!(secondary_context(&dormant), "tabs: x · y");
    dormant.display = "~/p".into();
    assert_eq!(secondary_context(&dormant), "~/p · tabs: x · y");
}

#[test]
fn colors_follow_the_state_and_have_channels() {
    assert_eq!(state_color(AgentState::Blocked), Color::Red);
    assert_eq!(state_color(AgentState::Working), Color::Sky);
    assert_eq!(state_color(AgentState::Done), Color::Green);
    assert_eq!(state_color(AgentState::Idle), Color::Muted);
    assert_eq!(state_color(AgentState::Unknown), Color::Muted);
    assert_eq!(Color::Mauve.rgb(), (0xcb, 0xa6, 0xf7));
    assert_eq!(Color::Base.rgb(), (0x1e, 0x1e, 0x2e));
}

#[test]
fn widths_are_columns() {
    assert_eq!(display_width("界"), 2);
    assert_eq!(truncate_to_width("hello", 5), "hello");
    assert_eq!(truncate_to_width("hello!", 5), "hell…");
    assert_eq!(pad_to_width("ab", 4), "ab  ");
    assert_eq!(pad_to_width("abcdef", 4), "abc…");
}

#[test]
fn lines_are_spread_within_their_width() {
    let left = || vec![Span::raw("left".into())];
    let right = || vec![Span::raw("r".into())];
    assert_eq!(spread(left(), right(), 10).text(), "left     r");
    assert_eq!(spread(left(), right(), 0).text(), "");
    assert_eq!(spread(left(), Vec::new(), 6).text(), "left  ");
    for width in 0..30 {
        let line: Line = prompt_line("a long query of many words", 12, width);
        assert!(line.width() <= width);
        assert!(footer_line(Some(&Kind::Dormant), width).width() <= width);
    }
}

#[test]
fn prompts_and_hints_say_what_can_be_done() {
    assert_eq!(
        prompt_line("", 3, 40).text(),
        "› type to fuzzy-filter…        3 matches"
    );
    assert!(prompt_line("api", 0, 40).text().starts_with("› api "));
    let cap = keycap("esc", "cancel");
    assert_eq!(cap[0].content, " esc ");
    assert_eq!(
        cap[0].style,
        Style {
            fg: Some(Color::Fg),
            bg: Some(Color::Surface1),
            bold: true
        }
    );
    assert_eq!(cap[1].content, " cancel   ");
    let footer = footer_line(Some(&Kind::Dormant), 200).text();
    assert!(footer.starts_with(" ↵  open project "), "{footer}");
    assert!(footer.contains(" ⌥0-9  recents "), "{footer}");
    assert!(!footer_line(None, 200).text().contains("↵"));
}

#[test]
fn titles_count_rows_and_tell_the_refresh() {
    let title = |loading, searching, failed, status| {
        title_line(2, 3, loading, searching, failed, status).text()
    };
    assert_eq!(
        title(true, false, false, ProjectSourceStatus::Searching),
        " 2 open · 3 projects · loading workspaces "
    );
    assert_eq!(
        title(true, true, false, ProjectSourceStatus::Searching),
        " 2 open · 3 projects · searching projects "
    );
    assert_eq!(
        title(false, false, true, ProjectSourceStatus::Available),
        " 2 open · 3 projects · refresh failed "
    );
    assert_eq!(
        title(false, false, false, ProjectSourceStatus::Unavailable),
        " 2 open · 3 projects · zoxide unavailable "
    );
    assert_eq!(
        title(false, false, false, ProjectSourceStatus::Available),
        " 2 open · 3 projects "
    );
}

#[test]
fn empty_lists_explain_themselves() {
    let say = |loading, searching, error, query| {
        empty_item(loading, searching, ProjectSourceStatus::Available, error, query, 80)
            .line
            .text()
    };
    assert_eq!(say(true, false, None, ""), "Loading workspaces…");
    assert_eq!(say(true, false, None, "x"), "No matches yet — still loading…");
    assert_eq!(say(true, true, None, "x"), "No matches yet — searching projects…");
    assert_eq!(say(false, false, Some("Refresh failed: x"), "q"), "Refresh failed: x");
    assert_eq!(say(false, false, None, ""), "No projects found");
}

#[test]
fn areas_end_where_coordinates_end() {
    let area = Area {
        x: 65_000,
        y: 65_000,
        width: 1_000,
        height: 1_000,
    };
    assert!(mouse_in_area(65_534, 65_534, area));
    assert!(!mouse_in_area(65_535, 65_534, area));
    assert_eq!(mouse_row_index(65_000, 65_000, area, usize::MAX, &[Some(0)]), None);
}

fn press(key: Key) -> KeyPress {
    KeyPress {
        key,
        control: false,
        alt: false,
    }
}

fn control(c: char) -> KeyPress {
    KeyPress {
        key: Key::Char(c),
        control: true,
        alt: false,
    }
}

fn ready(rows: Vec<Row>) -> Picker {
    let mut run = Picker::new(PickerState::default());
    assert!(run.receive(Feed::Message(Message::Ready(Snapshot {
        rows,
        project_source_status: ProjectSourceStatus::Available,
        live_workspace_ids: Some(vec!["w1".into()]),
        origin_workspace: Some("w1".into()),
    }))));
    run.settle();
    run
}

fn sample() -> Vec<Row> {
    vec![
        open("w1", "~/one", "/one", &[]),
        open("w2", "~/two", "/two", &[]),
        tab_row("logs", "w1", "w1:t1", "~/one"),
        project("three", "~/three", "/three"),
    ]
}

#[test]
fn runs_end_with_a_decision_and_what_was_learned() {
    let mut run = ready(sample());
    assert!(run.press(press(Key::Down)).is_none());
    let outcome = run.press(press(Key::Enter)).unwrap();
    assert!(matches!(&outcome, Outcome::Jump(row) if row.name == "w2"));
    let session = run.finish(outcome);
    assert_eq!(session.live_workspace_ids, Some(vec!["w1".to_string()]));
    assert_eq!(session.origin_workspace.as_deref(), Some("w1"));
    assert_eq!(session.state.selected, 1);
    assert!(matches!(ready(sample()).press(press(Key::Esc)), Some(Outcome::Cancel)));
    assert!(matches!(ready(sample()).press(control('c')), Some(Outcome::Cancel)));
}

#[test]
fn controls_apply_to_directory_rows_only() {
    let mut run = ready(sample());
    assert!(matches!(run.press(control('x')), Some(Outcome::Close(row)) if row.name == "w1"));
    assert!(matches!(run.press(control('n')), Some(Outcome::ForceNew(row)) if row.name == "w1"));
    run.press(press(Key::Tab));
    run.settle();
    assert!(run.press(control('x')).is_none());
    assert!(run.press(control('n')).is_none());
    run.press(press(Key::Tab));
    run.settle();
    assert!(run.press(control('x')).is_none());
    assert!(matches!(run.press(control('n')), Some(Outcome::ForceNew(row)) if row.name == "three"));
    assert!(run.press(control('q')).is_none());
}

#[test]
fn digits_jump_and_letters_are_typed() {
    let alt = |c: char| KeyPress {
        key: Key::Char(c),
        control: false,
        alt: true,
    };
    let mut run = ready(sample());
    assert!(matches!(run.press(alt('2')), Some(Outcome::Jump(row)) if row.name == "w2"));
    assert!(run.press(alt('3')).is_none());
    assert!(run.press(alt('a')).is_none());
    assert!(matches!(
        run.press(press(Key::Char('¡'))),
        Some(Outcome::Jump(row)) if row.name == "w1"
    ));
    assert!(run.press(press(Key::Char('ª'))).is_none());
    run.settle();
    assert!(run.frame(60).prompt.text().starts_with("› ª"));
    run.press(press(Key::Backspace));
    for c in "three".chars() {
        run.press(press(Key::Char(c)));
    }
    run.settle();
    assert!(matches!(run.press(press(Key::Enter)), Some(Outcome::Jump(row)) if row.name == "three"));
}

#[test]
fn cycling_pins_where_it_began() {
    let mut run = ready(sample());
    run.press(press(Key::Tab));
    run.settle();
    let frame = run.frame(60);
    let lines = texts(&frame.items);
    assert!(lines[1].contains("● "), "{}", lines[1]);
    assert_eq!(frame.selected, Some(4));
    run.press(press(Key::Up));
    run.settle();
    assert!(!texts(&run.frame(60).items)[1].contains("● "));
}

#[test]
fn frames_show_counts_prompt_list_and_hints() {
    let run = ready(sample());
    let frame = run.frame(60);
    assert_eq!(frame.slogan.text(), " one terminal for the whole herd ");
    assert_eq!(frame.title.text(), " 2 open · 1 projects ");
    assert!(frame.prompt.text().ends_with("4 matches"));
    assert_eq!(frame.items.len(), 7);
    assert_eq!(frame.selected, Some(1));
    assert_eq!(frame.row_positions[1], Some(0));
    assert!(frame.footer.text().starts_with(" ↵  focus "));
}

#[test]
fn mice_select_rows_but_not_titles() {
    let area = Area {
        x: 0,
        y: 10,
        width: 60,
        height: 20,
    };
    let mut run = ready(sample());
    let positions = run.frame(60).row_positions;
    run.mouse(MouseKind::LeftDown, 3, 16, area, 0, &positions);
    run.settle();
    assert_eq!(run.frame(60).selected, Some(6));
    run.mouse(MouseKind::LeftDown, 3, 15, area, 0, &positions);
    run.mouse(MouseKind::LeftDown, 3, 9, area, 0, &positions);
    run.settle();
    assert_eq!(run.frame(60).selected, Some(6));
    run.mouse(MouseKind::ScrollUp, 3, 12, area, 0, &positions);
    run.settle();
    assert_eq!(run.frame(60).selected, Some(4));
    run.mouse(MouseKind::ScrollUp, 3, 2, area, 0, &positions);
    run.mouse(MouseKind::Other, 3, 12, area, 0, &positions);
    run.settle();
    assert_eq!(run.frame(60).selected, Some(4));
}

#[test]
fn refreshes_are_followed_to_their_end() {
    let mut run = Picker::new(PickerState::default());
    assert!(run.listens());
    assert!(!run.receive(Feed::Empty));
    run.settle();
    assert_eq!(texts(&run.frame(60).items), vec!["Loading workspaces…"]);
    assert_eq!(run.frame(60).selected, None);
    assert!(run.receive(Feed::Message(Message::Partial(Snapshot {
        rows: vec![open("w1", "~/one", "/one", &[])],
        project_source_status: ProjectSourceStatus::Searching,
        live_workspace_ids: Some(vec!["w1".into()]),
        origin_workspace: None,
    }))));
    run.settle();
    assert!(run.frame(60).title.text().ends_with("searching projects "));
    assert!(run.receive(Feed::Message(Message::Failed("boom".into()))));
    run.settle();
    assert!(run.frame(60).title.text().ends_with("refresh failed "));
    assert_eq!(run.frame(60).items.len(), 2);
    assert!(!run.receive(Feed::Disconnected));
    assert!(!run.listens());
}

#[test]
fn refreshes_that_stop_say_so() {
    let mut run = Picker::new(PickerState::default());
    run.receive(Feed::Disconnected);
    run.settle();
    assert_eq!(
        texts(&run.frame(60).items),
        vec!["Refresh stopped before completion"]
    );
    let mut run = Picker::new(PickerState::default());
    run.receive(Feed::Message(Message::Failed("boom".into())));
    run.settle();
    assert_eq!(texts(&run.frame(60).items), vec!["Refresh failed: boom"]);
}

#[test]
fn simple_texts_take_a_column_for_each_character() {
    let printable: String = (' '..='~').collect();
    assert_eq!(display_width(&printable), printable.len());
    assert_eq!(display_width("a…b……"), 5);
    assert_eq!(display_width(""), 0);
    for width in 1..printable.len() {
        let cut = truncate_to_width(&printable, width);
        assert_eq!(cut, format!("{}…", &printable[..width - 1]));
        assert_eq!(pad_to_width("ab", width.max(2)).len(), width.max(2));
    }
    assert_eq!(truncate_to_width(&printable, printable.len()), printable);
    assert_eq!(truncate_to_width("ab", 0), "");
}

#[test]
fn pieces_are_joined_as_far_as_they_fit() {
    let pieces: Vec<String> = vec!["a".into(), "界".into(), "b".into()];
    let widths = vec![1, 2, 1];
    assert_eq!(fit(&pieces, &widths, 4), "a界b");
    assert_eq!(fit(&pieces, &widths, 3), "a界");
    assert_eq!(fit(&pieces, &widths, 2), "a");
    assert_eq!(fit(&pieces, &widths, 0), "");
}

#[test]
fn scored_rows_are_ranked_within_their_sections() {
    let rows = vec![
        project("p", "~/p", "/p"),
        open("w1", "~/1", "/1", &[]),
        open("w2", "~/2", "/2", &[]),
        open("w3", "~/3", "/3", &[]),
        tab_row("x", "beta", "b:t1", "~/b"),
        tab_row("y", "alpha", "a:t1", "~/a"),
        tab_row("z", "beta", "b:t2", "~/b"),
    ];
    let scores = vec![
        Some(99),
        Some(1),
        None,
        Some(5),
        Some(7),
        Some(6),
        Some(2),
    ];
    // Better scores first, but a space's tabs stand with its best one.
    assert_eq!(filter_scored(&rows, &scores, true), vec![3, 1, 4, 6, 5, 0]);
    // Without a search spaces are in alphabetical order.
    let all = vec![Some(0); rows.len()];
    assert_eq!(filter_scored(&rows, &all, false), vec![1, 2, 3, 5, 4, 6, 0]);
}

#[test]
fn moving_activates_nothing_and_typing_starts_at_the_top() {
    let mut run = ready(sample());
    for key in [Key::Down, Key::Tab, Key::Up, Key::Other, Key::Down] {
        assert!(run.press(press(key)).is_none());
        run.settle();
    }
    assert_ne!(run.frame(60).selected, Some(1));
    assert!(run.press(press(Key::Char('w'))).is_none());
    run.settle();
    assert_eq!(run.frame(60).selected, Some(1));
    run.press(press(Key::Down));
    run.press(press(Key::Backspace));
    run.settle();
    assert_eq!(run.frame(60).selected, Some(1));
}

#[test]
fn drawn_signs_take_one_column_each() {
    let signs = "·—…›↳↵⌥─○●◐✓";
    for sign in signs.chars() {
        assert_eq!(display_width(&sign.to_string()), 1, "{sign}");
        assert_eq!(display_width(&format!("a{sign}{sign} ")), 4, "{sign}");
        for other in signs.chars() {
            assert_eq!(display_width(&format!("{sign}{other}")), 2, "{sign}{other}");
        }
    }
    assert_eq!(display_width(signs), signs.chars().count());
    for ideograph in ['\u{4e00}', '界', '\u{9fff}'] {
        assert_eq!(display_width(&ideograph.to_string()), 2);
        assert_eq!(display_width(&format!("●{ideograph}a{ideograph}")), 6);
    }
    assert_eq!(pad_to_width("界界界", 6), "界界界");
    assert_eq!(pad_to_width("界界界", 4), "界… ");
    assert_eq!(truncate_to_width("a · b ● c", 5), "a · …");
    assert_eq!(pad_to_width("↳ x", 5), "↳ x  ");
}

#[test]
fn simple_lines_never_take_more_columns_than_there_are() {
    let panes = ["界界界界界界界界界界", "b", "c"];
    let mut row = open_with_tabs("api", "~/dev/api · w1:t1", "/dev/api", &panes, &["t"]);
    row.space.as_mut().unwrap().disambiguator = Some("folder: x".into());
    let space = SpaceContext {
        label: "shop".into(),
        disambiguator: Some("main".into()),
        number: Some(3),
    };
    let dormant = project("web", "~/dev/web", "/dev/web");
    for width in 0..90 {
        for (related, pinned) in [(false, false), (true, false), (false, true)] {
            for shown in [&row, &dormant] {
                let line = row_line_with_relation(shown, width, Some(1234567), related, pinned);
                assert!(line.width() <= width, "{width}");
            }
        }
        for kind in [None, Some(&row.kind), Some(&dormant.kind)] {
            assert!(footer_line(kind, width).width() <= width, "{width}");
        }
        for query in ["", "a long query that is cut somewhere", "界界界界界界界界"] {
            assert!(prompt_line(query, 120, width).width() <= width, "{width}");
        }
        assert!(header_item("OPEN", "live workspaces", width).line.width() <= width);
        let rows = [row.clone(), dormant.clone()];
        let (items, _, _) = build(&rows, &[0, 1], 0, width);
        assert_eq!(items.len(), 4);
        assert!(items.iter().all(|item| item.line.width() <= width), "{width}");
        assert!(space_header_item(&space, width).line.width() <= width);
    }
}
