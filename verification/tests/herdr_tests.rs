//! Herdr's lists, its wire format and its client.

use herdr_muster::cli::{command_label, output_text, command_result, judge, CliHerdr, Request};
use herdr_muster::herdr::{
    clean, decode_public_number, Herdr, HerdrError, Pane, Result, TabInfo, Workspace,
};
use herdr_muster::jump_pane::RuntimeTarget;
use herdr_muster::wire::{
    answer_of, focus_request, focus_response, pane_request, parse_created_id, parse_panes,
    parse_process_name, parse_tabs, parse_workspaces, process_name_from, socket_failure,
    tab_request, SocketStep,
};
use serde_json::Value;
use std::sync::atomic::{AtomicBool, Ordering};
use std::sync::Arc;

type Decoded<T> = std::result::Result<T, String>;

const WS: &str = r#"{"result":{"type":"workspace_list","workspaces":[{"workspace_id":"w5","label":"~","agent_status":"working"},{"workspace_id":"w6","label":"/tmp","agent_status":""}]}}"#;
const CR: &str = r#"{"result":{"workspace":{"workspace_id":"w9"},"root_pane":{"cwd":"/p"},"type":"workspace_created"}}"#;
const PN: &str = r#"{"result":{"type":"pane_list","panes":[{"pane_id":"wE:p1","workspace_id":"wE","cwd":"/home/x/dev/api","agent":"codex","agent_status":"working","label":"api-shell","terminal_title_stripped":"π - api"},{"pane_id":"wE:p2","workspace_id":"wE","cwd":"/tmp","terminal_title_stripped":"π - tmp"},{"pane_id":"wB:pA","workspace_id":"wB"}]}}"#;

fn read(json: &str) -> Decoded<Value> {
    serde_json::from_str(json).map_err(|error| error.to_string())
}

fn items<'a>(value: &'a Value, list: &str) -> Decoded<&'a Vec<Value>> {
    value
        .get("result")
        .and_then(|result| result.get(list))
        .and_then(Value::as_array)
        .ok_or_else(|| format!("missing field `{list}`"))
}

fn required(item: &Value, key: &str) -> Decoded<String> {
    item.get(key)
        .and_then(Value::as_str)
        .map(str::to_owned)
        .ok_or_else(|| format!("invalid type for `{key}`"))
}

fn optional(item: &Value, key: &str) -> Option<String> {
    item.get(key).and_then(Value::as_str).map(str::to_owned)
}

fn flag(item: &Value, key: &str) -> bool {
    item.get(key).and_then(Value::as_bool).unwrap_or(false)
}

fn workspaces(json: &str) -> Decoded<Vec<Workspace>> {
    let value = read(json)?;
    items(&value, "workspaces")?
        .iter()
        .map(|item| {
            Ok(Workspace {
                workspace_id: required(item, "workspace_id")?,
                label: optional(item, "label").unwrap_or_default(),
                number: item
                    .get("number")
                    .and_then(Value::as_u64)
                    .map(|number| number as usize),
                agent_status: optional(item, "agent_status").unwrap_or_default(),
            })
        })
        .collect()
}

fn panes(json: &str) -> Decoded<Vec<Pane>> {
    let value = read(json)?;
    items(&value, "panes")?
        .iter()
        .map(|item| {
            Ok(Pane {
                pane_id: required(item, "pane_id")?,
                workspace_id: required(item, "workspace_id")?,
                tab_id: optional(item, "tab_id"),
                cwd: optional(item, "cwd"),
                foreground_cwd: optional(item, "foreground_cwd"),
                agent: optional(item, "agent"),
                agent_status: optional(item, "agent_status"),
                label: optional(item, "label"),
                title: optional(item, "title"),
                terminal_title: optional(item, "terminal_title_stripped"),
                focused: flag(item, "focused"),
                hidden: flag(item, "hidden"),
                plugin: flag(item, "plugin"),
                floating: flag(item, "floating"),
                suppressed: flag(item, "suppressed"),
            })
        })
        .collect()
}

fn tabs(json: &str) -> Decoded<Vec<TabInfo>> {
    let value = read(json)?;
    items(&value, "tabs")?
        .iter()
        .map(|item| {
            Ok(TabInfo {
                tab_id: required(item, "tab_id")?,
                workspace_id: optional(item, "workspace_id").unwrap_or_default(),
                label: optional(item, "label"),
                number: item
                    .get("number")
                    .and_then(Value::as_u64)
                    .map(|number| number as usize),
                agent_status: optional(item, "agent_status"),
            })
        })
        .collect()
}

fn created(json: &str) -> Decoded<String> {
    let value = read(json)?;
    value
        .pointer("/result/workspace/workspace_id")
        .and_then(Value::as_str)
        .map(str::to_owned)
        .ok_or_else(|| "missing field `workspace_id`".to_string())
}

#[test]
fn parses_workspaces_with_status_default() {
    let workspaces = parse_workspaces(workspaces(WS)).unwrap();
    assert_eq!(workspaces[0].workspace_id, "w5");
    assert_eq!(workspaces[0].agent_status, "working");
    assert_eq!(workspaces[1].agent_status, "unknown");
}

#[test]
fn removes_terminal_control_characters_from_workspace_labels() {
    let json = r#"{"result":{"workspaces":[{"workspace_id":"w1","label":" \u001b[2J dashboard\u009bK ","agent_status":"idle"}]}}"#;
    let workspaces = parse_workspaces(workspaces(json)).unwrap();

    assert_eq!(workspaces[0].label, "[2J dashboardK");
}

#[test]
fn parses_created_id() {
    assert_eq!(parse_created_id(created(CR)).unwrap(), "w9");
}

#[test]
fn parses_optional_cwd_agent_and_names() {
    let panes = parse_panes(panes(PN)).unwrap();
    assert_eq!(panes[0].workspace_id, "wE");
    assert_eq!(panes[0].cwd.as_deref(), Some("/home/x/dev/api"));
    assert_eq!(panes[0].agent.as_deref(), Some("codex"));
    assert_eq!(panes[0].display_name(), Some("api-shell"));
    assert_eq!(panes[1].agent, None);
    assert_eq!(panes[1].display_name(), Some("π - tmp"));
    assert_eq!(panes[2].cwd, None);
    assert_eq!(panes[2].display_name(), None);
}

#[test]
fn parse_tabs_reads_tab_id_workspace_and_label() {
    let json = r#"{"id":"1","type":"tab_list","result":{"type":"tab_list","tabs":[{"tab_id":"wE:t1","workspace_id":"wE","label":"api","number":2,"agent_status":"working"},{"tab_id":"wB:tA","workspace_id":"wB"}]}}"#;
    let tabs = parse_tabs(tabs(json)).unwrap();

    assert_eq!(tabs.len(), 2);
    assert_eq!(tabs[0].tab_id, "wE:t1");
    assert_eq!(tabs[0].workspace_id, "wE");
    assert_eq!(tabs[0].label.as_deref(), Some("api"));
    assert_eq!(tabs[0].number, Some(2));
    assert_eq!(tabs[0].agent_status.as_deref(), Some("working"));
    assert_eq!(tabs[1].tab_id, "wB:tA");
    assert_eq!(tabs[1].workspace_id, "wB");
    assert_eq!(tabs[1].label, None);
    assert_eq!(tabs[1].number, None);
    assert_eq!(tabs[1].agent_status, None);
}

#[test]
fn parse_tabs_rejects_malformed_json_and_missing_tabs() {
    let cases = [
        "nope",
        "{}",
        r#"{"result":{}}"#,
        r#"{"result":{"tabs":{}}}"#,
        r#"{"result":{"tabs":[{"tab_id":7}]}}"#,
    ];

    for json in cases {
        let error = parse_tabs(tabs(json)).unwrap_err();
        assert!(
            matches!(&error, HerdrError::InvalidJson(message) if message.contains("invalid tab list JSON")),
            "{json} => {}",
            error.message()
        );
    }
}

#[test]
fn parse_tabs_discards_blank_labels_and_sanitizes_control_characters() {
    let json = r#"{"result":{"tabs":[{"tab_id":"w1:t1","workspace_id":"w1","label":"   "},{"tab_id":"w1:t2","workspace_id":"w1","label":"\u001b[2J api \u009bK"},{"tab_id":"w1:t3","workspace_id":"w1","label":null}]}}"#;
    let tabs = parse_tabs(tabs(json)).unwrap();

    assert_eq!(tabs[0].label, None);
    assert_eq!(tabs[1].label.as_deref(), Some("[2J api K"));
    assert_eq!(tabs[2].label, None);
}

#[test]
fn parse_tabs_ignores_unknown_tabinfo_fields() {
    let json = r#"{"result":{"tabs":[{"tab_id":"wE:t1","workspace_id":"wE","label":"api","number":3,"focused":true,"pane_count":2,"agent_status":"working","extra":{"nested":1}}]}}"#;
    let tabs = parse_tabs(tabs(json)).unwrap();

    assert_eq!(tabs.len(), 1);
    assert_eq!(tabs[0].tab_id, "wE:t1");
    assert_eq!(tabs[0].label.as_deref(), Some("api"));
}

/// A runtime that never overrides `list_tabs`; the default must stay empty so
/// that tab metadata can never affect pane navigation.
struct TablessHerdr;

impl Herdr for TablessHerdr {
    fn list_workspaces(&self) -> Result<Vec<Workspace>> {
        Ok(Vec::new())
    }

    fn list_panes(&self) -> Result<Vec<Pane>> {
        Ok(Vec::new())
    }

    fn create_workspace(&self, _cwd: &str, _label: &str) -> Result<String> {
        Ok(String::new())
    }

    fn focus_workspace(&self, _id: &str) -> Result<()> {
        Ok(())
    }

    fn close_workspace(&self, _id: &str) -> Result<()> {
        Ok(())
    }

    fn close_pane(&self, _id: &str) -> Result<()> {
        Ok(())
    }
}

#[test]
fn list_tabs_default_implementation_returns_empty() {
    assert!(TablessHerdr.list_tabs().unwrap().is_empty());
}

#[test]
fn runtimes_without_a_capability_refuse_it() {
    assert_eq!(
        TablessHerdr.focus_tab("t"),
        Err(HerdrError::Command("absolute tab focus is unavailable".into()))
    );
    assert_eq!(
        TablessHerdr.focus_pane("p"),
        Err(HerdrError::Command("absolute pane focus is unavailable".into()))
    );
    assert_eq!(
        TablessHerdr.process_name("p"),
        Err(HerdrError::Command("pane process info is unavailable".into()))
    );
}

#[test]
fn configured_target_without_socket_is_explicitly_unsupported() {
    let client = CliHerdr::new("unused".into()).without_default_socket();
    let error = client.socket_path(None, None).unwrap_err().message();
    assert!(error.contains("unsupported") && error.contains("explicit"));
}

#[test]
fn accepts_null_cwd_and_ignores_blank_names() {
    let json = r#"{"result":{"panes":[{"pane_id":"w1:p1","workspace_id":"w1","cwd":null,"label":"  ","terminal_title_stripped":" title "}]}}"#;
    let panes = parse_panes(panes(json)).unwrap();
    assert_eq!(panes[0].cwd, None);
    assert_eq!(panes[0].display_name(), Some("title"));
}

#[test]
fn removes_terminal_control_characters_from_pane_names() {
    let json = r#"{"result":{"panes":[
        {"pane_id":"w1:p1","workspace_id":"w1","label":" \u001b[2J dashboard\u0007 "},
        {"pane_id":"w1:p2","workspace_id":"w1","terminal_title_stripped":" \u001b]0;build\u0007 "},
        {"pane_id":"w1:p3","workspace_id":"w1","label":"\u009b2J\u007fclean"}
    ]}}"#;
    let panes = parse_panes(panes(json)).unwrap();

    assert_eq!(panes[0].label.as_deref(), Some("[2J dashboard"));
    assert_eq!(panes[1].terminal_title.as_deref(), Some("]0;build"));
    assert_eq!(panes[2].label.as_deref(), Some("2Jclean"));
}

#[test]
fn decodes_herdr_public_pane_numbers() {
    let pane = |suffix: &str| Pane {
        pane_id: format!("w1:p{suffix}"),
        workspace_id: "w1".into(),
        tab_id: None,
        cwd: None,
        foreground_cwd: None,
        agent: None,
        agent_status: None,
        label: None,
        title: None,
        terminal_title: None,
        focused: false,
        hidden: false,
        plugin: false,
        floating: false,
        suppressed: false,
    };
    assert_eq!(pane("1").number(), Some(1));
    assert_eq!(pane("9").number(), Some(9));
    assert_eq!(pane("A").number(), Some(10));
    assert_eq!(pane("0").number(), Some(32));
    assert_eq!(pane("11").number(), Some(33));
    assert_eq!(pane("I").number(), None);
    assert_eq!(pane("").number(), None);
}

#[test]
fn public_numbers_that_do_not_fit_are_none() {
    assert_eq!(decode_public_number("00"), Some(32 * 32 + 32));
    assert_eq!(decode_public_number(&"0".repeat(40)), None);
    assert_eq!(decode_public_number("1a"), None);
}

#[test]
fn public_numbers_count_up_without_repeats() {
    let symbols: Vec<char> = "123456789ABCDEFGHJKMNPQRSTVWXYZ0".chars().collect();
    let mut next = 1;
    for symbol in &symbols {
        assert_eq!(decode_public_number(&symbol.to_string()), Some(next));
        next += 1;
    }
    for first in &symbols {
        for second in &symbols {
            assert_eq!(decode_public_number(&format!("{first}{second}")), Some(next));
            next += 1;
        }
    }
    assert_eq!(decode_public_number("111"), Some(next));
}

#[test]
fn bad_json_errors_include_context() {
    let error = parse_workspaces(workspaces("nope")).unwrap_err().message();
    assert!(error.contains("workspace list"));
}

#[test]
fn every_list_names_itself_in_its_error() {
    let no_workspaces: Decoded<Vec<Workspace>> = Err("gone".into());
    let no_panes: Decoded<Vec<Pane>> = Err("gone".into());
    let no_tabs: Decoded<Vec<TabInfo>> = Err("gone".into());
    let invalid = |message: &str| HerdrError::InvalidJson(message.to_string());
    assert_eq!(
        parse_workspaces(no_workspaces),
        Err(invalid("invalid workspace list JSON: gone"))
    );
    assert_eq!(
        parse_panes(no_panes),
        Err(invalid("invalid pane list JSON: gone"))
    );
    assert_eq!(
        parse_tabs(no_tabs),
        Err(invalid("invalid tab list JSON: gone"))
    );
    assert_eq!(
        parse_created_id(Err("gone".into())),
        Err(invalid("invalid workspace-create JSON: gone"))
    );
}

#[test]
fn clean_drops_controls_and_blank_texts() {
    assert_eq!(clean(Some(" \u{1b}[31mred\u{7f} ".into())), Some("[31mred".into()));
    assert_eq!(clean(Some(" \u{7} \u{85}".into())), None);
    assert_eq!(clean(None), None);
}

#[test]
fn process_names_come_from_either_place_and_nothing_else() {
    let nested = r#"{"result":{"processes":[{"name":"vim","argv":["vim","secret"]},{"name":"sh"}]}}"#;
    assert_eq!(parse_process_name(nested), Ok(Some("vim".into())));
    let flat = r#"{"processes":[{"name":"cargo\u001b[0m"}]}"#;
    assert_eq!(parse_process_name(flat), Ok(Some("cargo[0m".into())));
    assert_eq!(
        parse_process_name(r#"{"result":{"processes":[]},"processes":[{"name":"no"}]}"#),
        Ok(None)
    );
    assert_eq!(
        parse_process_name(r#"{"result":{"processes":[{"name":7}]}}"#),
        Ok(None)
    );
    assert_eq!(
        parse_process_name(r#"{"result":{"processes":[{"name":" \u0007 "}]}}"#),
        Ok(None)
    );
    assert_eq!(parse_process_name("{}"), Ok(None));
}

#[test]
fn process_names_need_json() {
    match parse_process_name("nope") {
        Err(HerdrError::InvalidJson(message)) => {
            assert!(message.starts_with("invalid pane process-info JSON: "), "{message}")
        }
        other => panic!("{other:?}"),
    }
    assert_eq!(
        process_name_from(Ok(None), Err("late".into())),
        Err(HerdrError::InvalidJson(
            "invalid pane process-info JSON: late".into()
        ))
    );
    assert_eq!(
        process_name_from(Ok(Some(vec![Some("top".into())])), Err("unread".into())),
        Ok(Some("top".into()))
    );
}

#[test]
fn only_the_first_process_counts() {
    assert_eq!(
        parse_process_name(r#"{"processes":[{"name":"zsh"},{"name":"vim"}]}"#),
        Ok(Some("zsh".into()))
    );
    assert_eq!(
        parse_process_name(r#"{"result":{"processes":[{"pid":1},{"name":"vim"}]}}"#),
        Ok(None)
    );
    assert_eq!(
        process_name_from(
            Ok(Some(vec![Some("zsh".into()), Some("vim".into())])),
            Ok(None)
        ),
        Ok(Some("zsh".into()))
    );
    assert_eq!(
        process_name_from(Ok(Some(vec![None, Some("vim".into())])), Ok(None)),
        Ok(None)
    );
    assert_eq!(
        process_name_from(Ok(Some(vec![])), Ok(Some(vec![Some("vim".into())]))),
        Ok(None)
    );
    assert_eq!(
        process_name_from(Ok(None), Ok(Some(vec![Some("v\u{7}im".into())]))),
        Ok(Some("vim".into()))
    );
}

#[test]
fn focus_requests_are_one_line_of_json() {
    assert_eq!(
        pane_request(7, "runtime-pane"),
        "{\"id\":\"muster-7\",\"method\":\"pane.focus\",\"params\":{\"pane_id\":\"runtime-pane\"}}\n"
    );
    assert_eq!(
        tab_request(42, "w1:t2"),
        "{\"id\":\"muster-42\",\"method\":\"tab.focus\",\"params\":{\"tab_id\":\"w1:t2\"}}\n"
    );
}

#[test]
fn focus_requests_escape_what_they_carry() {
    let line = focus_request(1, "pane.focus", "pane_id", "a\"b\\c\n\u{1}π");
    assert_eq!(line.matches('\n').count(), 1);
    let value: Value = serde_json::from_str(line.trim()).unwrap();
    assert_eq!(value["id"], "muster-1");
    assert_eq!(value["method"], "pane.focus");
    assert_eq!(value["params"]["pane_id"], "a\"b\\c\n\u{1}π");
}

#[test]
fn focus_responses_are_judged_by_their_error() {
    assert_eq!(
        focus_response(
            "pane.focus",
            "{\"result\":{\"pane_info\":{\"pane_id\":\"runtime-pane\"}}}\n"
        ),
        Ok(())
    );
    assert_eq!(
        focus_response("tab.focus", " {\"error\":{\"code\":\"gone\"}} \n"),
        Err(HerdrError::Command(
            "tab.focus failed: {\"code\":\"gone\"}".into()
        ))
    );
    assert_eq!(
        focus_response("pane.focus", "{\"error\":\"a\u{9b}b\"}"),
        Err(HerdrError::Command("pane.focus failed: \"ab\"".into()))
    );
    match focus_response("pane.focus", "") {
        Err(HerdrError::InvalidJson(message)) => {
            assert!(message.starts_with("invalid pane.focus response: "), "{message}")
        }
        other => panic!("{other:?}"),
    }
    assert_eq!(answer_of("m", Ok(None)), Ok(()));
}

#[test]
fn socket_failures_name_their_step() {
    let say = |step| socket_failure(step, "/s", "pane.focus", "boom");
    assert_eq!(
        say(SocketStep::Connect),
        HerdrError::Command("connect Herdr socket /s: boom".into())
    );
    assert_eq!(
        say(SocketStep::Write),
        HerdrError::Command("write pane.focus: boom".into())
    );
    assert_eq!(
        say(SocketStep::Read),
        HerdrError::Command("read pane.focus: boom".into())
    );
}

#[test]
fn socket_comes_from_the_client_then_the_environment_then_home() {
    let client = CliHerdr::new("herdr".into());
    assert_eq!(
        client.socket_path_under(None, None, Some("/home/me")),
        Ok("/home/me/.config/herdr/herdr.sock".into())
    );
    assert_eq!(
        client.socket_path_under(None, None, None),
        Ok(".config/herdr/herdr.sock".into())
    );
    assert_eq!(client.socket_path(Some("/a"), Some("/b")), Ok("/a".into()));
    assert_eq!(client.socket_path(None, Some("/b")), Ok("/b".into()));
    assert_eq!(
        client.with_socket("/own").socket_path(Some("/a"), None),
        Ok("/own".into())
    );
    let home = dirs::home_dir().unwrap();
    assert_eq!(
        client.socket_path(None, None),
        Ok(home
            .join(".config/herdr/herdr.sock")
            .to_string_lossy()
            .into_owned())
    );
}

#[test]
fn clients_are_built_up_without_losing_anything() {
    let token = Arc::new(AtomicBool::new(false));
    let client = CliHerdr::new("herdr".into())
        .with_arg_prefix(vec!["--session".into(), "work".into()])
        .with_socket("/s")
        .with_cancellation(token.clone());
    assert_eq!(client.bin, "herdr");
    assert_eq!(client.arg_prefix, vec!["--session", "work"]);
    assert_eq!(client.socket.as_deref(), Some("/s"));
    assert!(client.default_socket_allowed);
    let shared = client.clone().cancellation().unwrap();
    token.store(true, Ordering::Relaxed);
    assert!(shared.load(Ordering::Relaxed));
    assert!(!client.without_default_socket().default_socket_allowed);
    assert!(CliHerdr::new("x".into()).cancellation().is_none());
}

#[test]
fn targets_without_a_socket_never_use_the_default_one() {
    let mut target = RuntimeTarget::default("herdr".into());
    assert!(CliHerdr::for_target(&target).default_socket_allowed);
    target.focus_supported = false;
    let client = CliHerdr::for_target(&target);
    assert!(client.socket_path(Some("/env"), Some("/env2")).is_err());
    target.socket = Some("/work.sock".into());
    assert_eq!(
        CliHerdr::for_target(&target).socket_path(Some("/env"), None),
        Ok("/work.sock".into())
    );
}

#[test]
fn requests_are_argument_lists() {
    assert_eq!(Request::ListWorkspaces.args(), vec!["workspace", "list"]);
    assert_eq!(Request::ListPanes.args(), vec!["pane", "list"]);
    assert_eq!(Request::ListTabs.args(), vec!["tab", "list"]);
    assert_eq!(
        Request::ProcessInfo("p".into()).args(),
        vec!["pane", "process-info", "--pane", "p"]
    );
    assert_eq!(
        Request::CreateWorkspace {
            cwd: "/a b".into(),
            label: "a b".into()
        }
        .args(),
        vec!["workspace", "create", "--cwd", "/a b", "--label", "a b", "--focus"]
    );
    assert_eq!(
        Request::FocusWorkspace("w".into()).args(),
        vec!["workspace", "focus", "w"]
    );
    assert_eq!(
        Request::CloseWorkspace("w".into()).args(),
        vec!["workspace", "close", "w"]
    );
    assert_eq!(Request::ClosePane("p".into()).args(), vec!["pane", "close", "p"]);
}

#[test]
fn commands_are_named_and_judged() {
    let label = command_label(&vec!["pane".into(), "a \"b\"".into()]);
    assert_eq!(label, "herdr [\"pane\", \"a \\\"b\\\"\"]");
    assert_eq!(command_label(&Vec::new()), "herdr []");
    assert_eq!(
        command_result(&label, true, &b"out\n".to_vec(), &b"noise".to_vec()),
        Ok("out\n".into())
    );
    assert_eq!(
        command_result("herdr []", false, &Vec::new(), &b" \x1b[1mbad\xff \n".to_vec()),
        Err(HerdrError::Command("herdr []: [1mbad\u{fffd}".into()))
    );
    assert_eq!(
        judge("l", false, "ignored".into(), "  \u{7}  why  "),
        Err(HerdrError::Command("l: why".into()))
    );
}

#[test]
fn requests_are_one_line_whatever_they_carry() {
    let id = "a\n\r\t\u{8}\u{c}\u{1}\u{1f}\u{7f}\"\\é";
    let line = pane_request(7, id);
    assert_eq!(
        line,
        "{\"id\":\"muster-7\",\"method\":\"pane.focus\",\"params\":{\"pane_id\":\"a\\n\\r\\t\\b\\f\\u0001\\u001f\u{7f}\\\"\\\\é\"}}\n"
    );
    assert_eq!(line.matches('\n').count(), 1);
    let value: Value = serde_json::from_str(&line).unwrap();
    assert_eq!(value["params"]["pane_id"], id);
}

#[test]
fn outputs_are_read_as_text() {
    assert_eq!(output_text(&"naïve 界".as_bytes().to_vec()), "naïve 界");
    assert_eq!(output_text(&vec![b'a', 0xff, b'b']), "a\u{fffd}b");
}
