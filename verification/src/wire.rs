//! What goes over the wire: lists that Herdr prints, and requests to its socket.

use vstd::prelude::*;
use crate::herdr;
use crate::herdr::{HerdrError, HerdrErrorModel, Pane, PaneModel, Result, TabInfo, TabModel, Workspace, WorkspaceModel};
use crate::jump_pane;
use crate::text;

verus! {

broadcast use crate::text::lemma_views_push;

/// A listed workspace as the picker shows it: with a clean label, and a status.
pub open spec fn clean_workspace(listed: WorkspaceModel) -> WorkspaceModel {
    WorkspaceModel {
        label: jump_pane::text_or_empty(text::cleaned(Some(listed.label))),
        agent_status: if listed.agent_status.len() == 0 {
            "unknown"@
        } else {
            listed.agent_status
        },
        ..listed
    }
}

/// A listed pane as the picker shows it: with clean texts, blank ones left out.
/// Its identity is as it was listed.
pub open spec fn clean_pane(listed: PaneModel) -> PaneModel {
    PaneModel {
        tab_id: text::cleaned(listed.tab_id),
        cwd: text::cleaned(listed.cwd),
        foreground_cwd: text::cleaned(listed.foreground_cwd),
        agent: text::cleaned(listed.agent),
        agent_status: text::cleaned(listed.agent_status),
        label: text::cleaned(listed.label),
        title: text::cleaned(listed.title),
        terminal_title: text::cleaned(listed.terminal_title),
        ..listed
    }
}

/// A listed tab as the picker shows it.
pub open spec fn clean_tab(listed: TabModel) -> TabModel {
    TabModel {
        label: text::cleaned(listed.label),
        agent_status: text::cleaned(listed.agent_status),
        ..listed
    }
}

/// An answer that is not what was asked for.
pub open spec fn invalid(what: Seq<char>, error: Seq<char>) -> HerdrErrorModel {
    HerdrErrorModel::InvalidJson("invalid "@ + what + ": "@ + error)
}

/// The error of an answer that is not what was asked for.
fn invalid_json(what: &str, error: &str) -> (failure: HerdrError)
    ensures
        failure@ == invalid(what@, error@),
{
    let mut message = text::joined("invalid ", what);
    message.append(": ");
    message.append(error);
    HerdrError::InvalidJson(message)
}

/// Take in a list of workspaces as it was decoded, or why it could not be.
pub fn parse_workspaces(decoded: std::result::Result<Vec<Workspace>, String>) -> (parsed: Result<
    Vec<Workspace>,
>)
    ensures
        match decoded {
            Ok(listed) => parsed is Ok && text::views(parsed->Ok_0@) == text::views(
                listed@,
            ).map_values(|item: WorkspaceModel| clean_workspace(item)),
            Err(error) => parsed is Err && parsed->Err_0@ == invalid(
                "workspace list JSON"@,
                error@,
            ),
        },
{
    let listed = match decoded {
        Ok(listed) => listed,
        Err(error) => {
            return Err(invalid_json("workspace list JSON", error.as_str()));
        },
    };
    let ghost wanted = text::views(listed@).map_values(
        |item: WorkspaceModel| clean_workspace(item),
    );
    let mut workspaces: Vec<Workspace> = Vec::new();
    let mut i: usize = 0;
    assert(text::views(workspaces@) =~= wanted.take(0));
    while i < listed.len()
        invariant
            i <= listed@.len(),
            wanted == text::views(listed@).map_values(
                |item: WorkspaceModel| clean_workspace(item),
            ),
            text::views(workspaces@) == wanted.take(i as int),
        decreases listed@.len() - i,
    {
        let item = &listed[i];
        let label = match herdr::clean(Some(item.label.clone())) {
            Some(label) => label,
            None => String::new(),
        };
        let agent_status = if item.agent_status.as_str().is_empty() {
            "unknown".to_string()
        } else {
            item.agent_status.clone()
        };
        let workspace = Workspace {
            workspace_id: item.workspace_id.clone(),
            label,
            number: item.number,
            agent_status,
        };
        assert(workspace@ =~= wanted[i as int]);
        workspaces.push(workspace);
        assert(wanted.take(i + 1) =~= wanted.take(i as int).push(wanted[i as int]));
        i += 1;
    }
    assert(wanted.take(i as int) =~= wanted);
    Ok(workspaces)
}

/// Clean the texts of a pane.
fn cleaned_pane(item: &Pane) -> (pane: Pane)
    ensures
        pane@ == clean_pane(item@),
{
    Pane {
        pane_id: item.pane_id.clone(),
        workspace_id: item.workspace_id.clone(),
        tab_id: herdr::clean(text::copied(&item.tab_id)),
        cwd: herdr::clean(text::copied(&item.cwd)),
        foreground_cwd: herdr::clean(text::copied(&item.foreground_cwd)),
        agent: herdr::clean(text::copied(&item.agent)),
        agent_status: herdr::clean(text::copied(&item.agent_status)),
        label: herdr::clean(text::copied(&item.label)),
        title: herdr::clean(text::copied(&item.title)),
        terminal_title: herdr::clean(text::copied(&item.terminal_title)),
        focused: item.focused,
        hidden: item.hidden,
        plugin: item.plugin,
        floating: item.floating,
        suppressed: item.suppressed,
    }
}

/// Take in a list of panes as it was decoded, or why it could not be.
pub fn parse_panes(decoded: std::result::Result<Vec<Pane>, String>) -> (parsed: Result<Vec<Pane>>)
    ensures
        match decoded {
            Ok(listed) => parsed is Ok && text::views(parsed->Ok_0@) == text::views(
                listed@,
            ).map_values(|item: PaneModel| clean_pane(item)),
            Err(error) => parsed is Err && parsed->Err_0@ == invalid("pane list JSON"@, error@),
        },
{
    let listed = match decoded {
        Ok(listed) => listed,
        Err(error) => {
            return Err(invalid_json("pane list JSON", error.as_str()));
        },
    };
    let ghost wanted = text::views(listed@).map_values(|item: PaneModel| clean_pane(item));
    let mut panes: Vec<Pane> = Vec::new();
    let mut i: usize = 0;
    assert(text::views(panes@) =~= wanted.take(0));
    while i < listed.len()
        invariant
            i <= listed@.len(),
            wanted == text::views(listed@).map_values(|item: PaneModel| clean_pane(item)),
            text::views(panes@) == wanted.take(i as int),
        decreases listed@.len() - i,
    {
        panes.push(cleaned_pane(&listed[i]));
        assert(wanted.take(i + 1) =~= wanted.take(i as int).push(wanted[i as int]));
        i += 1;
    }
    assert(wanted.take(i as int) =~= wanted);
    Ok(panes)
}

/// Take in a list of tabs as it was decoded, or why it could not be.
pub fn parse_tabs(decoded: std::result::Result<Vec<TabInfo>, String>) -> (parsed: Result<
    Vec<TabInfo>,
>)
    ensures
        match decoded {
            Ok(listed) => parsed is Ok && text::views(parsed->Ok_0@) == text::views(
                listed@,
            ).map_values(|item: TabModel| clean_tab(item)),
            Err(error) => parsed is Err && parsed->Err_0@ == invalid("tab list JSON"@, error@),
        },
{
    let listed = match decoded {
        Ok(listed) => listed,
        Err(error) => {
            return Err(invalid_json("tab list JSON", error.as_str()));
        },
    };
    let ghost wanted = text::views(listed@).map_values(|item: TabModel| clean_tab(item));
    let mut tabs: Vec<TabInfo> = Vec::new();
    let mut i: usize = 0;
    assert(text::views(tabs@) =~= wanted.take(0));
    while i < listed.len()
        invariant
            i <= listed@.len(),
            wanted == text::views(listed@).map_values(|item: TabModel| clean_tab(item)),
            text::views(tabs@) == wanted.take(i as int),
        decreases listed@.len() - i,
    {
        let item = &listed[i];
        let tab = TabInfo {
            tab_id: item.tab_id.clone(),
            workspace_id: item.workspace_id.clone(),
            label: herdr::clean(text::copied(&item.label)),
            number: item.number,
            agent_status: herdr::clean(text::copied(&item.agent_status)),
        };
        assert(tab@ =~= wanted[i as int]);
        tabs.push(tab);
        assert(wanted.take(i + 1) =~= wanted.take(i as int).push(wanted[i as int]));
        i += 1;
    }
    assert(wanted.take(i as int) =~= wanted);
    Ok(tabs)
}

/// Take in the id of a created workspace as it was decoded, or why it could not
/// be.
pub fn parse_created_id(decoded: std::result::Result<String, String>) -> (parsed: Result<String>)
    ensures
        match decoded {
            Ok(id) => parsed is Ok && parsed->Ok_0@ == id@,
            Err(error) => parsed is Err && parsed->Err_0@ == invalid(
                "workspace-create JSON"@,
                error@,
            ),
        },
{
    match decoded {
        Ok(id) => Ok(id),
        Err(error) => Err(invalid_json("workspace-create JSON", error.as_str())),
    }
}

/// The strings under a key in the items of the list at a JSON pointer: an error
/// where the text is no JSON, `None` where there is no list, and for each item
/// `None` where it has no such string.
pub uninterp spec fn json_strings(
    json: Seq<char>,
    pointer: Seq<char>,
    key: Seq<char>,
) -> std::result::Result<Option<Seq<Option<Seq<char>>>>, Seq<char>>;

/// The view of what was found in a list.
pub open spec fn found_view(
    found: std::result::Result<Option<Vec<Option<String>>>, String>,
) -> std::result::Result<Option<Seq<Option<Seq<char>>>>, Seq<char>> {
    match found {
        Ok(Some(names)) => Ok(
            Some(names@.map_values(|name: Option<String>| text::view_of(name))),
        ),
        Ok(None) => Ok(None),
        Err(error) => Err(error@),
    }
}

/// `serde_json::from_str`, `Value::pointer`, `Value::as_array`, `Value::get` and
/// `Value::as_str`: the strings under a key in the items of a list, item by item,
/// a function of the three texts. How JSON is read is not stated here.
#[verifier::external_body]
fn strings_at(json: &str, pointer: &str, key: &str) -> (found: std::result::Result<
    Option<Vec<Option<String>>>,
    String,
>)
    ensures
        found_view(found) == json_strings(json@, pointer@, key@),
{
    match serde_json::from_str::<serde_json::Value>(json) {
        Ok(value) => Ok(value.pointer(pointer).and_then(serde_json::Value::as_array).map(
            |items| items.iter().map(|item| item.get(key).and_then(
                serde_json::Value::as_str).map(str::to_string)).collect())),
        Err(error) => Err(error.to_string()),
    }
}

/// The name of a process, where the answer has one that is not blank.
pub open spec fn safe_name(name: Option<Seq<char>>) -> Option<Seq<char>> {
    match name {
        Some(name) => if text::is_blank(text::sanitized(name)) {
            None
        } else {
            Some(text::sanitized(name))
        },
        None => None,
    }
}

/// The name of the first process of a list, which alone counts.
pub open spec fn first_name(names: Seq<Option<Seq<char>>>) -> Option<Seq<char>> {
    if names.len() > 0 {
        safe_name(names[0])
    } else {
        None
    }
}

/// The name of the foreground process, from what the two places of its list
/// hold. The second place counts only where the first has no list.
pub open spec fn name_from(
    nested: std::result::Result<Option<Seq<Option<Seq<char>>>>, Seq<char>>,
    flat: std::result::Result<Option<Seq<Option<Seq<char>>>>, Seq<char>>,
) -> std::result::Result<Option<Seq<char>>, HerdrErrorModel> {
    match nested {
        Err(error) => Err(invalid("pane process-info JSON"@, error)),
        Ok(Some(names)) => Ok(first_name(names)),
        Ok(None) => match flat {
            Err(error) => Err(invalid("pane process-info JSON"@, error)),
            Ok(Some(names)) => Ok(first_name(names)),
            Ok(None) => Ok(None),
        },
    }
}

/// The view of a process name that was asked for.
pub open spec fn name_view(
    parsed: Result<Option<String>>,
) -> std::result::Result<Option<Seq<char>>, HerdrErrorModel> {
    match parsed {
        Ok(name) => Ok(text::view_of(name)),
        Err(error) => Err(error@),
    }
}

/// Keep only the name of the first process, without control characters.
fn keep_name(names: Vec<Option<String>>) -> (safe: Option<String>)
    ensures
        text::view_of(safe) == first_name(
            names@.map_values(|name: Option<String>| text::view_of(name)),
        ),
{
    if names.len() == 0 {
        return None;
    }
    match &names[0] {
        Some(name) => {
            let clean = text::sanitize_text(name.as_str());
            if text::blank(clean.as_str()) {
                None
            } else {
                Some(clean)
            }
        },
        None => None,
    }
}

/// Take the name of the foreground process from what the two places of its list
/// hold.
pub fn process_name_from(
    nested: std::result::Result<Option<Vec<Option<String>>>, String>,
    flat: std::result::Result<Option<Vec<Option<String>>>, String>,
) -> (parsed: Result<Option<String>>)
    ensures
        name_view(parsed) == name_from(found_view(nested), found_view(flat)),
{
    match nested {
        Err(error) => Err(invalid_json("pane process-info JSON", error.as_str())),
        Ok(Some(names)) => Ok(keep_name(names)),
        Ok(None) => match flat {
            Err(error) => Err(invalid_json("pane process-info JSON", error.as_str())),
            Ok(Some(names)) => Ok(keep_name(names)),
            Ok(None) => Ok(None),
        },
    }
}

/// Take only the name of the foreground process from an answer. Arguments,
/// environment and command lines are never looked at.
pub fn parse_process_name(json: &str) -> (parsed: Result<Option<String>>)
    ensures
        name_view(parsed) == name_from(
            json_strings(json@, "/result/processes"@, "name"@),
            json_strings(json@, "/processes"@, "name"@),
        ),
{
    process_name_from(
        strings_at(json, "/result/processes", "name"),
        strings_at(json, "/processes", "name"),
    )
}

/// A hexadecimal digit.
pub open spec fn hex_digit(n: int) -> char {
    if n < 10 {
        ('0' as int + n) as char
    } else {
        ('a' as int + n - 10) as char
    }
}

/// A character as it stands in a JSON string.
pub open spec fn escape(c: char) -> Seq<char> {
    if c == '"' {
        seq!['\\', '"']
    } else if c == '\\' {
        seq!['\\', '\\']
    } else if c == '\u{8}' {
        seq!['\\', 'b']
    } else if c == '\t' {
        seq!['\\', 't']
    } else if c == '\n' {
        seq!['\\', 'n']
    } else if c == '\u{c}' {
        seq!['\\', 'f']
    } else if c == '\r' {
        seq!['\\', 'r']
    } else if c <= '\u{1f}' {
        let code = c as u32 as int;
        seq!['\\', 'u', '0', '0', hex_digit(code / 16), hex_digit(code % 16)]
    } else {
        seq![c]
    }
}

/// Characters as they stand in a JSON string.
pub open spec fn escaped(value: Seq<char>) -> Seq<char>
    decreases value.len(),
{
    if value.len() == 0 {
        Seq::empty()
    } else {
        escaped(value.drop_last()) + escape(value.last())
    }
}

/// A text as a JSON string.
pub open spec fn json_text(value: Seq<char>) -> Seq<char> {
    seq!['"'] + escaped(value) + seq!['"']
}

/// `serde_json::Value::from` and its `Display`: a text as a JSON string, in quotes
/// and with quotes, backslashes and control characters escaped.
#[verifier::external_body]
fn quote_json(value: &str) -> (json: String)
    ensures
        json@ == json_text(value@),
{
    serde_json::Value::from(value).to_string()
}

/// A character as it stands in a JSON string is no control character.
proof fn lemma_escape_is_visible(c: char)
    ensures
        forall|i: int| 0 <= i < escape(c).len() ==> ' ' <= #[trigger] escape(c)[i],
{
    if c <= '\u{1f}' {
        let code = c as u32 as int;
        assert(0 <= code / 16 < 2 && 0 <= code % 16 < 16);
    }
}

/// JSON strings hold no control characters.
proof fn lemma_escaped_is_visible(value: Seq<char>)
    ensures
        forall|i: int| 0 <= i < escaped(value).len() ==> ' ' <= #[trigger] escaped(value)[i],
    decreases value.len(),
{
    if value.len() > 0 {
        let front = escaped(value.drop_last());
        let c = value.last();
        lemma_escaped_is_visible(value.drop_last());
        lemma_escape_is_visible(c);
        assert forall|i: int| 0 <= i < escaped(value).len() implies ' ' <= #[trigger] escaped(
            value,
        )[i] by {
            if i < front.len() {
                assert(escaped(value)[i] == front[i]);
            } else {
                assert(escaped(value)[i] == escape(c)[i - front.len()]);
            }
        }
    }
}

/// A request to focus something by its id: one line of JSON.
pub open spec fn request_line(
    process: nat,
    method: Seq<char>,
    key: Seq<char>,
    id: Seq<char>,
) -> Seq<char> {
    "{\"id\":"@ + json_text("muster-"@ + text::decimal(process)) + ",\"method\":"@ + json_text(
        method,
    ) + ",\"params\":{"@ + json_text(key) + ":"@ + json_text(id) + "}}\n"@
}

/// A request is one line, whatever it asks for: nothing in it but its end is a line
/// break, so that no id can add a request of its own.
pub proof fn request_is_one_line(
    process: nat,
    method: Seq<char>,
    key: Seq<char>,
    id: Seq<char>,
)
    ensures
        request_line(process, method, key, id).last() == '\n',
        forall|i: int|
            0 <= i < request_line(process, method, key, id).len() - 1
                ==> #[trigger] request_line(process, method, key, id)[i] != '\n',
{
    reveal_strlit("{\"id\":");
    reveal_strlit(",\"method\":");
    reveal_strlit(",\"params\":{");
    reveal_strlit(":");
    reveal_strlit("}}\n");
    lemma_escaped_is_visible("muster-"@ + text::decimal(process));
    lemma_escaped_is_visible(method);
    lemma_escaped_is_visible(key);
    lemma_escaped_is_visible(id);
}

/// Write a request to focus something by its id.
pub fn focus_request(process: u32, method: &str, key: &str, id: &str) -> (line: String)
    ensures
        line@ == request_line(process as nat, method@, key@, id@),
{
    let name = text::joined("muster-", text::number_text(process as usize).as_str());
    let mut line = text::joined("{\"id\":", quote_json(name.as_str()).as_str());
    line.append(",\"method\":");
    line.append(quote_json(method).as_str());
    line.append(",\"params\":{");
    line.append(quote_json(key).as_str());
    line.append(":");
    line.append(quote_json(id).as_str());
    line.append("}}\n");
    line
}

/// Write the request that focuses a pane.
pub fn pane_request(process: u32, pane_id: &str) -> (line: String)
    ensures
        line@ == request_line(process as nat, "pane.focus"@, "pane_id"@, pane_id@),
{
    focus_request(process, "pane.focus", "pane_id", pane_id)
}

/// Write the request that focuses a tab.
pub fn tab_request(process: u32, tab_id: &str) -> (line: String)
    ensures
        line@ == request_line(process as nat, "tab.focus"@, "tab_id"@, tab_id@),
{
    focus_request(process, "tab.focus", "tab_id", tab_id)
}

/// The compact JSON of a member of an object: an error where the text is no JSON,
/// `None` where it is no object or has no such member.
pub uninterp spec fn json_member(json: Seq<char>, key: Seq<char>) -> std::result::Result<
    Option<Seq<char>>,
    Seq<char>,
>;

/// The view of a member that was looked up.
pub open spec fn member_view(
    member: std::result::Result<Option<String>, String>,
) -> std::result::Result<Option<Seq<char>>, Seq<char>> {
    match member {
        Ok(member) => Ok(text::view_of(member)),
        Err(error) => Err(error@),
    }
}

/// `serde_json::from_str`, `Value::get` and `Display` of `Value`: a member of an
/// object as compact JSON, a function of the two texts. How JSON is read and
/// written is not stated here.
#[verifier::external_body]
fn member_text(json: &str, key: &str) -> (member: std::result::Result<Option<String>, String>)
    ensures
        member_view(member) == json_member(json@, key@),
{
    match serde_json::from_str::<serde_json::Value>(json) {
        Ok(value) => Ok(value.get(key).map(serde_json::Value::to_string)),
        Err(error) => Err(error.to_string()),
    }
}

/// How a request went, by the error in its answer.
pub open spec fn answer_from(
    method: Seq<char>,
    error: std::result::Result<Option<Seq<char>>, Seq<char>>,
) -> std::result::Result<(), HerdrErrorModel> {
    match error {
        Err(problem) => Err(invalid(method + " response"@, problem)),
        Ok(Some(words)) => Err(
            HerdrErrorModel::Command(method + " failed: "@ + text::sanitized(words)),
        ),
        Ok(None) => Ok(()),
    }
}

/// The view of an operation without a result.
pub open spec fn done_view(done: Result<()>) -> std::result::Result<(), HerdrErrorModel> {
    match done {
        Ok(_) => Ok(()),
        Err(error) => Err(error@),
    }
}

/// Tell how a request went, by the error in its answer.
pub fn answer_of(method: &str, error: std::result::Result<Option<String>, String>) -> (done: Result<
    (),
>)
    ensures
        done_view(done) == answer_from(method@, member_view(error)),
{
    match error {
        Err(problem) => Err(
            invalid_json(text::joined(method, " response").as_str(), problem.as_str()),
        ),
        Ok(Some(words)) => {
            let mut message = text::joined(method, " failed: ");
            message.append(text::sanitize_text(words.as_str()).as_str());
            Err(HerdrError::Command(message))
        },
        Ok(None) => Ok(()),
    }
}

/// Read the answer to a request.
pub fn focus_response(method: &str, line: &str) -> (done: Result<()>)
    ensures
        done_view(done) == answer_from(
            method@,
            json_member(text::trimmed(line@), "error"@),
        ),
{
    answer_of(method, member_text(text::trim(line).as_str(), "error"))
}

/// What can go wrong around a request.
#[derive(Debug, Clone, Copy, PartialEq, Eq)]
pub enum SocketStep {
    /// Connecting to a socket.
    Connect,
    /// Writing a request.
    Write,
    /// Reading its answer.
    Read,
}

/// The error of a step that went wrong, at a path or with a method.
pub open spec fn step_failure(
    step: SocketStep,
    path: Seq<char>,
    method: Seq<char>,
    error: Seq<char>,
) -> HerdrErrorModel {
    HerdrErrorModel::Command(
        match step {
            SocketStep::Connect => "connect Herdr socket "@ + path,
            SocketStep::Write => "write "@ + method,
            SocketStep::Read => "read "@ + method,
        } + ": "@ + error,
    )
}

/// Say what went wrong around a request.
pub fn socket_failure(step: SocketStep, path: &str, method: &str, error: &str) -> (failure:
    HerdrError)
    ensures
        failure@ == step_failure(step, path@, method@, error@),
{
    let mut message = match step {
        SocketStep::Connect => text::joined("connect Herdr socket ", path),
        SocketStep::Write => text::joined("write ", method),
        SocketStep::Read => text::joined("read ", method),
    };
    message.append(": ");
    message.append(error);
    HerdrError::Command(message)
}

} // verus!
