//! What is asked of Herdr, how commands run, and how answers are taken in.

use vstd::prelude::*;
use crate::cli;
use crate::cli::{CliModel, RequestModel};
use crate::command;
use crate::command::{CommandAction, CommandEvent, DrainModel, ReadEvent, StageModel};
use crate::herdr::{HerdrErrorModel, PaneModel, TabModel, WorkspaceModel};
use crate::jump_pane::TargetModel;
use crate::text;
use crate::wire;

verus! {

/// A command that is not cancelled is started, looked after until it ends, stopped and
/// read to the end; it then ends as it ended itself.
pub proof fn a_command_runs_to_its_end(
    label: Seq<char>,
    success: bool,
    elapsed: u64,
    later: u64,
)
    requires
        later < 30,
    ensures
        ({
            let go = CommandEvent::Checked { cancelled: false, elapsed };
            let still = CommandEvent::Checked { cancelled: false, elapsed: later };
            let read = CommandEvent::Drained(Ok(()));
            let spawning = StageModel::Starting.next(label, go);
            let configuring = spawning.next(label, CommandEvent::Spawned(Ok(())));
            let checking = configuring.next(label, CommandEvent::Configured(Ok(())));
            let draining = checking.next(label, still);
            let waiting = draining.next(label, read);
            let sleeping = waiting.next(label, CommandEvent::Waited(Ok(None)));
            let again = sleeping.next(label, CommandEvent::Slept);
            let stopping = waiting.next(label, CommandEvent::Waited(Ok(Some(success))));
            let collecting = stopping.next(label, CommandEvent::Stopped);
            let ended = collecting.next(label, read);
            &&& StageModel::Starting.action() is Check
            &&& spawning.action() is Spawn
            &&& configuring.action() is Configure
            &&& checking.action() is Check
            &&& draining.action() is Drain
            &&& waiting.action() is Wait
            &&& sleeping.action() is Sleep
            &&& again == checking
            &&& stopping.action() is Stop
            &&& collecting.action() is Drain
            &&& ended.action() is Done
            &&& ended == StageModel::Ended(Ok(success))
        }),
{
}

/// A command succeeds only as it ended itself: no other way leads to success.
pub proof fn success_is_the_commands_own(
    stage: StageModel,
    label: Seq<char>,
    event: CommandEvent,
    success: bool,
)
    ensures
        stage.next(label, event) == StageModel::Ended(Ok(success)) ==> stage == StageModel::Ended(
            Ok(success),
        ) || (stage == StageModel::Collecting(success) && event matches CommandEvent::Drained(Ok(
            _,
        ))),
        stage.next(label, event) == StageModel::Collecting(success) ==> stage
            == StageModel::Collecting(success) || (stage == StageModel::Stopping(Ok(success))
            && event is Stopped),
        stage.next(label, event) == StageModel::Stopping(Ok(success)) ==> stage
            == StageModel::Stopping(Ok(success)) || (stage is Waiting && (event
            matches CommandEvent::Waited(Ok(Some(ended))) && ended == success)),
{
}

/// Every failure says what went wrong, and with which command. A command that was
/// started is stopped first.
pub proof fn failures_are_told(label: Seq<char>, error: String, elapsed: u64)
    ensures
        StageModel::Starting.next(label, CommandEvent::Checked { cancelled: true, elapsed })
            == StageModel::Ended(Err(HerdrErrorModel::Cancelled(label + " cancelled"@))),
        StageModel::Spawning.next(label, CommandEvent::Spawned(Err(error))) == StageModel::Ended(
            Err(HerdrErrorModel::Spawn("spawn "@ + label + ": "@ + error@)),
        ),
        StageModel::Configuring.next(label, CommandEvent::Configured(Err(error)))
            == StageModel::Stopping(
            Err(HerdrErrorModel::Spawn("configure "@ + label + " output: "@ + error@)),
        ),
        StageModel::Checking.next(label, CommandEvent::Checked { cancelled: true, elapsed })
            == StageModel::Stopping(Err(HerdrErrorModel::Cancelled(label + " cancelled"@))),
        elapsed >= 30 ==> StageModel::Checking.next(
            label,
            CommandEvent::Checked { cancelled: false, elapsed },
        ) == StageModel::Stopping(
            Err(HerdrErrorModel::Timeout(label + " timed out after "@ + text::decimal(30) + " seconds"@)),
        ),
        StageModel::Draining.next(label, CommandEvent::Drained(Err(error)))
            == StageModel::Stopping(
            Err(HerdrErrorModel::Spawn("read "@ + label + " output: "@ + error@)),
        ),
        StageModel::Waiting.next(label, CommandEvent::Waited(Err(error)))
            == StageModel::Stopping(
            Err(HerdrErrorModel::Spawn("wait for "@ + label + ": "@ + error@)),
        ),
        forall|failure: HerdrErrorModel| #[trigger]
            StageModel::Stopping(Err(failure)).next(label, CommandEvent::Stopped)
                == StageModel::Ended(Err(failure)),
{
}

/// What a command prints is kept in order and whole, up to eight mebibytes; more is an
/// error, and an end of the output ends the reading.
pub proof fn output_is_kept_whole(output: Seq<u8>, bytes: Vec<u8>, error: String)
    ensures
        bytes@.len() > 0 && output.len() + bytes@.len() <= 8 * 1024 * 1024 ==> {
            let (kept, step) = command::drained(output, ReadEvent::Bytes(bytes));
            kept == output + bytes@ && step is More
        },
        bytes@.len() > 0 && output.len() + bytes@.len() > 8 * 1024 * 1024 ==> {
            let (kept, step) = command::drained(output, ReadEvent::Bytes(bytes));
            kept == output && step is Failed
        },
        bytes@.len() == 0 ==> command::drained(output, ReadEvent::Bytes(bytes)) == (
            output,
            DrainModel::Done,
        ),
        command::drained(output, ReadEvent::WouldBlock) == (output, DrainModel::Done),
        command::drained(output, ReadEvent::Interrupted) == (output, DrainModel::More),
        command::drained(output, ReadEvent::Failed(error)) == (output, DrainModel::Failed(error@)),
{
}

/// Each request is one command of Herdr's, with its ids and texts as arguments of
/// their own, so that nothing in them is taken for an option or another command.
pub proof fn requests_are_herdrs_commands(id: Seq<char>, cwd: Seq<char>, label: Seq<char>)
    ensures
        RequestModel::ListWorkspaces.args() == seq!["workspace"@, "list"@],
        RequestModel::ListPanes.args() == seq!["pane"@, "list"@],
        RequestModel::ListTabs.args() == seq!["tab"@, "list"@],
        RequestModel::ProcessInfo(id).args() == seq!["pane"@, "process-info"@, "--pane"@, id],
        RequestModel::FocusWorkspace(id).args() == seq!["workspace"@, "focus"@, id],
        RequestModel::CloseWorkspace(id).args() == seq!["workspace"@, "close"@, id],
        RequestModel::ClosePane(id).args() == seq!["pane"@, "close"@, id],
        (RequestModel::CreateWorkspace { cwd, label }).args() == seq![
            "workspace"@,
            "create"@,
            "--cwd"@,
            cwd,
            "--label"@,
            label,
            "--focus"@,
        ],
{
}

/// A command that succeeded gives what it printed; one that failed says which command
/// it was and what it complained of, without control characters.
pub proof fn commands_are_judged_by_their_end(
    label: Seq<char>,
    printed: Seq<char>,
    complaint: Seq<char>,
)
    ensures
        cli::result_of(label, true, printed, complaint) == Ok::<Seq<char>, HerdrErrorModel>(
            printed,
        ),
        cli::result_of(label, false, printed, complaint) is Err,
        cli::result_of(label, false, printed, complaint)->Err_0 == HerdrErrorModel::Command(
            label + ": "@ + text::trimmed(text::sanitized(text::trimmed(complaint))),
        ),
{
}

/// An explicit socket is always the one used. Without one the socket that the
/// environment names comes first, then the one that it named in earlier days, and at
/// last the usual place below the home directory; where that is not allowed, none.
pub proof fn sockets_are_chosen_in_order(
    client: CliModel,
    named: Option<Seq<char>>,
    older: Option<Seq<char>>,
    home: Option<Seq<char>>,
)
    ensures
        client.socket is Some ==> client.socket_path(named, older, home) == Ok::<
            Seq<char>,
            HerdrErrorModel,
        >(client.socket->0),
        client.socket is None && !client.default_socket_allowed ==> client.socket_path(
            named,
            older,
            home,
        ) is Err,
        client.socket is None && client.default_socket_allowed && named is Some
            ==> client.socket_path(named, older, home) == Ok::<Seq<char>, HerdrErrorModel>(
            named->0,
        ),
        client.socket is None && client.default_socket_allowed && named is None && older is Some
            ==> client.socket_path(named, older, home) == Ok::<Seq<char>, HerdrErrorModel>(
            older->0,
        ),
        client.socket is None && client.default_socket_allowed && named is None && older is None
            && home is Some && home->0.len() > 0 && home->0.last() != '/' ==> client.socket_path(
            named,
            older,
            home,
        ) == Ok::<Seq<char>, HerdrErrorModel>(home->0 + "/.config/herdr/herdr.sock"@),
{
    reveal_strlit(".config/herdr/herdr.sock");
    reveal_strlit("/.config/herdr/herdr.sock");
    if home is Some {
        assert(home->0.push('/') + ".config/herdr/herdr.sock"@ =~= home->0
            + "/.config/herdr/herdr.sock"@);
    }
}

/// Texts without quotes, backslashes and control characters stand in JSON as they are.
proof fn lemma_plain(value: Seq<char>)
    requires
        forall|i: int|
            0 <= i < value.len() ==> #[trigger] value[i] > '\u{1f}' && value[i] != '"' && value[i]
                != '\\',
    ensures
        wire::escaped(value) == value,
    decreases value.len(),
{
    if value.len() > 0 {
        let last = value[value.len() - 1];
        assert(last > '\u{1f}' && last != '"' && last != '\\');
        lemma_plain(value.drop_last());
        assert(wire::escape(value.last()) == seq![value.last()]);
        assert(value.drop_last() + seq![value.last()] =~= value);
    } else {
        assert(wire::escaped(value) =~= value);
    }
}

proof fn lemma_plain_decimal(n: nat)
    ensures
        forall|i: int|
            0 <= i < text::decimal(n).len() ==> '0' <= #[trigger] text::decimal(n)[i] <= '9',
    decreases n,
{
    let written = text::decimal(n);
    if n >= 10 {
        lemma_plain_decimal(n / 10);
        let front = text::decimal(n / 10);
        assert('0' <= text::digit(n % 10) <= '9');
        assert forall|i: int| 0 <= i < written.len() implies '0' <= #[trigger] written[i]
            <= '9' by {
            if i < front.len() {
                assert(written[i] == front[i]);
            } else {
                assert(written[i] == text::digit(n % 10));
            }
        }
    } else {
        assert('0' <= text::digit(n) <= '9');
        assert(written[0] == text::digit(n));
    }
}

/// The request that focuses a pane, or a tab, names just that one: it is a line of JSON
/// with the method and the id.
pub proof fn requests_name_what_they_focus(process: nat, id: Seq<char>)
    requires
        forall|i: int|
            0 <= i < id.len() ==> #[trigger] id[i] > '\u{1f}' && id[i] != '"' && id[i] != '\\',
    ensures
        wire::request_line(process, "pane.focus"@, "pane_id"@, id) == "{\"id\":\"muster-"@
            + text::decimal(process) + "\",\"method\":\"pane.focus\",\"params\":{\"pane_id\":\""@
            + id + "\"}}\n"@,
        wire::request_line(process, "tab.focus"@, "tab_id"@, id) == "{\"id\":\"muster-"@
            + text::decimal(process) + "\",\"method\":\"tab.focus\",\"params\":{\"tab_id\":\""@
            + id + "\"}}\n"@,
{
    reveal_strlit("pane.focus");
    reveal_strlit("tab.focus");
    reveal_strlit("pane_id");
    reveal_strlit("tab_id");
    reveal_strlit("muster-");
    reveal_strlit("{\"id\":");
    reveal_strlit(",\"method\":");
    reveal_strlit(",\"params\":{");
    reveal_strlit(":");
    reveal_strlit("}}\n");
    reveal_strlit("{\"id\":\"muster-");
    reveal_strlit("\",\"method\":\"pane.focus\",\"params\":{\"pane_id\":\"");
    reveal_strlit("\",\"method\":\"tab.focus\",\"params\":{\"tab_id\":\"");
    reveal_strlit("\"}}\n");
    lemma_plain_decimal(process);
    lemma_plain("muster-"@ + text::decimal(process));
    lemma_plain("pane.focus"@);
    lemma_plain("tab.focus"@);
    lemma_plain("pane_id"@);
    lemma_plain("tab_id"@);
    lemma_plain(id);
    assert(wire::request_line(process, "pane.focus"@, "pane_id"@, id) =~= "{\"id\":\"muster-"@
        + text::decimal(process) + "\",\"method\":\"pane.focus\",\"params\":{\"pane_id\":\""@ + id
        + "\"}}\n"@);
    assert(wire::request_line(process, "tab.focus"@, "tab_id"@, id) =~= "{\"id\":\"muster-"@
        + text::decimal(process) + "\",\"method\":\"tab.focus\",\"params\":{\"tab_id\":\""@ + id
        + "\"}}\n"@);
}

/// An answer without an error is a success; one with an error is a failure that tells
/// it, without control characters; one that cannot be read says so.
pub proof fn answers_are_taken_at_their_word(method: Seq<char>, words: Seq<char>)
    ensures
        wire::answer_from(method, Ok(None)) is Ok,
        wire::answer_from(method, Ok(Some(words))) is Err,
        wire::answer_from(method, Ok(Some(words)))->Err_0 == HerdrErrorModel::Command(
            method + " failed: "@ + text::sanitized(words),
        ),
        wire::answer_from(method, Err(words)) is Err,
        wire::answer_from(method, Err(words))->Err_0 == HerdrErrorModel::InvalidJson(
            "invalid "@ + (method + " response"@) + ": "@ + words,
        ),
{
}

/// What Herdr lists is taken in by its identity, which stays as it is; texts lose
/// control characters and white space around them, and are none where nothing is left.
pub proof fn identities_are_taken_as_they_are(
    workspace: WorkspaceModel,
    pane: PaneModel,
    tab: TabModel,
)
    ensures
        ({
            let taken = wire::clean_workspace(workspace);
            &&& taken.workspace_id == workspace.workspace_id
            &&& taken.number == workspace.number
            &&& taken.label == text::trimmed(text::sanitized(workspace.label))
            &&& workspace.agent_status.len() > 0 ==> taken.agent_status == workspace.agent_status
            &&& workspace.agent_status.len() == 0 ==> taken.agent_status == "unknown"@
        }),
        ({
            let taken = wire::clean_pane(pane);
            &&& taken.pane_id == pane.pane_id
            &&& taken.workspace_id == pane.workspace_id
            &&& taken.focused == pane.focused
            &&& taken.hidden == pane.hidden
            &&& taken.plugin == pane.plugin
            &&& taken.floating == pane.floating
            &&& taken.suppressed == pane.suppressed
            &&& is_tidied(pane.tab_id, taken.tab_id)
            &&& is_tidied(pane.cwd, taken.cwd)
            &&& is_tidied(pane.foreground_cwd, taken.foreground_cwd)
            &&& is_tidied(pane.agent, taken.agent)
            &&& is_tidied(pane.agent_status, taken.agent_status)
            &&& is_tidied(pane.label, taken.label)
            &&& is_tidied(pane.title, taken.title)
            &&& is_tidied(pane.terminal_title, taken.terminal_title)
        }),
        ({
            let taken = wire::clean_tab(tab);
            &&& taken.tab_id == tab.tab_id
            &&& taken.workspace_id == tab.workspace_id
            &&& taken.number == tab.number
            &&& is_tidied(tab.label, taken.label)
            &&& is_tidied(tab.agent_status, taken.agent_status)
        }),
{
    if text::trimmed(text::sanitized(workspace.label)).len() == 0 {
        assert(text::trimmed(text::sanitized(workspace.label)) =~= Seq::empty());
    }
}

/// Whether a text is another one without control characters and white space around it,
/// and none where nothing is left.
pub open spec fn is_tidied(value: Option<Seq<char>>, tidied: Option<Seq<char>>) -> bool {
    match value {
        None => tidied is None,
        Some(value) => {
            let core = text::trimmed(text::sanitized(value));
            if core.len() == 0 {
                tidied is None
            } else {
                tidied == Some(core)
            }
        },
    }
}

/// Of the processes in a pane only the first counts, and of it only the name, without
/// control characters; a name of which nothing is left is none.
pub proof fn only_the_first_process_is_named(names: Seq<Option<Seq<char>>>, other: Seq<char>)
    ensures
        wire::name_from(Ok(Some(names)), Err(other)) is Ok,
        names.len() == 0 || names[0] is None ==> wire::name_from(Ok(Some(names)), Err(other))->Ok_0
            is None,
        names.len() > 0 && names[0] is Some ==> wire::name_from(Ok(Some(names)), Err(other))->Ok_0
            == if text::is_blank(text::sanitized(names[0]->0)) {
            None
        } else {
            Some(text::sanitized(names[0]->0))
        },
        wire::name_from(Ok(None), Ok(Some(names))) == wire::name_from(
            Ok(Some(names)),
            Err(other),
        ),
        wire::name_from(Ok(None), Ok(None)) == Ok::<Option<Seq<char>>, HerdrErrorModel>(None),
{
}

/// The client of a runtime runs its command with its arguments, and reaches it by its own
/// socket; only one that can be focused without a socket of its own may use the usual one.
pub proof fn clients_are_those_of_their_runtimes(target: TargetModel)
    ensures
        cli::client_of(target).bin == target.command,
        cli::client_of(target).arg_prefix == target.arg_prefix,
        cli::client_of(target).socket == target.socket,
        target.socket is None ==> cli::client_of(target).default_socket_allowed
            == target.focus_supported,
{
}

/// A command is called by all its arguments, in order.
pub proof fn commands_are_called_by_their_arguments(a: Seq<char>, b: Seq<char>)
    ensures
        cli::label_of(seq![a]) == "herdr ["@ + text::debug_text(a) + "]"@,
        cli::label_of(seq![a, b]) == "herdr ["@ + (text::debug_text(a) + ", "@ + text::debug_text(
            b,
        )) + "]"@,
{
    let x = text::debug_text(a);
    let y = text::debug_text(b);
    assert(Seq::new(1, |i: int| text::debug_text(seq![a][i])) =~= seq![x]);
    assert(Seq::new(2, |i: int| text::debug_text(seq![a, b][i])) =~= seq![x, y]);
    assert(text::joined_by(seq![x], ", "@) == x);
    assert(seq![x, y].drop_last() =~= seq![x]);
    assert(text::joined_by(seq![x, y], ", "@) == x + ", "@ + y);
}

/// A character that cannot stand in a JSON string is written behind a backslash: by its
/// letter, or else by its number in four small hexadecimal digits.
pub proof fn special_characters_are_written_out(c: char)
    ensures
        c == '"' || c == '\\' ==> wire::escape(c) == seq!['\\', c],
        wire::escape('\n') == "\\n"@,
        wire::escape('\r') == "\\r"@,
        wire::escape('\t') == "\\t"@,
        wire::escape('\u{8}') == "\\b"@,
        wire::escape('\u{c}') == "\\f"@,
        c <= '\u{1f}' && wire::escape(c).len() != 2 ==> wire::escape(c) == "\\u00"@ + seq![
            "0123456789abcdef"@[c as u32 as int / 16],
            "0123456789abcdef"@[c as u32 as int % 16],
        ],
{
    reveal_strlit("\\n");
    reveal_strlit("\\r");
    reveal_strlit("\\t");
    reveal_strlit("\\b");
    reveal_strlit("\\f");
    reveal_strlit("\\u00");
    reveal_strlit("0123456789abcdef");
    if c <= '\u{1f}' && wire::escape(c).len() != 2 {
        let code = c as u32 as int;
        assert("0123456789abcdef"@[code / 16] == wire::hex_digit(code / 16));
        assert("0123456789abcdef"@[code % 16] == wire::hex_digit(code % 16));
        assert(wire::escape(c) =~= "\\u00"@ + seq![
            "0123456789abcdef"@[code / 16],
            "0123456789abcdef"@[code % 16],
        ]);
    }
}

/// Two characters are never written alike.
pub proof fn characters_are_written_apart(a: char, b: char)
    requires
        wire::escape(a) == wire::escape(b),
    ensures
        a == b,
{
    let one = wire::escape(a);
    let other = wire::escape(b);
    assert(one[0] == other[0]);
    if one.len() > 1 {
        assert(one[1] == other[1]);
    }
    if one.len() > 2 {
        assert(one[4] == other[4]);
        assert(one[5] == other[5]);
    }
}

/// A failure on a socket says which step failed: connecting names the socket, the other
/// steps name what was asked.
pub proof fn failures_name_their_step(path: Seq<char>, method: Seq<char>, error: Seq<char>)
    ensures
        wire::step_failure(wire::SocketStep::Connect, path, method, error)
            == HerdrErrorModel::Command("connect Herdr socket "@ + path + ": "@ + error),
        wire::step_failure(wire::SocketStep::Write, path, method, error)
            == HerdrErrorModel::Command("write "@ + method + ": "@ + error),
        wire::step_failure(wire::SocketStep::Read, path, method, error)
            == HerdrErrorModel::Command("read "@ + method + ": "@ + error),
{
}

} // verus!
