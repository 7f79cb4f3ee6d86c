//! The command-line client of a Herdr runtime: how it is called, what its answers
//! mean, and by which socket it focuses.

use vstd::prelude::*;
use std::sync::atomic::AtomicBool;
use std::sync::Arc;
use crate::config;
use crate::herdr::{HerdrError, HerdrErrorModel, Result};
use crate::jump_pane;
use crate::jump_pane::{RuntimeTarget, TargetModel};
use crate::model;
use crate::paths;
use crate::sources;
use crate::text;

verus! {

broadcast use crate::text::lemma_views_push;

/// A client that runs Herdr's command line.
pub struct CliHerdr {
    pub bin: String,
    /// The arguments in front of every operation, for named and remote targets.
    /// They are apart from `bin`, so that no shell ever reads them.
    pub arg_prefix: Vec<String>,
    /// The socket by which panes and tabs are focused.
    pub socket: Option<String>,
    /// Whether the default socket may be used where there is no other. Only the
    /// default target may.
    pub default_socket_allowed: bool,
    cancellation: Option<Arc<AtomicBool>>,
}

/// The view of a [`CliHerdr`].
#[verifier::ext_equal]
pub struct CliModel {
    pub bin: Seq<char>,
    pub arg_prefix: Seq<Seq<char>>,
    pub socket: Option<Seq<char>>,
    pub default_socket_allowed: bool,
    /// The token that cancels operations.
    pub cancellation: Option<Arc<AtomicBool>>,
}

impl View for CliHerdr {
    type V = CliModel;

    closed spec fn view(&self) -> CliModel {
        CliModel {
            bin: self.bin@,
            arg_prefix: text::views(self.arg_prefix@),
            socket: text::view_of(self.socket),
            default_socket_allowed: self.default_socket_allowed,
            cancellation: self.cancellation,
        }
    }
}

/// The default socket below a home directory.
pub open spec fn default_socket(home: Option<Seq<char>>) -> Seq<char> {
    paths::child(jump_pane::text_or_empty(home), ".config/herdr/herdr.sock"@)
}

impl CliModel {
    /// The socket by which things are focused: the client's own, or, where the
    /// default one may be used, that of the environment or that of the home
    /// directory.
    pub open spec fn socket_path(
        self,
        named: Option<Seq<char>>,
        older: Option<Seq<char>>,
        home: Option<Seq<char>>,
    ) -> std::result::Result<Seq<char>, HerdrErrorModel> {
        if self.socket is Some {
            Ok(self.socket->0)
        } else if !self.default_socket_allowed {
            Err(
                HerdrErrorModel::Command(
                    "absolute pane focus is unsupported: target has no explicit Unix socket"@,
                ),
            )
        } else if named is Some {
            Ok(named->0)
        } else if older is Some {
            Ok(older->0)
        } else {
            Ok(default_socket(home))
        }
    }
}

/// The view of a path that was looked for.
pub open spec fn path_view(path: Result<String>) -> std::result::Result<
    Seq<char>,
    HerdrErrorModel,
> {
    match path {
        Ok(path) => Ok(path@),
        Err(error) => Err(error@),
    }
}

/// Share a cancellation token.
fn shared(token: &Option<Arc<AtomicBool>>) -> (same: Option<Arc<AtomicBool>>)
    ensures
        same == *token,
{
    match token {
        Some(token) => Some(token.clone()),
        None => None,
    }
}

impl Clone for CliHerdr {
    fn clone(&self) -> (copy: Self)
        ensures
            copy@ == self@,
    {
        CliHerdr {
            bin: self.bin.clone(),
            arg_prefix: text::copied_all(&self.arg_prefix),
            socket: text::copied(&self.socket),
            default_socket_allowed: self.default_socket_allowed,
            cancellation: shared(&self.cancellation),
        }
    }
}

impl CliHerdr {
    /// The client of the default runtime, by its executable.
    pub fn new(bin: String) -> (client: CliHerdr)
        ensures
            client@ == (CliModel {
                bin: bin@,
                arg_prefix: Seq::empty(),
                socket: None,
                default_socket_allowed: true,
                cancellation: None,
            }),
    {
        let client = CliHerdr {
            bin,
            arg_prefix: Vec::new(),
            socket: None,
            default_socket_allowed: true,
            cancellation: None,
        };
        assert(client@.arg_prefix =~= Seq::empty());
        client
    }

    /// This client with a token that cancels its operations.
    pub fn with_cancellation(&self, cancellation: Arc<AtomicBool>) -> (client: CliHerdr)
        ensures
            client@ == (CliModel { cancellation: Some(cancellation), ..self@ }),
    {
        CliHerdr { cancellation: Some(cancellation), ..self.clone() }
    }

    /// This client with a socket of its own.
    pub fn with_socket(&self, socket: &str) -> (client: CliHerdr)
        ensures
            client@ == (CliModel { socket: Some(socket@), ..self@ }),
    {
        CliHerdr { socket: Some(socket.to_string()), ..self.clone() }
    }

    /// This client with arguments in front of every operation.
    pub fn with_arg_prefix(&self, args: Vec<String>) -> (client: CliHerdr)
        ensures
            client@ == (CliModel { arg_prefix: text::views(args@), ..self@ }),
    {
        CliHerdr { arg_prefix: args, ..self.clone() }
    }

    /// This client without the default socket.
    pub fn without_default_socket(&self) -> (client: CliHerdr)
        ensures
            client@ == (CliModel { default_socket_allowed: false, ..self@ }),
    {
        CliHerdr { default_socket_allowed: false, ..self.clone() }
    }

    /// The token that cancels operations.
    pub fn cancellation(&self) -> (token: Option<Arc<AtomicBool>>)
        ensures
            token == self@.cancellation,
    {
        shared(&self.cancellation)
    }

    /// The socket by which things are focused, with a given home directory.
    /// `named` and `older` are what the environment says.
    pub fn socket_path_under(
        &self,
        named: Option<&str>,
        older: Option<&str>,
        home: Option<&str>,
    ) -> (path: Result<String>)
        ensures
            path_view(path) == self@.socket_path(
                model::borrowed(named),
                model::borrowed(older),
                model::borrowed(home),
            ),
    {
        if let Some(socket) = &self.socket {
            return Ok(socket.clone());
        }
        if !self.default_socket_allowed {
            return Err(
                HerdrError::Command(
                    "absolute pane focus is unsupported: target has no explicit Unix socket".to_string(),
                ),
            );
        }
        if let Some(socket) = named {
            return Ok(socket.to_string());
        }
        if let Some(socket) = older {
            return Ok(socket.to_string());
        }
        proof {
            reveal_strlit("");
            assert(""@ =~= Seq::<char>::empty());
        }
        let below = match home {
            Some(home) => home,
            None => "",
        };
        Ok(paths::join(below, ".config/herdr/herdr.sock"))
    }

    /// The socket by which things are focused, below the home directory that
    /// [`sources::home_dir`] gives where nothing else names it.
    pub fn socket_path(&self, named: Option<&str>, older: Option<&str>) -> (path: Result<String>)
        ensures
            exists|home: Option<String>|
                #[trigger] call_ensures(sources::home_dir, (), home) && path_view(path)
                    == self@.socket_path(
                    model::borrowed(named),
                    model::borrowed(older),
                    text::view_of(home),
                ),
            self@.socket is Some || !self@.default_socket_allowed || named is Some || older is Some
                ==> path_view(path) == self@.socket_path(
                model::borrowed(named),
                model::borrowed(older),
                None,
            ),
    {
        let home = sources::home_dir();
        match &home {
            Some(home) => self.socket_path_under(named, older, Some(home.as_str())),
            None => self.socket_path_under(named, older, None),
        }
    }

    /// The client of a runtime. A configured runtime without a socket never gets
    /// the default one.
    pub fn for_target(target: &RuntimeTarget) -> (client: CliHerdr)
        ensures
            client@ == client_of(target@),
    {
        let client = CliHerdr::new(target.command.clone()).with_arg_prefix(
            text::copied_all(&target.arg_prefix),
        );
        match &target.socket {
            Some(socket) => client.with_socket(socket.as_str()),
            None => if target.focus_supported {
                client
            } else {
                client.without_default_socket()
            },
        }
    }
}

/// The client of a runtime.
pub open spec fn client_of(target: TargetModel) -> CliModel {
    CliModel {
        bin: target.command,
        arg_prefix: target.arg_prefix,
        socket: target.socket,
        default_socket_allowed: target.socket is Some || target.focus_supported,
        cancellation: None,
    }
}

/// An operation of the command line.
#[derive(Debug, PartialEq, Eq)]
pub enum Request {
    ListWorkspaces,
    ListPanes,
    ListTabs,
    ProcessInfo(String),
    CreateWorkspace { cwd: String, label: String },
    FocusWorkspace(String),
    CloseWorkspace(String),
    ClosePane(String),
}

/// The view of a [`Request`].
#[verifier::ext_equal]
pub enum RequestModel {
    ListWorkspaces,
    ListPanes,
    ListTabs,
    ProcessInfo(Seq<char>),
    CreateWorkspace { cwd: Seq<char>, label: Seq<char> },
    FocusWorkspace(Seq<char>),
    CloseWorkspace(Seq<char>),
    ClosePane(Seq<char>),
}

impl View for Request {
    type V = RequestModel;

    open spec fn view(&self) -> RequestModel {
        match self {
            Request::ListWorkspaces => RequestModel::ListWorkspaces,
            Request::ListPanes => RequestModel::ListPanes,
            Request::ListTabs => RequestModel::ListTabs,
            Request::ProcessInfo(id) => RequestModel::ProcessInfo(id@),
            Request::CreateWorkspace { cwd, label } => RequestModel::CreateWorkspace {
                cwd: cwd@,
                label: label@,
            },
            Request::FocusWorkspace(id) => RequestModel::FocusWorkspace(id@),
            Request::CloseWorkspace(id) => RequestModel::CloseWorkspace(id@),
            Request::ClosePane(id) => RequestModel::ClosePane(id@),
        }
    }
}

impl RequestModel {
    /// The arguments of an operation.
    pub open spec fn args(self) -> Seq<Seq<char>> {
        match self {
            RequestModel::ListWorkspaces => seq!["workspace"@, "list"@],
            RequestModel::ListPanes => seq!["pane"@, "list"@],
            RequestModel::ListTabs => seq!["tab"@, "list"@],
            RequestModel::ProcessInfo(id) => seq!["pane"@, "process-info"@, "--pane"@, id],
            RequestModel::CreateWorkspace { cwd, label } => seq![
                "workspace"@,
                "create"@,
                "--cwd"@,
                cwd,
                "--label"@,
                label,
                "--focus"@,
            ],
            RequestModel::FocusWorkspace(id) => seq!["workspace"@, "focus"@, id],
            RequestModel::CloseWorkspace(id) => seq!["workspace"@, "close"@, id],
            RequestModel::ClosePane(id) => seq!["pane"@, "close"@, id],
        }
    }
}

impl Request {
    /// The arguments of this operation.
    pub fn args(&self) -> (args: Vec<String>)
        ensures
            text::views(args@) == self@.args(),
    {
        let words: Vec<&str> = match self {
            Request::ListWorkspaces => vec!["workspace", "list"],
            Request::ListPanes => vec!["pane", "list"],
            Request::ListTabs => vec!["tab", "list"],
            Request::ProcessInfo(id) => vec!["pane", "process-info", "--pane", id.as_str()],
            Request::CreateWorkspace { cwd, label } => vec![
                "workspace",
                "create",
                "--cwd",
                cwd.as_str(),
                "--label",
                label.as_str(),
                "--focus",
            ],
            Request::FocusWorkspace(id) => vec!["workspace", "focus", id.as_str()],
            Request::CloseWorkspace(id) => vec!["workspace", "close", id.as_str()],
            Request::ClosePane(id) => vec!["pane", "close", id.as_str()],
        };
        assert(text::views(words@) =~= self@.args());
        text::owned(&words)
    }
}

/// How an operation is called in messages.
pub open spec fn label_of(args: Seq<Seq<char>>) -> Seq<char> {
    "herdr ["@ + text::joined_by(
        Seq::new(args.len(), |i: int| text::debug_text(args[i])),
        ", "@,
    ) + "]"@
}

/// Name an operation in messages.
pub fn command_label(args: &Vec<String>) -> (label: String)
    ensures
        label@ == label_of(text::views(args@)),
        (forall|i: int| 0 <= i < args@.len() ==> text::needs_no_escape(#[trigger] args@[i]@))
            ==> label@ == "herdr ["@ + text::joined_by(
            Seq::new(args@.len(), |i: int| seq!['"'] + args@[i]@ + seq!['"']),
            ", "@,
        ) + "]"@,
{
    let ghost all = text::views(args@);
    let ghost wanted = Seq::new(all.len(), |i: int| text::debug_text(all[i]));
    let mut words: Vec<String> = Vec::new();
    let mut i: usize = 0;
    assert(text::views(words@) =~= wanted.take(0));
    while i < args.len()
        invariant
            i <= args@.len(),
            all == text::views(args@),
            wanted == Seq::new(all.len(), |i: int| text::debug_text(all[i])),
            text::views(words@) == wanted.take(i as int),
            forall|k: int|
                0 <= k < i && text::needs_no_escape(#[trigger] args@[k]@) ==> words@[k]@ == seq![
                    '"',
                ] + args@[k]@ + seq!['"'],
        decreases args@.len() - i,
    {
        words.push(text::quoted(args[i].as_str()));
        assert(wanted.take(i + 1) =~= wanted.take(i as int).push(wanted[i as int]));
        i += 1;
    }
    assert(wanted.take(i as int) =~= wanted);
    proof {
        if forall|k: int| 0 <= k < args@.len() ==> text::needs_no_escape(#[trigger] args@[k]@) {
            assert(wanted =~= Seq::new(
                args@.len(),
                |k: int| seq!['"'] + args@[k]@ + seq!['"'],
            )) by {
                assert forall|k: int| 0 <= k < wanted.len() implies wanted[k] == seq!['"']
                    + args@[k]@ + seq!['"'] by {
                    assert(text::views(words@)[k] == words@[k]@);
                    assert(text::needs_no_escape(args@[k]@));
                }
            }
        }
    }
    let mut label = text::joined("herdr [", text::join_all(&words, ", ").as_str());
    label.append("]");
    label
}

/// What a command printed, as text.
pub uninterp spec fn lossy_text(bytes: Seq<u8>) -> Seq<char>;

/// `String::from_utf8_lossy`: bytes as text, a function of the bytes. UTF-8 is
/// decoded; where other bytes get replacement characters is not stated here.
#[verifier::external_body]
fn from_lossy(bytes: &Vec<u8>) -> (printed: String)
    ensures
        printed@ == lossy_text(bytes@),
        vstd::utf8::valid_utf8(bytes@) ==> printed@ == vstd::utf8::decode_utf8(bytes@),
{
    String::from_utf8_lossy(bytes).into_owned()
}

/// What a command printed, as text.
pub fn output_text(bytes: &Vec<u8>) -> (printed: String)
    ensures
        printed@ == lossy_text(bytes@),
        vstd::utf8::valid_utf8(bytes@) ==> printed@ == vstd::utf8::decode_utf8(bytes@),
{
    from_lossy(bytes)
}

/// What an operation gave: what it printed, or, where it failed, why.
pub open spec fn result_of(
    label: Seq<char>,
    success: bool,
    printed: Seq<char>,
    complaint: Seq<char>,
) -> std::result::Result<Seq<char>, HerdrErrorModel> {
    if success {
        Ok(printed)
    } else {
        Err(
            HerdrErrorModel::Command(
                label + ": "@ + text::trimmed(text::sanitized(text::trimmed(complaint))),
            ),
        )
    }
}

/// Tell what an operation gave, by what it printed and what it complained of.
pub fn judge(label: &str, success: bool, printed: String, complaint: &str) -> (result: Result<
    String,
>)
    ensures
        path_view(result) == result_of(label@, success, printed@, complaint@),
{
    if success {
        return Ok(printed);
    }
    let words = text::sanitize_text(text::trim(complaint).as_str());
    let mut message = text::joined(label, ": ");
    message.append(text::trim(words.as_str()).as_str());
    Err(HerdrError::Command(message))
}

/// Tell what an operation gave, by the bytes of its two outputs.
pub fn command_result(label: &str, success: bool, stdout: &Vec<u8>, stderr: &Vec<u8>) -> (result:
    Result<String>)
    ensures
        path_view(result) == result_of(
            label@,
            success,
            lossy_text(stdout@),
            lossy_text(stderr@),
        ),
        success && vstd::utf8::valid_utf8(stdout@) ==> path_view(result) == Ok::<
            Seq<char>,
            HerdrErrorModel,
        >(vstd::utf8::decode_utf8(stdout@)),
{
    judge(label, success, output_text(stdout), output_text(stderr).as_str())
}

/// A configured runtime without a socket never focuses by the default socket,
/// whatever the environment says.
pub proof fn configured_target_is_never_misrouted(
    target: TargetModel,
    named: Option<Seq<char>>,
    older: Option<Seq<char>>,
    home: Option<Seq<char>>,
)
    ensures
        target.socket is Some ==> client_of(target).socket_path(named, older, home) == Ok::<
            Seq<char>,
            HerdrErrorModel,
        >(target.socket->0),
        target.socket is None && !target.focus_supported ==> client_of(target).socket_path(
            named,
            older,
            home,
        ) is Err,
{
}

/// Of the runtimes in use, only the default one ever uses the default socket.
pub proof fn only_the_default_target_uses_the_default_socket(
    sessions: Seq<config::SessionModel>,
    bin: Seq<char>,
    under: Option<Seq<char>>,
    i: int,
)
    requires
        0 < i < jump_pane::all_targets(sessions, bin, under).len(),
    ensures
        ({
            let client = client_of(jump_pane::all_targets(sessions, bin, under)[i]);
            client.socket is Some || !client.default_socket_allowed
        }),
{
    let session = sessions[i - 1];
    assert(jump_pane::all_targets(sessions, bin, under)[i] == jump_pane::session_target(
        session,
        bin,
        (i - 1) as nat,
        under,
    ));
}

} // verus!
