//! Jump Pane mode: the panes of all runtimes, what they can be found by, and how
//! they are ranked. A pane is known by its runtime and its id, and by nothing
//! else.

use vstd::prelude::*;
use crate::config;
use crate::config::{FilterModel, JumpPaneConfig, JumpPaneFilter, JumpPaneSession};
use crate::herdr::{Pane, PaneModel};
use crate::model;
use crate::order::Ranked;
use crate::search;
use crate::sources;
use crate::text;

verus! {

broadcast use crate::text::lemma_views_push;

/// How many panes the recency remembers.
pub const MAX_PANE_RECENCY: usize = 100;

/// What a pane is known by.
#[derive(Debug, PartialEq, Eq, Hash, PartialOrd, Ord)]
pub struct PaneIdentity {
    pub runtime_id: String,
    pub pane_id: String,
}

/// The view of a [`PaneIdentity`].
#[verifier::ext_equal]
pub struct IdentityModel {
    pub runtime_id: Seq<char>,
    pub pane_id: Seq<char>,
}

impl View for PaneIdentity {
    type V = IdentityModel;

    open spec fn view(&self) -> IdentityModel {
        IdentityModel { runtime_id: self.runtime_id@, pane_id: self.pane_id@ }
    }
}

impl Clone for PaneIdentity {
    fn clone(&self) -> (copy: Self)
        ensures
            copy == *self,
    {
        PaneIdentity { runtime_id: self.runtime_id.clone(), pane_id: self.pane_id.clone() }
    }
}

impl PaneIdentity {
    /// Decide whether two identities are the same.
    pub fn same(&self, other: &PaneIdentity) -> (equal: bool)
        ensures
            equal == (self@ == other@),
    {
        text::same(self.runtime_id.as_str(), other.runtime_id.as_str()) && text::same(
            self.pane_id.as_str(),
            other.pane_id.as_str(),
        )
    }
}

/// The order of identities: by runtime, then by pane.
pub open spec fn not_after(a: IdentityModel, b: IdentityModel) -> bool {
    if a.runtime_id == b.runtime_id {
        text::at_most(a.pane_id, b.pane_id)
    } else {
        text::at_most(a.runtime_id, b.runtime_id)
    }
}

impl Ranked for PaneIdentity {
    open spec fn precedes(a: IdentityModel, b: IdentityModel) -> bool {
        not_after(a, b)
    }

    proof fn total(a: IdentityModel, b: IdentityModel) {
        if a.runtime_id == b.runtime_id {
            text::lemma_at_most_total(a.pane_id, b.pane_id);
        } else {
            text::lemma_at_most_total(a.runtime_id, b.runtime_id);
        }
        assert(Self::precedes(a, b) == not_after(a, b));
        assert(Self::precedes(b, a) == not_after(b, a));
    }

    proof fn transitive(a: IdentityModel, b: IdentityModel, c: IdentityModel) {
        if a.runtime_id == b.runtime_id && b.runtime_id == c.runtime_id {
            text::lemma_at_most_transitive(a.pane_id, b.pane_id, c.pane_id);
        } else if a.runtime_id != b.runtime_id && b.runtime_id != c.runtime_id {
            text::lemma_at_most_transitive(a.runtime_id, b.runtime_id, c.runtime_id);
            if a.runtime_id == c.runtime_id {
                text::lemma_at_most_antisymmetric(a.runtime_id, b.runtime_id);
            }
        }
    }

    fn may_precede(&self, other: &Self) -> (before: bool) {
        if text::same(self.runtime_id.as_str(), other.runtime_id.as_str()) {
            text::not_after(self.pane_id.as_str(), other.pane_id.as_str())
        } else {
            text::not_after(self.runtime_id.as_str(), other.runtime_id.as_str())
        }
    }
}

/// A text without control characters and without white space around it.
pub open spec fn tidy(value: Seq<char>) -> Seq<char> {
    text::trimmed(text::sanitized(value))
}

/// Drop control characters, and white space around a text.
pub fn sanitize(value: &str) -> (clean: String)
    ensures
        clean@ == tidy(value@),
{
    text::trim(text::sanitize_text(value).as_str())
}

/// An optional text, tidied.
pub open spec fn tidy_option(value: Option<Seq<char>>) -> Option<Seq<char>> {
    match value {
        Some(value) => Some(tidy(value)),
        None => None,
    }
}

/// Tidy an optional text.
fn sanitize_option(value: &Option<String>) -> (clean: Option<String>)
    ensures
        text::view_of(clean) == tidy_option(text::view_of(*value)),
{
    match value {
        Some(value) => Some(sanitize(value.as_str())),
        None => None,
    }
}

/// A runtime whose panes are shown.
#[derive(Debug, PartialEq, Eq)]
pub struct RuntimeTarget {
    pub id: String,
    pub name: String,
    /// The host of a remote runtime, for display and search.
    pub remote_host: Option<String>,
    pub socket: Option<String>,
    /// The path of an executable, not a shell command.
    pub command: String,
    /// The arguments in front of every list or process request.
    pub arg_prefix: Vec<String>,
    /// Whether panes can be focused: not without a socket, but for the default
    /// runtime.
    pub focus_supported: bool,
    pub filter: JumpPaneFilter,
}

/// The view of a [`RuntimeTarget`].
#[verifier::ext_equal]
pub struct TargetModel {
    pub id: Seq<char>,
    pub name: Seq<char>,
    pub remote_host: Option<Seq<char>>,
    pub socket: Option<Seq<char>>,
    pub command: Seq<char>,
    pub arg_prefix: Seq<Seq<char>>,
    pub focus_supported: bool,
    pub filter: FilterModel,
}

impl View for RuntimeTarget {
    type V = TargetModel;

    open spec fn view(&self) -> TargetModel {
        TargetModel {
            id: self.id@,
            name: self.name@,
            remote_host: text::view_of(self.remote_host),
            socket: text::view_of(self.socket),
            command: self.command@,
            arg_prefix: text::views(self.arg_prefix@),
            focus_supported: self.focus_supported,
            filter: self.filter@,
        }
    }
}

impl Clone for RuntimeTarget {
    fn clone(&self) -> (copy: Self)
        ensures
            copy@ == self@,
    {
        RuntimeTarget {
            id: self.id.clone(),
            name: self.name.clone(),
            remote_host: text::copied(&self.remote_host),
            socket: text::copied(&self.socket),
            command: self.command.clone(),
            arg_prefix: text::copied_all(&self.arg_prefix),
            focus_supported: self.focus_supported,
            filter: self.filter.clone(),
        }
    }
}

/// The default runtime, reached by an executable.
pub open spec fn default_target(bin: Seq<char>) -> TargetModel {
    TargetModel {
        id: "default"@,
        name: "default"@,
        remote_host: None,
        socket: None,
        command: bin,
        arg_prefix: Seq::empty(),
        focus_supported: true,
        filter: config::open_filter(),
    }
}

/// The name of a configured runtime; its place in the configuration where it has
/// none.
pub open spec fn session_name(name: Seq<char>, index: nat) -> Seq<char> {
    if text::is_blank(name) {
        "session-"@ + text::decimal(index)
    } else {
        tidy(name)
    }
}

/// An option and its value, where it has one.
pub open spec fn option_args(option: Seq<char>, value: Option<Seq<char>>) -> Seq<Seq<char>> {
    match value {
        Some(value) => if text::is_blank(value) {
            Seq::empty()
        } else {
            seq![option, value]
        },
        None => Seq::empty(),
    }
}

/// A configured runtime.
pub open spec fn session_target(
    session: config::SessionModel,
    bin: Seq<char>,
    index: nat,
    home: Option<Seq<char>>,
) -> TargetModel {
    let name = session_name(session.name, index);
    TargetModel {
        id: "session:"@ + name + ":"@ + text::decimal(index),
        name,
        remote_host: tidy_option(session.remote),
        socket: match session.socket {
            Some(socket) => Some(config::expanded(socket, home)),
            None => None,
        },
        command: match session.command {
            Some(command) => command,
            None => bin,
        },
        arg_prefix: session.args + option_args("--remote"@, session.remote) + option_args(
            "--session"@,
            Some(session.name),
        ),
        focus_supported: match session.socket {
            Some(socket) => !text::is_blank(socket),
            None => false,
        },
        filter: session.filter,
    }
}

/// Add an option and its value to arguments, unless the value is blank.
fn push_option(args: &mut Vec<String>, option: &str, value: &str)
    ensures
        text::views(final(args)@) == text::views(old(args)@) + option_args(option@, Some(value@)),
{
    let ghost before = text::views(args@);
    if text::blank(value) {
        assert(before =~= before + option_args(option@, Some(value@)));
    } else {
        args.push(option.to_string());
        args.push(value.to_string());
        assert(text::views(args@) =~= before + seq![option@, value@]);
    }
}

impl RuntimeTarget {
    /// The default runtime, reached by an executable.
    pub fn default(bin: String) -> (target: RuntimeTarget)
        ensures
            target@ == default_target(bin@),
    {
        let target = RuntimeTarget {
            id: "default".to_string(),
            name: "default".to_string(),
            remote_host: None,
            socket: None,
            command: bin,
            arg_prefix: Vec::new(),
            focus_supported: true,
            filter: JumpPaneFilter::default(),
        };
        assert(target@.arg_prefix =~= Seq::empty());
        target
    }

    /// A configured runtime. A leading `~` of its socket stands for `home`.
    pub fn from_session(
        session: &JumpPaneSession,
        default_bin: &str,
        index: usize,
        home: Option<&str>,
    ) -> (target: RuntimeTarget)
        ensures
            target@ == session_target(
                session@,
                default_bin@,
                index as nat,
                model::borrowed(home),
            ),
    {
        let name = if text::blank(session.name.as_str()) {
            text::joined("session-", text::number_text(index).as_str())
        } else {
            sanitize(session.name.as_str())
        };
        let mut args = text::copied_all(&session.args);
        if let Some(remote) = &session.remote {
            push_option(&mut args, "--remote", remote.as_str());
        } else {
            assert(text::views(args@) =~= session@.args + option_args("--remote"@, None));
        }
        push_option(&mut args, "--session", session.name.as_str());
        let mut id = text::joined("session:", name.as_str());
        id.append(":");
        id.append(text::number_text(index).as_str());
        RuntimeTarget {
            id,
            name,
            remote_host: sanitize_option(&session.remote),
            socket: match &session.socket {
                Some(socket) => Some(config::expand_under(socket.as_str(), home)),
                None => None,
            },
            command: match &session.command {
                Some(command) => command.clone(),
                None => default_bin.to_string(),
            },
            arg_prefix: args,
            focus_supported: match &session.socket {
                Some(socket) => !text::blank(socket.as_str()),
                None => false,
            },
            filter: session.filter.clone(),
        }
    }
}

/// The default runtime and those that are configured.
pub open spec fn all_targets(
    sessions: Seq<config::SessionModel>,
    bin: Seq<char>,
    home: Option<Seq<char>>,
) -> Seq<TargetModel> {
    seq![default_target(bin)] + Seq::new(
        sessions.len(),
        |i: int| session_target(sessions[i], bin, i as nat, home),
    )
}

/// List the runtimes, with `~` standing for `home`.
pub fn targets_under(config: &JumpPaneConfig, bin: &str, home: Option<&str>) -> (targets: Vec<
    RuntimeTarget,
>)
    ensures
        text::views(targets@) == all_targets(
            text::views(config.sessions@),
            bin@,
            model::borrowed(home),
        ),
{
    let ghost sessions = text::views(config.sessions@);
    let ghost wanted = all_targets(sessions, bin@, model::borrowed(home));
    let mut targets: Vec<RuntimeTarget> = Vec::new();
    targets.push(RuntimeTarget::default(bin.to_string()));
    let mut i: usize = 0;
    assert(text::views(targets@) =~= wanted.take(1));
    while i < config.sessions.len()
        invariant
            i <= config.sessions@.len(),
            sessions == text::views(config.sessions@),
            wanted == all_targets(sessions, bin@, model::borrowed(home)),
            text::views(targets@) == wanted.take(i + 1),
        decreases config.sessions@.len() - i,
    {
        targets.push(RuntimeTarget::from_session(&config.sessions[i], bin, i, home));
        assert(wanted[i + 1] == session_target(
            sessions[i as int],
            bin@,
            i as nat,
            model::borrowed(home),
        ));
        assert(text::views(targets@) =~= wanted.take(i + 2));
        i += 1;
    }
    assert(wanted.take(i + 1) =~= wanted);
    targets
}

/// List the runtimes. A `~` is the home directory that [`sources::home_dir`]
/// gives.
pub fn targets(config: &JumpPaneConfig, bin: &str) -> (targets: Vec<RuntimeTarget>)
    ensures
        exists|home: Option<String>|
            #[trigger] call_ensures(sources::home_dir, (), home) && text::views(targets@)
                == all_targets(
                text::views(config.sessions@),
                bin@,
                text::view_of(home),
            ),
{
    let home = sources::home_dir();
    match &home {
        Some(home) => targets_under(config, bin, Some(home.as_str())),
        None => targets_under(config, bin, None),
    }
}

/// A pane as a row of the list.
#[derive(Debug)]
pub struct PaneEntry {
    pub identity: PaneIdentity,
    pub target: RuntimeTarget,
    pub workspace_id: String,
    pub tab_id: Option<String>,
    /// The label of the pane's tab, for display and search only.
    pub tab_label: Option<String>,
    pub cwd: Option<String>,
    pub foreground_cwd: Option<String>,
    pub label: Option<String>,
    pub title: Option<String>,
    pub terminal_title: Option<String>,
    pub agent: Option<String>,
    pub agent_status: Option<String>,
    pub focused: bool,
    /// The name of the foreground application, once it is known.
    pub application: Option<String>,
    pub hidden: bool,
    pub plugin: bool,
    pub floating: bool,
    pub suppressed: bool,
    /// False once the runtime has failed: the row stays, disabled.
    pub runtime_available: bool,
    /// False where the runtime has no socket to focus by.
    pub focus_supported: bool,
}

/// The view of a [`PaneEntry`].
#[verifier::ext_equal]
pub struct EntryModel {
    pub identity: IdentityModel,
    pub target: TargetModel,
    pub workspace_id: Seq<char>,
    pub tab_id: Option<Seq<char>>,
    pub tab_label: Option<Seq<char>>,
    pub cwd: Option<Seq<char>>,
    pub foreground_cwd: Option<Seq<char>>,
    pub label: Option<Seq<char>>,
    pub title: Option<Seq<char>>,
    pub terminal_title: Option<Seq<char>>,
    pub agent: Option<Seq<char>>,
    pub agent_status: Option<Seq<char>>,
    pub focused: bool,
    pub application: Option<Seq<char>>,
    pub hidden: bool,
    pub plugin: bool,
    pub floating: bool,
    pub suppressed: bool,
    pub runtime_available: bool,
    pub focus_supported: bool,
}

impl View for PaneEntry {
    type V = EntryModel;

    open spec fn view(&self) -> EntryModel {
        EntryModel {
            identity: self.identity@,
            target: self.target@,
            workspace_id: self.workspace_id@,
            tab_id: text::view_of(self.tab_id),
            tab_label: text::view_of(self.tab_label),
            cwd: text::view_of(self.cwd),
            foreground_cwd: text::view_of(self.foreground_cwd),
            label: text::view_of(self.label),
            title: text::view_of(self.title),
            terminal_title: text::view_of(self.terminal_title),
            agent: text::view_of(self.agent),
            agent_status: text::view_of(self.agent_status),
            focused: self.focused,
            application: text::view_of(self.application),
            hidden: self.hidden,
            plugin: self.plugin,
            floating: self.floating,
            suppressed: self.suppressed,
            runtime_available: self.runtime_available,
            focus_supported: self.focus_supported,
        }
    }
}

impl Clone for PaneEntry {
    fn clone(&self) -> (copy: Self)
        ensures
            copy@ == self@,
    {
        PaneEntry {
            identity: self.identity.clone(),
            target: self.target.clone(),
            workspace_id: self.workspace_id.clone(),
            tab_id: text::copied(&self.tab_id),
            tab_label: text::copied(&self.tab_label),
            cwd: text::copied(&self.cwd),
            foreground_cwd: text::copied(&self.foreground_cwd),
            label: text::copied(&self.label),
            title: text::copied(&self.title),
            terminal_title: text::copied(&self.terminal_title),
            agent: text::copied(&self.agent),
            agent_status: text::copied(&self.agent_status),
            focused: self.focused,
            application: text::copied(&self.application),
            hidden: self.hidden,
            plugin: self.plugin,
            floating: self.floating,
            suppressed: self.suppressed,
            runtime_available: self.runtime_available,
            focus_supported: self.focus_supported,
        }
    }
}

/// The row of a pane. Everything that is shown is free of control characters.
pub open spec fn entry_of(target: TargetModel, pane: PaneModel) -> EntryModel {
    EntryModel {
        identity: IdentityModel { runtime_id: target.id, pane_id: pane.pane_id },
        target: TargetModel { remote_host: tidy_option(target.remote_host), ..target },
        workspace_id: tidy(pane.workspace_id),
        tab_id: tidy_option(pane.tab_id),
        tab_label: None,
        cwd: tidy_option(pane.cwd),
        foreground_cwd: tidy_option(pane.foreground_cwd),
        label: tidy_option(pane.label),
        title: tidy_option(pane.title),
        terminal_title: tidy_option(pane.terminal_title),
        agent: tidy_option(pane.agent),
        agent_status: tidy_option(pane.agent_status),
        focused: pane.focused,
        application: None,
        hidden: pane.hidden,
        plugin: pane.plugin,
        floating: pane.floating,
        suppressed: pane.suppressed,
        runtime_available: true,
        focus_supported: target.focus_supported,
    }
}

/// The first of two optional texts that is there.
pub open spec fn first_of(a: Option<Seq<char>>, b: Option<Seq<char>>) -> Option<Seq<char>> {
    if a is Some {
        a
    } else {
        b
    }
}

/// An optional text, or an empty one.
pub open spec fn text_or_empty(value: Option<Seq<char>>) -> Seq<char> {
    match value {
        Some(value) => value,
        None => Seq::empty(),
    }
}

/// The last eight characters of a tidied text.
pub open spec fn short(value: Seq<char>) -> Seq<char> {
    let clean = tidy(value);
    if clean.len() <= 8 {
        clean
    } else {
        clean.skip(clean.len() - 8)
    }
}

/// A text without slashes at its end.
pub open spec fn without_slashes(value: Seq<char>) -> Seq<char>
    decreases value.len(),
{
    if value.len() > 0 && value.last() == '/' {
        without_slashes(value.drop_last())
    } else {
        value
    }
}

/// What follows the last slash of a text.
pub open spec fn after_last_slash(value: Seq<char>) -> Seq<char>
    decreases value.len(),
{
    if value.len() == 0 {
        value
    } else if value.last() == '/' {
        Seq::empty()
    } else {
        after_last_slash(value.drop_last()).push(value.last())
    }
}

/// The last name of a path, where it has one.
pub open spec fn name_in_path(value: Seq<char>) -> Option<Seq<char>> {
    let name = tidy(after_last_slash(without_slashes(value)));
    if name.len() == 0 {
        None
    } else {
        Some(name)
    }
}

/// A path with the home directory written as `~`.
pub open spec fn home_collapsed(value: Seq<char>, home: Option<Seq<char>>) -> Seq<char> {
    match home {
        Some(home) => if value == home {
            "~"@
        } else if value.len() > home.len() && value.take(home.len() as int) == home
            && value[home.len() as int] == '/' {
            "~"@ + value.skip(home.len() as int)
        } else {
            value
        },
        None => value,
    }
}

/// Words with a text behind them, where there is one.
pub open spec fn after_words(words: Seq<char>, value: Option<Seq<char>>) -> Seq<char> {
    match value {
        Some(value) => words + value,
        None => Seq::empty(),
    }
}

impl EntryModel {
    /// Where the pane is: the directory of its foreground process, or its own.
    pub open spec fn path(self) -> Option<Seq<char>> {
        first_of(self.foreground_cwd, self.cwd)
    }

    /// The texts that the row offers for search.
    pub open spec fn offered(self) -> Seq<Seq<char>> {
        seq![
            self.identity.pane_id,
            self.workspace_id,
            text_or_empty(self.tab_id),
            text_or_empty(self.tab_label),
            text_or_empty(self.cwd),
            text_or_empty(self.foreground_cwd),
            text_or_empty(self.label),
            text_or_empty(self.title),
            text_or_empty(self.terminal_title),
            text_or_empty(self.agent),
            text_or_empty(self.agent_status),
            text_or_empty(self.application),
            self.target.name,
            text_or_empty(self.target.remote_host),
            if self.focused {
                "focused"@
            } else {
                Seq::empty()
            },
        ]
    }

    /// What the row can be found by.
    pub open spec fn fields(self) -> Seq<Seq<char>> {
        search::collected(self.offered())
    }

    /// The name of the pane.
    pub open spec fn base(self) -> Seq<char> {
        if self.label is Some {
            self.label->0
        } else if self.title is Some {
            self.title->0
        } else if self.terminal_title is Some {
            self.terminal_title->0
        } else if self.path() is Some && name_in_path(self.path()->0) is Some {
            name_in_path(self.path()->0)->0
        } else {
            short(self.identity.pane_id)
        }
    }

    /// The first line of the row: a name, and always the end of the pane's id,
    /// so that rows with equal names can be told apart.
    pub open spec fn primary(self) -> Seq<char> {
        self.base() + " ["@ + short(self.identity.pane_id) + "]"@
    }

    /// Where the pane runs, and what runs in it.
    pub open spec fn context(self) -> Seq<char> {
        self.target.name + " · "@ + self.workspace_id + after_words(
            " @ "@,
            self.target.remote_host,
        ) + after_words(" / "@, first_of(self.tab_label, self.tab_id)) + after_words(
            " · "@,
            self.agent,
        ) + after_words(" · "@, self.agent_status) + after_words(" · "@, self.application)
    }

    /// The second line of the row.
    pub open spec fn secondary(self, home: Option<Seq<char>>) -> Seq<char> {
        let path = match self.path() {
            Some(path) => home_collapsed(path, home),
            None => Seq::empty(),
        };
        if path.len() == 0 {
            self.context()
        } else {
            path + " · "@ + self.context()
        }
    }
}

/// The end of an id.
pub fn short_id(value: &str) -> (end: String)
    ensures
        end@ == short(value@),
{
    let clean = sanitize(value);
    let chars = text::chars_of(clean.as_str());
    let from: usize = chars.len().saturating_sub(8);
    let end = text::text_between(&chars, from, chars.len());
    assert(end@ =~= short(value@));
    end
}

/// The last name of a path.
pub fn path_basename(value: &str) -> (name: Option<String>)
    ensures
        text::view_of(name) == name_in_path(value@),
{
    let chars = text::chars_of(value);
    let mut end: usize = chars.len();
    assert(chars@.take(end as int) =~= chars@);
    while end > 0 && chars[end - 1] == '/'
        invariant
            end <= chars@.len(),
            without_slashes(chars@) == without_slashes(chars@.take(end as int)),
        decreases end,
    {
        assert(chars@.take(end as int).last() == chars@[end - 1]);
        assert(chars@.take(end as int).drop_last() =~= chars@.take(end - 1));
        end -= 1;
    }
    let ghost body = chars@.take(end as int);
    proof {
        if end > 0 {
            assert(body.last() == chars@[end - 1]);
        }
        assert(without_slashes(chars@) == body);
    }
    let mut from: usize = end;
    assert(body.take(from as int) =~= body);
    assert(after_last_slash(body) =~= after_last_slash(body) + body.skip(from as int));
    while from > 0 && chars[from - 1] != '/'
        invariant
            from <= end <= chars@.len(),
            body == chars@.take(end as int),
            after_last_slash(body) == after_last_slash(body.take(from as int)) + body.skip(
                from as int,
            ),
        decreases from,
    {
        proof {
            let front = body.take(from as int);
            assert(front.last() == chars@[from - 1]);
            assert(front.drop_last() =~= body.take(from - 1));
            assert(after_last_slash(front) + body.skip(from as int) =~= after_last_slash(
                body.take(from - 1),
            ) + body.skip(from - 1));
        }
        from -= 1;
    }
    proof {
        if from > 0 {
            assert(body.take(from as int).last() == chars@[from - 1]);
        }
        assert(after_last_slash(body.take(from as int)) =~= Seq::<char>::empty());
    }
    let last = text::text_between(&chars, from, end);
    assert(last@ =~= after_last_slash(body));
    let name = sanitize(last.as_str());
    if name.as_str().is_empty() {
        None
    } else {
        Some(name)
    }
}

/// Write the home directory at the front of a path as `~`.
pub fn collapse_path(value: &str, home: Option<&str>) -> (shown: String)
    ensures
        shown@ == home_collapsed(value@, model::borrowed(home)),
{
    if let Some(home) = home {
        if text::same(value, home) {
            return "~".to_string();
        }
        let chars = text::chars_of(value);
        let front = text::chars_of(home);
        if chars.len() > front.len() && chars[front.len()] == '/' {
            let head = text::text_between(&chars, 0, front.len());
            assert(head@ =~= value@.take(home@.len() as int));
            if text::same(head.as_str(), home) {
                let rest = text::text_between(&chars, front.len(), chars.len());
                assert(rest@ =~= value@.skip(home@.len() as int));
                return text::joined("~", rest.as_str());
            }
        }
    }
    value.to_string()
}

/// An optional text, or an empty one.
fn or_empty(value: &Option<String>) -> (shown: &str)
    ensures
        shown@ == text_or_empty(text::view_of(*value)),
{
    match value {
        Some(value) => value.as_str(),
        None => {
            proof {
                reveal_strlit("");
            }
            assert(""@ =~= Seq::<char>::empty());
            ""
        },
    }
}

/// Add a field, unless it is empty or known.
fn push_field<'a>(fields: &mut Vec<&'a str>, value: &'a str)
    ensures
        text::views(final(fields)@) == search::pushed(text::views(old(fields)@), value@),
{
    if value.is_empty() {
        return;
    }
    let ghost before = text::views(fields@);
    let mut i: usize = 0;
    while i < fields.len()
        invariant
            i <= fields@.len(),
            before == text::views(fields@),
            value@.len() > 0,
            forall|k: int| 0 <= k < i ==> before[k] != value@,
        decreases fields@.len() - i,
    {
        assert(before[i as int] == fields@[i as int]@);
        if text::same(fields[i], value) {
            assert(before.contains(value@));
            return;
        }
        i += 1;
    }
    fields.push(value);
}

/// Append words and a text behind them, where there is one.
fn append_after(shown: &mut String, words: &str, value: Option<&str>)
    ensures
        final(shown)@ == old(shown)@ + after_words(words@, model::borrowed(value)),
{
    let ghost before = shown@;
    if let Some(value) = value {
        shown.append(words);
        shown.append(value);
        assert(shown@ =~= before + (words@ + value@));
    } else {
        assert(shown@ =~= before + after_words(words@, None));
    }
}

impl PaneEntry {
    /// The row of a pane.
    pub fn from_pane(target: RuntimeTarget, pane: Pane) -> (entry: PaneEntry)
        ensures
            entry@ == entry_of(target@, pane@),
    {
        let remote_host = sanitize_option(&target.remote_host);
        let focus_supported = target.focus_supported;
        PaneEntry {
            identity: PaneIdentity { runtime_id: target.id.clone(), pane_id: pane.pane_id },
            target: RuntimeTarget { remote_host, ..target },
            workspace_id: sanitize(pane.workspace_id.as_str()),
            tab_id: sanitize_option(&pane.tab_id),
            tab_label: None,
            cwd: sanitize_option(&pane.cwd),
            foreground_cwd: sanitize_option(&pane.foreground_cwd),
            label: sanitize_option(&pane.label),
            title: sanitize_option(&pane.title),
            terminal_title: sanitize_option(&pane.terminal_title),
            agent: sanitize_option(&pane.agent),
            agent_status: sanitize_option(&pane.agent_status),
            focused: pane.focused,
            application: None,
            hidden: pane.hidden,
            plugin: pane.plugin,
            floating: pane.floating,
            suppressed: pane.suppressed,
            runtime_available: true,
            focus_supported,
        }
    }

    /// The row with the label of its tab.
    pub fn with_tab_label(self, label: Option<String>) -> (entry: PaneEntry)
        ensures
            entry@ == (EntryModel { tab_label: text::view_of(label), ..self@ }),
    {
        PaneEntry { tab_label: label, ..self }
    }

    /// Where the pane is.
    pub fn path(&self) -> (path: Option<&str>)
        ensures
            model::borrowed(path) == self@.path(),
    {
        match &self.foreground_cwd {
            Some(path) => Some(path.as_str()),
            None => model::lent(&self.cwd),
        }
    }

    /// What the row can be found by. Each field is matched on its own.
    pub fn search_fields(&self) -> (fields: Vec<&str>)
        ensures
            text::views(fields@) == self@.fields(),
    {
        proof {
            reveal_strlit("");
        }
        let offered: Vec<&str> = vec![
            self.identity.pane_id.as_str(),
            self.workspace_id.as_str(),
            or_empty(&self.tab_id),
            or_empty(&self.tab_label),
            or_empty(&self.cwd),
            or_empty(&self.foreground_cwd),
            or_empty(&self.label),
            or_empty(&self.title),
            or_empty(&self.terminal_title),
            or_empty(&self.agent),
            or_empty(&self.agent_status),
            or_empty(&self.application),
            self.target.name.as_str(),
            or_empty(&self.target.remote_host),
            if self.focused { "focused" } else { "" },
        ];
        let ghost all = text::views(offered@);
        assert(""@ =~= Seq::<char>::empty());
        assert(all =~= self@.offered());
        let mut fields: Vec<&str> = Vec::new();
        let mut i: usize = 0;
        assert(text::views(fields@) =~= search::collected(all.take(0)));
        while i < offered.len()
            invariant
                i <= offered@.len(),
                all == text::views(offered@),
                text::views(fields@) == search::collected(all.take(i as int)),
            decreases offered@.len() - i,
        {
            push_field(&mut fields, offered[i]);
            proof {
                assert(all.take(i + 1).drop_last() =~= all.take(i as int));
                assert(all.take(i + 1).last() == all[i as int]);
            }
            i += 1;
        }
        assert(all.take(i as int) =~= all);
        fields
    }

    /// The name of the pane.
    fn base(&self) -> (name: String)
        ensures
            name@ == self@.base(),
    {
        if let Some(label) = &self.label {
            return label.clone();
        }
        if let Some(title) = &self.title {
            return title.clone();
        }
        if let Some(title) = &self.terminal_title {
            return title.clone();
        }
        if let Some(path) = self.path() {
            if let Some(name) = path_basename(path) {
                return name;
            }
        }
        short_id(self.identity.pane_id.as_str())
    }

    /// The first line of the row.
    pub fn primary_display(&self) -> (shown: String)
        ensures
            shown@ == self@.primary(),
    {
        let mut shown = self.base();
        shown.append(" [");
        shown.append(short_id(self.identity.pane_id.as_str()).as_str());
        shown.append("]");
        shown
    }

    /// The second line of the row, with `home` written as `~`.
    pub fn secondary_display(&self, home: Option<&str>) -> (shown: String)
        ensures
            shown@ == self@.secondary(model::borrowed(home)),
    {
        let mut context = text::joined(self.target.name.as_str(), " · ");
        context.append(self.workspace_id.as_str());
        append_after(&mut context, " @ ", model::lent(&self.target.remote_host));
        let tab = match &self.tab_label {
            Some(label) => Some(label.as_str()),
            None => model::lent(&self.tab_id),
        };
        append_after(&mut context, " / ", tab);
        append_after(&mut context, " · ", model::lent(&self.agent));
        append_after(&mut context, " · ", model::lent(&self.agent_status));
        append_after(&mut context, " · ", model::lent(&self.application));
        if let Some(path) = self.path() {
            let path = collapse_path(path, home);
            if !path.as_str().is_empty() {
                let mut shown = text::joined(path.as_str(), " · ");
                shown.append(context.as_str());
                return shown;
            }
        }
        context
    }
}

/// Copy rows.
pub fn copied_entries(entries: &Vec<PaneEntry>) -> (copy: Vec<PaneEntry>)
    ensures
        text::views(copy@) == text::views(entries@),
{
    let ghost all = text::views(entries@);
    let mut copy: Vec<PaneEntry> = Vec::new();
    let mut i: usize = 0;
    assert(text::views(copy@) =~= all.take(0));
    while i < entries.len()
        invariant
            i <= entries@.len(),
            all == text::views(entries@),
            text::views(copy@) == all.take(i as int),
        decreases entries@.len() - i,
    {
        copy.push(entries[i].clone());
        assert(all.take(i + 1) =~= all.take(i as int).push(all[i as int]));
        i += 1;
    }
    assert(all.take(i as int) =~= all);
    copy
}

} // verus!
