//! The Herdr multiplexer as the picker sees it: workspaces, tabs and panes, the
//! client that lists and focuses them, and the text that goes over the wire.

use vstd::prelude::*;
use crate::text;

verus! {

/// Why an operation on Herdr failed.
#[derive(Debug, PartialEq, Eq)]
pub enum HerdrError {
    /// The command could not be started, read or waited for.
    Spawn(String),
    /// Herdr refused the operation.
    Command(String),
    /// Herdr answered with something other than the expected JSON.
    InvalidJson(String),
    /// The operation was cancelled.
    Cancelled(String),
    /// The operation took too long.
    Timeout(String),
}

/// The view of a [`HerdrError`].
#[verifier::ext_equal]
pub enum HerdrErrorModel {
    Spawn(Seq<char>),
    Command(Seq<char>),
    InvalidJson(Seq<char>),
    Cancelled(Seq<char>),
    Timeout(Seq<char>),
}

impl HerdrErrorModel {
    /// The words of the error.
    pub open spec fn message(self) -> Seq<char> {
        match self {
            HerdrErrorModel::Spawn(message) => message,
            HerdrErrorModel::Command(message) => message,
            HerdrErrorModel::InvalidJson(message) => message,
            HerdrErrorModel::Cancelled(message) => message,
            HerdrErrorModel::Timeout(message) => message,
        }
    }
}

impl View for HerdrError {
    type V = HerdrErrorModel;

    open spec fn view(&self) -> HerdrErrorModel {
        match self {
            HerdrError::Spawn(message) => HerdrErrorModel::Spawn(message@),
            HerdrError::Command(message) => HerdrErrorModel::Command(message@),
            HerdrError::InvalidJson(message) => HerdrErrorModel::InvalidJson(message@),
            HerdrError::Cancelled(message) => HerdrErrorModel::Cancelled(message@),
            HerdrError::Timeout(message) => HerdrErrorModel::Timeout(message@),
        }
    }
}

impl Clone for HerdrError {
    fn clone(&self) -> (copy: Self)
        ensures
            copy == *self,
    {
        match self {
            HerdrError::Spawn(message) => HerdrError::Spawn(message.clone()),
            HerdrError::Command(message) => HerdrError::Command(message.clone()),
            HerdrError::InvalidJson(message) => HerdrError::InvalidJson(message.clone()),
            HerdrError::Cancelled(message) => HerdrError::Cancelled(message.clone()),
            HerdrError::Timeout(message) => HerdrError::Timeout(message.clone()),
        }
    }
}

impl HerdrError {
    /// The words of the error, as they are shown.
    pub fn message(&self) -> (message: String)
        ensures
            message@ == self@.message(),
    {
        match self {
            HerdrError::Spawn(message) => message.clone(),
            HerdrError::Command(message) => message.clone(),
            HerdrError::InvalidJson(message) => message.clone(),
            HerdrError::Cancelled(message) => message.clone(),
            HerdrError::Timeout(message) => message.clone(),
        }
    }
}

/// The result of an operation on Herdr.
pub type Result<T> = std::result::Result<T, HerdrError>;

/// A live workspace.
#[derive(Debug, PartialEq, Eq)]
pub struct Workspace {
    pub workspace_id: String,
    pub label: String,
    /// Herdr's positional workspace number.
    pub number: Option<usize>,
    pub agent_status: String,
}

/// The view of a [`Workspace`].
#[verifier::ext_equal]
pub struct WorkspaceModel {
    pub workspace_id: Seq<char>,
    pub label: Seq<char>,
    pub number: Option<usize>,
    pub agent_status: Seq<char>,
}

impl View for Workspace {
    type V = WorkspaceModel;

    open spec fn view(&self) -> WorkspaceModel {
        WorkspaceModel {
            workspace_id: self.workspace_id@,
            label: self.label@,
            number: self.number,
            agent_status: self.agent_status@,
        }
    }
}

impl Clone for Workspace {
    fn clone(&self) -> (copy: Self)
        ensures
            copy == *self,
    {
        Workspace {
            workspace_id: self.workspace_id.clone(),
            label: self.label.clone(),
            number: self.number,
            agent_status: self.agent_status.clone(),
        }
    }
}

/// A tab inside a workspace. It gives rows a readable name for search and
/// display; it is never part of a pane's identity.
#[derive(Debug, PartialEq, Eq)]
pub struct TabInfo {
    pub tab_id: String,
    pub workspace_id: String,
    pub label: Option<String>,
    /// Herdr's positional tab number; a label equal to it means "never renamed".
    pub number: Option<usize>,
    pub agent_status: Option<String>,
}

/// The view of a [`TabInfo`].
#[verifier::ext_equal]
pub struct TabModel {
    pub tab_id: Seq<char>,
    pub workspace_id: Seq<char>,
    pub label: Option<Seq<char>>,
    pub number: Option<usize>,
    pub agent_status: Option<Seq<char>>,
}

impl View for TabInfo {
    type V = TabModel;

    open spec fn view(&self) -> TabModel {
        TabModel {
            tab_id: self.tab_id@,
            workspace_id: self.workspace_id@,
            label: text::view_of(self.label),
            number: self.number,
            agent_status: text::view_of(self.agent_status),
        }
    }
}

impl Clone for TabInfo {
    fn clone(&self) -> (copy: Self)
        ensures
            copy == *self,
    {
        TabInfo {
            tab_id: self.tab_id.clone(),
            workspace_id: self.workspace_id.clone(),
            label: text::copied(&self.label),
            number: self.number,
            agent_status: text::copied(&self.agent_status),
        }
    }
}

/// A live pane. It carries the directory of its workspace when muster did not
/// create the workspace, and any detected agent.
#[derive(Debug, PartialEq, Eq)]
pub struct Pane {
    pub pane_id: String,
    pub workspace_id: String,
    pub tab_id: Option<String>,
    pub cwd: Option<String>,
    pub foreground_cwd: Option<String>,
    pub agent: Option<String>,
    pub agent_status: Option<String>,
    /// The name that the user gave the pane.
    pub label: Option<String>,
    pub title: Option<String>,
    /// The terminal title, a fallback for a pane without a label.
    pub terminal_title: Option<String>,
    pub focused: bool,
    pub hidden: bool,
    pub plugin: bool,
    pub floating: bool,
    pub suppressed: bool,
}

/// The view of a [`Pane`].
#[verifier::ext_equal]
pub struct PaneModel {
    pub pane_id: Seq<char>,
    pub workspace_id: Seq<char>,
    pub tab_id: Option<Seq<char>>,
    pub cwd: Option<Seq<char>>,
    pub foreground_cwd: Option<Seq<char>>,
    pub agent: Option<Seq<char>>,
    pub agent_status: Option<Seq<char>>,
    pub label: Option<Seq<char>>,
    pub title: Option<Seq<char>>,
    pub terminal_title: Option<Seq<char>>,
    pub focused: bool,
    pub hidden: bool,
    pub plugin: bool,
    pub floating: bool,
    pub suppressed: bool,
}

impl View for Pane {
    type V = PaneModel;

    open spec fn view(&self) -> PaneModel {
        PaneModel {
            pane_id: self.pane_id@,
            workspace_id: self.workspace_id@,
            tab_id: text::view_of(self.tab_id),
            cwd: text::view_of(self.cwd),
            foreground_cwd: text::view_of(self.foreground_cwd),
            agent: text::view_of(self.agent),
            agent_status: text::view_of(self.agent_status),
            label: text::view_of(self.label),
            title: text::view_of(self.title),
            terminal_title: text::view_of(self.terminal_title),
            focused: self.focused,
            hidden: self.hidden,
            plugin: self.plugin,
            floating: self.floating,
            suppressed: self.suppressed,
        }
    }
}

impl Clone for Pane {
    fn clone(&self) -> (copy: Self)
        ensures
            copy == *self,
    {
        Pane {
            pane_id: self.pane_id.clone(),
            workspace_id: self.workspace_id.clone(),
            tab_id: text::copied(&self.tab_id),
            cwd: text::copied(&self.cwd),
            foreground_cwd: text::copied(&self.foreground_cwd),
            agent: text::copied(&self.agent),
            agent_status: text::copied(&self.agent_status),
            label: text::copied(&self.label),
            title: text::copied(&self.title),
            terminal_title: text::copied(&self.terminal_title),
            focused: self.focused,
            hidden: self.hidden,
            plugin: self.plugin,
            floating: self.floating,
            suppressed: self.suppressed,
        }
    }
}

/// A label without control characters and without white space around it.
pub fn clean(value: Option<String>) -> (core: Option<String>)
    ensures
        text::view_of(core) == text::cleaned(text::view_of(value)),
{
    match value {
        None => None,
        Some(value) => {
            let sanitized = text::sanitize_text(value.as_str());
            let core = text::trim(sanitized.as_str());
            if core.as_str().is_empty() {
                None
            } else {
                Some(core)
            }
        },
    }
}

/// The symbols of Herdr's public numbers, in the order of their values.
pub open spec fn public_alphabet() -> Seq<char> {
    "123456789ABCDEFGHJKMNPQRSTVWXYZ0"@
}

/// The number that a public suffix stands for: digits in base 32, each worth
/// one more than its place in the alphabet. Other symbols stand for no number.
pub open spec fn public_value(digits: Seq<char>) -> Option<nat>
    decreases digits.len(),
{
    if digits.len() == 0 {
        Some(0)
    } else {
        match (public_value(digits.drop_last()), text::position(public_alphabet(), digits.last())) {
            (Some(front), Some(at)) => Some((front * 32 + at + 1) as nat),
            _ => None,
        }
    }
}

/// A public number that fits in a machine word.
pub open spec fn public_number(digits: Seq<char>) -> Option<usize> {
    match public_value(digits) {
        Some(value) => if digits.len() > 0 && value <= usize::MAX {
            Some(value as usize)
        } else {
            None
        },
        None => None,
    }
}

/// What follows the last `:` of a text; the whole text when it has none.
pub open spec fn after_last_colon(text: Seq<char>) -> Seq<char>
    decreases text.len(),
{
    if text.len() == 0 {
        text
    } else if text.last() == ':' {
        Seq::empty()
    } else {
        after_last_colon(text.drop_last()).push(text.last())
    }
}

impl PaneModel {
    /// The name shown for the pane, preferring its label.
    pub open spec fn display_name(self) -> Option<Seq<char>> {
        match self.label {
            Some(label) => Some(label),
            None => self.terminal_title,
        }
    }

    /// The public number in `wX:pN`.
    pub open spec fn number(self) -> Option<usize> {
        let suffix = after_last_colon(self.pane_id);
        if suffix.len() > 0 && suffix[0] == 'p' {
            public_number(suffix.drop_first())
        } else {
            None
        }
    }
}

/// A longer suffix never stands for a smaller number.
proof fn lemma_public_value_grows(digits: Seq<char>, n: int)
    requires
        0 <= n <= digits.len(),
    ensures
        public_value(digits.take(n)) is None ==> public_value(digits) is None,
        public_value(digits) is Some ==> public_value(digits.take(n)) is Some && public_value(
            digits.take(n),
        )->0 <= public_value(digits)->0,
    decreases digits.len(),
{
    if n < digits.len() {
        lemma_public_value_grows(digits.drop_last(), n);
        assert(digits.drop_last().take(n) =~= digits.take(n));
        text::position_is_the_first(public_alphabet(), digits.last());
    } else {
        assert(digits.take(n) =~= digits);
    }
}

/// Decode a public number.
pub fn decode_public_number(value: &str) -> (decoded: Option<usize>)
    ensures
        decoded == public_number(value@),
{
    let digits = text::chars_of(value);
    if digits.len() == 0 {
        return None;
    }
    let alphabet = text::chars_of("123456789ABCDEFGHJKMNPQRSTVWXYZ0");
    let mut decoded: usize = 0;
    let mut i: usize = 0;
    assert(digits@.take(0) =~= Seq::<char>::empty());
    while i < digits.len()
        invariant
            i <= digits@.len(),
            digits@ == value@,
            digits@.len() > 0,
            alphabet@ == public_alphabet(),
            public_value(digits@.take(i as int)) == Some(decoded as nat),
        decreases digits@.len() - i,
    {
        let ghost next = digits@.take(i + 1);
        proof {
            assert(next.drop_last() =~= digits@.take(i as int));
            assert(next.last() == digits@[i as int]);
            lemma_public_value_grows(digits@, i + 1);
            text::position_is_the_first(public_alphabet(), digits@[i as int]);
        }
        let place: usize = match text::find_char(&alphabet, digits[i]) {
            Some(place) => place,
            None => {
                return None;
            },
        };
        proof {
            reveal_strlit("123456789ABCDEFGHJKMNPQRSTVWXYZ0");
            assert(place < 32);
        }
        let shifted: usize = match decoded.checked_mul(32) {
            Some(shifted) => shifted,
            None => {
                return None;
            },
        };
        decoded = match shifted.checked_add(place + 1) {
            Some(sum) => sum,
            None => {
                return None;
            },
        };
        i += 1;
    }
    assert(digits@.take(i as int) =~= digits@);
    Some(decoded)
}

/// Text after the last `:`.
fn last_field(value: &str) -> (field: String)
    ensures
        field@ == after_last_colon(value@),
{
    let chars = text::chars_of(value);
    let mut from: usize = chars.len();
    assert(chars@.take(from as int) =~= chars@);
    assert(chars@.subrange(from as int, chars@.len() as int) =~= Seq::<char>::empty());
    assert(after_last_colon(chars@) =~= after_last_colon(chars@) + Seq::<char>::empty());
    while from > 0 && chars[from - 1] != ':'
        invariant
            from <= chars@.len(),
            after_last_colon(chars@) == after_last_colon(chars@.take(from as int))
                + chars@.subrange(from as int, chars@.len() as int),
        decreases from,
    {
        proof {
            let front = chars@.take(from as int);
            assert(front.last() == chars@[from - 1]);
            assert(front.drop_last() =~= chars@.take(from - 1));
            assert(after_last_colon(front) + chars@.subrange(from as int, chars@.len() as int)
                =~= after_last_colon(chars@.take(from - 1)) + chars@.subrange(
                from - 1,
                chars@.len() as int,
            ));
        }
        from -= 1;
    }
    proof {
        let front = chars@.take(from as int);
        if from > 0 {
            assert(front.last() == chars@[from - 1]);
        }
        assert(after_last_colon(front) =~= Seq::<char>::empty());
    }
    text::text_between(&chars, from, chars.len())
}

impl Pane {
    /// The name shown for this pane, preferring its label.
    pub fn display_name(&self) -> (name: Option<&str>)
        ensures
            match name {
                Some(name) => self@.display_name() == Some(name@),
                None => self@.display_name() is None,
            },
    {
        match &self.label {
            Some(label) => Some(label.as_str()),
            None => match &self.terminal_title {
                Some(title) => Some(title.as_str()),
                None => None,
            },
        }
    }

    /// The public pane number of `wX:pN`, in Herdr's public-ID alphabet.
    pub fn number(&self) -> (number: Option<usize>)
        ensures
            number == self@.number(),
    {
        let field = last_field(self.pane_id.as_str());
        let chars = text::chars_of(field.as_str());
        if chars.len() > 0 && chars[0] == 'p' {
            let digits = text::text_between(&chars, 1, chars.len());
            assert(digits@ =~= field@.drop_first());
            decode_public_number(digits.as_str())
        } else {
            None
        }
    }
}

/// What the picker asks of a Herdr runtime.
pub trait Herdr {
    fn list_workspaces(&self) -> Result<Vec<Workspace>>;

    fn list_panes(&self) -> Result<Vec<Pane>>;

    /// List the tabs of this runtime. A runtime without this capability has
    /// none, so pane navigation is unaffected.
    fn list_tabs(&self) -> (tabs: Result<Vec<TabInfo>>)
        default_ensures
            tabs matches Ok(list) && list@.len() == 0,
    {
        Ok(Vec::new())
    }

    /// Focus a tab by absolute identity. A runtime without this capability
    /// refuses instead of misrouting.
    fn focus_tab(&self, _id: &str) -> (done: Result<()>)
        default_ensures
            done matches Err(error) && error@ == HerdrErrorModel::Command(
                "absolute tab focus is unavailable"@,
            ),
    {
        Err(HerdrError::Command("absolute tab focus is unavailable".to_string()))
    }

    /// Focus a pane by absolute identity, never by direction or workspace.
    fn focus_pane(&self, _id: &str) -> (done: Result<()>)
        default_ensures
            done matches Err(error) && error@ == HerdrErrorModel::Command(
                "absolute pane focus is unavailable"@,
            ),
    {
        Err(HerdrError::Command("absolute pane focus is unavailable".to_string()))
    }

    /// Only the safe foreground process name, where the runtime has one.
    fn process_name(&self, _id: &str) -> (name: Result<Option<String>>)
        default_ensures
            name matches Err(error) && error@ == HerdrErrorModel::Command(
                "pane process info is unavailable"@,
            ),
    {
        Err(HerdrError::Command("pane process info is unavailable".to_string()))
    }

    fn create_workspace(&self, cwd: &str, label: &str) -> Result<String>;

    fn focus_workspace(&self, id: &str) -> Result<()>;

    fn close_workspace(&self, id: &str) -> Result<()>;

    fn close_pane(&self, id: &str) -> Result<()>;
}

} // verus!
