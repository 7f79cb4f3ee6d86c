//! One run of Jump Pane mode: listed panes, application names and keys go in,
//! lines of text and requests to focus come out.

use vstd::prelude::*;
use crate::fuzzy::FuzzyMatcher;
use crate::herdr;
use crate::jump_focus;
use crate::jump_focus::{FocusModel, FocusResult};
use crate::jump_list;
use crate::jump_list::{JumpModel, JumpPaneState, PaneRecency};
use crate::jump_pane;
use crate::jump_pane::{EntryModel, IdentityModel, PaneEntry, PaneIdentity, RuntimeTarget, TargetModel};
use crate::model;
use crate::order;
use crate::picker;
use crate::session::{Key, KeyPress};
use crate::text;

verus! {

broadcast use crate::text::lemma_views_push;

/// How Jump Pane mode stands.
#[derive(Debug, PartialEq, Eq)]
pub enum UiState {
    Loading,
    Ready,
    EmptyRuntime,
    ZeroMatches,
    Stale(String),
    BackendUnavailable(String),
    FocusFailure(String),
    Success,
    Cancelled,
}

/// The view of a [`UiState`].
#[verifier::ext_equal]
pub enum UiModel {
    Loading,
    Ready,
    EmptyRuntime,
    ZeroMatches,
    Stale(Seq<char>),
    BackendUnavailable(Seq<char>),
    FocusFailure(Seq<char>),
    Success,
    Cancelled,
}

impl View for UiState {
    type V = UiModel;

    open spec fn view(&self) -> UiModel {
        match self {
            UiState::Loading => UiModel::Loading,
            UiState::Ready => UiModel::Ready,
            UiState::EmptyRuntime => UiModel::EmptyRuntime,
            UiState::ZeroMatches => UiModel::ZeroMatches,
            UiState::Stale(message) => UiModel::Stale(message@),
            UiState::BackendUnavailable(message) => UiModel::BackendUnavailable(message@),
            UiState::FocusFailure(message) => UiModel::FocusFailure(message@),
            UiState::Success => UiModel::Success,
            UiState::Cancelled => UiModel::Cancelled,
        }
    }
}

impl UiModel {
    /// How that is said.
    pub open spec fn message(self) -> Seq<char> {
        match self {
            UiModel::Loading => "loading panes…"@,
            UiModel::Ready => "ready"@,
            UiModel::EmptyRuntime => "no panes available"@,
            UiModel::ZeroMatches => "no matches"@,
            UiModel::Stale(message) => message,
            UiModel::BackendUnavailable(message) => message,
            UiModel::FocusFailure(message) => message,
            UiModel::Success => "focused"@,
            UiModel::Cancelled => "cancelled"@,
        }
    }
}

impl UiState {
    /// Say how Jump Pane mode stands.
    pub fn message(&self) -> (message: String)
        ensures
            message@ == self@.message(),
    {
        match self {
            UiState::Loading => "loading panes…".to_string(),
            UiState::Ready => "ready".to_string(),
            UiState::EmptyRuntime => "no panes available".to_string(),
            UiState::ZeroMatches => "no matches".to_string(),
            UiState::Stale(message) => message.clone(),
            UiState::BackendUnavailable(message) => message.clone(),
            UiState::FocusFailure(message) => message.clone(),
            UiState::Success => "focused".to_string(),
            UiState::Cancelled => "cancelled".to_string(),
        }
    }
}

/// How many rows are drawn at most.
pub const MAX_RENDER_ROWS: usize = 64;

/// Why a row cannot be activated, in a few words.
pub open spec fn disabled_note(entry: EntryModel) -> Seq<char> {
    if !entry.runtime_available {
        " [unavailable]"@
    } else if !entry.focus_supported {
        " [focus unsupported]"@
    } else {
        Seq::empty()
    }
}

/// The two lines of a row.
pub open spec fn row_lines(entry: EntryModel, selected: bool, home: Option<Seq<char>>) -> Seq<
    Seq<char>,
> {
    seq![
        (if selected {
            "> "@
        } else {
            "  "@
        }) + entry.primary() + disabled_note(entry),
        "  "@ + entry.secondary(home),
    ]
}

/// The lines of the shown rows from `start` up to `n`.
pub open spec fn rows_text(
    state: JumpModel,
    filtered: Seq<int>,
    home: Option<Seq<char>>,
    start: int,
    n: int,
) -> Seq<Seq<char>>
    decreases n - start,
{
    if n <= start {
        Seq::empty()
    } else {
        rows_text(state, filtered, home, start, n - 1) + row_lines(
            state.entries[filtered[n - 1]],
            n - 1 == state.selected,
            home,
        )
    }
}

/// The lines of the errors.
pub open spec fn error_lines(errors: Seq<Seq<char>>) -> Seq<Seq<char>> {
    Seq::new(errors.len(), |i: int| "! "@ + jump_pane::tidy(errors[i]))
}

/// The first line.
pub open spec fn head_line(state: JumpModel, status: UiModel) -> Seq<char> {
    "\x1b[2J\x1b[HJump Pane · "@ + status.message() + " · query: "@ + jump_pane::tidy(state.query)
}

/// The end of the rows that are drawn.
pub open spec fn drawn_end(start: int, total: int) -> int {
    if total - start <= MAX_RENDER_ROWS {
        total
    } else {
        start + MAX_RENDER_ROWS
    }
}

/// All lines.
pub open spec fn screen_text(
    state: JumpModel,
    filtered: Seq<int>,
    status: UiModel,
    errors: Seq<Seq<char>>,
    home: Option<Seq<char>>,
) -> Seq<Seq<char>> {
    let total = filtered.len() as int;
    let start = jump_list::view_start(total, state.selected, MAX_RENDER_ROWS as int);
    seq![head_line(state, status)] + rows_text(
        state,
        filtered,
        home,
        start,
        drawn_end(start, total),
    ) + (if total > MAX_RENDER_ROWS {
        seq!["… "@ + text::decimal((total - MAX_RENDER_ROWS) as nat) + " more"@]
    } else {
        Seq::empty()
    }) + error_lines(errors)
}

/// Add the two lines of a row.
fn push_row(lines: &mut Vec<String>, entry: &PaneEntry, selected: bool, home: Option<&str>)
    ensures
        text::views(final(lines)@) == text::views(old(lines)@) + row_lines(
            entry@,
            selected,
            model::borrowed(home),
        ),
{
    let ghost before = text::views(lines@);
    let mut first = if selected {
        "> ".to_string()
    } else {
        "  ".to_string()
    };
    first.append(entry.primary_display().as_str());
    let ghost named = first@;
    if !entry.runtime_available {
        first.append(" [unavailable]");
    } else if !entry.focus_supported {
        first.append(" [focus unsupported]");
    } else {
        assert(named + Seq::<char>::empty() =~= named);
    }
    let second = text::joined("  ", entry.secondary_display(home).as_str());
    lines.push(first);
    lines.push(second);
    assert(text::views(lines@) =~= before + row_lines(entry@, selected, model::borrowed(home)));
}

/// Add the lines of the rows that are drawn.
fn push_rows(
    lines: &mut Vec<String>,
    state: &JumpPaneState,
    filtered: &Vec<usize>,
    home: Option<&str>,
)
    requires
        forall|i: int| 0 <= i < filtered@.len() ==> #[trigger] filtered@[i] < state.entries@.len(),
    ensures
        ({
            let total = filtered@.len() as int;
            let start = jump_list::view_start(
                total,
                state.selected as int,
                MAX_RENDER_ROWS as int,
            );
            text::views(final(lines)@) == text::views(old(lines)@) + rows_text(
                state@,
                order::positions(filtered@),
                model::borrowed(home),
                start,
                drawn_end(start, total),
            )
        }),
{
    let ghost before = text::views(lines@);
    let ghost shown = order::positions(filtered@);
    let start: usize = jump_list::viewport_start(filtered.len(), state.selected, MAX_RENDER_ROWS);
    let end: usize = if filtered.len() - start <= MAX_RENDER_ROWS {
        filtered.len()
    } else {
        start + MAX_RENDER_ROWS
    };
    let mut n: usize = start;
    assert(text::views(lines@) =~= before + rows_text(
        state@,
        shown,
        model::borrowed(home),
        start as int,
        n as int,
    ));
    while n < end
        invariant
            start <= n <= end <= filtered@.len(),
            shown == order::positions(filtered@),
            forall|i: int|
                0 <= i < filtered@.len() ==> #[trigger] filtered@[i] < state.entries@.len(),
            text::views(lines@) == before + rows_text(
                state@,
                shown,
                model::borrowed(home),
                start as int,
                n as int,
            ),
        decreases end - n,
    {
        let entry = &state.entries[filtered[n]];
        assert(state@.entries[shown[n as int]] == entry@);
        push_row(lines, entry, n == state.selected, home);
        proof {
            let done = rows_text(state@, shown, model::borrowed(home), start as int, n as int);
            let two = row_lines(entry@, n == state.selected, model::borrowed(home));
            assert(before + done + two =~= before + (done + two));
        }
        n += 1;
    }
}

/// Add the lines of errors.
fn push_errors(lines: &mut Vec<String>, errors: &Vec<String>)
    ensures
        text::views(final(lines)@) == text::views(old(lines)@) + error_lines(
            text::views(errors@),
        ),
{
    let ghost before = text::views(lines@);
    let ghost wanted = error_lines(text::views(errors@));
    let mut i: usize = 0;
    assert(before + wanted.take(0) =~= before);
    while i < errors.len()
        invariant
            i <= errors@.len(),
            wanted == error_lines(text::views(errors@)),
            text::views(lines@) == before + wanted.take(i as int),
        decreases errors@.len() - i,
    {
        let words = jump_pane::sanitize(errors[i].as_str());
        lines.push(text::joined("! ", words.as_str()));
        assert(before + wanted.take(i + 1) =~= (before + wanted.take(i as int)).push(
            wanted[i as int],
        ));
        i += 1;
    }
    assert(wanted.take(i as int) =~= wanted);
}

/// What is to be written to the terminal, line by line.
pub fn render(
    state: &JumpPaneState,
    filtered: &Vec<usize>,
    status: &UiState,
    errors: &Vec<String>,
    home: Option<&str>,
) -> (lines: Vec<String>)
    requires
        forall|i: int| 0 <= i < filtered@.len() ==> #[trigger] filtered@[i] < state.entries@.len(),
    ensures
        text::views(lines@) == screen_text(
            state@,
            order::positions(filtered@),
            status@,
            text::views(errors@),
            model::borrowed(home),
        ),
{
    let mut lines: Vec<String> = Vec::new();
    let mut head = text::joined("\x1b[2J\x1b[HJump Pane · ", status.message().as_str());
    head.append(" · query: ");
    head.append(jump_pane::sanitize(state.query.as_str()).as_str());
    lines.push(head);
    assert(text::views(lines@) =~= seq![head_line(state@, status@)]);
    push_rows(&mut lines, state, filtered, home);
    assert(order::positions(filtered@).len() == filtered@.len());
    let ghost before = text::views(lines@);
    if filtered.len() > MAX_RENDER_ROWS {
        let mut more = text::joined(
            "… ",
            text::number_text(filtered.len() - MAX_RENDER_ROWS).as_str(),
        );
        more.append(" more");
        let ghost words = more@;
        lines.push(more);
        assert(text::views(lines@) =~= before + seq![words]);
    } else {
        assert(before =~= before + Seq::empty());
    }
    push_errors(&mut lines, errors);
    lines
}

/// What a key asks for.
#[derive(Debug)]
pub enum JumpAction {
    /// Nothing.
    Stay,
    /// The end of the run.
    Leave(FocusResult),
    /// To focus the pane of a row, by the client of a runtime.
    Focus { target: usize, entry: PaneEntry },
}

/// The view of a [`JumpAction`].
#[verifier::ext_equal]
pub enum JumpActionModel {
    Stay,
    Leave(FocusModel),
    Focus { target: int, entry: EntryModel },
}

impl View for JumpAction {
    type V = JumpActionModel;

    open spec fn view(&self) -> JumpActionModel {
        match self {
            JumpAction::Stay => JumpActionModel::Stay,
            JumpAction::Leave(result) => JumpActionModel::Leave(result@),
            JumpAction::Focus { target, entry } => JumpActionModel::Focus {
                target: *target as int,
                entry: entry@,
            },
        }
    }
}

/// What is to be done after focusing.
#[derive(Debug, Clone, Copy, PartialEq, Eq)]
pub enum AfterFocus {
    /// Nothing: the run goes on.
    Stay,
    /// To list the panes of the runtime again.
    Refresh,
    /// To save the recency, and to end the run.
    Done,
}

/// One run of Jump Pane mode.
pub struct JumpPane {
    state: JumpPaneState,
    targets: Vec<RuntimeTarget>,
    recency: PaneRecency,
    errors: Vec<String>,
    ui: UiState,
    enriching: bool,
    filtered: Vec<usize>,
    stale_filter: bool,
    matcher: FuzzyMatcher,
}

/// The view of a [`JumpPane`].
#[verifier::ext_equal]
pub struct JumpRun {
    pub state: JumpModel,
    pub targets: Seq<TargetModel>,
    pub recency: Seq<IdentityModel>,
    pub errors: Seq<Seq<char>>,
    pub ui: UiModel,
    /// Whether applications are being asked for.
    pub enriching: bool,
    /// The rows that match, best first.
    pub filtered: Seq<int>,
    /// Whether they are to be found again.
    pub stale_filter: bool,
}

impl View for JumpPane {
    type V = JumpRun;

    closed spec fn view(&self) -> JumpRun {
        JumpRun {
            state: self.state@,
            targets: text::views(self.targets@),
            recency: self.recency@,
            errors: text::views(self.errors@),
            ui: self.ui@,
            enriching: self.enriching,
            filtered: order::positions(self.filtered@),
            stale_filter: self.stale_filter,
        }
    }
}

/// The view of what listing each runtime gave.
pub open spec fn all_listed(listed: Seq<herdr::Result<Vec<PaneEntry>>>) -> Seq<
    std::result::Result<Seq<EntryModel>, Seq<char>>,
> {
    Seq::new(listed.len(), |i: int| jump_list::listed(listed[i]))
}

/// The rows that the first `n` runtimes gave.
pub open spec fn found_rows(
    listed: Seq<std::result::Result<Seq<EntryModel>, Seq<char>>>,
    n: nat,
) -> Seq<EntryModel>
    decreases n,
{
    if n == 0 {
        Seq::empty()
    } else {
        found_rows(listed, (n - 1) as nat) + match listed[n - 1] {
            Ok(rows) => rows,
            Err(_) => Seq::empty(),
        }
    }
}

/// The errors that the first `n` runtimes gave.
pub open spec fn found_errors(
    targets: Seq<TargetModel>,
    listed: Seq<std::result::Result<Seq<EntryModel>, Seq<char>>>,
    n: nat,
) -> Seq<Seq<char>>
    decreases n,
{
    if n == 0 {
        Seq::empty()
    } else {
        let before = found_errors(targets, listed, (n - 1) as nat);
        match listed[n - 1] {
            Ok(_) => before,
            Err(message) => before.push(
                jump_pane::tidy(targets[n - 1].name) + ": "@ + jump_pane::tidy(message),
            ),
        }
    }
}

/// The first focused row, from `i` on.
pub open spec fn focused_row(entries: Seq<EntryModel>, i: int) -> Option<int>
    decreases entries.len() - i,
{
    if i < 0 || i >= entries.len() {
        None
    } else if entries[i].focused {
        Some(i)
    } else {
        focused_row(entries, i + 1)
    }
}

/// The first row with an identity, from `i` on.
pub open spec fn row_with(entries: Seq<EntryModel>, identity: IdentityModel, i: int) -> Option<int>
    decreases entries.len() - i,
{
    if i < 0 || i >= entries.len() {
        None
    } else if entries[i].identity == identity {
        Some(i)
    } else {
        row_with(entries, identity, i + 1)
    }
}

impl JumpRun {
    /// A run that has just begun, with what listing each runtime gave.
    pub open spec fn begun(
        state: JumpModel,
        targets: Seq<TargetModel>,
        listed: Seq<std::result::Result<Seq<EntryModel>, Seq<char>>>,
    ) -> JumpRun {
        let errors = found_errors(targets, listed, listed.len());
        let filled = state.replaced(found_rows(listed, listed.len()));
        JumpRun {
            state: JumpModel {
                current: match focused_row(filled.entries, 0) {
                    Some(i) => Some(
                        (filled.entries[i].workspace_id, filled.entries[i].tab_id),
                    ),
                    None => filled.current,
                },
                ..filled
            },
            targets,
            recency: state.recency,
            errors,
            ui: if errors.len() > 0 {
                UiModel::BackendUnavailable(text::joined_by(errors, "; "@))
            } else if filled.entries.len() == 0 {
                UiModel::EmptyRuntime
            } else {
                UiModel::Loading
            },
            enriching: false,
            filtered: Seq::empty(),
            stale_filter: true,
        }
    }

    /// The run with the matching rows up to date and the selection among them.
    pub open spec fn settled(self) -> JumpRun {
        let filtered = if self.stale_filter {
            self.state.filtered()
        } else {
            self.filtered
        };
        JumpRun {
            state: JumpModel {
                selected: picker::clamped(self.state.selected, filtered.len()),
                ..self.state
            },
            ui: if filtered.len() > 0 || self.errors.len() > 0 {
                self.ui
            } else if self.state.entries.len() == 0 {
                UiModel::EmptyRuntime
            } else {
                UiModel::ZeroMatches
            },
            filtered,
            stale_filter: false,
            ..self
        }
    }

    /// The rows whose application is to be asked for now.
    pub open spec fn wanted(self) -> Seq<int> {
        if self.enriching {
            Seq::empty()
        } else {
            jump_list::candidates(self.state.ranking(), self.state.entries, self.filtered)
        }
    }

    /// The run once applications are being asked for, where any is to be.
    pub open spec fn enriched(self) -> JumpRun {
        if self.wanted().len() == 0 {
            self
        } else {
            JumpRun { ui: UiModel::Ready, enriching: true, ..self }
        }
    }

    /// The run with the application of a pane known.
    pub open spec fn told(self, identity: IdentityModel, name: Option<Seq<char>>) -> JumpRun {
        match row_with(self.state.entries, identity, 0) {
            Some(i) => JumpRun {
                state: JumpModel {
                    entries: self.state.entries.update(
                        i,
                        EntryModel { application: name, ..self.state.entries[i] },
                    ),
                    ..self.state
                },
                stale_filter: true,
                ..self
            },
            None => self,
        }
    }

    /// With another query.
    pub open spec fn asked(self, query: Seq<char>) -> JumpRun {
        JumpRun {
            state: JumpModel { query, selected: 0, ..self.state },
            stale_filter: true,
            ..self
        }
    }

    /// With another row selected.
    pub open spec fn moved_to(self, selected: int) -> JumpRun {
        JumpRun { state: JumpModel { selected, ..self.state }, ..self }
    }

    /// A row that is to be activated.
    pub open spec fn entered(self) -> (JumpRun, JumpActionModel) {
        if 0 <= self.state.selected < self.filtered.len() {
            let entry = self.state.entries[self.filtered[self.state.selected]];
            match jump_focus::target_with(self.targets, entry.identity.runtime_id, 0) {
                None => (
                    JumpRun {
                        ui: UiModel::BackendUnavailable("runtime target unavailable"@),
                        ..self
                    },
                    JumpActionModel::Stay,
                ),
                Some(target) => if self.targets[target].id != entry.target.id {
                    (
                        JumpRun {
                            ui: UiModel::Stale("runtime identity changed; refresh required"@),
                            ..self
                        },
                        JumpActionModel::Stay,
                    )
                } else {
                    (self, JumpActionModel::Focus { target, entry })
                },
            }
        } else {
            (self, JumpActionModel::Stay)
        }
    }

    /// A key that went down. Terminals that send Ctrl-J for Enter mean Enter.
    pub open spec fn pressed(self, press: KeyPress) -> (JumpRun, JumpActionModel) {
        match press.key {
            Key::Esc => (
                JumpRun { ui: UiModel::Cancelled, ..self },
                JumpActionModel::Leave(FocusModel::Stale("cancelled"@)),
            ),
            Key::Up => (
                self.moved_to(
                    if self.state.selected > 0 {
                        self.state.selected - 1
                    } else {
                        0
                    },
                ),
                JumpActionModel::Stay,
            ),
            Key::Down => (
                self.moved_to(picker::clamped(self.state.selected + 1, self.filtered.len())),
                JumpActionModel::Stay,
            ),
            Key::Backspace => (
                self.asked(
                    if self.state.query.len() > 0 {
                        self.state.query.drop_last()
                    } else {
                        self.state.query
                    },
                ),
                JumpActionModel::Stay,
            ),
            Key::Enter => self.entered(),
            Key::Char(c) => if c == 'j' && press.control {
                self.entered()
            } else {
                (self.asked(self.state.query.push(c)), JumpActionModel::Stay)
            },
            _ => (self, JumpActionModel::Stay),
        }
    }

    /// The run after focusing a pane.
    pub open spec fn focused(self, identity: IdentityModel, result: FocusModel) -> (
        JumpRun,
        AfterFocus,
    ) {
        match result {
            FocusModel::Focused => (
                JumpRun {
                    recency: jump_list::touched(self.recency, identity),
                    ui: UiModel::Success,
                    ..self
                },
                AfterFocus::Done,
            ),
            FocusModel::Stale(message) => (
                JumpRun { ui: UiModel::Stale(message), enriching: false, ..self },
                AfterFocus::Refresh,
            ),
            FocusModel::Failed(message) => (
                JumpRun {
                    ui: if text::found_at(message, "backend unavailable"@, 0) is Some {
                        UiModel::BackendUnavailable(message)
                    } else {
                        UiModel::FocusFailure(message)
                    },
                    ..self
                },
                AfterFocus::Stay,
            ),
        }
    }

    /// The run after a runtime has been listed again.
    pub open spec fn refreshed(
        self,
        target: int,
        listed: std::result::Result<Seq<EntryModel>, Seq<char>>,
    ) -> JumpRun {
        let runtime = self.targets[target];
        let fresh = JumpRun { filtered: Seq::empty(), stale_filter: true, ..self };
        match listed {
            Ok(rows) => JumpRun { state: self.state.merged(runtime.id, rows), ..fresh },
            Err(message) => {
                let error = runtime.name + ": "@ + jump_pane::tidy(message);
                JumpRun {
                    state: JumpModel {
                        entries: jump_list::disabled(self.state.entries, runtime.id),
                        ..self.state
                    },
                    errors: self.errors.push(error),
                    ui: UiModel::BackendUnavailable(error),
                    ..fresh
                }
            },
        }
    }
}

/// Find the first focused row.
fn find_focused(entries: &Vec<PaneEntry>) -> (found: Option<usize>)
    ensures
        match found {
            Some(i) => i < entries@.len() && focused_row(text::views(entries@), 0) == Some(
                i as int,
            ),
            None => focused_row(text::views(entries@), 0) is None,
        },
{
    let ghost all = text::views(entries@);
    let mut i: usize = 0;
    while i < entries.len()
        invariant
            i <= entries@.len(),
            all == text::views(entries@),
            focused_row(all, 0) == focused_row(all, i as int),
        decreases entries@.len() - i,
    {
        assert(all[i as int] == entries@[i as int]@);
        if entries[i].focused {
            return Some(i);
        }
        i += 1;
    }
    None
}

/// Find the first row with an identity.
fn find_row(entries: &Vec<PaneEntry>, identity: &PaneIdentity) -> (found: Option<usize>)
    ensures
        match found {
            Some(i) => i < entries@.len() && row_with(text::views(entries@), identity@, 0)
                == Some(i as int),
            None => row_with(text::views(entries@), identity@, 0) is None,
        },
{
    let ghost all = text::views(entries@);
    let mut i: usize = 0;
    while i < entries.len()
        invariant
            i <= entries@.len(),
            all == text::views(entries@),
            row_with(all, identity@, 0) == row_with(all, identity@, i as int),
        decreases entries@.len() - i,
    {
        assert(all[i as int] == entries@[i as int]@);
        if entries[i].identity.same(identity) {
            return Some(i);
        }
        i += 1;
    }
    None
}

/// Copy identities.
fn copied_identities(list: &Vec<PaneIdentity>) -> (copy: Vec<PaneIdentity>)
    ensures
        text::views(copy@) == text::views(list@),
{
    let ghost all = text::views(list@);
    let mut copy: Vec<PaneIdentity> = Vec::new();
    let mut i: usize = 0;
    assert(text::views(copy@) =~= all.take(0));
    while i < list.len()
        invariant
            i <= list@.len(),
            all == text::views(list@),
            text::views(copy@) == all.take(i as int),
        decreases list@.len() - i,
    {
        copy.push(list[i].clone());
        assert(all.take(i + 1) =~= all.take(i as int).push(all[i as int]));
        i += 1;
    }
    assert(all.take(i as int) =~= all);
    copy
}

/// Collect the rows and the errors that runtimes gave.
fn collect(targets: &Vec<RuntimeTarget>, listed: &Vec<herdr::Result<Vec<PaneEntry>>>) -> (found: (
    Vec<PaneEntry>,
    Vec<String>,
))
    requires
        listed@.len() == targets@.len(),
    ensures
        text::views(found.0@) == found_rows(all_listed(listed@), listed@.len()),
        text::views(found.1@) == found_errors(
            text::views(targets@),
            all_listed(listed@),
            listed@.len(),
        ),
{
    let ghost known = text::views(targets@);
    let ghost all = all_listed(listed@);
    let mut rows: Vec<PaneEntry> = Vec::new();
    let mut errors: Vec<String> = Vec::new();
    let mut i: usize = 0;
    assert(text::views(rows@) =~= Seq::empty());
    assert(text::views(errors@) =~= Seq::empty());
    while i < listed.len()
        invariant
            i <= listed@.len() == targets@.len(),
            known == text::views(targets@),
            all == all_listed(listed@),
            text::views(rows@) == found_rows(all, i as nat),
            text::views(errors@) == found_errors(known, all, i as nat),
        decreases listed@.len() - i,
    {
        let ghost before = text::views(rows@);
        assert(all[i as int] == jump_list::listed(listed@[i as int]));
        match &listed[i] {
            Ok(more) => {
                let mut copies = jump_pane::copied_entries(more);
                let ghost left = rows@;
                let ghost added = copies@;
                rows.append(&mut copies);
                assert(text::views(rows@) =~= text::views(left) + text::views(added));
            },
            Err(error) => {
                let mut words = text::joined(
                    jump_pane::sanitize(targets[i].name.as_str()).as_str(),
                    ": ",
                );
                words.append(jump_pane::sanitize(error.message().as_str()).as_str());
                errors.push(words);
                assert(before =~= before + Seq::empty());
            },
        }
        i += 1;
    }
    (rows, errors)
}

impl JumpPane {
    /// Whether the rows that are shown are there.
    pub closed spec fn wf(&self) -> bool {
        forall|i: int|
            0 <= i < self.filtered@.len() ==> #[trigger] self.filtered@[i]
                < self.state.entries@.len()
    }

    /// Begin a run with what listing each runtime gave.
    pub fn new(
        state: JumpPaneState,
        targets: Vec<RuntimeTarget>,
        listed: Vec<herdr::Result<Vec<PaneEntry>>>,
    ) -> (run: JumpPane)
        requires
            listed@.len() == targets@.len(),
        ensures
            run.wf(),
            run@ == JumpRun::begun(state@, text::views(targets@), all_listed(listed@)),
    {
        let mut state = state;
        let (rows, errors) = collect(&targets, &listed);
        let recency = PaneRecency(copied_identities(&state.recency));
        state.replace(rows);
        if let Some(i) = find_focused(&state.entries) {
            let row = &state.entries[i];
            let context = (row.workspace_id.clone(), text::copied(&row.tab_id));
            state.current_context = Some(context);
        }
        assert(text::views(errors@).len() == errors@.len());
        assert(state@.entries.len() == state.entries@.len());
        let ui = if errors.len() > 0 {
            UiState::BackendUnavailable(text::join_all(&errors, "; "))
        } else if state.entries.len() == 0 {
            UiState::EmptyRuntime
        } else {
            UiState::Loading
        };
        let run = JumpPane {
            state,
            targets,
            recency,
            errors,
            ui,
            enriching: false,
            filtered: Vec::new(),
            stale_filter: true,
            matcher: FuzzyMatcher::new(),
        };
        assert(run@.filtered =~= Seq::empty());
        run
    }

    /// Bring the matching rows up to date, where they are not, before they are
    /// drawn.
    pub fn settle(&mut self)
        requires
            old(self).wf(),
        ensures
            final(self).wf(),
            final(self)@ == old(self)@.settled(),
    {
        if self.stale_filter {
            self.filtered = self.state.filtered_by(&mut self.matcher);
            self.stale_filter = false;
        }
        assert(order::positions(self.filtered@).len() == self.filtered@.len());
        assert(text::views(self.errors@).len() == self.errors@.len());
        assert(self.state@.entries.len() == self.state.entries@.len());
        if self.state.selected >= self.filtered.len() {
            self.state.selected = if self.filtered.len() > 0 {
                self.filtered.len() - 1
            } else {
                0
            };
        }
        if self.filtered.len() == 0 && self.errors.len() == 0 {
            self.ui = if self.state.entries.len() == 0 {
                UiState::EmptyRuntime
            } else {
                UiState::ZeroMatches
            };
        }
    }

    /// What is to be written to the terminal, line by line.
    pub fn lines(&self, home: Option<&str>) -> (lines: Vec<String>)
        requires
            self.wf(),
        ensures
            text::views(lines@) == screen_text(
                self@.state,
                self@.filtered,
                self@.ui,
                self@.errors,
                model::borrowed(home),
            ),
    {
        render(&self.state, &self.filtered, &self.ui, &self.errors, home)
    }

    /// Choose the rows whose application is to be asked for now. None is once
    /// that is under way.
    pub fn enrich(&mut self) -> (chosen: Vec<usize>)
        requires
            old(self).wf(),
        ensures
            final(self).wf(),
            order::positions(chosen@) == old(self)@.wanted(),
            final(self)@ == old(self)@.enriched(),
    {
        if self.enriching {
            let none: Vec<usize> = Vec::new();
            assert(order::positions(none@) =~= Seq::empty());
            return none;
        }
        let current = match &self.state.current_context {
            Some((workspace, tab)) => Some((workspace.as_str(), model::lent(tab))),
            None => None,
        };
        let chosen = jump_list::enrichment_candidates(
            self.state.entries.as_slice(),
            self.filtered.as_slice(),
            self.state.recency.as_slice(),
            current,
            &mut self.matcher,
        );
        assert(order::positions(chosen@) == jump_list::candidates(
            old(self)@.state.ranking(),
            old(self)@.state.entries,
            old(self)@.filtered,
        ));
        assert(order::positions(chosen@).len() == chosen@.len());
        if chosen.len() > 0 {
            self.ui = UiState::Ready;
            self.enriching = true;
        }
        chosen
    }

    /// The jobs of asking for the applications of chosen rows, in batches that
    /// run together.
    pub fn jobs(&self, chosen: &Vec<usize>) -> (batches: Vec<Vec<jump_focus::EnrichmentJob>>)
        ensures
            jump_focus::batches_view(batches@) == jump_focus::batches_from(
                jump_focus::jobs_for(
                    self@.state.entries,
                    order::positions(chosen@),
                    self@.targets,
                    chosen@.len(),
                ),
                0,
            ),
    {
        jump_focus::enrichment_batches(
            jump_focus::enrichment_jobs(&self.state.entries, chosen, &self.targets),
        )
    }

    /// Take in the application of a pane.
    pub fn tell(&mut self, identity: &PaneIdentity, name: Option<String>)
        requires
            old(self).wf(),
        ensures
            final(self).wf(),
            final(self)@ == old(self)@.told(identity@, text::view_of(name)),
    {
        if let Some(i) = find_row(&self.state.entries, identity) {
            let ghost before = text::views(self.state.entries@);
            let mut row = self.state.entries[i].clone();
            row.application = name;
            let ghost changed = row@;
            self.state.entries.set(i, row);
            assert(text::views(self.state.entries@) =~= before.update(i as int, changed));
            self.stale_filter = true;
        }
    }

    /// Activate the selected row.
    fn enter(&mut self) -> (action: JumpAction)
        requires
            old(self).wf(),
        ensures
            final(self).wf(),
            (final(self)@, action@) == old(self)@.entered(),
    {
        assert(order::positions(self.filtered@).len() == self.filtered@.len());
        if self.state.selected >= self.filtered.len() {
            return JumpAction::Stay;
        }
        assert(order::positions(self.filtered@)[self.state.selected as int]
            == self.filtered@[self.state.selected as int] as int);
        let entry = self.state.entries[self.filtered[self.state.selected]].clone();
        match jump_focus::find_target(&self.targets, entry.identity.runtime_id.as_str()) {
            None => {
                self.ui = UiState::BackendUnavailable("runtime target unavailable".to_string());
                JumpAction::Stay
            },
            Some(target) => {
                if !text::same(self.targets[target].id.as_str(), entry.target.id.as_str()) {
                    self.ui = UiState::Stale(
                        "runtime identity changed; refresh required".to_string(),
                    );
                    JumpAction::Stay
                } else {
                    JumpAction::Focus { target, entry }
                }
            },
        }
    }

    /// Take a key in. Returns what it asks for.
    pub fn press(&mut self, press: KeyPress) -> (action: JumpAction)
        requires
            old(self).wf(),
        ensures
            final(self).wf(),
            (final(self)@, action@) == old(self)@.pressed(press),
    {
        assert(order::positions(self.filtered@).len() == self.filtered@.len());
        match press.key {
            Key::Esc => {
                self.ui = UiState::Cancelled;
                JumpAction::Leave(FocusResult::Stale("cancelled".to_string()))
            },
            Key::Up => {
                self.state.selected = self.state.selected.saturating_sub(1);
                JumpAction::Stay
            },
            Key::Down => {
                self.state.selected = if self.filtered.len() == 0 {
                    0
                } else if self.state.selected < self.filtered.len() - 1 {
                    self.state.selected + 1
                } else {
                    self.filtered.len() - 1
                };
                JumpAction::Stay
            },
            Key::Backspace => {
                self.state.query.pop();
                self.state.selected = 0;
                self.stale_filter = true;
                JumpAction::Stay
            },
            Key::Enter => self.enter(),
            Key::Char(c) => {
                if c == 'j' && press.control {
                    return self.enter();
                }
                self.state.query.push(c);
                self.state.selected = 0;
                self.stale_filter = true;
                JumpAction::Stay
            },
            _ => JumpAction::Stay,
        }
    }

    /// Take in how focusing a pane went. Returns what is to be done next.
    pub fn after_focus(&mut self, identity: &PaneIdentity, result: FocusResult) -> (next:
        AfterFocus)
        requires
            old(self).wf(),
        ensures
            final(self).wf(),
            (final(self)@, next) == old(self)@.focused(identity@, result@),
    {
        match result {
            FocusResult::Focused => {
                self.recency.touch(identity.clone());
                self.ui = UiState::Success;
                AfterFocus::Done
            },
            FocusResult::Stale(message) => {
                self.ui = UiState::Stale(message);
                self.enriching = false;
                AfterFocus::Refresh
            },
            FocusResult::Failed(message) => {
                let words = text::chars_of(message.as_str());
                let sign = text::chars_of("backend unavailable");
                self.ui = if text::find_from(&words, &sign, 0).is_some() {
                    UiState::BackendUnavailable(message)
                } else {
                    UiState::FocusFailure(message)
                };
                AfterFocus::Stay
            },
        }
    }

    /// Take in what listing a runtime again gave.
    pub fn refresh(&mut self, target: usize, listed: herdr::Result<Vec<PaneEntry>>)
        requires
            old(self).wf(),
            target < old(self)@.targets.len(),
        ensures
            final(self).wf(),
            final(self)@ == old(self)@.refreshed(target as int, jump_list::listed(listed)),
    {
        let error = jump_list::merge_runtime(
            &mut self.state,
            self.targets[target].id.as_str(),
            listed,
        );
        if let Some(error) = error {
            let mut words = text::joined(self.targets[target].name.as_str(), ": ");
            words.append(error.as_str());
            self.errors.push(words.clone());
            self.ui = UiState::BackendUnavailable(words);
        }
        self.filtered = Vec::new();
        self.stale_filter = true;
        assert(self@.filtered =~= Seq::empty());
    }

    /// What is to be written to the recency file.
    pub fn remembered(&self) -> (file: (u8, Vec<PaneIdentity>))
        ensures
            file.0 == jump_list::RECENCY_VERSION,
            text::views(file.1@) == crate::lists::at_most_first(
                self@.recency,
                jump_pane::MAX_PANE_RECENCY as nat,
            ),
    {
        jump_list::recency_for_file(&self.recency)
    }
}

} // verus!
