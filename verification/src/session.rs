//! One run of the picker: refresh messages, keys and the mouse go in, frames and
//! finally a decision come out.

use vstd::prelude::*;
use crate::config;
use crate::fuzzy::FuzzyMatcher;
use crate::model::{Kind, Row, RowId, RowIdModel, RowModel};
use crate::order;
use crate::picker;
use crate::picker::{Outcome, OutcomeModel, PickerModel, PickerState};
use crate::refresh;
use crate::refresh::{Message, MessageModel, ProjectSourceStatus, Snapshot, SnapshotModel};
use crate::render;
use crate::render::ListSource;
use crate::screen;
use crate::screen::{Area, MouseKind};
use crate::style;
use crate::style::{Color, Line, ListItem, Span, Style};
use crate::text;
use crate::width;

verus! {

broadcast use crate::text::lemma_views_push;

/// What a run of the picker ends with.
#[derive(Debug)]
pub struct Session {
    pub outcome: Outcome,
    /// The ids of the live workspaces, where they are known.
    pub live_workspace_ids: Option<Vec<String>>,
    pub state: PickerState,
    /// The workspace that the picker was opened from, where it is known.
    pub origin_workspace: Option<String>,
}

/// The view of a [`Session`].
#[verifier::ext_equal]
pub struct PickedModel {
    pub outcome: OutcomeModel,
    pub live_workspace_ids: Option<Seq<Seq<char>>>,
    pub state: PickerModel,
    pub origin_workspace: Option<Seq<char>>,
}

impl View for Session {
    type V = PickedModel;

    open spec fn view(&self) -> PickedModel {
        PickedModel {
            outcome: self.outcome@,
            live_workspace_ids: config::list_view(self.live_workspace_ids),
            state: self.state@,
            origin_workspace: text::view_of(self.origin_workspace),
        }
    }
}

/// What the refresh channel holds.
#[derive(Debug)]
pub enum Feed {
    /// The next message.
    Message(Message),
    /// Nothing yet.
    Empty,
    /// Nothing any more.
    Disconnected,
}

/// The view of a [`Feed`].
#[verifier::ext_equal]
pub enum FeedModel {
    Message(MessageModel),
    Empty,
    Disconnected,
}

impl View for Feed {
    type V = FeedModel;

    open spec fn view(&self) -> FeedModel {
        match self {
            Feed::Message(message) => FeedModel::Message(message@),
            Feed::Empty => FeedModel::Empty,
            Feed::Disconnected => FeedModel::Disconnected,
        }
    }
}

/// A key.
#[derive(Debug, Clone, Copy, PartialEq, Eq)]
pub enum Key {
    Esc,
    Enter,
    Up,
    Down,
    Tab,
    Backspace,
    Char(char),
    /// Any other key.
    Other,
}

/// A key that went down, with its modifiers.
#[derive(Debug, Clone, Copy, PartialEq, Eq)]
pub struct KeyPress {
    pub key: Key,
    pub control: bool,
    pub alt: bool,
}

/// One run of the picker.
pub struct Picker {
    state: PickerState,
    matcher: FuzzyMatcher,
    loading: bool,
    project_search_started: bool,
    project_source_status: ProjectSourceStatus,
    refresh_error: Option<String>,
    live_workspace_ids: Option<Vec<String>>,
    origin_workspace: Option<String>,
    channel_open: bool,
    anchor: Option<RowId>,
    filtered: Vec<usize>,
}

/// The view of a [`Picker`].
#[verifier::ext_equal]
pub struct RunModel {
    pub state: PickerModel,
    /// Whether a refresh is under way.
    pub loading: bool,
    /// Whether it has come to projects.
    pub project_search_started: bool,
    pub project_source_status: ProjectSourceStatus,
    pub refresh_error: Option<Seq<char>>,
    pub live_workspace_ids: Option<Seq<Seq<char>>>,
    pub origin_workspace: Option<Seq<char>>,
    /// Whether the refresh may have more to say.
    pub channel_open: bool,
    /// The row from which sections were last cycled.
    pub anchor: Option<RowIdModel>,
    /// The rows that match, as they are shown.
    pub filtered: Seq<int>,
}

impl View for Picker {
    type V = RunModel;

    closed spec fn view(&self) -> RunModel {
        RunModel {
            state: self.state@,
            loading: self.loading,
            project_search_started: self.project_search_started,
            project_source_status: self.project_source_status,
            refresh_error: text::view_of(self.refresh_error),
            live_workspace_ids: config::list_view(self.live_workspace_ids),
            origin_workspace: text::view_of(self.origin_workspace),
            channel_open: self.channel_open,
            anchor: text::view_of(self.anchor),
            filtered: order::positions(self.filtered@),
        }
    }
}

impl RunModel {
    /// A run that has just begun.
    pub open spec fn begun(state: PickerModel) -> RunModel {
        RunModel {
            state,
            loading: true,
            project_search_started: false,
            project_source_status: ProjectSourceStatus::Searching,
            refresh_error: None,
            live_workspace_ids: None,
            origin_workspace: None,
            channel_open: true,
            anchor: None,
            filtered: Seq::empty(),
        }
    }

    /// A run that knows what a snapshot says of the refresh.
    pub open spec fn informed(self, snapshot: SnapshotModel) -> RunModel {
        RunModel {
            project_source_status: snapshot.project_source_status,
            live_workspace_ids: snapshot.live_workspace_ids,
            origin_workspace: snapshot.origin_workspace,
            refresh_error: None,
            filtered: Seq::empty(),
            ..self
        }
    }

    /// A run whose refresh has ended without success.
    pub open spec fn failed(self, error: Seq<char>) -> RunModel {
        RunModel {
            loading: false,
            project_search_started: false,
            refresh_error: Some(error),
            ..self
        }
    }

    /// The run after what the channel held.
    pub open spec fn received(self, feed: FeedModel) -> RunModel {
        match feed {
            FeedModel::Message(MessageModel::Partial(snapshot)) => RunModel {
                state: self.state.with_live_rows(snapshot.rows),
                loading: true,
                project_search_started: true,
                ..self.informed(snapshot)
            },
            FeedModel::Message(MessageModel::Ready(snapshot)) => RunModel {
                state: self.state.with_rows(snapshot.rows),
                loading: false,
                ..self.informed(snapshot)
            },
            FeedModel::Message(MessageModel::Failed(error)) => self.failed(
                "Refresh failed: "@ + error,
            ),
            FeedModel::Empty => self,
            FeedModel::Disconnected => RunModel {
                channel_open: false,
                ..if self.loading {
                    self.failed("Refresh stopped before completion"@)
                } else {
                    self
                }
            },
        }
    }

    /// The run with the matching rows up to date. An anchor whose row is gone is
    /// dropped, and the selection stays within what is shown.
    pub open spec fn settled(self) -> RunModel {
        let filtered = self.state.filtered();
        RunModel {
            state: PickerModel {
                selected: picker::clamped(self.state.selected, filtered.len()),
                ..self.state
            },
            anchor: if self.anchor is Some && !picker::has_id(self.state.rows, self.anchor->0) {
                None
            } else {
                self.anchor
            },
            filtered,
            ..self
        }
    }

    /// The row that is selected.
    pub open spec fn selected_row(self) -> Option<RowModel> {
        self.state.selected_row(self.filtered)
    }

    /// With another row selected, from which sections have not been cycled.
    pub open spec fn moved_to(self, selected: int) -> RunModel {
        RunModel { state: PickerModel { selected, ..self.state }, anchor: None, ..self }
    }

    /// With another query.
    pub open spec fn asked(self, query: Seq<char>) -> RunModel {
        RunModel {
            state: PickerModel { query, selected: 0, ..self.state },
            anchor: None,
            ..self
        }
    }

    /// A quick jump to a live workspace.
    pub open spec fn jumped(self, n: nat) -> (RunModel, Option<OutcomeModel>) {
        let (state, row) = self.state.at_open(self.filtered, n);
        (
            RunModel { state, ..self },
            match row {
                Some(row) => Some(OutcomeModel::Jump(row)),
                None => None,
            },
        )
    }

    /// A character that was typed.
    pub open spec fn typed(self, c: char) -> (RunModel, Option<OutcomeModel>) {
        match picker::option_index(c) {
            Some(n) => if self.jumped(n as nat).1 is Some {
                self.jumped(n as nat)
            } else {
                (self.asked(self.state.query.push(c)), None)
            },
            None => (self.asked(self.state.query.push(c)), None),
        }
    }

    /// A character key, with its modifiers.
    pub open spec fn pressed_char(self, c: char, control: bool, alt: bool) -> (
        RunModel,
        Option<OutcomeModel>,
    ) {
        if c == 'c' && control {
            (self, Some(OutcomeModel::Cancel))
        } else if alt {
            match picker::digit_index(c) {
                Some(n) => self.jumped(n as nat),
                None => (self, None),
            }
        } else if !control {
            self.typed(c)
        } else {
            (
                self,
                match self.selected_row() {
                    Some(row) => if c == 'n' && (row.kind is Open || row.kind is Dormant) {
                        Some(OutcomeModel::ForceNew(row))
                    } else if c == 'x' && row.kind is Open {
                        Some(OutcomeModel::Close(row))
                    } else {
                        None
                    },
                    None => None,
                },
            )
        }
    }

    /// With the next section that shows any row selected, and the row from which
    /// this began as the anchor.
    pub open spec fn cycled(self) -> RunModel {
        RunModel {
            state: self.state.in_next_section(self.filtered),
            anchor: match (self.anchor, self.selected_row()) {
                (None, Some(row)) => Some(row.id()),
                _ => self.anchor,
            },
            ..self
        }
    }

    /// A key that went down: the run after it, and the decision that it made.
    pub open spec fn pressed(self, press: KeyPress) -> (RunModel, Option<OutcomeModel>) {
        match press.key {
            Key::Esc => (self, Some(OutcomeModel::Cancel)),
            Key::Enter => (
                self,
                match self.selected_row() {
                    Some(row) => Some(OutcomeModel::Jump(row)),
                    None => None,
                },
            ),
            Key::Up => (
                if self.state.selected > 0 {
                    self.moved_to(self.state.selected - 1)
                } else {
                    self
                },
                None,
            ),
            Key::Down => (
                if self.state.selected + 1 < self.filtered.len() {
                    self.moved_to(self.state.selected + 1)
                } else {
                    self
                },
                None,
            ),
            Key::Tab => (self.cycled(), None),
            Key::Backspace => (
                self.asked(
                    if self.state.query.len() > 0 {
                        self.state.query.drop_last()
                    } else {
                        self.state.query
                    },
                ),
                None,
            ),
            Key::Char(c) => self.pressed_char(c, press.control, press.alt),
            Key::Other => (self, None),
        }
    }

    /// What the mouse did at a cell, over a list that was drawn into an area.
    pub open spec fn moused(
        self,
        kind: MouseKind,
        column: u16,
        row: u16,
        area: Area,
        offset: int,
        positions: Seq<Option<usize>>,
    ) -> RunModel {
        let target = match kind {
            MouseKind::LeftDown => match screen::pointed_row(column, row, area, offset, positions) {
                Some(index) => Some(index as int),
                None => None,
            },
            _ => if area.contains(column, row) {
                screen::scrolled(self.state.selected, self.filtered.len(), kind)
            } else {
                None
            },
        };
        match target {
            Some(selected) => self.moved_to(selected),
            None => self,
        }
    }

    /// How many rows are live workspaces.
    pub open spec fn open_count(self) -> nat {
        self.state.rows.filter(|row: RowModel| row.kind is Open).len()
    }

    /// How many rows are projects.
    pub open spec fn project_count(self) -> nat {
        self.state.rows.filter(|row: RowModel| row.kind is Dormant).len()
    }

    /// The list as it is drawn.
    pub open spec fn listing(self, width: usize) -> render::Listing {
        (ListSource {
            rows: self.state.rows,
            filtered: self.filtered,
            selected: self.state.selected,
            width,
            anchor: self.anchor,
        }).listing(self.filtered.len())
    }

    /// The message of an empty list.
    pub open spec fn empty_message(self) -> (Seq<char>, Color) {
        screen::empty_message(
            self.loading,
            self.project_search_started,
            self.project_source_status,
            self.refresh_error,
            self.state.query,
        )
    }
}

/// Everything that is drawn.
#[derive(Debug)]
pub struct Frame {
    /// The title at the left.
    pub slogan: Line,
    /// The title at the right.
    pub title: Line,
    /// The prompt.
    pub prompt: Line,
    /// The lines of the list.
    pub items: Vec<ListItem>,
    /// The line that is selected.
    pub selected: Option<usize>,
    /// For each line the shown row that it stands for.
    pub row_positions: Vec<Option<usize>>,
    /// The key hints.
    pub footer: Line,
}

impl RunModel {
    /// Whether a frame is what this run looks like, on so many columns.
    pub open spec fn looks(self, frame: Frame, width: usize) -> bool {
        let room = width::columns_left(width, screen::HL_W) as usize;
        let listing = self.listing(room);
        &&& frame.slogan@ == seq![
            style::span(" one terminal for the whole herd "@, style::colored(Color::Muted)),
        ]
        &&& frame.title@ == screen::title_spans(
            self.open_count(),
            self.project_count(),
            screen::refresh_status(
                self.loading,
                self.project_search_started,
                self.refresh_error is Some,
                self.project_source_status,
            ),
        )
        &&& frame.prompt@ == screen::prompt_of(self.state.query, self.filtered.len(), width)
        &&& frame.footer@ == style::cut_spans(
            screen::footer_spans(
                match self.selected_row() {
                    Some(row) => Some(row.kind),
                    None => None,
                },
            ),
            width,
        )
        &&& if self.filtered.len() == 0 {
            &&& text::views(frame.items@) == seq![screen::empty_of(self.empty_message(), room)]
            &&& frame.selected is None
            &&& frame.row_positions@ == seq![None::<usize>]
        } else {
            &&& text::views(frame.items@) == listing.items
            &&& frame.selected == Some(listing.selected_position as usize)
            &&& render::row_positions(frame.row_positions@) == listing.positions
        }
    }
}

/// Count the rows of a section.
fn count_section(rows: &Vec<Row>, section: u8, Ghost(keep): Ghost<spec_fn(RowModel) -> bool>) -> (count:
    usize)
    requires
        forall|row: RowModel| #[trigger] keep(row) == (row.kind.section() == section),
    ensures
        count == text::views(rows@).filter(keep).len(),
{
    let ghost all = text::views(rows@);
    let mut count: usize = 0;
    let mut i: usize = 0;
    reveal(Seq::filter);
    assert(all.take(0).filter(keep).len() == 0);
    while i < rows.len()
        invariant
            count <= i <= rows@.len(),
            all == text::views(rows@),
            forall|row: RowModel| #[trigger] keep(row) == (row.kind.section() == section),
            count == all.take(i as int).filter(keep).len(),
        decreases rows@.len() - i,
    {
        reveal(Seq::filter);
        assert(all.take(i + 1).drop_last() =~= all.take(i as int));
        assert(all.take(i + 1).last() == rows@[i as int]@);
        assert(keep(rows@[i as int]@) == (rows@[i as int]@.kind.section() == section));
        if crate::search::section(&rows[i].kind) == section {
            count += 1;
        }
        i += 1;
    }
    assert(all.take(i as int) =~= all);
    count
}

impl Picker {
    /// Whether the rows that are shown are there.
    pub closed spec fn wf(&self) -> bool {
        forall|i: int|
            0 <= i < self.filtered@.len() ==> #[trigger] self.filtered@[i] < self.state.rows@.len()
    }

    /// Begin a run.
    pub fn new(state: PickerState) -> (run: Picker)
        ensures
            run.wf(),
            run@ == RunModel::begun(state@),
    {
        let run = Picker {
            state,
            matcher: FuzzyMatcher::new(),
            loading: true,
            project_search_started: false,
            project_source_status: ProjectSourceStatus::Searching,
            refresh_error: None,
            live_workspace_ids: None,
            origin_workspace: None,
            channel_open: true,
            anchor: None,
            filtered: Vec::new(),
        };
        assert(run@.filtered =~= Seq::empty());
        run
    }

    /// Whether the refresh may have more to say.
    pub fn listens(&self) -> (open: bool)
        ensures
            open == self@.channel_open,
    {
        self.channel_open
    }

    /// Take in what a snapshot says of the refresh.
    fn inform(&mut self, snapshot: &Snapshot)
        ensures
            final(self)@ == old(self)@.informed(snapshot@),
            final(self).filtered@.len() == 0,
            final(self).state == old(self).state,
    {
        self.project_source_status = snapshot.project_source_status;
        self.live_workspace_ids = refresh::copied_ids(&snapshot.live_workspace_ids);
        self.origin_workspace = text::copied(&snapshot.origin_workspace);
        self.refresh_error = None;
        self.filtered = Vec::new();
        assert(self@.filtered =~= Seq::empty());
    }

    /// Take in what the refresh channel holds. Returns whether to ask it again.
    pub fn receive(&mut self, feed: Feed) -> (again: bool)
        requires
            old(self).wf(),
        ensures
            final(self).wf(),
            final(self)@ == old(self)@.received(feed@),
            again == (feed@ is Message),
    {
        match feed {
            Feed::Message(Message::Partial(snapshot)) => {
                self.inform(&snapshot);
                self.state.apply_partial(snapshot, &mut self.matcher);
                self.loading = true;
                self.project_search_started = true;
                true
            },
            Feed::Message(Message::Ready(snapshot)) => {
                self.inform(&snapshot);
                self.state.apply_snapshot(snapshot, &mut self.matcher);
                self.loading = false;
                true
            },
            Feed::Message(Message::Failed(error)) => {
                self.loading = false;
                self.project_search_started = false;
                self.refresh_error = Some(text::joined("Refresh failed: ", error.as_str()));
                true
            },
            Feed::Empty => false,
            Feed::Disconnected => {
                self.channel_open = false;
                if self.loading {
                    self.loading = false;
                    self.project_search_started = false;
                    self.refresh_error = Some("Refresh stopped before completion".to_string());
                }
                false
            },
        }
    }

    /// Bring the matching rows up to date, before a frame is drawn.
    pub fn settle(&mut self)
        requires
            old(self).wf(),
        ensures
            final(self).wf(),
            final(self)@ == old(self)@.settled(),
    {
        self.filtered = self.state.filtered(&mut self.matcher);
        let stale = match &self.anchor {
            Some(anchor) => !picker::holds_id(&self.state.rows, anchor),
            None => false,
        };
        if stale {
            self.anchor = None;
        }
        assert(order::positions(self.filtered@).len() == self.filtered@.len());
        if self.state.selected >= self.filtered.len() {
            self.state.selected = if self.filtered.len() > 0 {
                self.filtered.len() - 1
            } else {
                0
            };
        }
    }

    /// Jump to the live workspace after `n` others.
    fn jump(&mut self, n: usize) -> (outcome: Option<Outcome>)
        requires
            old(self).wf(),
        ensures
            final(self).wf(),
            (final(self)@, text::view_of(outcome)) == old(self)@.jumped(n as nat),
            outcome is None ==> final(self)@ == old(self)@,
    {
        match picker::nth_open_jump(&mut self.state, &self.filtered, n) {
            Some(row) => Some(Outcome::Jump(row)),
            None => None,
        }
    }

    /// Select a row.
    fn move_to(&mut self, selected: usize)
        requires
            old(self).wf(),
        ensures
            final(self).wf(),
            final(self)@ == old(self)@.moved_to(selected as int),
    {
        self.anchor = None;
        self.state.selected = selected;
    }

    /// Take a typed character in.
    fn type_char(&mut self, c: char) -> (outcome: Option<Outcome>)
        requires
            old(self).wf(),
        ensures
            final(self).wf(),
            (final(self)@, text::view_of(outcome)) == old(self)@.typed(c),
    {
        if let Some(n) = picker::mac_option_digit(c) {
            let outcome = self.jump(n);
            if outcome.is_some() {
                return outcome;
            }
        }
        self.anchor = None;
        self.state.query.push(c);
        self.state.selected = 0;
        None
    }

    /// Take a character key in.
    fn press_char(&mut self, c: char, control: bool, alt: bool) -> (outcome: Option<Outcome>)
        requires
            old(self).wf(),
        ensures
            final(self).wf(),
            (final(self)@, text::view_of(outcome)) == old(self)@.pressed_char(c, control, alt),
    {
        if c == 'c' && control {
            return Some(Outcome::Cancel);
        }
        if alt {
            return match picker::alt_digit_index(c) {
                Some(n) => self.jump(n),
                None => None,
            };
        }
        if !control {
            return self.type_char(c);
        }
        match self.state.selected_row(&self.filtered) {
            Some(row) => {
                let open = matches!(&row.kind, Kind::Open { .. });
                let dormant = matches!(&row.kind, Kind::Dormant);
                if c == 'n' && (open || dormant) {
                    Some(Outcome::ForceNew(row))
                } else if c == 'x' && open {
                    Some(Outcome::Close(row))
                } else {
                    None
                }
            },
            None => None,
        }
    }

    /// Take a key in. Returns the decision that it made.
    pub fn press(&mut self, press: KeyPress) -> (outcome: Option<Outcome>)
        requires
            old(self).wf(),
        ensures
            final(self).wf(),
            (final(self)@, text::view_of(outcome)) == old(self)@.pressed(press),
    {
        assert(order::positions(self.filtered@).len() == self.filtered@.len());
        match press.key {
            Key::Esc => Some(Outcome::Cancel),
            Key::Enter => match self.state.selected_row(&self.filtered) {
                Some(row) => Some(Outcome::Jump(row)),
                None => None,
            },
            Key::Up => {
                if self.state.selected > 0 {
                    self.move_to(self.state.selected - 1);
                }
                None
            },
            Key::Down => {
                if self.filtered.len() > 0 && self.state.selected < self.filtered.len() - 1 {
                    self.move_to(self.state.selected + 1);
                }
                None
            },
            Key::Tab => {
                if self.anchor.is_none() {
                    if let Some(row) = self.state.selected_row(&self.filtered) {
                        self.anchor = Some(row.id());
                    }
                }
                self.state.next_section(&self.filtered);
                None
            },
            Key::Backspace => {
                self.anchor = None;
                self.state.query.pop();
                self.state.selected = 0;
                None
            },
            Key::Char(c) => self.press_char(c, press.control, press.alt),
            Key::Other => None,
        }
    }

    /// Take in what the mouse did at a cell, over a list that was drawn into an
    /// area, scrolled by `offset` lines.
    pub fn mouse(
        &mut self,
        kind: MouseKind,
        column: u16,
        row: u16,
        area: Area,
        offset: usize,
        positions: &[Option<usize>],
    )
        requires
            old(self).wf(),
        ensures
            final(self).wf(),
            final(self)@ == old(self)@.moused(
                kind,
                column,
                row,
                area,
                offset as int,
                positions@,
            ),
    {
        assert(order::positions(self.filtered@).len() == self.filtered@.len());
        let target: Option<usize> = match kind {
            MouseKind::LeftDown => screen::mouse_row_index(column, row, area, offset, positions),
            _ => if screen::mouse_in_area(column, row, area) {
                screen::mouse_scroll_target(self.state.selected, self.filtered.len(), kind)
            } else {
                None
            },
        };
        if let Some(selected) = target {
            self.move_to(selected);
        }
    }

    /// The lines of the list, the selected one, and the rows that they stand for.
    fn list(&self, room: usize) -> (list: (Vec<ListItem>, Option<usize>, Vec<Option<usize>>))
        requires
            self.wf(),
        ensures
            self@.filtered.len() == 0 ==> text::views(list.0@) == seq![
                screen::empty_of(self@.empty_message(), room),
            ] && list.1 is None && list.2@ == seq![None::<usize>],
            self@.filtered.len() > 0 ==> text::views(list.0@) == self@.listing(room).items
                && list.1 == Some(self@.listing(room).selected_position as usize)
                && render::row_positions(list.2@) == self@.listing(room).positions,
    {
        assert(order::positions(self.filtered@).len() == self.filtered@.len());
        if self.filtered.len() == 0 {
            let error = match &self.refresh_error {
                Some(error) => Some(error.as_str()),
                None => None,
            };
            let mut items: Vec<ListItem> = Vec::new();
            items.push(
                screen::empty_item(
                    self.loading,
                    self.project_search_started,
                    self.project_source_status,
                    error,
                    self.state.query.as_str(),
                    room,
                ),
            );
            let mut positions: Vec<Option<usize>> = Vec::new();
            positions.push(None);
            assert(text::views(items@) =~= seq![screen::empty_of(self@.empty_message(), room)]);
            assert(positions@ =~= seq![None::<usize>]);
            (items, None, positions)
        } else {
            let anchor = match &self.anchor {
                Some(anchor) => Some(anchor),
                None => None,
            };
            let (items, selected, positions) = render::build_with_anchor(
                self.state.rows.as_slice(),
                self.filtered.as_slice(),
                self.state.selected,
                room,
                anchor,
            );
            (items, Some(selected), positions)
        }
    }

    /// What is to be drawn on so many columns.
    pub fn frame(&self, width: usize) -> (frame: Frame)
        requires
            self.wf(),
        ensures
            self@.looks(frame, width),
    {
        assert(order::positions(self.filtered@).len() == self.filtered@.len());
        let ghost is_open = |row: RowModel| row.kind is Open;
        let ghost is_dormant = |row: RowModel| row.kind is Dormant;
        let open_count: usize = count_section(&self.state.rows, 0, Ghost(is_open));
        let project_count: usize = count_section(&self.state.rows, 3, Ghost(is_dormant));
        let title = screen::title_line(
            open_count,
            project_count,
            self.loading,
            self.project_search_started,
            self.refresh_error.is_some(),
            self.project_source_status,
        );
        let mut slogan: Vec<Span> = Vec::new();
        slogan.push(
            Span::styled(
                " one terminal for the whole herd ".to_string(),
                Style::fg(Color::Muted),
            ),
        );
        let slogan = Line { spans: slogan };
        assert(slogan@ =~= seq![
            style::span(" one terminal for the whole herd "@, style::colored(Color::Muted)),
        ]);
        let prompt = screen::prompt_line(self.state.query.as_str(), self.filtered.len(), width);
        let room: usize = width.saturating_sub(screen::HL_W);
        let (items, selected, row_positions) = self.list(room);
        let footer = match self.state.selected_row(&self.filtered) {
            Some(row) => screen::footer_line(Some(&row.kind), width),
            None => screen::footer_line(None, width),
        };
        Frame { slogan, title, prompt, items, selected, row_positions, footer }
    }

    /// End a run with a decision.
    pub fn finish(self, outcome: Outcome) -> (session: Session)
        ensures
            session@ == (PickedModel {
                outcome: outcome@,
                live_workspace_ids: self@.live_workspace_ids,
                state: self@.state,
                origin_workspace: self@.origin_workspace,
            }),
    {
        Session {
            outcome,
            live_workspace_ids: self.live_workspace_ids,
            state: self.state,
            origin_workspace: self.origin_workspace,
        }
    }
}

} // verus!
