//! What stands around the picker's list: the title, the prompt, the key hints,
//! the line of an empty list, and where the mouse points.

use vstd::prelude::*;
use crate::model;
use crate::model::{Kind, KindModel};
use crate::refresh::ProjectSourceStatus;
use crate::style;
use crate::style::{Color, Line, ListItem, ListItemModel, Span, SpanModel, Style};
use crate::text;
use crate::width;

verus! {

broadcast use crate::text::lemma_views_push;

/// Columns for the mark in front of the selected row.
pub const HL_W: usize = 2;

/// One column between two parts of a line, where there is room for it.
pub open spec fn gap_before(taken: usize, width: usize) -> usize {
    if taken > 0 && width > taken {
        1
    } else {
        0
    }
}

/// Spans at the left and at the right end of a line. The right ones get at most
/// a third of it.
pub open spec fn spread_of(left: Seq<SpanModel>, right: Seq<SpanModel>, width: usize) -> Seq<
    SpanModel,
> {
    if width == 0 {
        Seq::empty()
    } else {
        let ending = style::cut_spans(right, width / 3);
        let taken = style::spans_columns(ending);
        let room = width::columns_left(
            width::columns_left(width, taken) as usize,
            gap_before(taken, width),
        ) as usize;
        let beginning = style::cut_spans(left, room);
        let between = width::columns_left(
            width::columns_left(width, style::spans_columns(beginning)) as usize,
            taken,
        );
        style::cut_spans(
            beginning.push(style::span(width::spaces(between), style::plain())) + ending,
            width,
        )
    }
}

/// Put spans at the left and at the right end of a line. Simple ones never take
/// more columns than the line has.
pub fn spread(left: Vec<Span>, right: Vec<Span>, width: usize) -> (line: Line)
    ensures
        line@ == spread_of(text::views(left@), text::views(right@), width),
        style::simple_spans(text::views(left@)) && style::simple_spans(text::views(right@))
            ==> style::spans_columns(line@) <= width,
{
    if width == 0 {
        let line = Line { spans: Vec::new() };
        assert(line@ =~= Seq::empty());
        return line;
    }
    let right = style::truncate_spans(right, width / 3);
    let right_width: usize = style::spans_width(&right);
    let gap: usize = if right_width > 0 && width > right_width {
        1
    } else {
        0
    };
    let mut left = style::truncate_spans(left, width.saturating_sub(right_width).saturating_sub(gap));
    let left_width: usize = style::spans_width(&left);
    let mut filling = String::new();
    width::push_spaces(&mut filling, width.saturating_sub(left_width).saturating_sub(right_width));
    assert(filling@ =~= width::spaces(
        width::columns_left(width::columns_left(width, left_width) as usize, right_width),
    ));
    let ghost beginning = text::views(left@);
    let ghost between = style::span(filling@, style::plain());
    left.push(Span::raw(filling));
    proof {
        if style::simple_spans(beginning) && style::simple_spans(text::views(right@)) {
            style::lemma_simple_spans_join(beginning, seq![between]);
            assert(beginning + seq![between] =~= beginning.push(between));
            style::lemma_simple_spans_join(beginning.push(between), text::views(right@));
        }
    }
    style::push_spans(&mut left, right);
    Line { spans: style::truncate_spans(left, width) }
}

/// What Enter does with a row.
pub open spec fn action_of(kind: KindModel) -> Seq<char> {
    if kind is Dormant {
        "open project"@
    } else {
        "focus"@
    }
}

/// Name what Enter does with a row.
pub fn enter_action(kind: &Kind) -> (action: &'static str)
    ensures
        action@ == action_of(kind@),
{
    match kind {
        Kind::Dormant => "open project",
        _ => "focus",
    }
}

/// The look of a key.
pub open spec fn key_style() -> Style {
    Style { fg: Some(Color::Fg), bg: Some(Color::Surface1), bold: true }
}

/// A key and what it does.
pub open spec fn keycap_of(key: Seq<char>, label: Seq<char>) -> Seq<SpanModel> {
    seq![
        style::span(" "@ + key + " "@, key_style()),
        style::span(" "@ + label + "   "@, style::colored(Color::Subtext0)),
    ]
}

/// Show a key and what it does.
pub fn keycap(key: &str, label: &str) -> (spans: Vec<Span>)
    ensures
        text::views(spans@) == keycap_of(key@, label@),
        width::simple(key@) && width::simple(label@) ==> style::simple_spans(text::views(spans@)),
{
    proof {
        reveal_strlit(" ");
        reveal_strlit("   ");
        if width::simple(key@) && width::simple(label@) {
            width::lemma_simple_join(" "@, key@);
            width::lemma_simple_join(" "@ + key@, " "@);
            width::lemma_simple_join(" "@, label@);
            width::lemma_simple_join(" "@ + label@, "   "@);
        }
    }
    let mut cap = text::joined(" ", key);
    cap.append(" ");
    let mut name = text::joined(" ", label);
    name.append("   ");
    let mut spans: Vec<Span> = Vec::new();
    spans.push(
        Span::styled(cap, Style { fg: Some(Color::Fg), bg: Some(Color::Surface1), bold: true }),
    );
    spans.push(Span::styled(name, Style::fg(Color::Subtext0)));
    assert(text::views(spans@) =~= keycap_of(key@, label@));
    spans
}

/// The keys that the picker hints at, for a selected row.
pub open spec fn footer_spans(selected: Option<KindModel>) -> Seq<SpanModel> {
    (match selected {
        Some(kind) => keycap_of("↵"@, action_of(kind)),
        None => Seq::empty(),
    }) + keycap_of("tab"@, "next section"@) + keycap_of("⌥0-9"@, "recents"@) + keycap_of(
        "^n"@,
        "force new"@,
    ) + keycap_of("^x"@, "close"@) + keycap_of("esc"@, "cancel"@)
}

/// Add a key and what it does to spans.
fn push_keycap(spans: &mut Vec<Span>, key: &str, label: &str)
    requires
        style::simple_spans(text::views(old(spans)@)),
        width::simple(key@),
        width::simple(label@),
    ensures
        text::views(final(spans)@) == text::views(old(spans)@) + keycap_of(key@, label@),
        style::simple_spans(text::views(final(spans)@)),
{
    let cap = keycap(key, label);
    proof {
        style::lemma_simple_spans_join(text::views(spans@), text::views(cap@));
    }
    style::push_spans(spans, cap);
}

/// The line of key hints, which never takes more columns than it has.
pub fn footer_line(selected: Option<&Kind>, width: usize) -> (line: Line)
    ensures
        line@ == style::cut_spans(
            footer_spans(
                match selected {
                    Some(kind) => Some(kind@),
                    None => None,
                },
            ),
            width,
        ),
        style::spans_columns(line@) <= width,
{
    proof {
        reveal_strlit("↵");
        reveal_strlit("open project");
        reveal_strlit("focus");
        reveal_strlit("tab");
        reveal_strlit("next section");
        reveal_strlit("⌥0-9");
        reveal_strlit("recents");
        reveal_strlit("^n");
        reveal_strlit("force new");
        reveal_strlit("^x");
        reveal_strlit("close");
        reveal_strlit("esc");
        reveal_strlit("cancel");
    }
    let mut spans: Vec<Span> = Vec::new();
    assert(text::views(spans@) =~= Seq::empty());
    if let Some(kind) = selected {
        spans = keycap("↵", enter_action(kind));
    }
    push_keycap(&mut spans, "tab", "next section");
    push_keycap(&mut spans, "⌥0-9", "recents");
    push_keycap(&mut spans, "^n", "force new");
    push_keycap(&mut spans, "^x", "close");
    push_keycap(&mut spans, "esc", "cancel");
    Line { spans: style::truncate_spans(spans, width) }
}

/// What an empty list says, and in which color.
pub open spec fn empty_message(
    loading: bool,
    project_search_started: bool,
    project_source_status: ProjectSourceStatus,
    error: Option<Seq<char>>,
    query: Seq<char>,
) -> (Seq<char>, Color) {
    if loading {
        (
            if project_search_started && query.len() == 0 {
                "Searching projects…"@
            } else if project_search_started {
                "No matches yet — searching projects…"@
            } else if query.len() == 0 {
                "Loading workspaces…"@
            } else {
                "No matches yet — still loading…"@
            },
            Color::Muted,
        )
    } else if error is Some {
        (error->0, Color::Red)
    } else if query.len() > 0 {
        ("No matching workspaces or projects"@, Color::Muted)
    } else if project_source_status is Unavailable {
        ("No projects found; zoxide suggestions unavailable"@, Color::Muted)
    } else {
        ("No projects found"@, Color::Muted)
    }
}

/// The line of an empty list.
pub open spec fn empty_of(message: (Seq<char>, Color), width: usize) -> ListItemModel {
    ListItemModel {
        spans: seq![style::span(width::truncated(message.0, width), style::colored(message.1))],
        style: style::plain(),
    }
}

/// Say why the list is empty.
pub fn empty_item(
    loading: bool,
    project_search_started: bool,
    project_source_status: ProjectSourceStatus,
    error: Option<&str>,
    query: &str,
    width: usize,
) -> (item: ListItem)
    ensures
        item@ == empty_of(
            empty_message(
                loading,
                project_search_started,
                project_source_status,
                model::borrowed(error),
                query@,
            ),
            width,
        ),
{
    let (message, color) = if loading {
        if project_search_started {
            if query.is_empty() {
                ("Searching projects…", Color::Muted)
            } else {
                ("No matches yet — searching projects…", Color::Muted)
            }
        } else if query.is_empty() {
            ("Loading workspaces…", Color::Muted)
        } else {
            ("No matches yet — still loading…", Color::Muted)
        }
    } else if let Some(error) = error {
        (error, Color::Red)
    } else if !query.is_empty() {
        ("No matching workspaces or projects", Color::Muted)
    } else if project_source_status == ProjectSourceStatus::Unavailable {
        ("No projects found; zoxide suggestions unavailable", Color::Muted)
    } else {
        ("No projects found", Color::Muted)
    };
    let mut spans: Vec<Span> = Vec::new();
    spans.push(Span::styled(width::truncate_to_width(message, width), Style::fg(color)));
    let item = ListItem { line: Line { spans }, style: Style::plain() };
    assert(item@.spans =~= seq![
        style::span(width::truncated(message@, width), style::colored(color)),
    ]);
    item
}

/// What the title says of the refresh.
pub open spec fn refresh_status(
    loading: bool,
    project_search_started: bool,
    failed: bool,
    project_source_status: ProjectSourceStatus,
) -> SpanModel {
    if loading && project_search_started {
        style::span(" · searching projects "@, style::colored(Color::Yellow))
    } else if loading {
        style::span(" · loading workspaces "@, style::colored(Color::Yellow))
    } else if failed {
        style::span(" · refresh failed "@, style::colored(Color::Red))
    } else if project_source_status is Unavailable {
        style::span(" · zoxide unavailable "@, style::colored(Color::Yellow))
    } else {
        style::span(" "@, style::plain())
    }
}

/// The counts in the title, and how the refresh stands.
pub open spec fn title_spans(open_count: nat, project_count: nat, status: SpanModel) -> Seq<
    SpanModel,
> {
    seq![
        style::span(" "@ + text::decimal(open_count) + " open"@, style::colored(Color::Green)),
        style::span(" · "@, style::colored(Color::Overlay1)),
        style::span(text::decimal(project_count) + " projects"@, style::colored(Color::Peach)),
        status,
    ]
}

/// The right end of the title: the counts, and how the refresh stands.
pub fn title_line(
    open_count: usize,
    project_count: usize,
    loading: bool,
    project_search_started: bool,
    failed: bool,
    project_source_status: ProjectSourceStatus,
) -> (line: Line)
    ensures
        line@ == title_spans(
            open_count as nat,
            project_count as nat,
            refresh_status(loading, project_search_started, failed, project_source_status),
        ),
{
    let mut open_text = text::joined(" ", text::number_text(open_count).as_str());
    open_text.append(" open");
    let project_text = text::joined(text::number_text(project_count).as_str(), " projects");
    let status = if loading {
        if project_search_started {
            Span::styled(" · searching projects ".to_string(), Style::fg(Color::Yellow))
        } else {
            Span::styled(" · loading workspaces ".to_string(), Style::fg(Color::Yellow))
        }
    } else if failed {
        Span::styled(" · refresh failed ".to_string(), Style::fg(Color::Red))
    } else if project_source_status == ProjectSourceStatus::Unavailable {
        Span::styled(" · zoxide unavailable ".to_string(), Style::fg(Color::Yellow))
    } else {
        Span::raw(" ".to_string())
    };
    let mut spans: Vec<Span> = Vec::new();
    spans.push(Span::styled(open_text, Style::fg(Color::Green)));
    spans.push(Span::styled(" · ".to_string(), Style::fg(Color::Overlay1)));
    spans.push(Span::styled(project_text, Style::fg(Color::Peach)));
    spans.push(status);
    let line = Line { spans };
    assert(line@ =~= title_spans(
        open_count as nat,
        project_count as nat,
        refresh_status(loading, project_search_started, failed, project_source_status),
    ));
    line
}

/// What is typed, or a hint where nothing is.
pub open spec fn query_span(query: Seq<char>) -> SpanModel {
    if query.len() == 0 {
        style::span("type to fuzzy-filter…"@, style::colored(Color::Base))
    } else {
        style::span(query, style::colored(Color::Fg))
    }
}

/// The prompt with what is typed, and how many rows match.
pub open spec fn prompt_of(query: Seq<char>, matches: nat, width: usize) -> Seq<SpanModel> {
    spread_of(
        seq![style::span("› "@, style::strong(Color::Accent)), query_span(query)],
        seq![style::span(text::decimal(matches) + " matches"@, style::colored(Color::Subtext0))],
        width,
    )
}

/// The line with the prompt. A simple query never takes more columns than the line
/// has.
pub fn prompt_line(query: &str, matches: usize, width: usize) -> (line: Line)
    ensures
        line@ == prompt_of(query@, matches as nat, width),
        width::simple(query@) ==> style::spans_columns(line@) <= width,
{
    proof {
        reveal_strlit("› ");
        reveal_strlit("type to fuzzy-filter…");
        reveal_strlit(" matches");
        width::lemma_simple_decimal(matches as nat);
        width::lemma_simple_join(text::decimal(matches as nat), " matches"@);
    }
    let mut left: Vec<Span> = Vec::new();
    left.push(Span::styled("› ".to_string(), Style::bold(Color::Accent)));
    if query.is_empty() {
        left.push(Span::styled("type to fuzzy-filter…".to_string(), Style::fg(Color::Base)));
    } else {
        left.push(Span::styled(query.to_string(), Style::fg(Color::Fg)));
    }
    assert(text::views(left@) =~= seq![
        style::span("› "@, style::strong(Color::Accent)),
        query_span(query@),
    ]);
    let mut right: Vec<Span> = Vec::new();
    right.push(
        Span::styled(
            text::joined(text::number_text(matches).as_str(), " matches"),
            Style::fg(Color::Subtext0),
        ),
    );
    assert(text::views(right@) =~= seq![
        style::span(text::decimal(matches as nat) + " matches"@, style::colored(Color::Subtext0)),
    ]);
    spread(left, right, width)
}

/// A rectangle on the screen.
#[derive(Debug, Clone, Copy)]
pub struct Area {
    pub x: u16,
    pub y: u16,
    pub width: u16,
    pub height: u16,
}

impl Area {
    /// Whether a cell is within. A rectangle ends where coordinates do.
    pub open spec fn contains(self, column: u16, row: u16) -> bool {
        &&& self.x <= column
        &&& column < self.x + self.width
        &&& column < u16::MAX
        &&& self.y <= row
        &&& row < self.y + self.height
        &&& row < u16::MAX
    }
}

/// Whether the mouse is over a rectangle.
pub fn mouse_in_area(column: u16, row: u16, area: Area) -> (inside: bool)
    ensures
        inside == area.contains(column, row),
{
    column >= area.x && column < area.x.saturating_add(area.width) && row >= area.y && row
        < area.y.saturating_add(area.height)
}

/// The shown row under the mouse, in a list that is scrolled by `offset` lines.
pub open spec fn pointed_row(
    column: u16,
    row: u16,
    area: Area,
    offset: int,
    positions: Seq<Option<usize>>,
) -> Option<usize> {
    if area.contains(column, row) && 0 <= offset + row - area.y < positions.len() {
        positions[offset + row - area.y]
    } else {
        None
    }
}

/// Find the shown row under the mouse. Titles, and what is outside the list, are
/// no rows.
pub fn mouse_row_index(
    column: u16,
    row: u16,
    area: Area,
    list_offset: usize,
    row_positions: &[Option<usize>],
) -> (index: Option<usize>)
    ensures
        index == pointed_row(column, row, area, list_offset as int, row_positions@),
{
    if !mouse_in_area(column, row, area) {
        return None;
    }
    let relative: usize = (row - area.y) as usize;
    if list_offset < row_positions.len() && relative < row_positions.len() - list_offset {
        row_positions[list_offset + relative]
    } else {
        None
    }
}

/// What a mouse did.
#[derive(Debug, Clone, Copy, PartialEq, Eq)]
pub enum MouseKind {
    /// The left button went down.
    LeftDown,
    /// The wheel turned away from the user.
    ScrollUp,
    /// The wheel turned towards the user.
    ScrollDown,
    /// Anything else.
    Other,
}

/// The row that the wheel selects, where it selects another one.
pub open spec fn scrolled(selected: int, count: nat, kind: MouseKind) -> Option<int> {
    match kind {
        MouseKind::ScrollUp => if selected > 0 {
            Some(selected - 1)
        } else {
            None
        },
        MouseKind::ScrollDown => if selected + 1 < count {
            Some(selected + 1)
        } else {
            None
        },
        _ => None,
    }
}

/// Find the row that the wheel selects.
pub fn mouse_scroll_target(selected: usize, count: usize, kind: MouseKind) -> (target: Option<
    usize,
>)
    ensures
        match target {
            Some(row) => scrolled(selected as int, count as nat, kind) == Some(row as int),
            None => scrolled(selected as int, count as nat, kind) is None,
        },
{
    match kind {
        MouseKind::ScrollUp => if selected > 0 {
            Some(selected - 1)
        } else {
            None
        },
        MouseKind::ScrollDown => if count > 0 && selected < count - 1 {
            Some(selected + 1)
        } else {
            None
        },
        _ => None,
    }
}

} // verus!
