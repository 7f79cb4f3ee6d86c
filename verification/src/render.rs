//! How the picker's rows look: one line per row, within the columns there are.

use vstd::prelude::*;
use crate::lists;
use crate::model;
use crate::model::{AgentState, Kind, KindModel, Row, RowId, RowIdModel, RowModel, SpaceContext, SpaceModel};
use crate::order;
use crate::search;
use crate::style;
use crate::style::{Color, Line, ListItem, ListItemModel, Span, SpanModel, Style};
use crate::text;
use crate::width;

verus! {

broadcast use crate::text::lemma_views_push;

/// Columns for a row's name.
pub const NAME_W: usize = 20;

/// Columns for a row's glyph.
pub const GLYPH_W: usize = 2;

/// The color of a state: red waits for the user, cyan runs, green is finished,
/// and muted has nothing going on.
pub open spec fn color_of(state: AgentState) -> Color {
    match state {
        AgentState::Blocked => Color::Red,
        AgentState::Working => Color::Sky,
        AgentState::Done => Color::Green,
        AgentState::Idle => Color::Muted,
        AgentState::Unknown => Color::Muted,
    }
}

/// The color of a state.
pub fn state_color(state: AgentState) -> (color: Color)
    ensures
        color == color_of(state),
{
    match state {
        AgentState::Blocked => Color::Red,
        AgentState::Working => Color::Sky,
        AgentState::Done => Color::Green,
        AgentState::Idle => Color::Muted,
        AgentState::Unknown => Color::Muted,
    }
}

/// A short form of names: each once, two in full and a count of the rest.
pub open spec fn summary_of(names: Seq<Seq<char>>) -> Option<Seq<char>> {
    let unique = lists::distinct(names);
    if unique.len() == 0 {
        None
    } else if unique.len() == 1 {
        Some(unique[0])
    } else if unique.len() == 2 {
        Some(unique[0] + " · "@ + unique[1])
    } else {
        Some(unique[0] + " · "@ + unique[1] + " +"@ + text::decimal((unique.len() - 2) as nat))
    }
}

/// The names of a list, each where it first stands.
fn unique_names(names: &Vec<String>) -> (unique: Vec<String>)
    ensures
        text::views(unique@) == lists::distinct(text::views(names@)),
{
    let ghost all = text::views(names@);
    let mut unique: Vec<String> = Vec::new();
    let mut i: usize = 0;
    assert(text::views(unique@) =~= lists::distinct(all.take(0)));
    while i < names.len()
        invariant
            i <= names@.len(),
            all == text::views(names@),
            text::views(unique@) == lists::distinct(all.take(i as int)),
        decreases names@.len() - i,
    {
        proof {
            assert(all.take(i + 1).drop_last() =~= all.take(i as int));
            assert(all.take(i + 1).last() == names@[i as int]@);
        }
        if !text::holds(&unique, names[i].as_str()) {
            unique.push(names[i].clone());
        }
        i += 1;
    }
    assert(all.take(i as int) =~= all);
    unique
}

/// A short form of names.
fn summarize(names: &Vec<String>) -> (summary: Option<String>)
    ensures
        text::view_of(summary) == summary_of(text::views(names@)),
{
    let unique = unique_names(names);
    let ghost all = text::views(unique@);
    if unique.len() == 0 {
        return None;
    }
    assert(all[0] == unique@[0]@);
    let mut shown = unique[0].clone();
    if unique.len() > 1 {
        assert(all[1] == unique@[1]@);
        shown.append(" · ");
        shown.append(unique[1].as_str());
        if unique.len() > 2 {
            shown.append(" +");
            shown.append(text::number_text(unique.len() - 2).as_str());
        }
    }
    Some(shown)
}

/// A short form of a row's pane names.
pub fn pane_summary(row: &Row) -> (summary: Option<String>)
    ensures
        text::view_of(summary) == summary_of(row@.pane_names),
{
    summarize(&row.pane_names)
}

/// A short form of a row's tab names.
pub fn tab_summary(row: &Row) -> (summary: Option<String>)
    ensures
        text::view_of(summary) == summary_of(row@.tab_names),
{
    summarize(&row.tab_names)
}

/// A list of at most one text, with words before it.
pub open spec fn worded(words: Seq<char>, value: Option<Seq<char>>) -> Seq<Seq<char>> {
    match value {
        Some(value) => seq![words + value],
        None => Seq::empty(),
    }
}

/// The parts of a live workspace's context.
pub open spec fn context_parts(row: RowModel) -> Seq<Seq<char>> {
    (match row.space {
        Some(space) => search::listed(space.disambiguator),
        None => Seq::empty(),
    }) + worded("panes: "@, summary_of(row.pane_names)) + (if row.display.len() > 0 {
        seq![row.display]
    } else {
        Seq::empty()
    }) + worded("tabs: "@, summary_of(row.tab_names))
}

/// What is shown next to a row's name.
pub open spec fn context_of(row: RowModel) -> Seq<char> {
    if row.kind is Open {
        text::joined_by(context_parts(row), " · "@)
    } else {
        match summary_of(row.tab_names) {
            Some(tabs) => if row.display.len() == 0 {
                "tabs: "@ + tabs
            } else {
                row.display + " · tabs: "@ + tabs
            },
            None => row.display,
        }
    }
}

/// Whether an optional text is simple where there is one.
pub open spec fn maybe_simple(value: Option<Seq<char>>) -> bool {
    value is Some ==> width::simple(value->0)
}

/// Whether all texts of a row that are drawn are simple.
pub open spec fn simple_row(row: RowModel) -> bool {
    &&& width::simple(row.name)
    &&& width::simple(row.display)
    &&& width::all_simple(row.pane_names)
    &&& width::all_simple(row.tab_names)
    &&& row.space is Some ==> width::simple(row.space->0.label) && maybe_simple(
        row.space->0.disambiguator,
    )
    &&& match row.kind {
        KindModel::Open { agent, .. } => maybe_simple(agent),
        KindModel::Tab { agent, .. } => maybe_simple(agent),
        KindModel::Pane { agent, .. } => maybe_simple(agent),
        KindModel::Dormant => true,
    }
}

/// Each of several texts once: simple ones stay simple.
proof fn lemma_simple_distinct(names: Seq<Seq<char>>)
    requires
        width::all_simple(names),
    ensures
        width::all_simple(lists::distinct(names)),
    decreases names.len(),
{
    if names.len() > 0 {
        let front = names.drop_last();
        assert forall|i: int| 0 <= i < front.len() implies width::simple(#[trigger] front[i]) by {
            assert(front[i] == names[i]);
        }
        lemma_simple_distinct(front);
        assert(width::simple(names[names.len() - 1]));
    }
}

/// A short form of simple names is simple.
proof fn lemma_simple_summary(names: Seq<Seq<char>>)
    requires
        width::all_simple(names),
    ensures
        maybe_simple(summary_of(names)),
{
    let unique = lists::distinct(names);
    lemma_simple_distinct(names);
    reveal_strlit(" · ");
    reveal_strlit(" +");
    if unique.len() > 1 {
        width::lemma_simple_join(unique[0], " · "@);
        width::lemma_simple_join(unique[0] + " · "@, unique[1]);
        let count = (unique.len() - 2) as nat;
        width::lemma_simple_decimal(count);
        width::lemma_simple_join(unique[0] + " · "@ + unique[1], " +"@);
        width::lemma_simple_join(unique[0] + " · "@ + unique[1] + " +"@, text::decimal(count));
    }
}

/// What is shown next to the name of a simple row is simple.
proof fn lemma_simple_context(row: RowModel)
    requires
        simple_row(row),
    ensures
        width::simple(context_of(row)),
{
    reveal_strlit(" · ");
    reveal_strlit("panes: ");
    reveal_strlit("tabs: ");
    reveal_strlit(" · tabs: ");
    lemma_simple_summary(row.pane_names);
    lemma_simple_summary(row.tab_names);
    if let Some(panes) = summary_of(row.pane_names) {
        width::lemma_simple_join("panes: "@, panes);
    }
    if let Some(tabs) = summary_of(row.tab_names) {
        width::lemma_simple_join("tabs: "@, tabs);
        width::lemma_simple_join(row.display, " · tabs: "@);
        width::lemma_simple_join(row.display + " · tabs: "@, tabs);
    }
    width::lemma_simple_joined_by(context_parts(row), " · "@);
}

/// Add a worded text to a list, where there is one.
fn push_worded(parts: &mut Vec<String>, words: &str, value: &Option<String>)
    ensures
        text::views(final(parts)@) == text::views(old(parts)@) + worded(
            words@,
            text::view_of(*value),
        ),
{
    let ghost before = text::views(parts@);
    match value {
        Some(value) => {
            parts.push(text::joined(words, value.as_str()));
            assert(before.push(words@ + value@) =~= before + seq![words@ + value@]);
        },
        None => {
            assert(before =~= before + Seq::empty());
        },
    }
}

/// What is shown next to a row's name: for a live workspace what is in it, since
/// its label is its name.
pub fn secondary_context(row: &Row) -> (context: String)
    ensures
        context@ == context_of(row@),
{
    if let Kind::Open { .. } = &row.kind {
        let mut parts: Vec<String> = Vec::new();
        assert(text::views(parts@) =~= Seq::empty());
        if let Some(space) = &row.space {
            if let Some(disambiguator) = &space.disambiguator {
                parts.push(disambiguator.clone());
                assert(text::views(parts@) =~= seq![disambiguator@]);
            }
        }
        push_worded(&mut parts, "panes: ", &pane_summary(row));
        let ghost before = text::views(parts@);
        if !row.display.as_str().is_empty() {
            parts.push(row.display.clone());
            assert(before.push(row.display@) =~= before + seq![row.display@]);
        } else {
            assert(before =~= before + Seq::empty());
        }
        push_worded(&mut parts, "tabs: ", &tab_summary(row));
        assert(text::views(parts@) =~= context_parts(row@));
        return text::join_all(&parts, " · ");
    }
    match tab_summary(row) {
        Some(tabs) => {
            if row.display.as_str().is_empty() {
                text::joined("tabs: ", tabs.as_str())
            } else {
                let mut shown = text::joined(row.display.as_str(), " · tabs: ");
                shown.append(tabs.as_str());
                shown
            }
        },
        None => row.display.clone(),
    }
}

/// The words that are set apart in a context.
pub open spec fn context_label(which: int) -> Seq<char> {
    if which == 0 {
        "panes:"@
    } else if which == 1 {
        "tabs:"@
    } else {
        "folder:"@
    }
}

/// The first word set apart in a text from `from` on: its place and which one.
pub open spec fn next_label(value: Seq<char>, from: int) -> Option<(int, int)> {
    let panes = text::found_at(value, context_label(0), from);
    let tabs = text::found_at(value, context_label(1), from);
    let folder = text::found_at(value, context_label(2), from);
    let first = match panes {
        Some(at) => Some((at, 0int)),
        None => None,
    };
    let second = match (first, tabs) {
        (Some((best, _)), Some(at)) => if at < best {
            Some((at, 1int))
        } else {
            first
        },
        (None, Some(at)) => Some((at, 1int)),
        (_, None) => first,
    };
    match (second, folder) {
        (Some((best, _)), Some(at)) => if at < best {
            Some((at, 2int))
        } else {
            second
        },
        (None, Some(at)) => Some((at, 2int)),
        (_, None) => second,
    }
}

/// A context from position `from` on, with its words set apart.
pub open spec fn context_from(value: Seq<char>, from: int, look: Style) -> Seq<SpanModel>
    decreases value.len() - from,
{
    if from < 0 || from >= value.len() {
        Seq::empty()
    } else {
        match next_label(value, from) {
            None => seq![style::span(value.skip(from), look)],
            Some((at, which)) => {
                let label = context_label(which);
                let lead = if at > from {
                    seq![style::span(value.subrange(from, at), look)]
                } else {
                    Seq::empty()
                };
                let rest = if at >= from && label.len() > 0 && at + label.len() <= value.len() {
                    context_from(value, at + label.len(), look)
                } else {
                    Seq::empty()
                };
                lead + seq![style::span(label, style::colored(Color::Overlay1))] + rest
            },
        }
    }
}

/// A simple context has simple spans.
proof fn lemma_simple_context_from(value: Seq<char>, from: int, look: Style)
    requires
        width::simple(value),
    ensures
        style::simple_spans(context_from(value, from, look)),
    decreases value.len() - from,
{
    reveal_strlit("panes:");
    reveal_strlit("tabs:");
    reveal_strlit("folder:");
    if 0 <= from < value.len() {
        text::lemma_found_is_within(value, context_label(0), from);
        text::lemma_found_is_within(value, context_label(1), from);
        text::lemma_found_is_within(value, context_label(2), from);
        match next_label(value, from) {
            Some((at, which)) => {
                let label = context_label(which);
                let word = style::span(label, style::colored(Color::Overlay1));
                let lead = if at > from {
                    seq![style::span(value.subrange(from, at), look)]
                } else {
                    Seq::empty()
                };
                let rest = context_from(value, at + label.len(), look);
                assert(width::simple(value.subrange(from, at)));
                assert(style::simple_spans(lead));
                assert(style::simple_spans(seq![word]));
                lemma_simple_context_from(value, at + label.len(), look);
                style::lemma_simple_spans_join(lead, seq![word]);
                style::lemma_simple_spans_join(lead + seq![word], rest);
            },
            None => {
                assert(width::simple(value.skip(from)));
            },
        }
    }
}

/// Find the first word set apart in a text from `from` on.
fn find_label(value: &Vec<char>, from: usize) -> (found: Option<(usize, usize)>)
    requires
        from <= value@.len(),
    ensures
        match found {
            Some((at, which)) => next_label(value@, from as int) == Some(
                (at as int, which as int),
            ) && from <= at && at + context_label(which as int).len() <= value@.len() && which < 3,
            None => next_label(value@, from as int) is None,
        },
{
    let panes = text::find_from(value, &text::chars_of("panes:"), from);
    let tabs = text::find_from(value, &text::chars_of("tabs:"), from);
    let folder = text::find_from(value, &text::chars_of("folder:"), from);
    let mut found: Option<(usize, usize)> = match panes {
        Some(at) => Some((at, 0)),
        None => None,
    };
    if let Some(at) = tabs {
        found = match found {
            Some((best, which)) => if at < best {
                Some((at, 1))
            } else {
                Some((best, which))
            },
            None => Some((at, 1)),
        };
    }
    if let Some(at) = folder {
        found = match found {
            Some((best, which)) => if at < best {
                Some((at, 2))
            } else {
                Some((best, which))
            },
            None => Some((at, 2)),
        };
    }
    found
}

/// Set the words of a context apart.
pub fn context_spans(value: &str, look: Style) -> (spans: Vec<Span>)
    ensures
        text::views(spans@) == context_from(value@, 0, look),
{
    let chars = text::chars_of(value);
    let mut spans: Vec<Span> = Vec::new();
    let mut from: usize = 0;
    proof {
        reveal_strlit("panes:");
        reveal_strlit("tabs:");
        reveal_strlit("folder:");
        assert(text::views(spans@) + context_from(value@, 0, look) =~= context_from(
            value@,
            0,
            look,
        ));
    }
    while from < chars.len()
        invariant
            chars@ == value@,
            from <= chars@.len(),
            "panes:"@.len() == 6,
            "tabs:"@.len() == 5,
            "folder:"@.len() == 7,
            text::views(spans@) + context_from(value@, from as int, look) == context_from(
                value@,
                0,
                look,
            ),
        decreases chars@.len() - from,
    {
        let ghost before = text::views(spans@);
        match find_label(&chars, from) {
            None => {
                let rest = text::text_between(&chars, from, chars.len());
                assert(rest@ =~= value@.skip(from as int));
                spans.push(Span::styled(rest, look));
                proof {
                    assert(text::views(spans@) =~= before + seq![style::span(
                        value@.skip(from as int),
                        look,
                    )]);
                    assert(context_from(value@, chars@.len() as int, look) =~= Seq::empty());
                    assert(text::views(spans@) + context_from(value@, chars@.len() as int, look)
                        =~= text::views(spans@));
                }
                from = chars.len();
            },
            Some((at, which)) => {
                let ghost lead = if at > from {
                    seq![style::span(value@.subrange(from as int, at as int), look)]
                } else {
                    Seq::empty()
                };
                if at > from {
                    spans.push(Span::styled(text::text_between(&chars, from, at), look));
                }
                assert(text::views(spans@) =~= before + lead);
                let label = if which == 0 {
                    "panes:"
                } else if which == 1 {
                    "tabs:"
                } else {
                    "folder:"
                };
                let size: usize = if which == 0 {
                    6
                } else if which == 1 {
                    5
                } else {
                    7
                };
                let ghost word = style::span(label@, style::colored(Color::Overlay1));
                spans.push(Span::styled(label.to_string(), Style::fg(Color::Overlay1)));
                proof {
                    let rest = context_from(value@, at + size, look);
                    assert(text::views(spans@) =~= before + lead + seq![word]);
                    assert(before + (lead + seq![word] + rest) =~= before + lead + seq![word]
                        + rest);
                }
                from = at + size;
            },
        }
    }
    proof {
        assert(context_from(value@, from as int, look) =~= Seq::empty());
        assert(text::views(spans@) + Seq::<SpanModel>::empty() =~= text::views(spans@));
    }
    spans
}

/// A row's name and context within a budget of columns.
pub open spec fn body_of(
    name: Seq<char>,
    path: Seq<char>,
    budget: usize,
    name_style: Style,
    path_style: Style,
) -> Seq<SpanModel> {
    if budget == 0 {
        Seq::empty()
    } else if path.len() == 0 || budget < 14 {
        seq![style::span(width::truncated(name, budget), name_style)]
    } else {
        let name_budget = if NAME_W <= budget - 5 {
            NAME_W
        } else {
            (budget - 5) as usize
        };
        let path_budget = (budget - name_budget - 1) as usize;
        seq![
            style::span(width::padded(name, name_budget), name_style),
            style::span(" "@, style::plain()),
        ] + context_from(width::truncated(path, path_budget), 0, path_style)
    }
}

/// A row's name and context within a budget of columns.
pub fn body_spans(
    name: &str,
    path: &str,
    budget: usize,
    name_style: Style,
    path_style: Style,
) -> (spans: Vec<Span>)
    ensures
        text::views(spans@) == body_of(name@, path@, budget, name_style, path_style),
        width::simple(name@) && width::simple(path@) ==> style::simple_spans(text::views(spans@)),
{
    let mut spans: Vec<Span> = Vec::new();
    if budget == 0 {
        assert(text::views(spans@) =~= Seq::empty());
        return spans;
    }
    if path.is_empty() || budget < 14 {
        spans.push(Span::styled(width::truncate_to_width(name, budget), name_style));
        assert(text::views(spans@) =~= seq![style::span(
            width::truncated(name@, budget),
            name_style,
        )]);
        return spans;
    }
    let name_budget: usize = if NAME_W <= budget - 5 {
        NAME_W
    } else {
        budget - 5
    };
    let path_budget: usize = budget - name_budget - 1;
    spans.push(Span::styled(width::pad_to_width(name, name_budget), name_style));
    spans.push(Span::raw(" ".to_string()));
    assert(text::views(spans@) =~= seq![
        style::span(width::padded(name@, name_budget), name_style),
        style::span(" "@, style::plain()),
    ]);
    let cut = width::truncate_to_width(path, path_budget);
    proof {
        reveal_strlit(" ");
        if width::simple(name@) && width::simple(path@) {
            lemma_simple_context_from(cut@, 0, path_style);
            style::lemma_simple_spans_join(
                text::views(spans@),
                context_from(cut@, 0, path_style),
            );
        }
    }
    style::push_spans(&mut spans, context_spans(cut.as_str(), path_style));
    spans
}

/// The marker of a row that belongs with another: the anchor itself, or a row
/// related to it.
pub open spec fn marker_of(related: bool, pinned: bool) -> Seq<char> {
    if pinned {
        "● "@
    } else if related {
        "↳ "@
    } else {
        ""@
    }
}

/// The words at the end of a live row: its agent and its state.
pub open spec fn meta_of(width: usize, state: AgentState, agent: Option<Seq<char>>) -> Seq<char> {
    if width >= 30 {
        width::truncated(
            match agent {
                Some(agent) => agent + " · "@ + state.name(),
                None => state.name(),
            },
            if width / 3 <= 20 {
                width / 3
            } else {
                20
            },
        )
    } else {
        Seq::empty()
    }
}

/// The words at the end of a live row, with their looks.
pub open spec fn meta_spans_of(meta: Seq<char>, has_agent: bool, color: Color) -> Seq<SpanModel> {
    if meta.len() == 0 {
        Seq::empty()
    } else {
        match text::found_at(meta, " · "@, 0) {
            Some(at) => seq![
                style::span(meta.take(at), style::colored(Color::Mauve)),
                style::span(" · "@, style::colored(Color::Overlay1)),
                style::span(meta.skip(at + " · "@.len()), style::colored(color)),
            ],
            None => seq![style::span(
                meta,
                style::colored(
                    if has_agent {
                        Color::Mauve
                    } else {
                        color
                    },
                ),
            )],
        }
    }
}

/// The words at the end of a live row, with their looks.
fn meta_spans(meta: String, has_agent: bool, color: Color) -> (spans: Vec<Span>)
    ensures
        text::views(spans@) == meta_spans_of(meta@, has_agent, color),
        width::simple(meta@) ==> style::simple_spans(text::views(spans@)),
{
    proof {
        reveal_strlit(" · ");
    }
    let mut spans: Vec<Span> = Vec::new();
    if meta.as_str().is_empty() {
        assert(text::views(spans@) =~= Seq::empty());
        return spans;
    }
    let chars = text::chars_of(meta.as_str());
    let separator = text::chars_of(" · ");
    let total: usize = chars.len();
    match text::find_from(&chars, &separator, 0) {
        Some(at) => {
            let tag = text::text_between(&chars, 0, at);
            let status = text::text_between(&chars, at + separator.len(), total);
            assert(tag@ =~= meta@.take(at as int));
            assert(status@ =~= meta@.skip(at + " · "@.len()));
            spans.push(Span::styled(tag, Style::fg(Color::Mauve)));
            spans.push(Span::styled(" · ".to_string(), Style::fg(Color::Overlay1)));
            spans.push(Span::styled(status, Style::fg(color)));
            assert(text::views(spans@) =~= meta_spans_of(meta@, has_agent, color));
        },
        None => {
            let shown = if has_agent {
                Color::Mauve
            } else {
                color
            };
            spans.push(Span::styled(meta.clone(), Style::fg(shown)));
            assert(text::views(spans@) =~= meta_spans_of(meta@, has_agent, color));
        },
    }
    spans
}

/// What is left of columns after several texts.
pub open spec fn left_after(width: usize, a: usize, b: usize, c: usize) -> usize {
    if a + b + c <= width {
        (width - a - b - c) as usize
    } else {
        0
    }
}

/// The body of a live row, filled up to its budget.
pub open spec fn filled_body(
    row: RowModel,
    name: Seq<char>,
    budget: usize,
    related: bool,
    pinned: bool,
) -> Seq<SpanModel> {
    let body = body_of(
        name,
        context_of(row),
        budget,
        style::strong(
            if pinned {
                Color::Mauve
            } else if related {
                Color::Sky
            } else {
                Color::Fg
            },
        ),
        style::colored(
            if related {
                Color::Sapphire
            } else {
                Color::Muted
            },
        ),
    );
    let taken = style::spans_columns(body);
    if taken < budget {
        body.push(style::span(width::spaces((budget - taken) as nat), style::plain()))
    } else {
        body
    }
}

/// The body of a live row, filled up to its budget.
fn fill_body(row: &Row, name: &str, budget: usize, related: bool, pinned: bool) -> (body: Vec<Span>)
    ensures
        text::views(body@) == filled_body(row@, name@, budget, related, pinned),
        simple_row(row@) && width::simple(name@) ==> style::simple_spans(text::views(body@)),
{
    proof {
        if simple_row(row@) {
            lemma_simple_context(row@);
        }
    }
    let name_color = if pinned {
        Color::Mauve
    } else if related {
        Color::Sky
    } else {
        Color::Fg
    };
    let path_color = if related {
        Color::Sapphire
    } else {
        Color::Muted
    };
    let context = secondary_context(row);
    let mut body = body_spans(
        name,
        context.as_str(),
        budget,
        Style::bold(name_color),
        Style::fg(path_color),
    );
    let taken: usize = style::spans_width(&body);
    if taken < budget {
        let mut filler = String::new();
        width::push_spaces(&mut filler, budget - taken);
        assert(filler@ =~= width::spaces((budget - taken) as nat));
        body.push(Span::raw(filler));
    }
    body
}

/// A list of at most one span.
pub open spec fn when(shown: bool, made: SpanModel) -> Seq<SpanModel> {
    if shown {
        seq![made]
    } else {
        Seq::empty()
    }
}

/// The number in front of a row.
pub open spec fn number_prefix(number: Option<usize>) -> Seq<char> {
    match number {
        Some(number) => text::decimal(number as nat) + " "@,
        None => ""@,
    }
}

/// The glyph of a live row.
pub open spec fn glyph_of(width: usize, state: AgentState) -> Seq<char> {
    width::truncated(
        state.symbol() + " "@,
        if width <= GLYPH_W {
            width
        } else {
            GLYPH_W
        },
    )
}

/// The columns for a live row's body and whether a gap follows it.
pub open spec fn body_room(
    width: usize,
    number: Option<usize>,
    state: AgentState,
    agent: Option<Seq<char>>,
    related: bool,
    pinned: bool,
) -> (usize, bool) {
    let remaining = left_after(
        width,
        width::text_width(number_prefix(number)),
        width::text_width(glyph_of(width, state)),
        width::text_width(marker_of(related, pinned)),
    );
    let meta = meta_of(width, state, agent);
    let gap = meta.len() > 0 && remaining > width::text_width(meta);
    (
        left_after(
            remaining,
            width::text_width(meta),
            if gap {
                1
            } else {
                0
            },
            0,
        ),
        gap,
    )
}

/// A live row before it is cut: number, glyph, marker, name with context, and
/// agent with state at the right.
pub open spec fn stateful_spans(
    row: RowModel,
    width: usize,
    number: Option<usize>,
    state: AgentState,
    agent: Option<Seq<char>>,
    name: Seq<char>,
    related: bool,
    pinned: bool,
) -> Seq<SpanModel> {
    let prefix = number_prefix(number);
    let (budget, gap) = body_room(width, number, state, agent, related, pinned);
    when(prefix.len() > 0, style::span(prefix, style::strong(Color::Subtext0))) + seq![style::span(
        glyph_of(width, state),
        style::colored(color_of(state)),
    )] + when(
        pinned || related,
        style::span(
            marker_of(related, pinned),
            style::colored(
                if pinned {
                    Color::Mauve
                } else {
                    Color::Sky
                },
            ),
        ),
    ) + filled_body(row, name, budget, related, pinned) + when(
        gap,
        style::span(" "@, style::plain()),
    ) + meta_spans_of(meta_of(width, state, agent), agent is Some, color_of(state))
}

/// The words and the signs of states are simple.
proof fn lemma_simple_state(state: AgentState)
    ensures
        width::simple(state.name()),
        width::simple(state.symbol() + " "@),
{
    reveal_strlit("blocked");
    reveal_strlit("working");
    reveal_strlit("done");
    reveal_strlit("idle");
    reveal_strlit("unknown");
    reveal_strlit("●");
    reveal_strlit("◐");
    reveal_strlit("✓");
    reveal_strlit("○");
    reveal_strlit("·");
    reveal_strlit(" ");
    width::lemma_simple_join(state.symbol(), " "@);
}

/// The words at the end of a live row.
fn meta_text(width: usize, state: AgentState, agent: Option<&str>) -> (meta: String)
    ensures
        meta@ == meta_of(width, state, model::borrowed(agent)),
        maybe_simple(model::borrowed(agent)) ==> width::simple(meta@),
{
    proof {
        lemma_simple_state(state);
        reveal_strlit(" · ");
        if let Some(agent) = model::borrowed(agent) {
            if width::simple(agent) {
                width::lemma_simple_join(agent, " · "@);
                width::lemma_simple_join(agent + " · "@, state.name());
            }
        }
    }
    if width < 30 {
        return String::new();
    }
    let full = match agent {
        Some(agent) => {
            let mut full = text::joined(agent, " · ");
            full.append(state.word());
            full
        },
        None => state.word().to_string(),
    };
    let limit: usize = if width / 3 <= 20 {
        width / 3
    } else {
        20
    };
    width::truncate_to_width(full.as_str(), limit)
}

/// The number in front of a row.
fn prefix_text(number: Option<usize>) -> (prefix: String)
    ensures
        prefix@ == number_prefix(number),
        width::simple(prefix@),
{
    proof {
        reveal_strlit(" ");
        reveal_strlit("");
        if let Some(number) = number {
            width::lemma_simple_decimal(number as nat);
            width::lemma_simple_join(text::decimal(number as nat), " "@);
        }
    }
    match number {
        Some(number) => text::joined(text::number_text(number).as_str(), " "),
        None => "".to_string(),
    }
}

/// The glyph of a live row.
fn glyph_text(width: usize, state: AgentState) -> (glyph: String)
    ensures
        glyph@ == glyph_of(width, state),
        width::simple(glyph@),
{
    proof {
        lemma_simple_state(state);
    }
    let room: usize = if width <= GLYPH_W {
        width
    } else {
        GLYPH_W
    };
    width::truncate_to_width(text::joined(state.glyph(), " ").as_str(), room)
}

/// The marker of a row.
fn marker_text(related: bool, pinned: bool) -> (marker: String)
    ensures
        marker@ == marker_of(related, pinned),
        width::simple(marker@),
{
    proof {
        reveal_strlit("● ");
        reveal_strlit("↳ ");
        reveal_strlit("");
    }
    if pinned {
        "● ".to_string()
    } else if related {
        "↳ ".to_string()
    } else {
        "".to_string()
    }
}

/// The columns for a live row's body and whether a gap follows it.
fn room_for_body(
    width: usize,
    number: Option<usize>,
    state: AgentState,
    agent: Option<&str>,
    related: bool,
    pinned: bool,
) -> (room: (usize, bool))
    ensures
        room == body_room(width, number, state, model::borrowed(agent), related, pinned),
{
    let prefix = prefix_text(number);
    let glyph = glyph_text(width, state);
    let marker = marker_text(related, pinned);
    let meta = meta_text(width, state, agent);
    let remaining: usize = width.saturating_sub(
        width::display_width(prefix.as_str()),
    ).saturating_sub(width::display_width(glyph.as_str())).saturating_sub(
        width::display_width(marker.as_str()),
    );
    let meta_width: usize = width::display_width(meta.as_str());
    let gap = !meta.as_str().is_empty() && remaining > meta_width;
    let taken: usize = if gap {
        1
    } else {
        0
    };
    (remaining.saturating_sub(meta_width).saturating_sub(taken), gap)
}

/// A live row: optional quick-jump number, state glyph, bold name, muted context,
/// and agent and state at the right.
pub fn stateful_line(
    row: &Row,
    width: usize,
    number: Option<usize>,
    state: AgentState,
    agent: Option<&str>,
    name: &str,
    related: bool,
    pinned: bool,
) -> (line: Line)
    ensures
        line@ == style::cut_spans(
            stateful_spans(
                row@,
                width,
                number,
                state,
                model::borrowed(agent),
                name@,
                related,
                pinned,
            ),
            width,
        ),
        simple_row(row@) && width::simple(name@) && maybe_simple(model::borrowed(agent))
            ==> style::spans_columns(line@) <= width,
{
    let ghost fine = simple_row(row@) && width::simple(name@) && maybe_simple(
        model::borrowed(agent),
    );
    let (budget, gap) = room_for_body(width, number, state, agent, related, pinned);
    let color = state_color(state);
    let prefix = prefix_text(number);
    let mut spans: Vec<Span> = Vec::new();
    let ghost head = when(
        prefix@.len() > 0,
        style::span(prefix@, style::strong(Color::Subtext0)),
    );
    if !prefix.as_str().is_empty() {
        spans.push(Span::styled(prefix, Style::bold(Color::Subtext0)));
    }
    assert(text::views(spans@) =~= head);
    assert(style::simple_spans(text::views(spans@)));
    let glyph = glyph_text(width, state);
    let ghost shape = style::span(glyph@, style::colored(color));
    spans.push(Span::styled(glyph, Style::fg(color)));
    assert(text::views(spans@) =~= head + seq![shape]);
    assert(style::simple_spans(text::views(spans@)));
    let ghost before = text::views(spans@);
    let marker_color = if pinned {
        Color::Mauve
    } else {
        Color::Sky
    };
    let ghost mark = when(
        pinned || related,
        style::span(marker_of(related, pinned), style::colored(marker_color)),
    );
    if pinned || related {
        spans.push(Span::styled(marker_text(related, pinned), Style::fg(marker_color)));
    }
    assert(text::views(spans@) =~= before + mark);
    assert(style::simple_spans(text::views(spans@)));
    let body = fill_body(row, name, budget, related, pinned);
    proof {
        if fine {
            style::lemma_simple_spans_join(text::views(spans@), text::views(body@));
        }
    }
    style::push_spans(&mut spans, body);
    let ghost before = text::views(spans@);
    if gap {
        spans.push(Span::raw(" ".to_string()));
    }
    assert(text::views(spans@) =~= before + when(gap, style::span(" "@, style::plain())));
    let meta = meta_spans(meta_text(width, state, agent), agent.is_some(), color);
    proof {
        reveal_strlit(" ");
        if fine {
            let space = when(gap, style::span(" "@, style::plain()));
            style::lemma_simple_spans_join(before, space);
            style::lemma_simple_spans_join(text::views(spans@), text::views(meta@));
        }
    }
    style::push_spans(&mut spans, meta);
    Line { spans: style::truncate_spans(spans, width) }
}

/// The name that a row goes by: a live workspace by the label of its space.
pub open spec fn shown_name(row: RowModel) -> Seq<char> {
    if row.kind is Open && row.space is Some {
        row.space->0.label
    } else {
        row.name
    }
}

/// A project row before it is cut.
pub open spec fn dormant_spans(
    row: RowModel,
    width: usize,
    related: bool,
    pinned: bool,
) -> Seq<SpanModel> {
    let marker = if pinned || related {
        marker_of(related, pinned)
    } else {
        "  "@
    };
    let glyph = width::truncated(
        marker,
        if width <= GLYPH_W {
            width
        } else {
            GLYPH_W
        },
    );
    seq![style::span(
        glyph,
        if pinned {
            style::colored(Color::Mauve)
        } else if related {
            style::colored(Color::Sky)
        } else {
            style::plain()
        },
    )] + body_of(
        row.name,
        row.display,
        width::columns_left(width, width::text_width(glyph)) as usize,
        style::colored(
            if related {
                Color::Sky
            } else {
                Color::Fg
            },
        ),
        style::colored(
            if related {
                Color::Sapphire
            } else {
                Color::Muted
            },
        ),
    )
}

/// A row before it is cut.
pub open spec fn row_spans(
    row: RowModel,
    width: usize,
    number: Option<usize>,
    related: bool,
    pinned: bool,
) -> Seq<SpanModel> {
    match row.kind {
        KindModel::Open { state, agent, .. } => stateful_spans(
            row,
            width,
            number,
            state,
            agent,
            shown_name(row),
            related,
            pinned,
        ),
        KindModel::Tab { state, agent, .. } => stateful_spans(
            row,
            width,
            number,
            state,
            agent,
            row.name,
            related,
            pinned,
        ),
        KindModel::Pane { state, agent, .. } => stateful_spans(
            row,
            width,
            number,
            state,
            agent,
            row.name,
            related,
            pinned,
        ),
        KindModel::Dormant => dormant_spans(row, width, related, pinned),
    }
}

/// A row on a line of the given width.
pub open spec fn row_of(
    row: RowModel,
    width: usize,
    number: Option<usize>,
    related: bool,
    pinned: bool,
) -> Seq<SpanModel> {
    style::cut_spans(row_spans(row, width, number, related, pinned), width)
}

/// A project row.
fn dormant_line(row: &Row, width: usize, related: bool, pinned: bool) -> (line: Line)
    ensures
        line@ == style::cut_spans(dormant_spans(row@, width, related, pinned), width),
        simple_row(row@) ==> style::spans_columns(line@) <= width,
{
    proof {
        reveal_strlit("  ");
    }
    let marker = if pinned || related {
        marker_text(related, pinned)
    } else {
        "  ".to_string()
    };
    let room: usize = if width <= GLYPH_W {
        width
    } else {
        GLYPH_W
    };
    let glyph = width::truncate_to_width(marker.as_str(), room);
    let budget: usize = width.saturating_sub(width::display_width(glyph.as_str()));
    let glyph_style = if pinned {
        Style::fg(Color::Mauve)
    } else if related {
        Style::fg(Color::Sky)
    } else {
        Style::plain()
    };
    let name_color = if related {
        Color::Sky
    } else {
        Color::Fg
    };
    let path_color = if related {
        Color::Sapphire
    } else {
        Color::Muted
    };
    let mut spans: Vec<Span> = Vec::new();
    let ghost first = style::span(glyph@, glyph_style);
    spans.push(Span::styled(glyph, glyph_style));
    assert(text::views(spans@) =~= seq![first]);
    let body = body_spans(
        row.name.as_str(),
        row.display.as_str(),
        budget,
        Style::fg(name_color),
        Style::fg(path_color),
    );
    proof {
        if simple_row(row@) {
            style::lemma_simple_spans_join(seq![first], text::views(body@));
        }
    }
    style::push_spans(&mut spans, body);
    Line { spans: style::truncate_spans(spans, width) }
}

/// A row on a line of the given width, without relation to another. A simple row
/// never takes more columns than its line has.
pub fn row_line(row: &Row, width: usize, number: Option<usize>) -> (line: Line)
    ensures
        line@ == row_of(row@, width, number, false, false),
        simple_row(row@) ==> style::spans_columns(line@) <= width,
{
    row_line_with_relation(row, width, number, false, false)
}

/// A row on a line of the given width. Live workspaces carry their quick-jump
/// number; a row may be the anchor of a relation, or related to it. A simple row
/// never takes more columns than its line has.
pub fn row_line_with_relation(
    row: &Row,
    width: usize,
    number: Option<usize>,
    related: bool,
    pinned: bool,
) -> (line: Line)
    ensures
        line@ == row_of(row@, width, number, related, pinned),
        simple_row(row@) ==> style::spans_columns(line@) <= width,
{
    if width == 0 {
        let line = Line { spans: Vec::new() };
        assert(line@ =~= Seq::empty());
        return line;
    }
    match &row.kind {
        Kind::Open { state, agent, .. } => {
            let name = match &row.space {
                Some(space) => space.label.as_str(),
                None => row.name.as_str(),
            };
            stateful_line(row, width, number, *state, model::lent(agent), name, related, pinned)
        },
        Kind::Tab { state, agent, .. } => stateful_line(
            row,
            width,
            number,
            *state,
            model::lent(agent),
            row.name.as_str(),
            related,
            pinned,
        ),
        Kind::Pane { state, agent, .. } => stateful_line(
            row,
            width,
            number,
            *state,
            model::lent(agent),
            row.name.as_str(),
            related,
            pinned,
        ),
        Kind::Dormant => dormant_line(row, width, related, pinned),
    }
}

/// Whether no line takes more columns than the list has.
pub open spec fn lines_fit(items: Seq<ListItemModel>, width: usize) -> bool {
    forall|k: int|
        0 <= k < items.len() ==> style::spans_columns((#[trigger] items[k]).spans) <= width
}

/// The title of a section.
pub open spec fn section_label(group: u8) -> Seq<char> {
    if group == 0 {
        "OPEN"@
    } else if group == 1 {
        "TABS"@
    } else if group == 2 {
        "PANES"@
    } else {
        "PROJECTS"@
    }
}

/// What follows the title of a section, unless all its rows are in one space.
pub open spec fn section_suffix(group: u8) -> Seq<char> {
    if group == 0 {
        "LIVE WORKSPACES"@
    } else if group == 1 {
        "OPEN WORKSPACES"@
    } else if group == 2 {
        "RENAMED"@
    } else {
        "NOT OPEN YET"@
    }
}

/// The color of a title.
pub open spec fn title_color(label: Seq<char>) -> Color {
    if label == "OPEN"@ {
        Color::Mauve
    } else if label == "TABS"@ {
        Color::Peach
    } else if label == "PANES"@ {
        Color::Teal
    } else if label == "PROJECTS"@ {
        Color::Sky
    } else {
        Color::Subtext0
    }
}

/// The color of a title.
pub fn header_color(label: &str) -> (color: Color)
    ensures
        color == title_color(label@),
{
    if text::same(label, "OPEN") {
        Color::Mauve
    } else if text::same(label, "TABS") {
        Color::Peach
    } else if text::same(label, "PANES") {
        Color::Teal
    } else if text::same(label, "PROJECTS") {
        Color::Sky
    } else {
        Color::Subtext0
    }
}

/// A title line.
pub open spec fn header_of(label: Seq<char>, suffix: Seq<char>, width: usize) -> ListItemModel {
    ListItemModel {
        spans: style::cut_spans(
            seq![
                style::span("── "@ + label + " "@, style::strong(title_color(label))),
                style::span("— "@ + suffix, style::colored(Color::Overlay1)),
            ],
            width,
        ),
        style: style::plain(),
    }
}

/// A title line.
pub fn header_item(label: &str, suffix: &str, width: usize) -> (item: ListItem)
    ensures
        item@ == header_of(label@, suffix@, width),
        width::simple(label@) && width::simple(suffix@) ==> style::spans_columns(item@.spans)
            <= width,
{
    proof {
        reveal_strlit("── ");
        reveal_strlit(" ");
        reveal_strlit("— ");
        if width::simple(label@) && width::simple(suffix@) {
            width::lemma_simple_join("── "@, label@);
            width::lemma_simple_join("── "@ + label@, " "@);
            width::lemma_simple_join("— "@, suffix@);
        }
    }
    let mut title = text::joined("── ", label);
    title.append(" ");
    let mut spans: Vec<Span> = Vec::new();
    spans.push(Span::styled(title, Style::bold(header_color(label))));
    spans.push(Span::styled(text::joined("— ", suffix), Style::fg(Color::Overlay1)));
    assert(text::views(spans@) =~= seq![
        style::span("── "@ + label@ + " "@, style::strong(title_color(label@))),
        style::span("— "@ + suffix@, style::colored(Color::Overlay1)),
    ]);
    ListItem { line: Line { spans: style::truncate_spans(spans, width) }, style: Style::plain() }
}

/// What a space is shown by.
pub open spec fn space_key(space: SpaceModel) -> (Seq<char>, Option<Seq<char>>) {
    (space.label, space.disambiguator)
}

/// The keys of spaces.
pub open spec fn space_keys(spaces: Seq<SpaceModel>) -> Seq<(Seq<char>, Option<Seq<char>>)> {
    Seq::new(spaces.len(), |i: int| space_key(spaces[i]))
}

/// The spaces of a section among the first `n` shown rows, each where it first
/// comes.
pub open spec fn spaces_of(
    rows: Seq<RowModel>,
    filtered: Seq<int>,
    group: u8,
    n: nat,
) -> Seq<SpaceModel>
    decreases n,
{
    if n == 0 {
        Seq::empty()
    } else {
        let before = spaces_of(rows, filtered, group, (n - 1) as nat);
        let row = rows[filtered[n - 1]];
        if row.kind.section() == group && row.space is Some && !space_keys(before).contains(
            space_key(row.space->0),
        ) {
            before.push(row.space->0)
        } else {
            before
        }
    }
}

/// Whether the label and the disambiguator of a space are simple.
pub open spec fn simple_space(space: SpaceModel) -> bool {
    width::simple(space.label) && maybe_simple(space.disambiguator)
}

/// The spaces of simple rows are simple.
proof fn lemma_simple_spaces(
    rows: Seq<RowModel>,
    filtered: Seq<int>,
    group: u8,
    n: nat,
)
    requires
        n <= filtered.len(),
        forall|i: int| 0 <= i < filtered.len() ==> simple_row(rows[#[trigger] filtered[i]]),
    ensures
        forall|i: int|
            0 <= i < spaces_of(rows, filtered, group, n).len() ==> simple_space(
                #[trigger] spaces_of(rows, filtered, group, n)[i],
            ),
    decreases n,
{
    if n > 0 {
        let before = spaces_of(rows, filtered, group, (n - 1) as nat);
        let after = spaces_of(rows, filtered, group, n);
        lemma_simple_spaces(rows, filtered, group, (n - 1) as nat);
        assert(simple_row(rows[filtered[n - 1]]));
        assert forall|i: int| 0 <= i < after.len() implies simple_space(#[trigger] after[i]) by {
            if i < before.len() {
                assert(after[i] == before[i]);
            }
        }
    }
}

/// Whether a space is among others.
fn knows_space(spaces: &Vec<SpaceContext>, space: &SpaceContext) -> (found: bool)
    ensures
        found == space_keys(text::views(spaces@)).contains(space_key(space@)),
{
    let ghost keys = space_keys(text::views(spaces@));
    let mut i: usize = 0;
    while i < spaces.len()
        invariant
            i <= spaces@.len(),
            keys == space_keys(text::views(spaces@)),
            forall|k: int| 0 <= k < i ==> #[trigger] keys[k] != space_key(space@),
        decreases spaces@.len() - i,
    {
        assert(keys[i as int] == space_key(spaces@[i as int]@));
        if text::same(spaces[i].label.as_str(), space.label.as_str()) && search::same_optional(
            &spaces[i].disambiguator,
            &space.disambiguator,
        ) {
            return true;
        }
        i += 1;
    }
    false
}

/// The spaces of a section, each where it first comes.
pub fn section_spaces(rows: &[Row], filtered: &[usize], group: u8) -> (spaces: Vec<SpaceContext>)
    requires
        forall|i: int| 0 <= i < filtered@.len() ==> #[trigger] filtered@[i] < rows@.len(),
    ensures
        text::views(spaces@) == spaces_of(
            text::views(rows@),
            order::positions(filtered@),
            group,
            filtered@.len(),
        ),
{
    let ghost all = text::views(rows@);
    let ghost shown = order::positions(filtered@);
    let mut spaces: Vec<SpaceContext> = Vec::new();
    let mut i: usize = 0;
    assert(text::views(spaces@) =~= Seq::empty());
    while i < filtered.len()
        invariant
            i <= filtered@.len(),
            all == text::views(rows@),
            shown == order::positions(filtered@),
            forall|k: int| 0 <= k < filtered@.len() ==> #[trigger] filtered@[k] < rows@.len(),
            text::views(spaces@) == spaces_of(all, shown, group, i as nat),
        decreases filtered@.len() - i,
    {
        let row = &rows[filtered[i]];
        assert(all[shown[i as int]] == row@);
        if search::section(&row.kind) == group {
            if let Some(space) = &row.space {
                if !knows_space(&spaces, space) {
                    spaces.push(space.clone());
                }
            }
        }
        i += 1;
    }
    spaces
}

/// The title line of a space.
pub open spec fn space_header_of(space: SpaceModel, width: usize) -> ListItemModel {
    ListItemModel {
        spans: style::cut_spans(
            seq![
                style::span("  ↳ SPACE · "@, style::strong(Color::Sapphire)),
                style::span(space.label, style::strong(Color::Fg)),
            ] + (match space.disambiguator {
                Some(disambiguator) => seq![style::span(
                    " · "@ + disambiguator,
                    style::colored(Color::Base),
                )],
                None => Seq::empty(),
            }),
            width,
        ),
        style: style::plain(),
    }
}

/// The title line of a space.
pub fn space_header_item(space: &SpaceContext, width: usize) -> (item: ListItem)
    ensures
        item@ == space_header_of(space@, width),
        simple_space(space@) ==> style::spans_columns(item@.spans) <= width,
{
    proof {
        reveal_strlit("  ↳ SPACE · ");
        reveal_strlit(" · ");
        if space@.disambiguator is Some && maybe_simple(space@.disambiguator) {
            width::lemma_simple_join(" · "@, space@.disambiguator->0);
        }
    }
    let mut spans: Vec<Span> = Vec::new();
    spans.push(Span::styled("  ↳ SPACE · ".to_string(), Style::bold(Color::Sapphire)));
    spans.push(Span::styled(space.label.clone(), Style::bold(Color::Fg)));
    let ghost head = seq![
        style::span("  ↳ SPACE · "@, style::strong(Color::Sapphire)),
        style::span(space.label@, style::strong(Color::Fg)),
    ];
    assert(text::views(spans@) =~= head);
    if let Some(disambiguator) = &space.disambiguator {
        spans.push(
            Span::styled(text::joined(" · ", disambiguator.as_str()), Style::fg(Color::Base)),
        );
        assert(text::views(spans@) =~= head + seq![style::span(
            " · "@ + disambiguator@,
            style::colored(Color::Base),
        )]);
    } else {
        assert(text::views(spans@) =~= head + Seq::empty());
    }
    ListItem { line: Line { spans: style::truncate_spans(spans, width) }, style: Style::plain() }
}

/// A list as it is built up, row by row.
#[verifier::ext_equal]
pub struct Listing {
    /// The lines.
    pub items: Seq<ListItemModel>,
    /// For each line the shown row that it stands for; none for titles.
    pub positions: Seq<Option<int>>,
    /// The line of the selected row.
    pub selected_position: int,
    /// The section of the last row.
    pub last_group: Option<u8>,
    /// The space of the last space title in this section.
    pub last_space: Option<(Seq<char>, Option<Seq<char>>)>,
    /// How many live workspaces there were.
    pub open_count: nat,
}

/// Everything that a list is made from.
#[verifier::ext_equal]
pub struct ListSource {
    pub rows: Seq<RowModel>,
    pub filtered: Seq<int>,
    pub selected: int,
    pub width: usize,
    pub anchor: Option<RowIdModel>,
}

/// The first row with an identity, from `i` on.
pub open spec fn row_with(rows: Seq<RowModel>, id: RowIdModel, i: int) -> Option<int>
    decreases rows.len() - i,
{
    if i < 0 || i >= rows.len() {
        None
    } else if rows[i].id().same(id) {
        Some(i)
    } else {
        row_with(rows, id, i + 1)
    }
}

impl ListSource {
    /// The spaces of a section. Only tabs and panes are told apart by space.
    pub open spec fn spaces(self, group: u8) -> Seq<SpaceModel> {
        if group == 1 || group == 2 {
            spaces_of(self.rows, self.filtered, group, self.filtered.len())
        } else {
            Seq::empty()
        }
    }

    /// The row that others are related to: the anchor, or else the selected one.
    pub open spec fn active(self) -> Option<RowModel> {
        let anchored = match self.anchor {
            Some(id) => row_with(self.rows, id, 0),
            None => None,
        };
        match anchored {
            Some(i) => Some(self.rows[i]),
            None => if 0 <= self.selected < self.filtered.len() {
                Some(self.rows[self.filtered[self.selected]])
            } else {
                None
            },
        }
    }

    /// What follows the title of a section.
    pub open spec fn suffix(self, group: u8) -> Seq<char> {
        let spaces = self.spaces(group);
        if spaces.len() == 1 {
            match spaces[0].disambiguator {
                Some(disambiguator) => "IN "@ + spaces[0].label + " · "@ + disambiguator,
                None => "IN SPACE "@ + spaces[0].label,
            }
        } else {
            section_suffix(group)
        }
    }

    /// A listing with the title of a section, where a new one begins.
    pub open spec fn with_header(self, listing: Listing, group: u8) -> Listing {
        if listing.last_group == Some(group) {
            listing
        } else {
            Listing {
                items: listing.items.push(
                    header_of(section_label(group), self.suffix(group), self.width),
                ),
                positions: listing.positions.push(None),
                last_group: Some(group),
                last_space: None,
                ..listing
            }
        }
    }

    /// A listing with the title of a space, where a new one begins in a section
    /// of several.
    pub open spec fn with_space(self, listing: Listing, row: RowModel) -> Listing {
        if self.spaces(row.kind.section()).len() > 1 && row.space is Some && listing.last_space
            != Some(space_key(row.space->0)) {
            Listing {
                items: listing.items.push(space_header_of(row.space->0, self.width)),
                positions: listing.positions.push(None),
                last_space: Some(space_key(row.space->0)),
                ..listing
            }
        } else {
            listing
        }
    }

    /// Whether a row is the anchor.
    pub open spec fn is_pinned(self, row: RowModel) -> bool {
        self.anchor is Some && row.id().same(self.anchor->0)
    }

    /// Whether a row is related to the active one.
    pub open spec fn is_linked(self, row: RowModel) -> bool {
        !self.is_pinned(row) && self.active() is Some && model::related(self.active()->0, row)
    }

    /// The quick-jump number of a row: 1 to 9, then 0, for the first ten live
    /// workspaces.
    pub open spec fn number(self, listing: Listing, row: RowModel) -> Option<usize> {
        if row.kind.section() == 0 && listing.open_count <= 9 {
            Some(((listing.open_count + 1) % 10) as usize)
        } else {
            None
        }
    }

    /// The line of a row.
    pub open spec fn item(self, listing: Listing, row: RowModel) -> ListItemModel {
        let pinned = self.is_pinned(row);
        let linked = self.is_linked(row);
        ListItemModel {
            spans: row_of(row, self.width, self.number(listing, row), linked, pinned),
            style: if pinned {
                style::over(Color::Mauve, Color::Surface0)
            } else if linked {
                style::over(Color::Sky, Color::Surface0)
            } else {
                style::plain()
            },
        }
    }

    /// A listing with the next shown row.
    pub open spec fn with_row(self, listing: Listing, k: int) -> Listing {
        let row = self.rows[self.filtered[k]];
        let titled = self.with_space(self.with_header(listing, row.kind.section()), row);
        self.with_line(titled, row, k)
    }

    /// A listing with the line of a row, after its titles.
    pub open spec fn with_line(self, titled: Listing, row: RowModel, k: int) -> Listing {
        Listing {
            items: titled.items.push(self.item(titled, row)),
            positions: titled.positions.push(Some(k)),
            selected_position: if k == self.selected {
                titled.items.len() as int
            } else {
                titled.selected_position
            },
            open_count: if row.kind.section() == 0 {
                titled.open_count + 1
            } else {
                titled.open_count
            },
            ..titled
        }
    }

    /// The listing of the first `n` shown rows.
    pub open spec fn listing(self, n: nat) -> Listing
        decreases n,
    {
        if n == 0 {
            Listing {
                items: Seq::empty(),
                positions: Seq::empty(),
                selected_position: 0,
                last_group: None,
                last_space: None,
                open_count: 0,
            }
        } else {
            self.with_row(self.listing((n - 1) as nat), n - 1)
        }
    }
}

/// Positions of shown rows, as integers.
pub open spec fn row_positions(positions: Seq<Option<usize>>) -> Seq<Option<int>> {
    Seq::new(
        positions.len(),
        |i: int|
            match positions[i] {
                Some(k) => Some(k as int),
                None => None,
            },
    )
}

/// Find the first row with an identity.
fn find_row(rows: &[Row], id: &RowId) -> (found: Option<usize>)
    ensures
        match found {
            Some(i) => i < rows@.len() && row_with(text::views(rows@), id@, 0) == Some(i as int),
            None => row_with(text::views(rows@), id@, 0) is None,
        },
{
    let ghost all = text::views(rows@);
    let mut i: usize = 0;
    while i < rows.len()
        invariant
            i <= rows@.len(),
            all == text::views(rows@),
            row_with(all, id@, 0) == row_with(all, id@, i as int),
        decreases rows@.len() - i,
    {
        assert(all[i as int] == rows@[i as int]@);
        if rows[i].id().same(id) {
            return Some(i);
        }
        i += 1;
    }
    None
}

/// What follows the title of a section.
fn suffix_text(spaces: &Vec<SpaceContext>, group: u8, Ghost(source): Ghost<ListSource>) -> (suffix:
    String)
    requires
        text::views(spaces@) == source.spaces(group),
    ensures
        suffix@ == source.suffix(group),
        (forall|i: int|
            0 <= i < source.spaces(group).len() ==> simple_space(
                #[trigger] source.spaces(group)[i],
            )) ==> width::simple(suffix@),
{
    proof {
        reveal_strlit("LIVE WORKSPACES");
        reveal_strlit("OPEN WORKSPACES");
        reveal_strlit("RENAMED");
        reveal_strlit("NOT OPEN YET");
        reveal_strlit("IN ");
        reveal_strlit(" · ");
        reveal_strlit("IN SPACE ");
        let all = source.spaces(group);
        if all.len() == 1 && simple_space(all[0]) {
            let label = all[0].label;
            width::lemma_simple_join("IN SPACE "@, label);
            width::lemma_simple_join("IN "@, label);
            width::lemma_simple_join("IN "@ + label, " · "@);
            if let Some(disambiguator) = all[0].disambiguator {
                width::lemma_simple_join("IN "@ + label + " · "@, disambiguator);
            }
        }
    }
    if spaces.len() == 1 {
        let space = &spaces[0];
        assert(source.spaces(group)[0] == space@);
        return match &space.disambiguator {
            Some(disambiguator) => {
                let mut suffix = text::joined("IN ", space.label.as_str());
                suffix.append(" · ");
                suffix.append(disambiguator.as_str());
                suffix
            },
            None => text::joined("IN SPACE ", space.label.as_str()),
        };
    }
    if group == 0 {
        "LIVE WORKSPACES".to_string()
    } else if group == 1 {
        "OPEN WORKSPACES".to_string()
    } else if group == 2 {
        "RENAMED".to_string()
    } else {
        "NOT OPEN YET".to_string()
    }
}

/// A title line of a section.
fn section_header(
    spaces: &Vec<SpaceContext>,
    group: u8,
    width: usize,
    Ghost(source): Ghost<ListSource>,
) -> (item: ListItem)
    requires
        text::views(spaces@) == source.spaces(group),
        width == source.width,
    ensures
        item@ == header_of(section_label(group), source.suffix(group), source.width),
        (forall|i: int|
            0 <= i < source.spaces(group).len() ==> simple_space(
                #[trigger] source.spaces(group)[i],
            )) ==> style::spans_columns(item@.spans) <= width,
{
    proof {
        reveal_strlit("OPEN");
        reveal_strlit("TABS");
        reveal_strlit("PANES");
        reveal_strlit("PROJECTS");
    }
    let suffix = suffix_text(spaces, group, Ghost(source));
    let label = if group == 0 {
        "OPEN"
    } else if group == 1 {
        "TABS"
    } else if group == 2 {
        "PANES"
    } else {
        "PROJECTS"
    };
    header_item(label, suffix.as_str(), width)
}

/// Whether a space is the one of the last space title.
fn is_last_space(last: &Option<(String, Option<String>)>, space: &SpaceContext) -> (same: bool)
    ensures
        same == (search::key_view(*last) == Some(space_key(space@))),
{
    match last {
        Some(key) => text::same(key.0.as_str(), space.label.as_str()) && search::same_optional(
            &key.1,
            &space.disambiguator,
        ),
        None => false,
    }
}

/// The line of a row.
fn listed_row(
    row: &Row,
    width: usize,
    number: Option<usize>,
    active: Option<&Row>,
    anchor: Option<&RowId>,
    Ghost(source): Ghost<ListSource>,
    Ghost(listing): Ghost<Listing>,
) -> (item: ListItem)
    requires
        width == source.width,
        number == source.number(listing, row@),
        source.active() == (match active {
            Some(active) => Some(active@),
            None => None,
        }),
        source.anchor == (match anchor {
            Some(anchor) => Some(anchor@),
            None => None,
        }),
    ensures
        item@ == source.item(listing, row@),
        simple_row(row@) ==> style::spans_columns(item@.spans) <= width,
{
    let pinned = match anchor {
        Some(anchor) => row.id().same(anchor),
        None => false,
    };
    let linked = !pinned && match active {
        Some(active) => model::is_related(active, row),
        None => false,
    };
    let look = if pinned {
        Style::over(Color::Mauve, Color::Surface0)
    } else if linked {
        Style::over(Color::Sky, Color::Surface0)
    } else {
        Style::plain()
    };
    ListItem { line: row_line_with_relation(row, width, number, linked, pinned), style: look }
}

/// A list being built up, row by row.
struct Builder {
    items: Vec<ListItem>,
    positions: Vec<Option<usize>>,
    selected_position: usize,
    last_group: Option<u8>,
    last_space: Option<(String, Option<String>)>,
    open_count: usize,
}

impl View for Builder {
    type V = Listing;

    closed spec fn view(&self) -> Listing {
        Listing {
            items: text::views(self.items@),
            positions: row_positions(self.positions@),
            selected_position: self.selected_position as int,
            last_group: self.last_group,
            last_space: search::key_view(self.last_space),
            open_count: self.open_count as nat,
        }
    }
}

impl Builder {
    /// An empty list.
    fn new() -> (builder: Builder)
        ensures
            forall|source: ListSource| builder@ == #[trigger] source.listing(0),
    {
        let builder = Builder {
            items: Vec::new(),
            positions: Vec::new(),
            selected_position: 0,
            last_group: None,
            last_space: None,
            open_count: 0,
        };
        assert(text::views(builder.items@) =~= Seq::empty());
        assert(row_positions(builder.positions@) =~= Seq::empty());
        builder
    }

    /// Add the title of a section, where a new one begins.
    fn add_header(
        &mut self,
        spaces: &Vec<SpaceContext>,
        group: u8,
        width: usize,
        Ghost(source): Ghost<ListSource>,
    )
        requires
            text::views(spaces@) == source.spaces(group),
            width == source.width,
        ensures
            final(self)@ == source.with_header(old(self)@, group),
            lines_fit(old(self)@.items, width) && (forall|i: int|
                0 <= i < source.spaces(group).len() ==> simple_space(
                    #[trigger] source.spaces(group)[i],
                )) ==> lines_fit(final(self)@.items, width),
    {
        let ghost start = self@;
        let fresh = match self.last_group {
            Some(last) => last != group,
            None => true,
        };
        if fresh {
            self.items.push(section_header(spaces, group, width, Ghost(source)));
            self.positions.push(None);
            self.last_group = Some(group);
            self.last_space = None;
            assert(row_positions(self.positions@) =~= start.positions.push(None));
        }
    }

    /// Add the title of a space, where a new one begins in a section of several.
    fn add_space(
        &mut self,
        spaces: &Vec<SpaceContext>,
        row: &Row,
        width: usize,
        Ghost(source): Ghost<ListSource>,
    )
        requires
            text::views(spaces@) == source.spaces(row@.kind.section()),
            width == source.width,
        ensures
            final(self)@ == source.with_space(old(self)@, row@),
            lines_fit(old(self)@.items, width) && simple_row(row@) ==> lines_fit(
                final(self)@.items,
                width,
            ),
    {
        let ghost start = self@;
        assert(spaces@.len() == source.spaces(row@.kind.section()).len());
        if spaces.len() > 1 {
            if let Some(space) = &row.space {
                if !is_last_space(&self.last_space, space) {
                    self.items.push(space_header_item(space, width));
                    self.positions.push(None);
                    self.last_space = Some(
                        (space.label.clone(), text::copied(&space.disambiguator)),
                    );
                    assert(row_positions(self.positions@) =~= start.positions.push(None));
                }
            }
        }
    }

    /// Add a row, after its titles.
    fn add_row(
        &mut self,
        row: &Row,
        k: usize,
        selected: usize,
        width: usize,
        active: Option<&Row>,
        anchor: Option<&RowId>,
        Ghost(source): Ghost<ListSource>,
    )
        requires
            old(self)@.open_count < usize::MAX,
            width == source.width,
            selected == source.selected,
            source.active() == (match active {
                Some(active) => Some(active@),
                None => None,
            }),
            source.anchor == (match anchor {
                Some(anchor) => Some(anchor@),
                None => None,
            }),
        ensures
            final(self)@ == source.with_line(old(self)@, row@, k as int),
            lines_fit(old(self)@.items, width) && simple_row(row@) ==> lines_fit(
                final(self)@.items,
                width,
            ),
    {
        let ghost start = self@;
        if k == selected {
            self.selected_position = self.items.len();
        }
        let number: Option<usize> = if search::section(&row.kind) == 0 {
            let number: usize = self.open_count;
            self.open_count += 1;
            if number <= 9 {
                Some((number + 1) % 10)
            } else {
                None
            }
        } else {
            None
        };
        let item = listed_row(row, width, number, active, anchor, Ghost(source), Ghost(start));
        self.items.push(item);
        self.positions.push(Some(k));
        assert(row_positions(self.positions@) =~= start.positions.push(Some(k as int)));
    }
}

/// The list of shown rows, with titles. Returns the lines, the line of the
/// selected row, and for each line the shown row that it stands for. No line of
/// simple rows takes more columns than the list has.
pub fn build(
    rows: &[Row],
    filtered: &[usize],
    selected: usize,
    width: usize,
) -> (list: (Vec<ListItem>, usize, Vec<Option<usize>>))
    requires
        forall|i: int| 0 <= i < filtered@.len() ==> #[trigger] filtered@[i] < rows@.len(),
    ensures
        ({
            let wanted = (ListSource {
                rows: text::views(rows@),
                filtered: order::positions(filtered@),
                selected: selected as int,
                width,
                anchor: None,
            }).listing(filtered@.len());
            &&& text::views(list.0@) == wanted.items
            &&& list.1 == wanted.selected_position
            &&& row_positions(list.2@) == wanted.positions
        }),
        (forall|i: int|
            0 <= i < filtered@.len() ==> simple_row(rows@[#[trigger] filtered@[i] as int]@))
            ==> lines_fit(text::views(list.0@), width),
{
    build_with_anchor(rows, filtered, selected, width, None)
}

/// How a listing has grown: lines and positions go together, and there are at
/// most three lines for a row.
proof fn lemma_listing_size(source: ListSource, n: nat)
    ensures
        source.listing(n).items.len() == source.listing(n).positions.len(),
        source.listing(n).items.len() <= 3 * n,
        source.listing(n).open_count <= n,
    decreases n,
{
    if n > 0 {
        lemma_listing_size(source, (n - 1) as nat);
    }
}

/// The list of shown rows, with titles. The anchor is marked, and the rows that
/// belong with it; without an anchor those that belong with the selected row. No
/// line of simple rows takes more columns than the list has.
pub fn build_with_anchor(
    rows: &[Row],
    filtered: &[usize],
    selected: usize,
    width: usize,
    anchor: Option<&RowId>,
) -> (list: (Vec<ListItem>, usize, Vec<Option<usize>>))
    requires
        forall|i: int| 0 <= i < filtered@.len() ==> #[trigger] filtered@[i] < rows@.len(),
    ensures
        ({
            let wanted = (ListSource {
                rows: text::views(rows@),
                filtered: order::positions(filtered@),
                selected: selected as int,
                width,
                anchor: match anchor {
                    Some(anchor) => Some(anchor@),
                    None => None,
                },
            }).listing(filtered@.len());
            &&& text::views(list.0@) == wanted.items
            &&& list.1 == wanted.selected_position
            &&& row_positions(list.2@) == wanted.positions
        }),
        (forall|i: int|
            0 <= i < filtered@.len() ==> simple_row(rows@[#[trigger] filtered@[i] as int]@))
            ==> lines_fit(text::views(list.0@), width),
{
    let ghost source = ListSource {
        rows: text::views(rows@),
        filtered: order::positions(filtered@),
        selected: selected as int,
        width,
        anchor: match anchor {
            Some(anchor) => Some(anchor@),
            None => None,
        },
    };
    let ghost fine = forall|i: int|
        0 <= i < filtered@.len() ==> simple_row(rows@[#[trigger] filtered@[i] as int]@);
    proof {
        if fine {
            assert forall|i: int| 0 <= i < source.filtered.len() implies simple_row(
                source.rows[#[trigger] source.filtered[i]],
            ) by {
                assert(source.filtered[i] == filtered@[i] as int);
            }
            lemma_simple_spaces(source.rows, source.filtered, 1, filtered@.len());
            lemma_simple_spaces(source.rows, source.filtered, 2, filtered@.len());
        }
    }
    let tab_spaces = section_spaces(rows, filtered, 1);
    let pane_spaces = section_spaces(rows, filtered, 2);
    let no_spaces: Vec<SpaceContext> = Vec::new();
    assert(text::views(no_spaces@) =~= Seq::empty());
    let anchored: Option<usize> = match anchor {
        Some(id) => find_row(rows, id),
        None => None,
    };
    let active: Option<&Row> = match anchored {
        Some(i) => Some(&rows[i]),
        None => if selected < filtered.len() {
            assert(source.filtered[selected as int] == filtered@[selected as int] as int);
            Some(&rows[filtered[selected]])
        } else {
            None
        },
    };
    let mut builder = Builder::new();
    let mut k: usize = 0;
    while k < filtered.len()
        invariant
            k <= filtered@.len(),
            forall|i: int| 0 <= i < filtered@.len() ==> #[trigger] filtered@[i] < rows@.len(),
            source.rows == text::views(rows@),
            source.filtered == order::positions(filtered@),
            source.selected == selected,
            source.width == width,
            source.anchor == (match anchor {
                Some(anchor) => Some(anchor@),
                None => None,
            }),
            source.active() == (match active {
                Some(active) => Some(active@),
                None => None,
            }),
            text::views(tab_spaces@) == source.spaces(1),
            text::views(pane_spaces@) == source.spaces(2),
            text::views(no_spaces@) == source.spaces(0),
            text::views(no_spaces@) == source.spaces(3),
            builder@ == source.listing(k as nat),
            fine ==> lines_fit(builder@.items, width),
            fine ==> forall|i: int|
                0 <= i < filtered@.len() ==> simple_row(rows@[#[trigger] filtered@[i] as int]@),
            fine ==> forall|group: u8, i: int|
                0 <= i < source.spaces(group).len() ==> simple_space(
                    #[trigger] source.spaces(group)[i],
                ),
        decreases filtered@.len() - k,
    {
        proof {
            lemma_listing_size(source, k as nat);
        }
        let row = &rows[filtered[k]];
        assert(source.rows[source.filtered[k as int]] == row@);
        let group: u8 = search::section(&row.kind);
        let spaces = if group == 1 {
            &tab_spaces
        } else if group == 2 {
            &pane_spaces
        } else {
            &no_spaces
        };
        builder.add_header(spaces, group, width, Ghost(source));
        builder.add_space(spaces, row, width, Ghost(source));
        builder.add_row(row, k, selected, width, active, anchor, Ghost(source));
        k += 1;
    }
    (builder.items, builder.selected_position, builder.positions)
}

} // verus!
