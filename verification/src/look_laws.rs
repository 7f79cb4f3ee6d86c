//! What the picker shows, and where.

use vstd::prelude::*;
use crate::lists;
use crate::model;
use crate::model::{AgentState, KindModel, RowModel, SpaceModel};
use crate::render;
use crate::render::ListSource;
use crate::screen;
use crate::refresh::ProjectSourceStatus;
use crate::style;
use crate::style::{Color, SpanModel};
use crate::text;
use crate::width;

verus! {

/// Each state has a sign and a color of its own purpose: what waits for the user is red,
/// what runs is cyan, what is finished is green, and the rest is muted.
pub proof fn states_look_like_what_they_are()
    ensures
        AgentState::Blocked.symbol() == "●"@ && render::color_of(AgentState::Blocked) == Color::Red,
        AgentState::Working.symbol() == "◐"@ && render::color_of(AgentState::Working) == Color::Sky,
        AgentState::Done.symbol() == "✓"@ && render::color_of(AgentState::Done) == Color::Green,
        AgentState::Idle.symbol() == "○"@ && render::color_of(AgentState::Idle) == Color::Muted,
        AgentState::Unknown.symbol() == "·"@ && render::color_of(AgentState::Unknown)
            == Color::Muted,
{
}

/// Names are summed up by the first two and a count of the others; the same name counts
/// once.
pub proof fn names_are_summed_up(a: Seq<char>, b: Seq<char>, names: Seq<Seq<char>>)
    requires
        a != b,
    ensures
        render::summary_of(Seq::empty()) is None,
        render::summary_of(seq![a]) == Some(a),
        render::summary_of(seq![a, a]) == Some(a),
        render::summary_of(seq![a, b]) == Some(a + " · "@ + b),
        lists::distinct(names).len() > 2 ==> render::summary_of(names) == Some(
            lists::distinct(names)[0] + " · "@ + lists::distinct(names)[1] + " +"@ + text::decimal(
                (lists::distinct(names).len() - 2) as nat,
            ),
        ),
{
    let none = Seq::<Seq<char>>::empty();
    assert(seq![a].drop_last() =~= none);
    assert(lists::distinct(none) =~= none);
    assert(lists::distinct(seq![a]) =~= seq![a]);
    assert(seq![a, a].drop_last() =~= seq![a]);
    assert(seq![a][0] == a);
    assert(seq![a].contains(a));
    assert(lists::distinct(seq![a, a]) =~= seq![a]);
    assert(seq![a, b].drop_last() =~= seq![a]);
    assert(!seq![a].contains(b)) by {
        if seq![a].contains(b) {
            let i = choose|i: int| 0 <= i < seq![a].len() && seq![a][i] == b;
            assert(i == 0);
        }
    }
    assert(lists::distinct(seq![a, b]) =~= seq![a, b]);
}

/// Next to a live workspace stand, as far as there are any, what tells its space apart,
/// its panes, its directory and its tabs, in this order.
pub proof fn workspaces_show_what_is_in_them(row: RowModel)
    requires
        row.kind is Open,
        row.display.len() > 0,
        row.space is None || row.space->0.disambiguator is None,
    ensures
        render::summary_of(row.pane_names) is None && render::summary_of(row.tab_names) is None
            ==> render::context_of(row) == row.display,
        render::summary_of(row.pane_names) is Some && render::summary_of(row.tab_names) is None
            ==> render::context_of(row) == "panes: "@ + render::summary_of(row.pane_names)->0
            + " · "@ + row.display,
        render::summary_of(row.pane_names) is None && render::summary_of(row.tab_names) is Some
            ==> render::context_of(row) == row.display + " · "@ + ("tabs: "@ + render::summary_of(
            row.tab_names,
        )->0),
        render::summary_of(row.pane_names) is Some && render::summary_of(row.tab_names) is Some
            ==> render::context_of(row) == "panes: "@ + render::summary_of(row.pane_names)->0
            + " · "@ + row.display + " · "@ + ("tabs: "@ + render::summary_of(row.tab_names)->0),
{
    let parts = render::context_parts(row);
    match (render::summary_of(row.pane_names), render::summary_of(row.tab_names)) {
        (None, None) => {
            assert(parts =~= seq![row.display]);
        },
        (Some(panes), None) => {
            let first = "panes: "@ + panes;
            assert(parts =~= seq![first, row.display]);
            assert(parts.drop_last() =~= seq![first]);
            assert(text::joined_by(seq![first], " · "@) == first);
            assert(parts.last() == row.display);
        },
        (None, Some(tabs)) => {
            let last = "tabs: "@ + tabs;
            assert(parts =~= seq![row.display, last]);
            assert(parts.drop_last() =~= seq![row.display]);
            assert(text::joined_by(seq![row.display], " · "@) == row.display);
            assert(parts.last() == last);
        },
        (Some(panes), Some(tabs)) => {
            let first = "panes: "@ + panes;
            let last = "tabs: "@ + tabs;
            assert(parts =~= seq![first, row.display, last]);
            assert(parts.drop_last() =~= seq![first, row.display]);
            assert(parts.drop_last().drop_last() =~= seq![first]);
            assert(text::joined_by(seq![first], " · "@) == first);
            assert(parts.drop_last().last() == row.display && parts.last() == last);
            assert(text::joined_by(parts.drop_last(), " · "@) == first + " · "@ + row.display);
        },
    }
}

/// A live row begins with its number, where it has one, and the sign of its state in the
/// color of that; then comes the mark of the anchor or of a row related to it.
pub proof fn live_rows_begin_with_their_state(
    row: RowModel,
    width: usize,
    number: Option<usize>,
    state: AgentState,
    agent: Option<Seq<char>>,
    name: Seq<char>,
    related: bool,
    pinned: bool,
)
    requires
        width >= 2,
    ensures
        ({
            let spans = render::stateful_spans(
                row,
                width,
                number,
                state,
                agent,
                name,
                related,
                pinned,
            );
            let from: int = if number is Some {
                1
            } else {
                0
            };
            &&& spans.len() > from
            &&& number is Some ==> spans[0].content == text::decimal(number->0 as nat) + " "@
            &&& spans[from].content == width::truncated(state.symbol() + " "@, 2)
            &&& spans[from].style == style::colored(render::color_of(state))
            &&& pinned ==> spans.len() > from + 1 && spans[from + 1].content == "● "@
            &&& related && !pinned ==> spans.len() > from + 1 && spans[from + 1].content == "↳ "@
        }),
{
    reveal_strlit("");
    if let Some(number) = number {
        lemma_decimal_not_empty(number as nat);
        assert((text::decimal(number as nat) + " "@).len() > 0);
    }
    assert(render::number_prefix(None).len() == 0);
}

proof fn lemma_decimal_not_empty(n: nat)
    ensures
        text::decimal(n).len() > 0,
{
}

/// A live row ends with its agent and its state, where there is room for that.
pub proof fn live_rows_end_with_their_agent(width: usize, state: AgentState, agent: Seq<char>)
    ensures
        width < 30 ==> render::meta_of(width, state, Some(agent)).len() == 0,
        30 <= width < 60 ==> render::meta_of(width, state, Some(agent)) == width::truncated(
            agent + " · "@ + state.name(),
            width / 3,
        ),
        width >= 60 ==> render::meta_of(width, state, Some(agent)) == width::truncated(
            agent + " · "@ + state.name(),
            20,
        ),
        width >= 60 ==> render::meta_of(width, state, None) == width::truncated(state.name(), 20),
{
}

/// A live workspace goes by the label of its space, and every other row by its own name.
pub proof fn rows_go_by_their_names(row: RowModel)
    ensures
        row.kind is Open && row.space is Some ==> render::shown_name(row) == row.space->0.label,
        row.kind is Open && row.space is None ==> render::shown_name(row) == row.name,
        !(row.kind is Open) ==> render::shown_name(row) == row.name,
{
}

/// Spans that fit a line are shown as they are.
pub proof fn what_fits_is_shown_whole(spans: Seq<SpanModel>, i: int, room: usize)
    requires
        0 <= i <= spans.len(),
        style::columns(spans, spans.len()) - style::columns(spans, i as nat) <= room,
        forall|k: int| 0 <= k < spans.len() ==> width::text_width((#[trigger] spans[k]).content) > 0,
    ensures
        style::cut_from(spans, i, room) == spans.skip(i),
    decreases spans.len() - i,
{
    if i < spans.len() {
        lemma_columns_grow(spans, (i + 1) as nat, spans.len());
        let taken = width::text_width(spans[i].content);
        assert(style::columns(spans, (i + 1) as nat) == style::columns(spans, i as nat) + taken);
        assert(taken > 0);
        assert(taken <= room);
        assert(width::truncated(spans[i].content, room) == spans[i].content);
        what_fits_is_shown_whole(spans, i + 1, (room - taken) as usize);
        assert(style::span(spans[i].content, spans[i].style) =~= spans[i]);
        assert(seq![spans[i]] + spans.skip(i + 1) =~= spans.skip(i));
    } else {
        assert(spans.skip(i) =~= Seq::empty());
    }
}

proof fn lemma_columns_grow(spans: Seq<SpanModel>, m: nat, n: nat)
    requires
        m <= n,
    ensures
        style::columns(spans, m) <= style::columns(spans, n),
    decreases n,
{
    if m < n {
        lemma_columns_grow(spans, m, (n - 1) as nat);
    }
}

/// A text of printable ASCII that fits is shown whole; one that does not loses its end
/// and gets an ellipsis, so that it just fits.
pub proof fn long_texts_lose_their_ends(value: Seq<char>, room: usize)
    ensures
        value.len() <= room ==> width::shortened(value, room) == value,
        value.len() > room > 0 ==> {
            let cut = width::shortened(value, room);
            &&& cut.len() == room
            &&& cut.last() == '…'
            &&& cut.take(room - 1) == value.take(room - 1)
        },
        value.len() > 0 ==> width::shortened(value, 0).len() == 0,
{
    reveal_strlit("…");
    if value.len() > room && room > 0 {
        assert(width::shortened(value, room).take(room - 1) =~= value.take(room - 1));
    }
}

/// Each row that is shown adds its line, after the title of its section where that
/// begins, and after the title of its space where that begins in a section of several.
pub proof fn rows_come_under_their_titles(source: ListSource, k: nat)
    requires
        k < source.filtered.len(),
    ensures
        ({
            let row = source.rows[source.filtered[k as int]];
            let before = source.listing(k);
            let after = source.listing(k + 1);
            let section = row.kind.section();
            let opens_section = k == 0 || source.rows[source.filtered[k - 1]].kind.section()
                != section;
            let several = source.spaces(section).len() > 1 && row.space is Some;
            let n = after.items.len();
            &&& n > before.items.len()
            &&& after.items.take(before.items.len() as int) == before.items
            &&& after.positions[n - 1] == Some(k as int)
            &&& source.selected == k ==> after.selected_position == n - 1
            &&& source.selected != k ==> after.selected_position == before.selected_position
            &&& opens_section ==> after.items[before.items.len() as int] == render::header_of(
                match row.kind {
                    KindModel::Open { .. } => "OPEN"@,
                    KindModel::Tab { .. } => "TABS"@,
                    KindModel::Pane { .. } => "PANES"@,
                    KindModel::Dormant => "PROJECTS"@,
                },
                source.suffix(section),
                source.width,
            )
            &&& opens_section && several ==> after.items[n - 2] == render::space_header_of(
                row.space->0,
                source.width,
            )
            &&& !several ==> n == before.items.len() + (if opens_section {
                2int
            } else {
                1
            })
        }),
{
    lemma_last_group(source, k);
    lemma_sizes(source, k);
    let row = source.rows[source.filtered[k as int]];
    let before = source.listing(k);
    let headed = source.with_header(before, row.kind.section());
    let titled = source.with_space(headed, row);
    let after = source.listing(k + 1);
    assert(after.items.take(before.items.len() as int) =~= before.items);
}

proof fn lemma_sizes(source: ListSource, n: nat)
    ensures
        source.listing(n).items.len() == source.listing(n).positions.len(),
    decreases n,
{
    if n > 0 {
        lemma_sizes(source, (n - 1) as nat);
    }
}

proof fn lemma_last_group(source: ListSource, n: nat)
    requires
        n <= source.filtered.len(),
    ensures
        n == 0 ==> source.listing(n).last_group is None,
        n > 0 ==> source.listing(n).last_group == Some(
            source.rows[source.filtered[n - 1]].kind.section(),
        ),
    decreases n,
{
    if n > 0 {
        lemma_last_group(source, (n - 1) as nat);
    }
}

/// A title names its section, and what is in it: the one space that all its rows are of,
/// or else what such rows are.
pub proof fn titles_name_their_sections(source: ListSource, label: Seq<char>, suffix: Seq<char>)
    ensures
        ({
            let spans = render::header_of(label, suffix, source.width).spans;
            spans == style::cut_spans(
                seq![
                    style::span("── "@ + label + " "@, style::strong(render::title_color(label))),
                    style::span("— "@ + suffix, style::colored(Color::Overlay1)),
                ],
                source.width,
            )
        }),
        source.suffix(0) == "LIVE WORKSPACES"@,
        source.suffix(3) == "NOT OPEN YET"@,
        source.spaces(1).len() != 1 ==> source.suffix(1) == "OPEN WORKSPACES"@,
        source.spaces(2).len() != 1 ==> source.suffix(2) == "RENAMED"@,
        source.spaces(1).len() == 1 && source.spaces(1)[0].disambiguator is None ==> source.suffix(
            1,
        ) == "IN SPACE "@ + source.spaces(1)[0].label,
        source.spaces(2).len() == 1 && source.spaces(2)[0].disambiguator is None ==> source.suffix(
            2,
        ) == "IN SPACE "@ + source.spaces(2)[0].label,
        source.spaces(1).len() == 1 && source.spaces(1)[0].disambiguator is Some ==> source.suffix(
            1,
        ) == "IN "@ + source.spaces(1)[0].label + " · "@ + source.spaces(1)[0].disambiguator->0,
{
}

/// The spaces of a section are those of its shown rows, each once.
pub proof fn sections_have_the_spaces_of_their_rows(
    rows: Seq<RowModel>,
    filtered: Seq<int>,
    group: u8,
    n: nat,
    space: SpaceModel,
)
    requires
        n <= filtered.len(),
    ensures
        forall|i: int, j: int|
            0 <= i < j < render::spaces_of(rows, filtered, group, n).len() ==> !same_key(
                #[trigger] render::spaces_of(rows, filtered, group, n)[i],
                #[trigger] render::spaces_of(rows, filtered, group, n)[j],
            ),
        (exists|k: int|
            {
                &&& 0 <= k < n
                &&& rows[#[trigger] filtered[k]].kind.section() == group
                &&& rows[filtered[k]].space is Some
                &&& same_key(rows[filtered[k]].space->0, space)
            }) <==> exists|i: int|
            0 <= i < render::spaces_of(rows, filtered, group, n).len() && same_key(
                #[trigger] render::spaces_of(rows, filtered, group, n)[i],
                space,
            ),
    decreases n,
{
    if n > 0 {
        let m = (n - 1) as nat;
        let before = render::spaces_of(rows, filtered, group, m);
        let after = render::spaces_of(rows, filtered, group, n);
        let row = rows[filtered[n - 1]];
        let keys = render::space_keys(before);
        sections_have_the_spaces_of_their_rows(rows, filtered, group, m, space);
        if row.space is Some {
            sections_have_the_spaces_of_their_rows(rows, filtered, group, m, row.space->0);
        }
        let adds = row.kind.section() == group && row.space is Some && !keys.contains(
            render::space_key(row.space->0),
        );
        assert forall|i: int, j: int| 0 <= i < j < after.len() implies !same_key(
            #[trigger] after[i],
            #[trigger] after[j],
        ) by {
            assert(after[i] == before[i]);
            if j < before.len() {
                assert(after[j] == before[j]);
            } else if same_key(after[i], after[j]) {
                assert(keys[i] == render::space_key(row.space->0));
                assert(keys.contains(keys[i]));
            }
        }
        let known = exists|i: int|
            0 <= i < after.len() && same_key(#[trigger] after[i], space);
        let shown = exists|k: int|
            {
                &&& 0 <= k < n
                &&& rows[#[trigger] filtered[k]].kind.section() == group
                &&& rows[filtered[k]].space is Some
                &&& same_key(rows[filtered[k]].space->0, space)
            };
        if known {
            let i = choose|i: int| 0 <= i < after.len() && same_key(#[trigger] after[i], space);
            if i < before.len() {
                assert(after[i] == before[i]);
                let k = choose|k: int|
                    {
                        &&& 0 <= k < m
                        &&& rows[#[trigger] filtered[k]].kind.section() == group
                        &&& rows[filtered[k]].space is Some
                        &&& same_key(rows[filtered[k]].space->0, space)
                    };
                assert(rows[filtered[k]].kind.section() == group);
            } else {
                assert(rows[filtered[n - 1]].kind.section() == group);
            }
        }
        if shown {
            let k = choose|k: int|
                {
                    &&& 0 <= k < n
                    &&& rows[#[trigger] filtered[k]].kind.section() == group
                    &&& rows[filtered[k]].space is Some
                    &&& same_key(rows[filtered[k]].space->0, space)
                };
            if k < m {
                let i = choose|i: int| 0 <= i < before.len() && same_key(
                    #[trigger] before[i],
                    space,
                );
                assert(after[i] == before[i]);
            } else if adds {
                assert(same_key(after[before.len() as int], space));
            } else {
                let i = choose|i: int| 0 <= i < keys.len() && keys[i] == render::space_key(
                    row.space->0,
                );
                assert(after[i] == before[i]);
                assert(same_key(after[i], space));
            }
        }
    }
}

/// Whether two spaces are shown alike.
pub open spec fn same_key(a: SpaceModel, b: SpaceModel) -> bool {
    a.label == b.label && a.disambiguator == b.disambiguator
}

/// The anchor is marked as such, rows of its workspace or directory as related to it,
/// and without an anchor those related to the selected row; the first ten live
/// workspaces carry the digits 1 to 9 and 0.
pub proof fn rows_carry_their_marks(source: ListSource, listing: render::Listing, row: RowModel)
    ensures
        ({
            let item = source.item(listing, row);
            let pinned = source.anchor is Some && row.id().same(source.anchor->0);
            let linked = !pinned && source.active() is Some && model::related(
                source.active()->0,
                row,
            );
            let number = source.number(listing, row);
            &&& item.spans == render::row_of(row, source.width, number, linked, pinned)
            &&& row.kind is Open && listing.open_count < 9 ==> number == Some(
                (listing.open_count + 1) as usize,
            )
            &&& row.kind is Open && listing.open_count == 9 ==> number == Some(0usize)
            &&& row.kind is Open && listing.open_count > 9 ==> number is None
            &&& !(row.kind is Open) ==> number is None
        }),
        source.anchor is None && 0 <= source.selected < source.filtered.len() ==> source.active()
            == Some(source.rows[source.filtered[source.selected]]),
{
}

/// What an empty list says: that rows or projects are still looked for, what went wrong,
/// that nothing matches, or that there is nothing.
pub proof fn empty_lists_say_why(
    started: bool,
    status: ProjectSourceStatus,
    error: Option<Seq<char>>,
    query: Seq<char>,
)
    ensures
        ({
            let busy = screen::empty_message(true, started, status, error, query).0;
            &&& started && query.len() == 0 ==> busy == "Searching projects…"@
            &&& started && query.len() > 0 ==> busy == "No matches yet — searching projects…"@
            &&& !started && query.len() == 0 ==> busy == "Loading workspaces…"@
            &&& !started && query.len() > 0 ==> busy == "No matches yet — still loading…"@
        }),
        ({
            let still = screen::empty_message(false, started, status, error, query).0;
            &&& error is Some ==> still == error->0
            &&& error is None && query.len() > 0 ==> still == "No matching workspaces or projects"@
            &&& error is None && query.len() == 0 && status is Unavailable ==> still
                == "No projects found; zoxide suggestions unavailable"@
            &&& error is None && query.len() == 0 && !(status is Unavailable) ==> still
                == "No projects found"@
        }),
{
}

/// The title counts live workspaces and projects, and says how the refresh goes.
pub proof fn the_title_counts_rows(open: nat, projects: nat, status: SpanModel)
    ensures
        ({
            let spans = screen::title_spans(open, projects, status);
            &&& spans.len() == 4
            &&& spans[0].content == " "@ + text::decimal(open) + " open"@
            &&& spans[2].content == text::decimal(projects) + " projects"@
            &&& spans[3] == status
        }),
        screen::refresh_status(true, true, false, ProjectSourceStatus::Searching).content
            == " · searching projects "@,
        screen::refresh_status(true, false, false, ProjectSourceStatus::Searching).content
            == " · loading workspaces "@,
        screen::refresh_status(false, false, true, ProjectSourceStatus::Available).content
            == " · refresh failed "@,
        screen::refresh_status(false, false, false, ProjectSourceStatus::Unavailable).content
            == " · zoxide unavailable "@,
        screen::refresh_status(false, false, false, ProjectSourceStatus::Available).content
            == " "@,
{
}

/// The prompt shows what is typed, or a hint where nothing is, and at the right how many
/// rows match.
pub proof fn the_prompt_shows_the_query(query: Seq<char>, matches: nat, width: usize)
    ensures
        screen::prompt_of(query, matches, width) == screen::spread_of(
            seq![
                style::span("› "@, style::strong(Color::Accent)),
                if query.len() == 0 {
                    style::span("type to fuzzy-filter…"@, style::colored(Color::Base))
                } else {
                    style::span(query, style::colored(Color::Fg))
                },
            ],
            seq![
                style::span(text::decimal(matches) + " matches"@, style::colored(Color::Subtext0)),
            ],
            width,
        ),
{
}

/// Enter opens a project and focuses everything else, and the hints say so.
pub proof fn hints_say_what_enter_does(kind: KindModel)
    ensures
        kind is Dormant ==> screen::action_of(kind) == "open project"@,
        !(kind is Dormant) ==> screen::action_of(kind) == "focus"@,
        screen::footer_spans(Some(kind)).len() == 12,
        screen::footer_spans(Some(kind))[0].content == " "@ + "↵"@ + " "@,
        screen::footer_spans(Some(kind))[1].content == " "@ + screen::action_of(kind) + "   "@,
        screen::footer_spans(None).len() == 10,
        screen::footer_spans(None)[0].content == " "@ + "tab"@ + " "@,
{
}

/// The texts of spans put one after the other.
proof fn lemma_plain_text_joined(a: Seq<SpanModel>, b: Seq<SpanModel>, n: nat)
    requires
        n <= b.len(),
    ensures
        style::plain_text(a + b, a.len() + n) == style::plain_text(a, a.len())
            + style::plain_text(b, n),
    decreases n,
{
    if n == 0 {
        lemma_plain_text_of_front(a, b, a.len());
        assert(style::plain_text(a, a.len()) + style::plain_text(b, 0) =~= style::plain_text(
            a,
            a.len(),
        ));
    } else {
        lemma_plain_text_joined(a, b, (n - 1) as nat);
        assert((a + b)[a.len() + n - 1] == b[n - 1]);
        assert(style::plain_text(a, a.len()) + style::plain_text(b, (n - 1) as nat) + b[n
            - 1].content =~= style::plain_text(a, a.len()) + (style::plain_text(
            b,
            (n - 1) as nat,
        ) + b[n - 1].content));
    }
}

proof fn lemma_plain_text_of_front(a: Seq<SpanModel>, b: Seq<SpanModel>, n: nat)
    requires
        n <= a.len(),
    ensures
        style::plain_text(a + b, n) == style::plain_text(a, n),
    decreases n,
{
    if n > 0 {
        lemma_plain_text_of_front(a, b, (n - 1) as nat);
        assert((a + b)[n - 1] == a[n - 1]);
    }
}

proof fn lemma_plain_text_of_one(span: SpanModel)
    ensures
        style::plain_text(seq![span], 1) == span.content,
{
    assert(style::plain_text(seq![span], 0) =~= Seq::<char>::empty());
    assert(Seq::<char>::empty() + span.content =~= span.content);
}

/// Setting the words of a context apart loses and adds nothing: joined, the spans are the
/// context.
pub proof fn words_set_apart_lose_nothing(value: Seq<char>, from: int, look: style::Style)
    requires
        0 <= from <= value.len(),
    ensures
        style::plain_text(
            render::context_from(value, from, look),
            render::context_from(value, from, look).len(),
        ) == value.skip(from),
    decreases value.len() - from,
{
    reveal_strlit("panes:");
    reveal_strlit("tabs:");
    reveal_strlit("folder:");
    let spans = render::context_from(value, from, look);
    if from == value.len() {
        assert(style::plain_text(spans, 0) =~= value.skip(from));
    } else {
        text::lemma_found_is_within(value, render::context_label(0), from);
        text::lemma_found_is_within(value, render::context_label(1), from);
        text::lemma_found_is_within(value, render::context_label(2), from);
        lemma_found_stands(value, render::context_label(0), from);
        lemma_found_stands(value, render::context_label(1), from);
        lemma_found_stands(value, render::context_label(2), from);
        match render::next_label(value, from) {
            None => {
                lemma_plain_text_of_one(style::span(value.skip(from), look));
            },
            Some((at, which)) => {
                let label = render::context_label(which);
                let word = style::span(label, style::colored(Color::Overlay1));
                let lead = if at > from {
                    seq![style::span(value.subrange(from, at), look)]
                } else {
                    Seq::empty()
                };
                let rest = render::context_from(value, at + label.len(), look);
                words_set_apart_lose_nothing(value, at + label.len(), look);
                lemma_plain_text_of_one(word);
                if at > from {
                    lemma_plain_text_of_one(style::span(value.subrange(from, at), look));
                } else {
                    assert(value.subrange(from, at) =~= Seq::empty());
                    assert(style::plain_text(lead, 0) =~= Seq::empty());
                }
                lemma_plain_text_joined(lead, seq![word], 1);
                lemma_plain_text_joined(lead + seq![word], rest, rest.len());
                assert(value.subrange(at, at + label.len()) == label);
                assert(value.subrange(from, at) + label + value.skip((at + label.len()) as int)
                    =~= value.skip(from));
            },
        }
    }
}

proof fn lemma_found_stands(hay: Seq<char>, needle: Seq<char>, i: int)
    ensures
        text::found_at(hay, needle, i) is Some ==> hay.subrange(
            text::found_at(hay, needle, i)->0,
            text::found_at(hay, needle, i)->0 + needle.len(),
        ) == needle,
    decreases hay.len() + 1 - i,
{
    if 0 <= i && i + needle.len() <= hay.len() && hay.subrange(i, i + needle.len()) != needle {
        lemma_found_stands(hay, needle, i + 1);
    }
}

/// A row shows its name and, where there is room and something to show, what belongs to
/// it behind that, cut so that both fit.
pub proof fn rows_show_name_and_context(
    name: Seq<char>,
    path: Seq<char>,
    budget: usize,
    look: style::Style,
    other: style::Style,
)
    ensures
        ({
            let spans = render::body_of(name, path, budget, look, other);
            let room: usize = if budget >= 25 {
                20
            } else {
                (budget - 5) as usize
            };
            &&& budget == 0 ==> spans.len() == 0
            &&& 0 < budget < 14 || (budget > 0 && path.len() == 0) ==> spans.len() == 1
                && spans[0].content == width::truncated(name, budget)
            &&& budget >= 14 && path.len() > 0 ==> {
                &&& spans.len() >= 2
                &&& spans[0].content == width::padded(name, room)
                &&& spans[1].content == " "@
                &&& spans.skip(2) == render::context_from(
                    width::truncated(path, (budget - room - 1) as usize),
                    0,
                    other,
                )
            }
        }),
{
    let spans = render::body_of(name, path, budget, look, other);
    if budget >= 14 && path.len() > 0 {
        let room: usize = if budget >= 25 {
            20
        } else {
            (budget - 5) as usize
        };
        let rest = render::context_from(
            width::truncated(path, (budget - room - 1) as usize),
            0,
            other,
        );
        assert(spans.skip(2) =~= rest);
    }
}

/// Rows of one workspace belong together, and so do a project and what is at its
/// directory; a row does not belong with itself.
pub proof fn rows_of_one_place_belong_together(a: RowModel, b: RowModel)
    ensures
        model::related(a, b) ==> !a.id().same(b.id()),
        !a.id().same(b.id()) && a.kind.workspace() is Some && b.kind.workspace() is Some
            ==> model::related(a, b) == (a.kind.workspace() == b.kind.workspace()),
        !a.id().same(b.id()) && (a.kind is Dormant || b.kind is Dormant) ==> model::related(a, b)
            == crate::paths::same_path(a.path, b.path),
{
}

/// In a section of several spaces a row that follows one of another space comes under the
/// title of its own, and one that follows one of its space does not.
pub proof fn spaces_come_under_their_titles(source: ListSource, k: nat)
    requires
        0 < k < source.filtered.len(),
        ({
            let row = source.rows[source.filtered[k as int]];
            let last = source.rows[source.filtered[k - 1]];
            &&& source.spaces(row.kind.section()).len() > 1
            &&& row.kind.section() == last.kind.section()
            &&& row.space is Some && last.space is Some
        }),
    ensures
        ({
            let row = source.rows[source.filtered[k as int]];
            let last = source.rows[source.filtered[k - 1]];
            let before = source.listing(k).items.len();
            let after = source.listing(k + 1).items;
            if same_key(row.space->0, last.space->0) {
                after.len() == before + 1
            } else {
                after.len() == before + 2 && after[before as int] == render::space_header_of(
                    row.space->0,
                    source.width,
                )
            }
        }),
{
    lemma_last_group(source, k);
    lemma_last_group(source, (k - 1) as nat);
    let last = source.rows[source.filtered[k - 1]];
    assert(source.listing(k).last_space == Some(render::space_key(last.space->0)));
}

/// The text of all spans.
pub open spec fn text_of(spans: Seq<SpanModel>) -> Seq<char> {
    style::plain_text(spans, spans.len())
}

proof fn lemma_text_joined(a: Seq<SpanModel>, b: Seq<SpanModel>)
    ensures
        text_of(a + b) == text_of(a) + text_of(b),
{
    lemma_plain_text_joined(a, b, b.len());
}

proof fn lemma_text_of_when(shown: bool, made: SpanModel)
    ensures
        text_of(render::when(shown, made)) == if shown {
            made.content
        } else {
            Seq::empty()
        },
{
    if shown {
        lemma_plain_text_of_one(made);
    } else {
        assert(text_of(Seq::empty()) =~= Seq::empty());
    }
}

/// A row's name and context read as they are, the name filled up and both cut.
pub proof fn bodies_read_name_and_context(
    name: Seq<char>,
    path: Seq<char>,
    budget: usize,
    look: style::Style,
    other: style::Style,
)
    ensures
        ({
            let room: usize = if budget >= 25 {
                20
            } else {
                (budget - 5) as usize
            };
            let read = text_of(render::body_of(name, path, budget, look, other));
            &&& budget == 0 ==> read.len() == 0
            &&& 0 < budget < 14 || (budget > 0 && path.len() == 0) ==> read == width::truncated(
                name,
                budget,
            )
            &&& budget >= 14 && path.len() > 0 ==> read == width::padded(name, room) + " "@
                + width::truncated(path, (budget - room - 1) as usize)
        }),
{
    let spans = render::body_of(name, path, budget, look, other);
    if budget >= 14 && path.len() > 0 {
        let room: usize = if budget >= 25 {
            20
        } else {
            (budget - 5) as usize
        };
        let shown = width::truncated(path, (budget - room - 1) as usize);
        let first = style::span(width::padded(name, room), look);
        let gap = style::span(" "@, style::plain());
        let rest = render::context_from(shown, 0, other);
        words_set_apart_lose_nothing(shown, 0, other);
        assert(shown.skip(0) =~= shown);
        lemma_plain_text_of_one(first);
        lemma_plain_text_of_one(gap);
        lemma_text_joined(seq![first], seq![gap]);
        assert(seq![first] + seq![gap] =~= seq![first, gap]);
        lemma_text_joined(seq![first, gap], rest);
    } else if budget > 0 {
        lemma_plain_text_of_one(style::span(width::truncated(name, budget), look));
    } else {
        assert(text_of(Seq::empty()) =~= Seq::empty());
    }
}

/// The agent and the state at the end of a row read as they are.
proof fn lemma_meta_reads(meta: Seq<char>, has_agent: bool, color: Color)
    ensures
        text_of(render::meta_spans_of(meta, has_agent, color)) == meta,
{
    let spans = render::meta_spans_of(meta, has_agent, color);
    if meta.len() == 0 {
        assert(text_of(spans) =~= meta);
    } else {
        text::lemma_found_is_within(meta, " · "@, 0);
        lemma_found_stands(meta, " · "@, 0);
        match text::found_at(meta, " · "@, 0) {
            Some(at) => {
                let a = style::span(meta.take(at), style::colored(Color::Mauve));
                let b = style::span(" · "@, style::colored(Color::Overlay1));
                let c = style::span(meta.skip(at + " · "@.len()), style::colored(color));
                lemma_plain_text_of_one(a);
                lemma_plain_text_of_one(b);
                lemma_plain_text_of_one(c);
                lemma_text_joined(seq![a], seq![b]);
                lemma_text_joined(seq![a] + seq![b], seq![c]);
                assert(seq![a] + seq![b] + seq![c] =~= spans);
                assert(meta.take(at) + " · "@ + meta.skip((at + " · "@.len()) as int) =~= meta) by {
                    assert(meta.subrange(at, at + " · "@.len()) == " · "@);
                }
            },
            None => {
                lemma_plain_text_of_one(spans[0]);
                assert(spans =~= seq![spans[0]]);
            },
        }
    }
}

/// A live row reads, from left to right: its number, the sign of its state, its mark, its
/// name and context, filled up to the right, and its agent with its state.
pub proof fn live_rows_read_from_left_to_right(
    row: RowModel,
    width: usize,
    number: Option<usize>,
    state: AgentState,
    agent: Option<Seq<char>>,
    name: Seq<char>,
    related: bool,
    pinned: bool,
)
    ensures
        exists|budget: usize, gap: bool, filling: nat, look: style::Style, other: style::Style|
            #![trigger render::body_of(name, render::context_of(row), budget, look, other),
                width::spaces(filling), render::when(gap, style::span(" "@, style::plain()))]
            {
                let body = render::body_of(name, render::context_of(row), budget, look, other);
                let taken = style::spans_columns(body);
                &&& render::body_room(width, number, state, agent, related, pinned) == (budget, gap)
                &&& taken < budget ==> filling == budget - taken
                &&& taken >= budget ==> filling == 0
                &&& text_of(
                    render::stateful_spans(
                        row,
                        width,
                        number,
                        state,
                        agent,
                        name,
                        related,
                        pinned,
                    ),
                ) == (match number {
                    Some(number) => text::decimal(number as nat) + " "@,
                    None => Seq::empty(),
                }) + width::truncated(
                    state.symbol() + " "@,
                    if width <= 2 {
                        width
                    } else {
                        2
                    },
                ) + (if pinned {
                    "● "@
                } else if related {
                    "↳ "@
                } else {
                    Seq::empty()
                }) + (text_of(body) + width::spaces(filling)) + (if gap {
                    " "@
                } else {
                    Seq::empty()
                }) + render::meta_of(width, state, agent)
            },
{
    reveal_strlit("");
    assert(""@ =~= Seq::empty());
    let (budget, gap) = render::body_room(width, number, state, agent, related, pinned);
    let look = style::strong(
        if pinned {
            Color::Mauve
        } else if related {
            Color::Sky
        } else {
            Color::Fg
        },
    );
    let other = style::colored(
        if related {
            Color::Sapphire
        } else {
            Color::Muted
        },
    );
    let body = render::body_of(name, render::context_of(row), budget, look, other);
    let taken = style::spans_columns(body);
    let filling = if taken < budget {
        (budget - taken) as nat
    } else {
        0
    };
    let filled = render::filled_body(row, name, budget, related, pinned);
    let filler = style::span(width::spaces(filling), style::plain());
    lemma_plain_text_of_one(filler);
    lemma_text_joined(body, seq![filler]);
    assert(body + seq![filler] =~= body.push(filler));
    assert(width::spaces(0) =~= Seq::empty());
    assert(text_of(body) + Seq::<char>::empty() =~= text_of(body));
    assert(text_of(filled) == text_of(body) + width::spaces(filling));
    let prefix = render::number_prefix(number);
    if let Some(number) = number {
        lemma_decimal_not_empty(number as nat);
    }
    let head = render::when(prefix.len() > 0, style::span(prefix, style::strong(Color::Subtext0)));
    let glyph = style::span(
        render::glyph_of(width, state),
        style::colored(render::color_of(state)),
    );
    let mark = render::when(
        pinned || related,
        style::span(
            render::marker_of(related, pinned),
            style::colored(
                if pinned {
                    Color::Mauve
                } else {
                    Color::Sky
                },
            ),
        ),
    );
    let space = render::when(gap, style::span(" "@, style::plain()));
    let meta = render::meta_of(width, state, agent);
    let tail = render::meta_spans_of(meta, agent is Some, render::color_of(state));
    lemma_text_of_when(prefix.len() > 0, style::span(prefix, style::strong(Color::Subtext0)));
    lemma_plain_text_of_one(glyph);
    lemma_text_of_when(
        pinned || related,
        style::span(
            render::marker_of(related, pinned),
            style::colored(
                if pinned {
                    Color::Mauve
                } else {
                    Color::Sky
                },
            ),
        ),
    );
    lemma_text_of_when(gap, style::span(" "@, style::plain()));
    lemma_meta_reads(meta, agent is Some, render::color_of(state));
    lemma_text_joined(head, seq![glyph]);
    lemma_text_joined(head + seq![glyph], mark);
    lemma_text_joined(head + seq![glyph] + mark, filled);
    lemma_text_joined(head + seq![glyph] + mark + filled, space);
    lemma_text_joined(head + seq![glyph] + mark + filled + space, tail);
    assert(text_of(head) =~= match number {
        Some(number) => text::decimal(number as nat) + " "@,
        None => Seq::empty(),
    });
    assert(render::body_of(name, render::context_of(row), budget, look, other) == body);
}

/// A live workspace is drawn by the name that it goes by, a tab and a pane by its own, and
/// each by its own state and agent; a project reads its mark, its name and where it is.
pub proof fn rows_are_drawn_by_their_kind(
    row: RowModel,
    width: usize,
    number: Option<usize>,
    related: bool,
    pinned: bool,
)
    ensures
        row.kind is Open ==> render::row_spans(row, width, number, related, pinned)
            == render::stateful_spans(
            row,
            width,
            number,
            row.kind->Open_state,
            row.kind->Open_agent,
            if row.space is Some {
                row.space->0.label
            } else {
                row.name
            },
            related,
            pinned,
        ),
        row.kind is Tab ==> render::row_spans(row, width, number, related, pinned)
            == render::stateful_spans(
            row,
            width,
            number,
            row.kind->Tab_state,
            row.kind->Tab_agent,
            row.name,
            related,
            pinned,
        ),
        row.kind is Pane ==> render::row_spans(row, width, number, related, pinned)
            == render::stateful_spans(
            row,
            width,
            number,
            row.kind->Pane_state,
            row.kind->Pane_agent,
            row.name,
            related,
            pinned,
        ),
        row.kind is Dormant && width >= 2 ==> {
            let mark = width::truncated(
                if pinned {
                    "● "@
                } else if related {
                    "↳ "@
                } else {
                    "  "@
                },
                2,
            );
            text_of(render::row_spans(row, width, number, related, pinned)) == mark + text_of(
                render::body_of(
                    row.name,
                    row.display,
                    width::columns_left(width, width::text_width(mark)) as usize,
                    style::colored(
                        if related {
                            Color::Sky
                        } else {
                            Color::Fg
                        },
                    ),
                    style::colored(
                        if related {
                            Color::Sapphire
                        } else {
                            Color::Muted
                        },
                    ),
                ),
            )
        },
        render::row_of(row, width, number, related, pinned) == style::cut_spans(
            render::row_spans(row, width, number, related, pinned),
            width,
        ),
{
    if row.kind is Dormant && width >= 2 {
        let mark = width::truncated(
            if pinned {
                "● "@
            } else if related {
                "↳ "@
            } else {
                "  "@
            },
            2,
        );
        let spans = render::row_spans(row, width, number, related, pinned);
        let look = style::colored(
            if related {
                Color::Sky
            } else {
                Color::Fg
            },
        );
        let other = style::colored(
            if related {
                Color::Sapphire
            } else {
                Color::Muted
            },
        );
        let body = render::body_of(
            row.name,
            row.display,
            width::columns_left(width, width::text_width(mark)) as usize,
            look,
            other,
        );
        let first = spans[0];
        assert(render::row_spans(row, width, number, related, pinned) == render::dormant_spans(
            row,
            width,
            related,
            pinned,
        ));
        assert(first.content == mark);
        lemma_plain_text_of_one(first);
        lemma_text_joined(seq![first], body);
        assert(spans =~= seq![first] + body);
        assert(text_of(spans) == mark + text_of(body));
    }
}

/// What stands at the right of a line gets at most a third of it, and what stands at the
/// left the rest, with a blank between.
pub proof fn the_right_gets_a_third(left: Seq<SpanModel>, right: Seq<SpanModel>, width: usize)
    requires
        width > 0,
    ensures
        ({
            let ending = style::cut_spans(right, width / 3);
            let taken = style::spans_columns(ending);
            let blank: int = if 0 < taken < width {
                1
            } else {
                0
            };
            let room = if taken + blank <= width {
                (width - taken - blank) as usize
            } else {
                0
            };
            let beginning = style::cut_spans(left, room);
            let used = style::spans_columns(beginning);
            let between = if used + taken <= width {
                (width - used - taken) as nat
            } else {
                0
            };
            screen::spread_of(left, right, width) == style::cut_spans(
                beginning + seq![style::span(width::spaces(between), style::plain())] + ending,
                width,
            )
        }),
        screen::spread_of(left, right, 0).len() == 0,
{
    let ending = style::cut_spans(right, width / 3);
    let taken = style::spans_columns(ending);
    let room = width::columns_left(
        width::columns_left(width, taken) as usize,
        screen::gap_before(taken, width),
    ) as usize;
    let beginning = style::cut_spans(left, room);
    let between = width::columns_left(
        width::columns_left(width, style::spans_columns(beginning)) as usize,
        taken,
    );
    let filling = style::span(width::spaces(between), style::plain());
    assert(beginning.push(filling) =~= beginning + seq![filling]);
}

/// A row is marked as the anchor when it is the anchor, and as related when it belongs
/// with the anchor, or with the selected row where there is no anchor.
pub proof fn marks_go_by_relation(source: ListSource, row: RowModel)
    ensures
        source.is_pinned(row) <==> source.anchor is Some && row.id().same(source.anchor->0),
        source.is_linked(row) <==> !source.is_pinned(row) && source.active() is Some
            && model::related(source.active()->0, row),
        source.anchor is None && !(0 <= source.selected < source.filtered.len())
            ==> source.active() is None,
{
}

/// The anchor and what is related to it stand out from other lines.
pub proof fn marked_rows_stand_out(source: ListSource, listing: render::Listing, row: RowModel)
    ensures
        source.is_pinned(row) ==> source.item(listing, row).style == style::over(
            Color::Mauve,
            Color::Surface0,
        ),
        !source.is_pinned(row) && source.is_linked(row) ==> source.item(listing, row).style
            == style::over(Color::Sky, Color::Surface0),
        !source.is_pinned(row) && !source.is_linked(row) ==> source.item(listing, row).style
            == style::plain(),
{
}

/// The anchor is looked up among all rows: the first that it names is what others are
/// related to.
pub proof fn the_anchor_is_what_others_relate_to(source: ListSource, k: int)
    requires
        source.anchor is Some,
        0 <= k < source.rows.len(),
        source.rows[k].id().same(source.anchor->0),
        forall|l: int|
            0 <= l < k ==> !(#[trigger] source.rows[l]).id().same(source.anchor->0),
    ensures
        source.active() == Some(source.rows[k]),
{
    lemma_row_with_is(source.rows, source.anchor->0, 0, k);
}

proof fn lemma_row_with_is(rows: Seq<RowModel>, id: model::RowIdModel, i: int, k: int)
    requires
        0 <= i <= k < rows.len(),
        rows[k].id().same(id),
        forall|l: int| i <= l < k ==> !(#[trigger] rows[l]).id().same(id),
    ensures
        render::row_with(rows, id, i) == Some(k),
    decreases k - i,
{
    if i < k {
        assert(!rows[i].id().same(id));
        lemma_row_with_is(rows, id, i + 1, k);
    }
}

/// A span that does not fit a line is cut, and what follows it goes with its end.
pub proof fn what_does_not_fit_ends_the_line(spans: Seq<SpanModel>, room: usize)
    requires
        spans.len() > 0,
        room > 0,
        width::text_width(spans[0].content) > room,
        width::text_width(width::truncated(spans[0].content, room)) <= room,
    ensures
        style::cut_spans(spans, room) == seq![
            style::span(width::truncated(spans[0].content, room), spans[0].style),
        ],
        style::cut_spans(spans, 0).len() == 0,
{
}

/// What tells a workspace's space apart comes first, and rows that are no workspaces show
/// where they are.
pub proof fn contexts_begin_with_what_tells_apart(row: RowModel)
    requires
        row.display.len() > 0,
        render::summary_of(row.tab_names) is None,
    ensures
        row.kind is Open && row.space is Some && row.space->0.disambiguator is Some
            && render::summary_of(row.pane_names) is None ==> render::context_of(row)
            == row.space->0.disambiguator->0 + " · "@ + row.display,
        !(row.kind is Open) ==> render::context_of(row) == row.display,
{
    if row.kind is Open && row.space is Some && row.space->0.disambiguator is Some
        && render::summary_of(row.pane_names) is None {
        let first = row.space->0.disambiguator->0;
        let parts = render::context_parts(row);
        assert(parts =~= seq![first, row.display]);
        assert(parts.drop_last() =~= seq![first]);
        assert(text::joined_by(seq![first], " · "@) == first);
        assert(parts.last() == row.display);
    }
}

/// No two colors look alike.
pub proof fn colors_are_told_apart(a: Color, b: Color)
    requires
        a != b,
    ensures
        a.channels() != b.channels(),
{
}

/// Text stands out from what is behind it: the lightest background is darker in every
/// channel than the dimmest text.
pub proof fn text_stands_out(color: Color)
    ensures
        ({
            let (red, green, blue) = color.channels();
            let behind = color == Color::Base || color == Color::Mantle || color
                == Color::Surface0 || color == Color::Surface1;
            &&& behind ==> red <= 0x45 && green <= 0x47 && blue <= 0x5a
            &&& !behind ==> red >= 0x6c && green >= 0x70 && blue >= 0x86
        }),
{
}

} // verus!
