//! Styled text: what the picker draws, independent of any terminal library.

use vstd::prelude::*;
use crate::text;
use crate::width;

verus! {

broadcast use crate::text::lemma_views_push;

/// Herdr's default Catppuccin Mocha palette, by semantic token.
#[derive(Debug, Clone, Copy, PartialEq, Eq)]
pub enum Color {
    Base,
    Mantle,
    Surface0,
    Surface1,
    Fg,
    Subtext0,
    Muted,
    Overlay1,
    Accent,
    Mauve,
    Sapphire,
    Sky,
    Teal,
    Green,
    Peach,
    Yellow,
    Red,
}

impl Color {
    /// Red, green and blue of a color.
    pub open spec fn channels(self) -> (u8, u8, u8) {
        match self {
            Color::Base => (0x1e, 0x1e, 0x2e),
            Color::Mantle => (0x18, 0x18, 0x25),
            Color::Surface0 => (0x31, 0x32, 0x44),
            Color::Surface1 => (0x45, 0x47, 0x5a),
            Color::Fg => (0xcd, 0xd6, 0xf4),
            Color::Subtext0 => (0xa6, 0xad, 0xc8),
            Color::Muted => (0x6c, 0x70, 0x86),
            Color::Overlay1 => (0x7f, 0x84, 0x9c),
            Color::Accent => (0x89, 0xb4, 0xfa),
            Color::Mauve => (0xcb, 0xa6, 0xf7),
            Color::Sapphire => (0x74, 0xc7, 0xec),
            Color::Sky => (0x89, 0xdc, 0xeb),
            Color::Teal => (0x94, 0xe2, 0xd5),
            Color::Green => (0xa6, 0xe3, 0xa1),
            Color::Peach => (0xfa, 0xb3, 0x87),
            Color::Yellow => (0xf9, 0xe2, 0xaf),
            Color::Red => (0xf3, 0x8b, 0xa8),
        }
    }

    /// Red, green and blue of this color.
    pub fn rgb(self) -> (channels: (u8, u8, u8))
        ensures
            channels == self.channels(),
    {
        match self {
            Color::Base => (0x1e, 0x1e, 0x2e),
            Color::Mantle => (0x18, 0x18, 0x25),
            Color::Surface0 => (0x31, 0x32, 0x44),
            Color::Surface1 => (0x45, 0x47, 0x5a),
            Color::Fg => (0xcd, 0xd6, 0xf4),
            Color::Subtext0 => (0xa6, 0xad, 0xc8),
            Color::Muted => (0x6c, 0x70, 0x86),
            Color::Overlay1 => (0x7f, 0x84, 0x9c),
            Color::Accent => (0x89, 0xb4, 0xfa),
            Color::Mauve => (0xcb, 0xa6, 0xf7),
            Color::Sapphire => (0x74, 0xc7, 0xec),
            Color::Sky => (0x89, 0xdc, 0xeb),
            Color::Teal => (0x94, 0xe2, 0xd5),
            Color::Green => (0xa6, 0xe3, 0xa1),
            Color::Peach => (0xfa, 0xb3, 0x87),
            Color::Yellow => (0xf9, 0xe2, 0xaf),
            Color::Red => (0xf3, 0x8b, 0xa8),
        }
    }
}

/// How a text looks. What is not set comes from what is behind it.
#[derive(Debug, Clone, Copy, PartialEq, Eq)]
pub struct Style {
    pub fg: Option<Color>,
    pub bg: Option<Color>,
    pub bold: bool,
}

/// The look of plain text.
pub open spec fn plain() -> Style {
    Style { fg: None, bg: None, bold: false }
}

/// The look of text in a color.
pub open spec fn colored(color: Color) -> Style {
    Style { fg: Some(color), bg: None, bold: false }
}

/// The look of bold text in a color.
pub open spec fn strong(color: Color) -> Style {
    Style { fg: Some(color), bg: None, bold: true }
}

/// The look of text in a color on another.
pub open spec fn over(color: Color, behind: Color) -> Style {
    Style { fg: Some(color), bg: Some(behind), bold: false }
}

impl Style {
    /// Plain text.
    pub fn plain() -> (style: Style)
        ensures
            style == self::plain(),
    {
        Style { fg: None, bg: None, bold: false }
    }

    /// Text in a color.
    pub fn fg(color: Color) -> (style: Style)
        ensures
            style == colored(color),
    {
        Style { fg: Some(color), bg: None, bold: false }
    }

    /// Bold text in a color.
    pub fn bold(color: Color) -> (style: Style)
        ensures
            style == strong(color),
    {
        Style { fg: Some(color), bg: None, bold: true }
    }

    /// Text in a color on another.
    pub fn over(color: Color, behind: Color) -> (style: Style)
        ensures
            style == self::over(color, behind),
    {
        Style { fg: Some(color), bg: Some(behind), bold: false }
    }
}

/// A text with a look.
#[derive(Debug, PartialEq, Eq)]
pub struct Span {
    pub content: String,
    pub style: Style,
}

/// The view of a [`Span`].
#[verifier::ext_equal]
pub struct SpanModel {
    pub content: Seq<char>,
    pub style: Style,
}

/// A text with a look, as a model.
pub open spec fn span(content: Seq<char>, style: Style) -> SpanModel {
    SpanModel { content, style }
}

impl View for Span {
    type V = SpanModel;

    open spec fn view(&self) -> SpanModel {
        SpanModel { content: self.content@, style: self.style }
    }
}

impl Span {
    /// A text with a look.
    pub fn styled(content: String, style: Style) -> (made: Span)
        ensures
            made@ == span(content@, style),
    {
        Span { content, style }
    }

    /// A text in plain look.
    pub fn raw(content: String) -> (made: Span)
        ensures
            made@ == span(content@, plain()),
    {
        Span { content, style: Style::plain() }
    }
}

/// One line of styled text.
#[derive(Debug, PartialEq, Eq)]
pub struct Line {
    pub spans: Vec<Span>,
}

impl View for Line {
    type V = Seq<SpanModel>;

    open spec fn view(&self) -> Seq<SpanModel> {
        text::views(self.spans@)
    }
}

/// The columns of the first `n` spans.
pub open spec fn columns(spans: Seq<SpanModel>, n: nat) -> nat
    decreases n,
{
    if n == 0 {
        0
    } else {
        columns(spans, (n - 1) as nat) + width::text_width(spans[n - 1].content) as nat
    }
}

/// The columns of spans, as far as a machine integer counts.
pub open spec fn spans_columns(spans: Seq<SpanModel>) -> usize {
    if columns(spans, spans.len()) <= usize::MAX {
        columns(spans, spans.len()) as usize
    } else {
        usize::MAX
    }
}

/// The texts of the first `n` spans, joined.
pub open spec fn plain_text(spans: Seq<SpanModel>, n: nat) -> Seq<char>
    decreases n,
{
    if n == 0 {
        Seq::empty()
    } else {
        plain_text(spans, (n - 1) as nat) + spans[n - 1].content
    }
}

impl Line {
    /// The columns of this line.
    pub fn width(&self) -> (columns: usize)
        ensures
            columns == spans_columns(self@),
    {
        spans_width(&self.spans)
    }

    /// The text of this line without its looks.
    pub fn text(&self) -> (joined: String)
        ensures
            joined@ == plain_text(self@, self@.len()),
    {
        let ghost all = self@;
        let mut joined = String::new();
        let mut i: usize = 0;
        while i < self.spans.len()
            invariant
                i <= self.spans@.len(),
                all == self@,
                joined@ == plain_text(all, i as nat),
            decreases self.spans@.len() - i,
        {
            joined.append(self.spans[i].content.as_str());
            i += 1;
        }
        joined
    }
}

/// A line in a list, with a look of its own behind its spans.
#[derive(Debug, PartialEq, Eq)]
pub struct ListItem {
    pub line: Line,
    pub style: Style,
}

/// The view of a [`ListItem`].
#[verifier::ext_equal]
pub struct ListItemModel {
    pub spans: Seq<SpanModel>,
    pub style: Style,
}

impl View for ListItem {
    type V = ListItemModel;

    open spec fn view(&self) -> ListItemModel {
        ListItemModel { spans: self.line@, style: self.style }
    }
}

/// The columns that spans take.
pub fn spans_width(spans: &Vec<Span>) -> (total: usize)
    ensures
        total == spans_columns(text::views(spans@)),
{
    let ghost all = text::views(spans@);
    let mut total: usize = 0;
    let mut i: usize = 0;
    while i < spans.len()
        invariant
            i <= spans@.len(),
            all == text::views(spans@),
            columns(all, i as nat) <= usize::MAX ==> total == columns(all, i as nat),
            columns(all, i as nat) > usize::MAX ==> total == usize::MAX,
        decreases spans@.len() - i,
    {
        assert(all[i as int] == spans@[i as int]@);
        total = total.saturating_add(width::display_width(spans[i].content.as_str()));
        i += 1;
    }
    total
}

/// Add spans to a list.
pub fn push_spans(spans: &mut Vec<Span>, mut more: Vec<Span>)
    ensures
        text::views(final(spans)@) == text::views(old(spans)@) + text::views(more@),
{
    let ghost before = spans@;
    let ghost added = more@;
    spans.append(&mut more);
    assert(text::views(spans@) =~= text::views(before) + text::views(added));
}

/// The spans from `i` on, cut to a width. What is cut off takes everything after
/// it along.
pub open spec fn cut_from(spans: Seq<SpanModel>, i: int, remaining: usize) -> Seq<SpanModel>
    decreases spans.len() - i,
{
    if i < 0 || i >= spans.len() || remaining == 0 {
        Seq::empty()
    } else {
        let content = width::truncated(spans[i].content, remaining);
        let taken = width::text_width(content);
        let here = seq![span(content, spans[i].style)];
        if width::text_width(spans[i].content) > taken {
            here
        } else {
            here + cut_from(spans, i + 1, width::columns_left(remaining, taken) as usize)
        }
    }
}

/// Spans cut to a width.
pub open spec fn cut_spans(spans: Seq<SpanModel>, max_width: usize) -> Seq<SpanModel> {
    cut_from(spans, 0, max_width)
}

/// Whether the texts of all spans are simple.
pub open spec fn simple_spans(spans: Seq<SpanModel>) -> bool {
    forall|k: int| 0 <= k < spans.len() ==> width::simple((#[trigger] spans[k]).content)
}

/// Simple spans put one after the other.
pub proof fn lemma_simple_spans_join(a: Seq<SpanModel>, b: Seq<SpanModel>)
    requires
        simple_spans(a),
        simple_spans(b),
    ensures
        simple_spans(a + b),
{
    assert forall|k: int| 0 <= k < (a + b).len() implies width::simple(
        (#[trigger] (a + b)[k]).content,
    ) by {
        if k < a.len() {
            assert((a + b)[k] == a[k]);
        } else {
            assert((a + b)[k] == b[k - a.len()]);
        }
    }
}

/// Columns of the first spans do not depend on what follows them.
proof fn lemma_columns_of_front(spans: Seq<SpanModel>, last: SpanModel, n: nat)
    requires
        n <= spans.len(),
    ensures
        columns(spans.push(last), n) == columns(spans, n),
    decreases n,
{
    if n > 0 {
        lemma_columns_of_front(spans, last, (n - 1) as nat);
        assert(spans.push(last)[n - 1] == spans[n - 1]);
    }
}

/// Cut spans to a width. Simple ones then never take more columns than that.
pub fn truncate_spans(spans: Vec<Span>, max_width: usize) -> (output: Vec<Span>)
    ensures
        text::views(output@) == cut_spans(text::views(spans@), max_width),
        simple_spans(text::views(spans@)) ==> simple_spans(text::views(output@)) && spans_columns(
            text::views(output@),
        ) <= max_width,
{
    let ghost all = text::views(spans@);
    let mut remaining: usize = max_width;
    let mut output: Vec<Span> = Vec::new();
    let mut i: usize = 0;
    let mut done: bool = false;
    assert(text::views(output@) + cut_from(all, 0, max_width) =~= cut_spans(all, max_width));
    while i < spans.len() && remaining > 0 && !done
        invariant
            i <= spans@.len(),
            all == text::views(spans@),
            !done ==> text::views(output@) + cut_from(all, i as int, remaining) == cut_spans(
                all,
                max_width,
            ),
            done ==> text::views(output@) == cut_spans(all, max_width),
            simple_spans(all) ==> simple_spans(text::views(output@)) && columns(
                text::views(output@),
                output@.len(),
            ) + remaining <= max_width,
        decreases spans@.len() - i, if done {
                0int
            } else {
                1int
            },
    {
        let ghost before = text::views(output@);
        assert(all[i as int] == spans@[i as int]@);
        let original_width: usize = width::display_width(spans[i].content.as_str());
        let content = width::truncate_to_width(spans[i].content.as_str(), remaining);
        let taken: usize = width::display_width(content.as_str());
        let ghost here = span(content@, spans@[i as int].style);
        output.push(Span::styled(content, spans[i].style));
        proof {
            lemma_columns_of_front(before, here, before.len());
            if simple_spans(all) {
                assert(width::simple(all[i as int].content));
                lemma_simple_spans_join(before, seq![here]);
                assert(before + seq![here] =~= before.push(here));
            }
        }
        let left: usize = remaining.saturating_sub(taken);
        if original_width > taken {
            done = true;
            assert(before + seq![here] =~= before.push(here));
        } else {
            assert(before + (seq![here] + cut_from(all, i + 1, left)) =~= before.push(here)
                + cut_from(all, i + 1, left));
        }
        remaining = left;
        i += 1;
    }
    assert(!done ==> text::views(output@) + Seq::<SpanModel>::empty() =~= text::views(output@));
    output
}

} // verus!
