//! Text on a terminal: display width, truncation and padding.

use vstd::prelude::*;
use crate::text;

verus! {

broadcast use crate::text::lemma_views_push;

/// How many terminal columns a text takes.
pub uninterp spec fn text_width(value: Seq<char>) -> usize;

/// Whether a text consists of printable ASCII characters.
pub open spec fn printable(value: Seq<char>) -> bool {
    forall|i: int| 0 <= i < value.len() ==> ' ' <= #[trigger] value[i] <= '~'
}

/// Whether a character is an ideograph of the block of unified ideographs.
pub open spec fn is_wide(c: char) -> bool {
    '\u{4e00}' <= c <= '\u{9fff}'
}

/// Whether a character is a printable ASCII character, one of the signs that the
/// picker draws, or an ideograph.
pub open spec fn is_simple(c: char) -> bool {
    ||| ' ' <= c <= '~'
    ||| c == '·'
    ||| c == '—'
    ||| c == '…'
    ||| c == '›'
    ||| c == '↳'
    ||| c == '↵'
    ||| c == '⌥'
    ||| c == '─'
    ||| c == '○'
    ||| c == '●'
    ||| c == '◐'
    ||| c == '✓'
    ||| is_wide(c)
}

/// Whether a text consists of printable ASCII characters, the signs that the
/// picker draws, and ideographs.
pub open spec fn simple(value: Seq<char>) -> bool {
    forall|i: int| 0 <= i < value.len() ==> is_simple(#[trigger] value[i])
}

/// The columns of a simple text: two for each ideograph, one for each other
/// character.
pub open spec fn simple_width(value: Seq<char>) -> nat
    decreases value.len(),
{
    if value.len() == 0 {
        0
    } else {
        simple_width(value.drop_last()) + if is_wide(value.last()) {
            2nat
        } else {
            1nat
        }
    }
}

/// Whether all texts are simple.
pub open spec fn all_simple(values: Seq<Seq<char>>) -> bool {
    forall|i: int| 0 <= i < values.len() ==> simple(#[trigger] values[i])
}

/// `UnicodeWidthStr::width`: the columns of a text, a function of its characters.
/// Printable ASCII characters and the signs that the picker draws take one column
/// each, and ideographs two. How the widths of other characters combine is not
/// stated here.
#[verifier::external_body]
fn measure(value: &str) -> (width: usize)
    ensures
        width == text_width(value@),
        simple(value@) ==> width == simple_width(value@),
{
    unicode_width::UnicodeWidthStr::width(value)
}

/// How many terminal columns a text takes.
pub fn display_width(value: &str) -> (width: usize)
    ensures
        width == text_width(value@),
        simple(value@) ==> width == simple_width(value@),
        printable(value@) ==> width == value@.len(),
{
    proof {
        if printable(value@) {
            lemma_narrow_width(value@);
        }
    }
    measure(value)
}

/// Without ideographs each character takes one column.
proof fn lemma_narrow_width(value: Seq<char>)
    requires
        forall|i: int| 0 <= i < value.len() ==> !is_wide(#[trigger] value[i]),
    ensures
        simple_width(value) == value.len(),
    decreases value.len(),
{
    if value.len() > 0 {
        assert(!is_wide(value[value.len() - 1]));
        lemma_narrow_width(value.drop_last());
    }
}

/// Columns of simple texts put one after the other.
proof fn lemma_simple_width_join(a: Seq<char>, b: Seq<char>)
    ensures
        simple_width(a + b) == simple_width(a) + simple_width(b),
    decreases b.len(),
{
    if b.len() == 0 {
        assert(a + b =~= a);
    } else {
        lemma_simple_width_join(a, b.drop_last());
        assert((a + b).drop_last() =~= a + b.drop_last());
        assert((a + b).last() == b.last());
    }
}

/// The extended grapheme clusters of a text.
pub uninterp spec fn clusters(value: Seq<char>) -> Seq<Seq<char>>;

/// `UnicodeSegmentation::graphemes`: the extended grapheme clusters of a text, in
/// order, a function of its characters. Joined, they are the text, and none is
/// empty. Printable ASCII characters are clusters of their own. Where other texts
/// are cut is not stated here.
#[verifier::external_body]
pub(crate) fn graphemes(value: &str) -> (found: Vec<String>)
    ensures
        text::views(found@) == clusters(value@),
        forall|i: int| 0 <= i < found@.len() ==> (#[trigger] found@[i])@.len() > 0,
        text::views(found@).flatten() == value@,
        printable(value@) ==> text::views(found@) == Seq::new(
            value@.len(),
            |i: int| seq![value@[i]],
        ),
{
    unicode_segmentation::UnicodeSegmentation::graphemes(value, true).map(str::to_string).collect()
}

/// The pieces from `i` on, joined, as far as they fit next to `used` columns.
pub open spec fn fitting(
    pieces: Seq<Seq<char>>,
    widths: Seq<usize>,
    i: int,
    used: nat,
    budget: nat,
) -> Seq<char>
    decreases pieces.len() - i,
{
    if i < 0 || i >= pieces.len() || used + widths[i] > budget {
        Seq::empty()
    } else {
        pieces[i] + fitting(pieces, widths, i + 1, used + widths[i] as nat, budget)
    }
}

/// The widths of texts.
pub open spec fn text_widths(values: Seq<Seq<char>>) -> Seq<usize> {
    Seq::new(values.len(), |i: int| text_width(values[i]))
}

/// A text cut to a width. A text that is too wide loses whole clusters from its
/// end and gets an ellipsis.
pub open spec fn truncated(value: Seq<char>, max_width: usize) -> Seq<char> {
    if max_width == 0 {
        Seq::empty()
    } else if text_width(value) <= max_width {
        value
    } else {
        fitting(
            clusters(value),
            text_widths(clusters(value)),
            0,
            0,
            columns_left(max_width, text_width("…"@)),
        ) + "…"@
    }
}

/// A text of printable ASCII characters cut to a width.
pub open spec fn shortened(value: Seq<char>, max_width: usize) -> Seq<char> {
    if value.len() <= max_width {
        value
    } else if max_width == 0 {
        Seq::empty()
    } else {
        value.take(max_width - 1) + "…"@
    }
}

/// What is left of `width` columns after `taken` ones, at least none.
pub open spec fn columns_left(width: usize, taken: usize) -> nat {
    if taken <= width {
        (width - taken) as nat
    } else {
        0
    }
}

/// `n` spaces.
pub open spec fn spaces(n: nat) -> Seq<char> {
    Seq::new(n, |i: int| ' ')
}

/// A text cut to a width and filled up with spaces.
pub open spec fn padded(value: Seq<char>, width: usize) -> Seq<char> {
    let cut = truncated(value, width);
    cut + spaces(columns_left(width, text_width(cut)))
}

/// Whether a text is another one, or the front of it followed by an ellipsis.
pub open spec fn is_cut_of(cut: Seq<char>, value: Seq<char>) -> bool {
    cut == value || exists|n: int|
        0 <= n <= value.len() && cut == (#[trigger] value.take(n)) + "…"@
}

/// What fits of pieces is the front of the text that they make up.
proof fn lemma_fitting_is_front(
    pieces: Seq<Seq<char>>,
    widths: Seq<usize>,
    i: int,
    used: nat,
    budget: nat,
)
    requires
        0 <= i <= pieces.len(),
    ensures
        fitting(pieces, widths, i, used, budget).len() <= pieces.skip(i).flatten().len(),
        pieces.skip(i).flatten().take(fitting(pieces, widths, i, used, budget).len() as int)
            == fitting(pieces, widths, i, used, budget),
    decreases pieces.len() - i,
{
    let rest = pieces.skip(i);
    let fit = fitting(pieces, widths, i, used, budget);
    if i < pieces.len() && used + widths[i] <= budget {
        let next = used + widths[i] as nat;
        lemma_fitting_is_front(pieces, widths, i + 1, next, budget);
        assert(rest.first() == pieces[i]);
        assert(rest.drop_first() =~= pieces.skip(i + 1));
        assert(rest.flatten() == pieces[i] + pieces.skip(i + 1).flatten());
        let inner = fitting(pieces, widths, i + 1, next, budget);
        assert(rest.flatten().take(fit.len() as int) =~= pieces[i] + pieces.skip(
            i + 1,
        ).flatten().take(inner.len() as int));
    } else {
        assert(rest.flatten().take(0) =~= Seq::<char>::empty());
    }
}

/// Simple texts joined are simple.
pub proof fn lemma_simple_join(a: Seq<char>, b: Seq<char>)
    requires
        simple(a),
        simple(b),
    ensures
        simple(a + b),
{
    assert forall|i: int| 0 <= i < (a + b).len() implies is_simple(#[trigger] (a + b)[i]) by {
        if i < a.len() {
            assert((a + b)[i] == a[i]);
        } else {
            assert((a + b)[i] == b[i - a.len()]);
        }
    }
}

/// Simple texts joined by a simple text are simple.
pub proof fn lemma_simple_joined_by(parts: Seq<Seq<char>>, separator: Seq<char>)
    requires
        all_simple(parts),
        simple(separator),
    ensures
        simple(text::joined_by(parts, separator)),
    decreases parts.len(),
{
    if parts.len() > 1 {
        let front = parts.drop_last();
        assert forall|i: int| 0 <= i < front.len() implies simple(#[trigger] front[i]) by {
            assert(front[i] == parts[i]);
        }
        lemma_simple_joined_by(front, separator);
        assert(simple(parts[parts.len() - 1]));
        lemma_simple_join(text::joined_by(front, separator), separator);
        lemma_simple_join(text::joined_by(front, separator) + separator, parts.last());
    } else if parts.len() == 1 {
        assert(simple(parts[0]));
    }
}

/// Numbers are simple.
pub proof fn lemma_simple_decimal(n: nat)
    ensures
        simple(text::decimal(n)),
    decreases n,
{
    if n >= 10 {
        lemma_simple_decimal(n / 10);
        assert(is_simple(text::digit(n % 10)));
    } else {
        assert(is_simple(text::digit(n)));
    }
}

/// Pieces that make up a simple text are simple.
proof fn lemma_simple_pieces(pieces: Seq<Seq<char>>)
    requires
        simple(pieces.flatten()),
    ensures
        all_simple(pieces),
    decreases pieces.len(),
{
    if pieces.len() > 0 {
        let first = pieces.first();
        let rest = pieces.drop_first();
        let whole = pieces.flatten();
        assert(whole == first + rest.flatten());
        assert forall|i: int| 0 <= i < first.len() implies is_simple(#[trigger] first[i]) by {
            assert(whole[i] == first[i]);
        }
        assert forall|i: int| 0 <= i < rest.flatten().len() implies is_simple(
            #[trigger] rest.flatten()[i],
        ) by {
            assert(whole[first.len() + i] == rest.flatten()[i]);
        }
        lemma_simple_pieces(rest);
        assert forall|k: int| 0 <= k < pieces.len() implies simple(#[trigger] pieces[k]) by {
            if k > 0 {
                assert(rest[k - 1] == pieces[k]);
            }
        }
    }
}

/// What fits of simple pieces takes no more columns than there are.
proof fn lemma_fitting_is_short(
    pieces: Seq<Seq<char>>,
    widths: Seq<usize>,
    i: int,
    used: nat,
    budget: nat,
)
    requires
        0 <= i <= pieces.len(),
        widths.len() == pieces.len(),
        forall|k: int| 0 <= k < pieces.len() ==> #[trigger] widths[k] == simple_width(pieces[k]),
        used <= budget,
    ensures
        used + simple_width(fitting(pieces, widths, i, used, budget)) <= budget,
    decreases pieces.len() - i,
{
    if i < pieces.len() && used + widths[i] <= budget {
        let next = used + widths[i] as nat;
        lemma_fitting_is_short(pieces, widths, i + 1, next, budget);
        lemma_simple_width_join(pieces[i], fitting(pieces, widths, i + 1, next, budget));
    }
}

/// Of single characters of one column each as many fit as there are columns.
proof fn lemma_single_columns(value: Seq<char>, widths: Seq<usize>, i: int, budget: nat)
    requires
        0 <= i <= budget,
        i <= value.len(),
        widths.len() == value.len(),
        forall|k: int| 0 <= k < widths.len() ==> #[trigger] widths[k] == 1,
    ensures
        fitting(
            Seq::new(value.len(), |k: int| seq![value[k]]),
            widths,
            i,
            i as nat,
            budget,
        ) == value.subrange(
            i,
            if value.len() <= budget {
                value.len() as int
            } else {
                budget as int
            },
        ),
    decreases value.len() - i,
{
    let pieces = Seq::new(value.len(), |k: int| seq![value[k]]);
    let end = if value.len() <= budget {
        value.len() as int
    } else {
        budget as int
    };
    if i < end {
        lemma_single_columns(value, widths, i + 1, budget);
        assert(value.subrange(i, end) =~= seq![value[i]] + value.subrange(i + 1, end));
    } else {
        assert(value.subrange(i, end) =~= Seq::empty());
    }
}

/// Join pieces from the first on, as far as they fit into so many columns.
pub fn fit(pieces: &Vec<String>, widths: &Vec<usize>, budget: usize) -> (joined: String)
    requires
        widths@.len() == pieces@.len(),
    ensures
        joined@ == fitting(text::views(pieces@), widths@, 0, 0, budget as nat),
{
    let ghost all = text::views(pieces@);
    let ghost goal = fitting(all, widths@, 0, 0, budget as nat);
    let mut joined = String::new();
    let mut used: usize = 0;
    let mut i: usize = 0;
    assert(joined@ + goal =~= goal);
    while i < pieces.len()
        invariant
            i <= pieces@.len(),
            widths@.len() == pieces@.len(),
            all == text::views(pieces@),
            goal == fitting(all, widths@, 0, 0, budget as nat),
            used <= budget,
            joined@ + fitting(all, widths@, i as int, used as nat, budget as nat) == goal,
        decreases pieces@.len() - i,
    {
        assert(all[i as int] == pieces@[i as int]@);
        if widths[i] > budget - used {
            assert(joined@ + Seq::<char>::empty() =~= joined@);
            return joined;
        }
        let ghost before = joined@;
        joined.append(pieces[i].as_str());
        used += widths[i];
        i += 1;
        let ghost rest = fitting(all, widths@, i as int, used as nat, budget as nat);
        assert(before + (pieces@[i - 1]@ + rest) =~= joined@ + rest);
    }
    assert(joined@ + Seq::<char>::empty() =~= joined@);
    joined
}

/// The widths of texts.
fn measure_all(values: &Vec<String>) -> (widths: Vec<usize>)
    ensures
        widths@ == text_widths(text::views(values@)),
        forall|i: int|
            0 <= i < values@.len() && simple(values@[i]@) ==> #[trigger] widths@[i]
                == simple_width(values@[i]@),
{
    let ghost all = text::views(values@);
    let mut widths: Vec<usize> = Vec::new();
    let mut i: usize = 0;
    while i < values.len()
        invariant
            i <= values@.len(),
            all == text::views(values@),
            widths@ == text_widths(all).take(i as int),
            forall|k: int|
                0 <= k < i && simple(values@[k]@) ==> #[trigger] widths@[k] == simple_width(
                    values@[k]@,
                ),
        decreases values@.len() - i,
    {
        assert(all[i as int] == values@[i as int]@);
        let ghost wanted = text_widths(all);
        widths.push(display_width(values[i].as_str()));
        assert(wanted.take(i + 1) =~= wanted.take(i as int).push(wanted[i as int]));
        i += 1;
    }
    assert(text_widths(all).take(i as int) =~= text_widths(all));
    widths
}

/// Cut a text to a width.
pub fn truncate_to_width(value: &str, max_width: usize) -> (cut: String)
    ensures
        cut@ == truncated(value@, max_width),
        max_width > 0 ==> is_cut_of(cut@, value@),
        printable(value@) ==> cut@ == shortened(value@, max_width),
        simple(value@) ==> simple(cut@) && simple_width(cut@) <= max_width,
{
    if max_width == 0 {
        assert(printable(value@) && value@.len() == 0 ==> value@ =~= Seq::empty());
        return String::new();
    }
    let width: usize = display_width(value);
    if width <= max_width {
        return value.to_string();
    }
    let ellipsis = "…";
    proof {
        reveal_strlit("…");
        lemma_narrow_width("…"@);
    }
    let content_width: usize = max_width.saturating_sub(display_width(ellipsis));
    let found = graphemes(value);
    let widths = measure_all(&found);
    let mut result = fit(&found, &widths, content_width);
    proof {
        let all = text::views(found@);
        lemma_fitting_is_front(all, widths@, 0, 0, content_width as nat);
        assert(all.skip(0) =~= all);
        assert(value@.take(result@.len() as int) == result@);
        if simple(value@) {
            lemma_simple_pieces(all);
            assert forall|k: int| 0 <= k < all.len() implies #[trigger] widths@[k]
                == simple_width(all[k]) by {
                assert(all[k] == found@[k]@);
            }
            lemma_fitting_is_short(all, widths@, 0, 0, content_width as nat);
            assert forall|i: int| 0 <= i < result@.len() implies is_simple(
                #[trigger] result@[i],
            ) by {
                assert(result@[i] == value@[i]);
            }
        }
        if printable(value@) {
            assert(content_width == max_width - 1);
            assert forall|k: int| 0 <= k < widths@.len() implies #[trigger] widths@[k] == 1 by {
                assert(all[k] == found@[k]@);
                assert(found@[k]@ == seq![value@[k]]);
                assert(simple(found@[k]@));
                lemma_narrow_width(found@[k]@);
            }
            lemma_single_columns(value@, widths@, 0, content_width as nat);
            assert(value@.subrange(0, max_width - 1) =~= value@.take(max_width - 1));
        }
    }
    proof {
        lemma_simple_width_join(result@, "…"@);
    }
    result.append(ellipsis);
    result
}

/// Add spaces to a text.
pub fn push_spaces(value: &mut String, n: usize)
    ensures
        final(value)@ == old(value)@ + spaces(n as nat),
{
    let ghost before = value@;
    let mut i: usize = 0;
    assert(before + spaces(0) =~= before);
    while i < n
        invariant
            i <= n,
            value@ == before + spaces(i as nat),
        decreases n - i,
    {
        value.push(' ');
        assert(before + spaces((i + 1) as nat) =~= (before + spaces(i as nat)).push(' '));
        i += 1;
    }
}

/// Cut a text to a width and fill it up with spaces.
pub fn pad_to_width(value: &str, width: usize) -> (shown: String)
    ensures
        shown@ == padded(value@, width),
        printable(value@) ==> shown@ == shortened(value@, width) + spaces(
            if value@.len() <= width {
                (width - value@.len()) as nat
            } else {
                0
            },
        ),
        printable(value@) ==> shown@.len() == width,
        simple(value@) ==> simple(shown@) && simple_width(shown@) == width,
{
    let mut shown = truncate_to_width(value, width);
    proof {
        reveal_strlit("…");
        if printable(value@) {
            lemma_narrow_width(shown@);
        }
    }
    let padding: usize = width.saturating_sub(display_width(shown.as_str()));
    proof {
        lemma_narrow_width(spaces(padding as nat));
        lemma_simple_width_join(shown@, spaces(padding as nat));
    }
    push_spaces(&mut shown, padding);
    shown
}

} // verus!
