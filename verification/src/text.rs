//! Text and the views that contracts use.
//!
//! A text is the sequence of its characters. Every other module states its
//! contracts over such sequences, so this module also holds the helpers that
//! lift a view over a vector or an option.

use vstd::prelude::*;

verus! {

/// The views of the items of a sequence, in order.
pub open spec fn views<T: View>(items: Seq<T>) -> Seq<T::V> {
    Seq::new(items.len(), |i: int| items[i]@)
}

/// Adding an item adds its view.
pub broadcast proof fn lemma_views_push<T: View>(items: Seq<T>, item: T)
    ensures
        #[trigger] views(items.push(item)) == views(items).push(item@),
{
    assert(views(items.push(item)) =~= views(items).push(item@));
}

/// The view of an optional item.
pub open spec fn view_of<T: View>(item: Option<T>) -> Option<T::V> {
    match item {
        Some(value) => Some(value@),
        None => None,
    }
}

/// `String::push` appends one character.
pub assume_specification[ String::push ](buffer: &mut String, c: char)
    ensures
        final(buffer)@ == old(buffer)@.push(c),
;

/// `String::pop` removes the last character and returns it; an empty text stays
/// empty and gives `None`.
pub assume_specification[ String::pop ](buffer: &mut String) -> (last: Option<char>)
    ensures
        old(buffer)@.len() == 0 ==> last is None && final(buffer)@ == old(buffer)@,
        old(buffer)@.len() > 0 ==> last == Some(old(buffer)@.last()) && final(buffer)@
            == old(buffer)@.drop_last(),
;

/// Decide whether two texts hold the same characters.
pub(crate) fn same(a: &str, b: &str) -> (equal: bool)
    ensures
        equal == (a@ == b@),
{
    a.to_string() == b.to_string()
}

/// The lowercase form that `str::to_lowercase` gives a text.
pub uninterp spec fn lowercase(text: Seq<char>) -> Seq<char>;

/// `str::to_lowercase`: the Unicode lowercase mapping of a text, a function of
/// its characters alone. ASCII capitals are made small; the mapping of other
/// characters is not stated here.
#[verifier::external_body]
pub(crate) fn to_lowercase(text: &str) -> (lower: String)
    ensures
        lower@ == lowercase(text@),
        (forall|i: int| 0 <= i < text@.len() ==> #[trigger] text@[i] < '\u{80}') ==> lower@
            == text@.map_values(|c: char| folded(c)),
{
    text.to_lowercase()
}

/// The form that `str`'s `Debug` gives a text: quoted, with escapes.
pub uninterp spec fn debug_text(text: Seq<char>) -> Seq<char>;

/// Whether a text consists of printable ASCII characters that stand for themselves
/// in quotes.
pub open spec fn needs_no_escape(text: Seq<char>) -> bool {
    forall|i: int|
        0 <= i < text.len() ==> ' ' <= #[trigger] text[i] <= '~' && text[i] != '"' && text[i]
            != '\\'
}

/// `Debug` for `str`: a quoted and escaped text, a function of its characters
/// alone. Printable ASCII characters but quotes and backslashes stand for
/// themselves; how others are escaped is not stated here.
#[verifier::external_body]
pub(crate) fn quoted(text: &str) -> (debug: String)
    ensures
        debug@ == debug_text(text@),
        needs_no_escape(text@) ==> debug@ == seq!['"'] + text@ + seq!['"'],
{
    format!("{text:?}")
}

/// The characters of a text as a vector.
pub fn chars_of(text: &str) -> (chars: Vec<char>)
    ensures
        chars@ == text@,
{
    let mut chars: Vec<char> = Vec::new();
    for c in it: text.chars()
        invariant
            chars@ == text@.take(it.index()),
            it.seq() == text@,
    {
        chars.push(c);
    }
    chars
}

/// A text from a range of characters.
pub fn text_between(chars: &Vec<char>, from: usize, to: usize) -> (text: String)
    requires
        from <= to <= chars@.len(),
    ensures
        text@ == chars@.subrange(from as int, to as int),
{
    let mut text = String::new();
    let mut i: usize = from;
    while i < to
        invariant
            from <= i <= to <= chars@.len(),
            text@ == chars@.subrange(from as int, i as int),
        decreases to - i,
    {
        text.push(chars[i]);
        i += 1;
    }
    text
}

/// One text followed by another.
pub fn joined(left: &str, right: &str) -> (text: String)
    ensures
        text@ == left@ + right@,
{
    let mut text = left.to_string();
    text.append(right);
    text
}

/// Whether a character is a terminal control: C0, DEL or C1.
pub open spec fn is_control(c: char) -> bool {
    (c as int) <= 0x1f || 0x7f <= (c as int) <= 0x9f
}

/// A text without its terminal control characters.
pub open spec fn sanitized(text: Seq<char>) -> Seq<char> {
    text.filter(|c: char| !is_control(c))
}

/// Remove terminal control characters (C0, DEL, C1) from a text that will be
/// rendered, so that titles, labels and paths cannot put escape sequences into
/// the terminal. For display only: identities keep the original text.
pub fn sanitize_text(text: &str) -> (clean: String)
    ensures
        clean@ == sanitized(text@),
{
    let mut clean = String::new();
    reveal(Seq::filter);
    for c in it: text.chars()
        invariant
            clean@ == sanitized(text@.take(it.index())),
            it.seq() == text@,
    {
        assert(text@.take(it.index() + 1).drop_last() =~= text@.take(it.index()));
        reveal(Seq::filter);
        if !(c <= '\u{1f}' || ('\u{7f}' <= c && c <= '\u{9f}')) {
            clean.push(c);
        }
    }
    assert(text@.take(text@.len() as int) =~= text@);
    clean
}

/// Whether a character has Unicode's `White_Space` property.
pub open spec fn is_white(c: char) -> bool {
    ||| 0x09 <= (c as int) <= 0x0d
    ||| c as int == 0x20
    ||| c as int == 0x85
    ||| c as int == 0xa0
    ||| c as int == 0x1680
    ||| 0x2000 <= (c as int) <= 0x200a
    ||| c as int == 0x2028
    ||| c as int == 0x2029
    ||| c as int == 0x202f
    ||| c as int == 0x205f
    ||| c as int == 0x3000
}

/// Decide [`is_white`].
pub fn white(c: char) -> (found: bool)
    ensures
        found == is_white(c),
{
    let code: u32 = c as u32;
    (0x09 <= code && code <= 0x0d) || code == 0x20 || code == 0x85 || code == 0xa0 || code
        == 0x1680 || (0x2000 <= code && code <= 0x200a) || code == 0x2028 || code == 0x2029 || code
        == 0x202f || code == 0x205f || code == 0x3000
}

/// A text without its leading white space.
pub open spec fn trimmed_start(text: Seq<char>) -> Seq<char>
    decreases text.len(),
{
    if text.len() > 0 && is_white(text.first()) {
        trimmed_start(text.drop_first())
    } else {
        text
    }
}

/// A text without its trailing white space.
pub open spec fn trimmed_end(text: Seq<char>) -> Seq<char>
    decreases text.len(),
{
    if text.len() > 0 && is_white(text.last()) {
        trimmed_end(text.drop_last())
    } else {
        text
    }
}

/// A text without white space at either end.
pub open spec fn trimmed(text: Seq<char>) -> Seq<char> {
    trimmed_end(trimmed_start(text))
}

/// Whether nothing but white space is in a text.
pub open spec fn is_blank(text: Seq<char>) -> bool {
    trimmed(text).len() == 0
}

/// Remove white space from both ends of a text.
pub fn trim(text: &str) -> (core: String)
    ensures
        core@ == trimmed(text@),
{
    let chars = chars_of(text);
    let mut from: usize = 0;
    assert(chars@.skip(0) =~= chars@);
    while from < chars.len() && white(chars[from])
        invariant
            from <= chars@.len(),
            trimmed_start(chars@) == trimmed_start(chars@.skip(from as int)),
        decreases chars@.len() - from,
    {
        proof {
            let rest = chars@.skip(from as int);
            assert(rest.first() == chars@[from as int]);
            assert(rest.drop_first() =~= chars@.skip(from as int + 1));
        }
        from += 1;
    }
    let mut to: usize = chars.len();
    proof {
        let rest = chars@.skip(from as int);
        assert(rest.len() > 0 ==> rest.first() == chars@[from as int]);
        assert(chars@.subrange(from as int, to as int) =~= rest);
    }
    while to > from && white(chars[to - 1])
        invariant
            from <= to <= chars@.len(),
            trimmed(chars@) == trimmed_end(chars@.subrange(from as int, to as int)),
        decreases to,
    {
        proof {
            let rest = chars@.subrange(from as int, to as int);
            assert(rest.last() == chars@[to - 1]);
            assert(rest.drop_last() =~= chars@.subrange(from as int, to - 1));
        }
        to -= 1;
    }
    proof {
        let rest = chars@.subrange(from as int, to as int);
        assert(rest.len() > 0 ==> rest.last() == chars@[to - 1]);
    }
    text_between(&chars, from, to)
}

/// Decide [`is_blank`].
pub fn blank(text: &str) -> (found: bool)
    ensures
        found == is_blank(text@),
{
    trim(text).as_str().is_empty()
}

/// A text without control characters and without white space at either end, or
/// `None` when nothing is left.
pub open spec fn cleaned(text: Option<Seq<char>>) -> Option<Seq<char>> {
    match text {
        Some(value) => {
            let core = trimmed(sanitized(value));
            if core.len() == 0 {
                None
            } else {
                Some(core)
            }
        },
        None => None,
    }
}

/// Copy an optional text.
pub fn copied(text: &Option<String>) -> (copy: Option<String>)
    ensures
        copy == *text,
{
    match text {
        Some(value) => Some(value.clone()),
        None => None,
    }
}

/// Copy a list of texts.
pub fn copied_all(texts: &Vec<String>) -> (copy: Vec<String>)
    ensures
        copy@ == texts@,
{
    let mut copy: Vec<String> = Vec::new();
    let mut i: usize = 0;
    while i < texts.len()
        invariant
            i <= texts@.len(),
            copy@ == texts@.take(i as int),
        decreases texts@.len() - i,
    {
        copy.push(texts[i].clone());
        i += 1;
    }
    copy
}

/// The texts of a list, as texts of their own.
pub fn owned(fields: &Vec<&str>) -> (copies: Vec<String>)
    ensures
        views(copies@) == views(fields@),
{
    let ghost all = views(fields@);
    let mut copies: Vec<String> = Vec::new();
    let mut i: usize = 0;
    assert(views(copies@) =~= all.take(0));
    while i < fields.len()
        invariant
            i <= fields@.len(),
            all == views(fields@),
            views(copies@) == all.take(i as int),
        decreases fields@.len() - i,
    {
        copies.push(fields[i].to_string());
        assert(all.take(i + 1) =~= all.take(i as int).push(all[i as int]));
        i += 1;
    }
    assert(all.take(i as int) =~= all);
    copies
}

/// Whether a list holds a text.
pub fn holds(texts: &Vec<String>, text: &str) -> (found: bool)
    ensures
        found == views(texts@).contains(text@),
{
    let mut i: usize = 0;
    while i < texts.len()
        invariant
            i <= texts@.len(),
            !views(texts@).take(i as int).contains(text@),
        decreases texts@.len() - i,
    {
        if same(texts[i].as_str(), text) {
            assert(views(texts@)[i as int] == text@);
            return true;
        }
        assert(views(texts@).take(i + 1) =~= views(texts@).take(i as int).push(texts@[i as int]@));
        i += 1;
    }
    assert(views(texts@).take(i as int) =~= views(texts@));
    false
}

/// Where an item first stands in a list.
pub open spec fn position<T>(items: Seq<T>, item: T) -> Option<int>
    decreases items.len(),
{
    if items.len() == 0 {
        None
    } else {
        match position(items.drop_last(), item) {
            Some(at) => Some(at),
            None => if items.last() == item {
                Some(items.len() - 1)
            } else {
                None
            },
        }
    }
}

/// A prefix decides [`position`] once it holds the item.
pub proof fn lemma_position_prefix<T>(items: Seq<T>, item: T, n: int)
    requires
        0 <= n <= items.len(),
        position(items.take(n), item) is Some,
    ensures
        position(items, item) == position(items.take(n), item),
    decreases items.len(),
{
    if n < items.len() {
        assert(items.drop_last().take(n) =~= items.take(n));
        lemma_position_prefix(items.drop_last(), item, n);
    } else {
        assert(items.take(n) =~= items);
    }
}

/// A position found lies in the list and holds the item; no earlier one does.
pub proof fn position_is_the_first<T>(items: Seq<T>, item: T)
    ensures
        position(items, item) is Some <==> items.contains(item),
        position(items, item) matches Some(at) ==> 0 <= at < items.len() && items[at] == item
            && forall|i: int| 0 <= i < at ==> #[trigger] items[i] != item,
    decreases items.len(),
{
    if items.len() > 0 {
        let front = items.drop_last();
        position_is_the_first(front, item);
        if position(front, item) is Some {
            let at = position(front, item)->0;
            assert(items[at] == item);
            assert forall|i: int| 0 <= i < at implies #[trigger] items[i] != item by {
                assert(front[i] == items[i]);
            }
        } else {
            assert forall|i: int| 0 <= i < items.len() - 1 implies #[trigger] items[i] != item by {
                assert(front[i] == items[i]);
            }
            if items.contains(item) {
                let i = choose|i: int| 0 <= i < items.len() && items[i] == item;
                assert(i == items.len() - 1);
            }
            assert(items[items.len() - 1] == items.last());
        }
    }
}

/// Find where a character first stands in a list.
pub fn find_char(chars: &Vec<char>, c: char) -> (at: Option<usize>)
    ensures
        at is Some <==> position(chars@, c) is Some,
        at is Some ==> position(chars@, c) == Some(at->0 as int) && at->0 < chars@.len(),
{
    let mut i: usize = 0;
    while i < chars.len()
        invariant
            i <= chars@.len(),
            position(chars@.take(i as int), c) is None,
        decreases chars@.len() - i,
    {
        proof {
            assert(chars@.take(i + 1).drop_last() =~= chars@.take(i as int));
            assert(chars@.take(i + 1).last() == chars@[i as int]);
        }
        if chars[i] == c {
            proof {
                lemma_position_prefix(chars@, c, i + 1);
            }
            return Some(i);
        }
        i += 1;
    }
    assert(chars@.take(i as int) =~= chars@);
    None
}

/// Find where a text first stands in a list.
pub fn find(texts: &Vec<String>, text: &str) -> (at: Option<usize>)
    ensures
        at is Some <==> position(views(texts@), text@) is Some,
        at is Some ==> position(views(texts@), text@) == Some(at->0 as int) && at->0 < texts@.len()
            && texts@[at->0 as int]@ == text@,
{
    let mut i: usize = 0;
    while i < texts.len()
        invariant
            i <= texts@.len(),
            position(views(texts@).take(i as int), text@) is None,
        decreases texts@.len() - i,
    {
        proof {
            assert(views(texts@).take(i + 1).drop_last() =~= views(texts@).take(i as int));
            assert(views(texts@).take(i + 1).last() == texts@[i as int]@);
        }
        if same(texts[i].as_str(), text) {
            proof {
                lemma_position_prefix(views(texts@), text@, i + 1);
            }
            return Some(i);
        }
        i += 1;
    }
    assert(views(texts@).take(i as int) =~= views(texts@));
    None
}

/// The order of texts by their characters, one by one; a proper prefix comes
/// first. `a` comes before `b` or is equal to it.
pub open spec fn at_most(a: Seq<char>, b: Seq<char>) -> bool
    decreases a.len(),
{
    if a.len() == 0 {
        true
    } else if b.len() == 0 {
        false
    } else if a.first() == b.first() {
        at_most(a.drop_first(), b.drop_first())
    } else {
        (a.first() as int) < (b.first() as int)
    }
}

/// The order of texts is total.
pub proof fn lemma_at_most_total(a: Seq<char>, b: Seq<char>)
    ensures
        at_most(a, b) || at_most(b, a),
    decreases a.len(),
{
    if a.len() > 0 && b.len() > 0 {
        lemma_at_most_total(a.drop_first(), b.drop_first());
    }
}

/// The order of texts is transitive.
pub proof fn lemma_at_most_transitive(a: Seq<char>, b: Seq<char>, c: Seq<char>)
    requires
        at_most(a, b),
        at_most(b, c),
    ensures
        at_most(a, c),
    decreases a.len(),
{
    if a.len() > 0 && b.len() > 0 && c.len() > 0 && a.first() == b.first() && b.first()
        == c.first() {
        lemma_at_most_transitive(a.drop_first(), b.drop_first(), c.drop_first());
    }
}

/// Texts that come before each other are equal.
pub proof fn lemma_at_most_antisymmetric(a: Seq<char>, b: Seq<char>)
    requires
        at_most(a, b),
        at_most(b, a),
    ensures
        a == b,
    decreases a.len(),
{
    if a.len() > 0 && b.len() > 0 {
        lemma_at_most_antisymmetric(a.drop_first(), b.drop_first());
        assert(a =~= seq![a.first()] + a.drop_first());
        assert(b =~= seq![b.first()] + b.drop_first());
    } else {
        assert(a =~= b);
    }
}

/// Decide [`at_most`].
pub fn not_after(a: &str, b: &str) -> (before: bool)
    ensures
        before == at_most(a@, b@),
{
    let left = chars_of(a);
    let right = chars_of(b);
    let mut i: usize = 0;
    proof {
        assert(left@.skip(0) =~= left@);
        assert(right@.skip(0) =~= right@);
    }
    while i < left.len() && i < right.len() && left[i] == right[i]
        invariant
            i <= left@.len(),
            i <= right@.len(),
            at_most(left@, right@) == at_most(left@.skip(i as int), right@.skip(i as int)),
        decreases left@.len() - i,
    {
        proof {
            assert(left@.skip(i as int).drop_first() =~= left@.skip(i + 1));
            assert(right@.skip(i as int).drop_first() =~= right@.skip(i + 1));
        }
        i += 1;
    }
    if i == left.len() {
        true
    } else if i == right.len() {
        false
    } else {
        left[i] < right[i]
    }
}

/// The decimal digits of a number.
pub open spec fn decimal(n: nat) -> Seq<char>
    decreases n,
{
    if n < 10 {
        seq![digit(n)]
    } else {
        decimal(n / 10).push(digit(n % 10))
    }
}

/// The character of one decimal digit.
pub open spec fn digit(d: nat) -> char {
    (48 + d) as char
}

/// Write a number in decimal.
pub fn number_text(n: usize) -> (text: String)
    ensures
        text@ == decimal(n as nat),
    decreases n,
{
    let mut text = if n < 10 {
        String::new()
    } else {
        number_text(n / 10)
    };
    let last: u8 = 48u8 + (n % 10) as u8;
    text.push(last as char);
    assert(n < 10 ==> text@ =~= decimal(n as nat));
    text
}

/// Where a text first occurs in another, from position `i` on.
pub open spec fn found_at(hay: Seq<char>, needle: Seq<char>, i: int) -> Option<int>
    decreases hay.len() + 1 - i,
{
    if i < 0 || i + needle.len() > hay.len() {
        None
    } else if hay.subrange(i, i + needle.len()) == needle {
        Some(i)
    } else {
        found_at(hay, needle, i + 1)
    }
}

/// A text that is found stands within the other.
pub proof fn lemma_found_is_within(hay: Seq<char>, needle: Seq<char>, i: int)
    ensures
        found_at(hay, needle, i) is Some ==> i <= found_at(hay, needle, i)->0 && found_at(
            hay,
            needle,
            i,
        )->0 + needle.len() <= hay.len(),
    decreases hay.len() + 1 - i,
{
    if 0 <= i && i + needle.len() <= hay.len() {
        lemma_found_is_within(hay, needle, i + 1);
    }
}

/// Whether a text stands at a position of another.
fn stands_at(hay: &Vec<char>, needle: &Vec<char>, at: usize) -> (found: bool)
    requires
        at + needle@.len() <= hay@.len(),
    ensures
        found == (hay@.subrange(at as int, at + needle@.len()) == needle@),
{
    let size: usize = hay.len();
    let mut k: usize = 0;
    while k < needle.len()
        invariant
            k <= needle@.len(),
            at + needle@.len() <= hay@.len() == size,
            forall|m: int| 0 <= m < k ==> hay@[at + m] == #[trigger] needle@[m],
        decreases needle@.len() - k,
    {
        if hay[at + k] != needle[k] {
            assert(hay@.subrange(at as int, at + needle@.len())[k as int] != needle@[k as int]);
            return false;
        }
        k += 1;
    }
    assert(hay@.subrange(at as int, at + needle@.len()) =~= needle@);
    true
}

/// Find where a text first occurs in another, from a position on.
pub fn find_from(hay: &Vec<char>, needle: &Vec<char>, from: usize) -> (at: Option<usize>)
    requires
        from <= hay@.len(),
    ensures
        match at {
            Some(i) => found_at(hay@, needle@, from as int) == Some(i as int) && from <= i && i
                + needle@.len() <= hay@.len(),
            None => found_at(hay@, needle@, from as int) is None,
        },
{
    let mut i: usize = from;
    while needle.len() <= hay.len() - i
        invariant
            from <= i <= hay@.len(),
            found_at(hay@, needle@, from as int) == found_at(hay@, needle@, i as int),
        decreases hay@.len() - i,
    {
        if stands_at(hay, needle, i) {
            return Some(i);
        }
        assert(needle@.len() == 0 ==> hay@.subrange(i as int, i as int) =~= needle@);
        i += 1;
    }
    None
}

/// Texts with a separator between them.
pub open spec fn joined_by(parts: Seq<Seq<char>>, separator: Seq<char>) -> Seq<char>
    decreases parts.len(),
{
    if parts.len() == 0 {
        Seq::empty()
    } else if parts.len() == 1 {
        parts[0]
    } else {
        joined_by(parts.drop_last(), separator) + separator + parts.last()
    }
}

/// Join texts with a separator.
pub fn join_all(parts: &Vec<String>, separator: &str) -> (joined: String)
    ensures
        joined@ == joined_by(views(parts@), separator@),
{
    let ghost all = views(parts@);
    let mut joined = String::new();
    let mut i: usize = 0;
    while i < parts.len()
        invariant
            i <= parts@.len(),
            all == views(parts@),
            joined@ == joined_by(all.take(i as int), separator@),
        decreases parts@.len() - i,
    {
        proof {
            assert(all.take(i + 1).drop_last() =~= all.take(i as int));
            assert(all.take(i + 1).last() == parts@[i as int]@);
        }
        if i > 0 {
            joined.append(separator);
        }
        let ghost before = joined@;
        joined.append(parts[i].as_str());
        assert(i == 0 ==> joined@ =~= parts@[0]@);
        i += 1;
    }
    assert(all.take(i as int) =~= all);
    joined
}

/// A character with an ASCII capital made small.
pub open spec fn folded(c: char) -> char {
    if 'A' <= c && c <= 'Z' {
        ((c as u32) + 32) as char
    } else {
        c
    }
}

/// Whether two texts are equal but for the case of ASCII letters.
pub open spec fn same_ignoring_case(a: Seq<char>, b: Seq<char>) -> bool {
    a.len() == b.len() && forall|i: int|
        0 <= i < a.len() ==> folded(#[trigger] a[i]) == folded(b[i])
}

/// Make an ASCII capital small.
pub fn fold(c: char) -> (small: char)
    ensures
        small == folded(c),
{
    if 'A' <= c && c <= 'Z' {
        let code: u8 = c as u8;
        (code + 32) as char
    } else {
        c
    }
}

/// Decide whether two texts are equal but for the case of ASCII letters.
pub fn equal_ignoring_case(a: &str, b: &str) -> (equal: bool)
    ensures
        equal == same_ignoring_case(a@, b@),
{
    let left = chars_of(a);
    let right = chars_of(b);
    if left.len() != right.len() {
        return false;
    }
    let mut i: usize = 0;
    while i < left.len()
        invariant
            i <= left@.len() == right@.len(),
            left@ == a@,
            right@ == b@,
            forall|k: int| 0 <= k < i ==> folded(#[trigger] left@[k]) == folded(right@[k]),
        decreases left@.len() - i,
    {
        if fold(left[i]) != fold(right[i]) {
            assert(folded(a@[i as int]) != folded(b@[i as int]));
            return false;
        }
        i += 1;
    }
    true
}

} // verus!
