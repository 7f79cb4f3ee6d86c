//! What holds of texts and paths.

use vstd::prelude::*;
use crate::paths;
use crate::text;

verus! {

/// A sanitized text has no character that could steer a terminal, and a text without
/// such characters stays as it is.
pub proof fn sanitizing_drops_what_steers_a_terminal(value: Seq<char>)
    ensures
        forall|i: int|
            0 <= i < text::sanitized(value).len() ==> {
                let c = #[trigger] text::sanitized(value)[i];
                c > '\u{1f}' && (c < '\u{7f}' || c > '\u{9f}')
            },
        (forall|i: int|
            0 <= i < value.len() ==> #[trigger] value[i] > '\u{1f}' && (value[i] < '\u{7f}'
                || value[i] > '\u{9f}')) ==> text::sanitized(value) == value,
    decreases value.len(),
{
    reveal(Seq::filter);
    if value.len() > 0 {
        let front = value.drop_last();
        let last = value[value.len() - 1];
        sanitizing_drops_what_steers_a_terminal(front);
        let clean = text::sanitized(value);
        lemma_control(last);
        assert forall|i: int| 0 <= i < clean.len() implies {
            let c = #[trigger] clean[i];
            c > '\u{1f}' && (c < '\u{7f}' || c > '\u{9f}')
        } by {
            if i < text::sanitized(front).len() {
                assert(clean[i] == text::sanitized(front)[i]);
            } else {
                assert(clean[i] == last);
            }
        }
        if forall|i: int|
            0 <= i < value.len() ==> #[trigger] value[i] > '\u{1f}' && (value[i] < '\u{7f}'
                || value[i] > '\u{9f}') {
            assert forall|i: int| 0 <= i < front.len() implies #[trigger] front[i] > '\u{1f}' && (
            front[i] < '\u{7f}' || front[i] > '\u{9f}') by {
                assert(front[i] == value[i]);
            }
            assert(front.push(last) =~= value);
        }
    } else {
        assert(text::sanitized(value) =~= value);
    }
}

proof fn lemma_control(c: char)
    ensures
        !text::is_control(c) <==> c > '\u{1f}' && (c < '\u{7f}' || c > '\u{9f}'),
{
}

/// Sanitizing texts one after the other is sanitizing them joined.
pub proof fn sanitizing_goes_piece_by_piece(a: Seq<char>, b: Seq<char>)
    ensures
        text::sanitized(a + b) == text::sanitized(a) + text::sanitized(b),
{
    Seq::filter_distributes_over_add(a, b, |c: char| !text::is_control(c));
}

/// White space around a text goes, and nothing else: what begins and ends with other
/// characters is left as it is.
pub proof fn trimming_drops_white_space_around(before: Seq<char>, core: Seq<char>, after: Seq<char>)
    requires
        forall|i: int| 0 <= i < before.len() ==> text::is_white(#[trigger] before[i]),
        forall|i: int| 0 <= i < after.len() ==> text::is_white(#[trigger] after[i]),
        core.len() > 0 ==> !text::is_white(core[0]) && !text::is_white(core.last()),
    ensures
        text::trimmed(before + core + after) == core,
{
    let whole = before + core + after;
    lemma_trimmed_start(before, core + after);
    assert(before + (core + after) =~= whole);
    if core.len() > 0 {
        assert((core + after)[0] == core[0]);
        assert(text::trimmed_start(core + after) == core + after);
    } else {
        assert(core + after =~= after);
        lemma_all_white(after);
    }
    lemma_trimmed_end(core, after);
}

proof fn lemma_trimmed_start(before: Seq<char>, rest: Seq<char>)
    requires
        forall|i: int| 0 <= i < before.len() ==> text::is_white(#[trigger] before[i]),
    ensures
        text::trimmed_start(before + rest) == text::trimmed_start(rest),
    decreases before.len(),
{
    if before.len() > 0 {
        let tail = before.drop_first();
        assert((before + rest).first() == before[0]);
        assert((before + rest).drop_first() =~= tail + rest);
        assert forall|i: int| 0 <= i < tail.len() implies text::is_white(#[trigger] tail[i]) by {
            assert(tail[i] == before[i + 1]);
        }
        lemma_trimmed_start(tail, rest);
    } else {
        assert(before + rest =~= rest);
    }
}

proof fn lemma_all_white(value: Seq<char>)
    requires
        forall|i: int| 0 <= i < value.len() ==> text::is_white(#[trigger] value[i]),
    ensures
        text::trimmed_start(value).len() == 0,
    decreases value.len(),
{
    if value.len() > 0 {
        let tail = value.drop_first();
        assert(text::is_white(value[0]));
        assert forall|i: int| 0 <= i < tail.len() implies text::is_white(#[trigger] tail[i]) by {
            assert(tail[i] == value[i + 1]);
        }
        lemma_all_white(tail);
    }
}

proof fn lemma_trimmed_end(core: Seq<char>, after: Seq<char>)
    requires
        core.len() > 0 ==> !text::is_white(core.last()),
        forall|i: int| 0 <= i < after.len() ==> text::is_white(#[trigger] after[i]),
    ensures
        text::trimmed_end(core + after) == core,
        core.len() == 0 ==> text::trimmed_end(Seq::empty()) == core,
    decreases after.len(),
{
    if after.len() > 0 {
        let rest = after.drop_last();
        assert((core + after).last() == after[after.len() - 1]);
        assert((core + after).drop_last() =~= core + rest);
        lemma_trimmed_end(core, rest);
    } else {
        assert(core + after =~= core);
    }
    if core.len() == 0 {
        assert(core =~= Seq::empty());
    }
}

/// A text is blank just when it has nothing but white space.
pub proof fn blank_texts_have_only_white_space(value: Seq<char>)
    ensures
        text::is_blank(value) <==> forall|i: int|
            0 <= i < value.len() ==> text::is_white(#[trigger] value[i]),
{
    if forall|i: int| 0 <= i < value.len() ==> text::is_white(#[trigger] value[i]) {
        let none = Seq::<char>::empty();
        trimming_drops_white_space_around(value, none, none);
        assert(value + none + none =~= value);
    } else {
        let i = choose|i: int| 0 <= i < value.len() && !text::is_white(#[trigger] value[i]);
        lemma_start_keeps(value, i);
        let rest = text::trimmed_start(value);
        lemma_end_keeps(rest, choose|k: int| 0 <= k < rest.len() && rest[k] == value[i]);
    }
}

proof fn lemma_start_keeps(value: Seq<char>, i: int)
    requires
        0 <= i < value.len(),
        !text::is_white(value[i]),
    ensures
        text::trimmed_start(value).contains(value[i]),
    decreases value.len(),
{
    if text::is_white(value.first()) {
        assert(value.drop_first()[i - 1] == value[i]);
        lemma_start_keeps(value.drop_first(), i - 1);
    } else {
        assert(value.contains(value[i]));
    }
}

proof fn lemma_end_keeps(value: Seq<char>, i: int)
    requires
        0 <= i < value.len(),
        !text::is_white(value[i]),
    ensures
        text::trimmed_end(value).len() > 0,
    decreases value.len(),
{
    if text::is_white(value.last()) {
        assert(value.drop_last()[i] == value[i]);
        lemma_end_keeps(value.drop_last(), i);
    }
}

/// Blanks, tabs and line breaks are white space; letters, digits and signs that are
/// printed are not.
pub proof fn what_white_space_is(c: char)
    ensures
        c == ' ' || c == '\t' || c == '\n' || c == '\r' ==> text::is_white(c),
        '!' <= c <= '~' ==> !text::is_white(c),
{
}

/// Texts come in the order of the first character in which they differ, and a text comes
/// before every longer one that begins with it.
pub proof fn texts_come_by_their_first_difference(
    common: Seq<char>,
    x: char,
    y: char,
    a: Seq<char>,
    b: Seq<char>,
)
    ensures
        x < y ==> text::at_most(common + seq![x] + a, common + seq![y] + b),
        x < y ==> !text::at_most(common + seq![y] + b, common + seq![x] + a),
        text::at_most(common, common + a),
        a.len() > 0 ==> !text::at_most(common + a, common),
    decreases common.len(),
{
    let left = common + seq![x] + a;
    let right = common + seq![y] + b;
    if common.len() > 0 {
        let rest = common.drop_first();
        texts_come_by_their_first_difference(rest, x, y, a, b);
        assert(left.first() == common[0] && right.first() == common[0]);
        assert(left.drop_first() =~= rest + seq![x] + a);
        assert(right.drop_first() =~= rest + seq![y] + b);
        assert((common + a).first() == common.first());
        assert((common + a).drop_first() =~= rest + a);
    } else {
        assert(left.first() == x && right.first() == y);
        assert(common + a =~= a);
    }
}

/// Numbers are written with the digits 0 to 9, the greatest first.
pub proof fn numbers_are_written_in_decimal(n: nat, d: nat)
    requires
        d < 10,
    ensures
        n > 0 ==> text::decimal(n * 10 + d) == text::decimal(n).push(text::digit(d)),
        text::decimal(d) == seq![text::digit(d)],
        text::digit(0) == '0',
        text::digit(1) == '1',
        text::digit(9) == '9',
        d > 0 ==> text::digit(d) as int == text::digit((d - 1) as nat) as int + 1,
{
    assert((n * 10 + d) / 10 == n && (n * 10 + d) % 10 == d) by (nonlinear_arith)
        requires
            d < 10,
    ;
}

/// Texts are joined in order, with the separator between each two and nowhere else.
pub proof fn texts_are_joined_in_order(parts: Seq<Seq<char>>, last: Seq<char>, by: Seq<char>)
    ensures
        text::joined_by(Seq::empty(), by).len() == 0,
        text::joined_by(seq![last], by) == last,
        parts.len() > 0 ==> text::joined_by(parts.push(last), by) == text::joined_by(parts, by)
            + by + last,
{
    assert(parts.push(last).drop_last() =~= parts);
}

/// A text is found where it first stands.
pub proof fn a_text_is_found_where_it_first_stands(hay: Seq<char>, needle: Seq<char>, i: int)
    requires
        0 <= i,
    ensures
        match text::found_at(hay, needle, i) {
            Some(at) => {
                &&& i <= at && at + needle.len() <= hay.len()
                &&& hay.subrange(at, at + needle.len()) == needle
                &&& forall|k: int|
                    i <= k < at ==> #[trigger] hay.subrange(k, k + needle.len()) != needle
            },
            None => forall|k: int|
                i <= k && k + needle.len() <= hay.len() ==> #[trigger] hay.subrange(
                    k,
                    k + needle.len(),
                ) != needle,
        },
    decreases hay.len() + 1 - i,
{
    if i + needle.len() <= hay.len() && hay.subrange(i, i + needle.len()) != needle {
        a_text_is_found_where_it_first_stands(hay, needle, i + 1);
    }
}

/// The case of ASCII letters does not count where it is ignored; every other difference
/// does.
pub proof fn only_the_case_is_ignored(a: Seq<char>, b: Seq<char>, i: int)
    ensures
        text::same_ignoring_case(a, a),
        a.len() != b.len() ==> !text::same_ignoring_case(a, b),
        text::same_ignoring_case(a, b) && 0 <= i < a.len() ==> a[i] == b[i] || (
        'A' <= a[i] <= 'Z' && 'a' <= b[i] <= 'z' && b[i] as int == a[i] as int + 32) || (
        'A' <= b[i] <= 'Z' && 'a' <= a[i] <= 'z' && a[i] as int == b[i] as int + 32),
{
    if text::same_ignoring_case(a, b) && 0 <= i < a.len() {
        lemma_folded(a[i], b[i]);
    }
}

proof fn lemma_folded(x: char, y: char)
    requires
        text::folded(x) == text::folded(y),
    ensures
        x == y || ('A' <= x <= 'Z' && 'a' <= y <= 'z' && y as int == x as int + 32) || ('A' <= y
            <= 'Z' && 'a' <= x <= 'z' && x as int == y as int + 32),
{
}

/// Pieces of a path that goes on after a slash.
proof fn lemma_pieces_joined(front: Seq<char>, rest: Seq<char>, at: int)
    requires
        0 <= at <= front.len(),
    ensures
        paths::pieces_from(front + seq!['/'] + rest, at) == paths::pieces_from(front, at)
            + paths::pieces_from(front + seq!['/'] + rest, front.len() as int + 1),
        forall|i: int|
            0 <= i < paths::pieces_from(front, at).len() ==> {
                let piece = #[trigger] paths::pieces_from(front, at)[i];
                at <= piece.0 <= piece.1 <= front.len()
            },
    decreases front.len() - at,
{
    let whole = front + seq!['/'] + rest;
    lemma_ends_alike(front, rest, at);
    let to = paths::piece_end(front, at);
    let later = paths::pieces_from(whole, front.len() as int + 1);
    assert(whole[front.len() as int] == '/');
    if at < to {
        assert(whole[at] == front[at]);
    }
    if to < front.len() {
        lemma_pieces_joined(front, rest, to + 1);
    }
    assert(paths::pieces_from(whole, at) =~= paths::pieces_from(front, at) + later);
}

proof fn lemma_ends_alike(front: Seq<char>, rest: Seq<char>, at: int)
    requires
        0 <= at <= front.len(),
    ensures
        paths::piece_end(front + seq!['/'] + rest, at) == paths::piece_end(front, at),
        at <= paths::piece_end(front, at) <= front.len(),
    decreases front.len() - at,
{
    let whole = front + seq!['/'] + rest;
    if at < front.len() {
        assert(whole[at] == front[at]);
        if front[at] != '/' {
            lemma_ends_alike(front, rest, at + 1);
        }
    } else {
        assert(whole[at] == '/');
    }
}

/// Whether a text is a plain name: not empty, without slashes, and neither `.` nor `..`.
pub open spec fn is_name(name: Seq<char>) -> bool {
    &&& name.len() > 0
    &&& !name.contains('/')
    &&& name != seq!['.']
    &&& name != seq!['.', '.']
}

/// The last piece of a path.
proof fn lemma_last_piece(front: Seq<char>, name: Seq<char>)
    requires
        is_name(name),
    ensures
        paths::pieces_from(front + seq!['/'] + name, front.len() as int + 1) == seq![
            (front.len() as int + 1, front.len() as int + 1 + name.len()),
        ],
{
    let whole = front + seq!['/'] + name;
    let at = (front.len() + 1) as int;
    assert forall|i: int| at <= i < whole.len() implies #[trigger] whole[i] != '/' by {
        assert(whole[i] == name[i - at]);
        assert(name.contains(name[i - at]));
    }
    lemma_runs_to_the_end(whole, at);
    if name.len() == 1 && whole[at] == '.' {
        assert(whole[at] == name[0]);
        assert(name =~= seq!['.']);
    }
    assert(paths::pieces_from(whole, at) =~= seq![(at, whole.len() as int)]);
}

proof fn lemma_runs_to_the_end(path: Seq<char>, at: int)
    requires
        0 <= at <= path.len(),
        forall|i: int| at <= i < path.len() ==> #[trigger] path[i] != '/',
    ensures
        paths::piece_end(path, at) == path.len(),
    decreases path.len() - at,
{
    if at < path.len() {
        lemma_runs_to_the_end(path, at + 1);
    }
}

/// The pieces of a path are those of its directory and its name; and it is named by that.
pub proof fn paths_are_made_of_their_pieces(front: Seq<char>, name: Seq<char>)
    requires
        is_name(name),
    ensures
        paths::parts(front + seq!['/'] + name) == paths::parts(front).push(name),
        paths::base_name(front + seq!['/'] + name) == name,
        paths::parts(front + seq!['/']) == paths::parts(front),
{
    let whole = front + seq!['/'] + name;
    let none = Seq::<char>::empty();
    lemma_pieces_joined(front, name, 0);
    lemma_last_piece(front, name);
    let before = paths::pieces(front);
    let all = paths::pieces(whole);
    assert forall|i: int| 0 <= i < before.len() implies whole.subrange(
        (#[trigger] all[i]).0,
        all[i].1,
    ) == front.subrange(before[i].0, before[i].1) by {
        assert(all[i] == before[i]);
        assert(whole.subrange(all[i].0, all[i].1) =~= front.subrange(before[i].0, before[i].1));
    }
    assert(whole.subrange(front.len() as int + 1, whole.len() as int) =~= name);
    assert(paths::parts(whole) =~= paths::parts(front).push(name));
    assert(paths::parts(whole).last() == name);
    lemma_pieces_joined(front, none, 0);
    let slashed = front + seq!['/'];
    assert(front + seq!['/'] + none =~= slashed);
    assert(paths::pieces_from(slashed, slashed.len() as int) =~= Seq::empty());
    let same = paths::pieces(slashed);
    assert(same =~= before);
    assert forall|i: int| 0 <= i < before.len() implies slashed.subrange(
        (#[trigger] same[i]).0,
        same[i].1,
    ) == front.subrange(before[i].0, before[i].1) by {
        assert(slashed.subrange(same[i].0, same[i].1) =~= front.subrange(
            before[i].0,
            before[i].1,
        ));
    }
    assert(paths::parts(slashed) =~= paths::parts(front));
}

/// Two paths are the same when their directories and their names are, and slashes at the
/// end do not count.
pub proof fn paths_differ_by_their_pieces(
    a: Seq<char>,
    b: Seq<char>,
    x: Seq<char>,
    y: Seq<char>,
)
    requires
        a.len() > 0,
        b.len() > 0,
        is_name(x),
        is_name(y),
    ensures
        paths::same_path(a + seq!['/'] + x, b + seq!['/'] + y) <==> paths::same_path(a, b) && x == y,
        paths::same_path(a, a + seq!['/']),
{
    paths_are_made_of_their_pieces(a, x);
    paths_are_made_of_their_pieces(b, y);
    let left = paths::parts(a);
    let right = paths::parts(b);
    assert((a + seq!['/'] + x)[0] == a[0]);
    assert((b + seq!['/'] + y)[0] == b[0]);
    assert((a + seq!['/'])[0] == a[0]);
    if left.push(x) == right.push(y) {
        assert(left.push(x).last() == x);
        assert(right.push(y).last() == y);
        assert(left.push(x).drop_last() =~= left);
        assert(right.push(y).drop_last() =~= right);
    }
}

/// The home directory is shown as `~`, a path below it by its rest behind that, and a
/// path beside it as it is.
pub proof fn homes_are_collapsed(home: Seq<char>, name: Seq<char>, below: Seq<char>)
    requires
        home.len() > 0,
        is_name(name),
        is_name(below),
    ensures
        paths::parts(home).len() > 0 ==> paths::collapsed(home, Some(home)) == seq!['~'],
        paths::parts(home).len() > 0 ==> paths::collapsed(home + seq!['/'] + name, Some(home))
            == seq!['~', '/'] + name,
        paths::parts(home).len() > 0 ==> paths::collapsed(
            home + seq!['/'] + name + seq!['/'] + below,
            Some(home),
        ) == seq!['~', '/'] + name + seq!['/'] + below,
        below != name ==> paths::collapsed(
            home + seq!['/'] + below,
            Some(home + seq!['/'] + name),
        ) == home + seq!['/'] + below,
        paths::collapsed(home, None) == home,
{
    let child = home + seq!['/'] + name;
    let deep = child + seq!['/'] + below;
    paths_are_made_of_their_pieces(home, name);
    paths_are_made_of_their_pieces(child, below);
    paths_are_made_of_their_pieces(home, below);
    let count = paths::parts(home).len() as int;
    assert(paths::parts(home).take(count) =~= paths::parts(home));
    assert(paths::parts(child).take(count) =~= paths::parts(home));
    assert(paths::parts(deep).take(count) =~= paths::parts(home));
    assert(child[0] == home[0] && deep[0] == home[0]);
    lemma_pieces_joined(home, name, 0);
    lemma_last_piece(home, name);
    lemma_pieces_joined(child, below, 0);
    lemma_last_piece(child, below);
    assert(child.subrange(home.len() as int + 1, child.len() as int) =~= name);
    assert(paths::pieces(deep)[count] == paths::pieces(child)[count]);
    assert(deep.subrange(home.len() as int + 1, deep.len() as int) =~= name + seq!['/'] + below);
    assert(seq!['~', '/'] + (name + seq!['/'] + below) =~= seq!['~', '/'] + name + seq!['/']
        + below);
    if below != name {
        let other = home + seq!['/'] + below;
        assert(other[0] == home[0]);
        assert(paths::parts(other).take(count + 1) =~= paths::parts(other));
        assert(paths::parts(other)[count] == below);
        assert(paths::parts(child)[count] == name);
    }
}

/// A name is put below a directory with one slash between; a name from the root stands
/// for itself.
pub proof fn names_are_put_below_directories(directory: Seq<char>, name: Seq<char>)
    ensures
        name.len() > 0 && name[0] == '/' ==> paths::child(directory, name) == name,
        directory.len() > 0 && directory.last() != '/' && (name.len() == 0 || name[0] != '/')
            ==> paths::child(directory, name) == directory + seq!['/'] + name,
        directory.len() > 0 && directory.last() == '/' && (name.len() == 0 || name[0] != '/')
            ==> paths::child(directory, name) == directory + name,
        directory.len() == 0 ==> paths::child(directory, name) == name,
{
    assert(directory.push('/') + name =~= directory + seq!['/'] + name);
}

/// Every other kind of blank is white space too, and nothing else is.
pub proof fn which_blanks_are_white_space(c: char)
    ensures
        c == '\u{b}' || c == '\u{c}' || c == '\u{85}' || c == '\u{a0}' || c == '\u{1680}'
            ==> text::is_white(c),
        '\u{2000}' <= c <= '\u{200a}' ==> text::is_white(c),
        c == '\u{2028}' || c == '\u{2029}' || c == '\u{202f}' || c == '\u{205f}' || c == '\u{3000}'
            ==> text::is_white(c),
        c <= '\u{8}' || '\u{e}' <= c <= '\u{1f}' || '\u{7f}' <= c <= '\u{84}' ==> !text::is_white(
            c,
        ),
        '\u{86}' <= c <= '\u{9f}' || '\u{a1}' <= c <= '\u{167f}' || '\u{1681}' <= c <= '\u{1fff}'
            ==> !text::is_white(c),
        '\u{200b}' <= c <= '\u{2027}' || '\u{202a}' <= c <= '\u{202e}' || c > '\u{3000}'
            ==> !text::is_white(c),
        '\u{2030}' <= c <= '\u{205e}' || '\u{2060}' <= c <= '\u{2fff}' ==> !text::is_white(c),
{
}

/// An optional text is cleaned by dropping control characters and white space around it;
/// where nothing is left there is none.
pub proof fn cleaning_leaves_something_or_nothing(value: Seq<char>)
    ensures
        text::cleaned(None) is None,
        text::trimmed(text::sanitized(value)).len() == 0 ==> text::cleaned(Some(value)) is None,
        text::trimmed(text::sanitized(value)).len() > 0 ==> text::cleaned(Some(value)) == Some(
            text::trimmed(text::sanitized(value)),
        ),
{
}

/// Texts that differ only in the case of ASCII letters are the same where case is ignored.
pub proof fn capitals_are_like_small_letters(a: Seq<char>, b: Seq<char>)
    requires
        a.len() == b.len(),
        forall|i: int|
            0 <= i < a.len() ==> #[trigger] a[i] == b[i] || ('A' <= a[i] <= 'Z' && b[i] as int
                == a[i] as int + 32) || ('A' <= b[i] <= 'Z' && a[i] as int == b[i] as int + 32),
    ensures
        text::same_ignoring_case(a, b),
{
    assert forall|i: int| 0 <= i < a.len() implies text::folded(#[trigger] a[i]) == text::folded(
        b[i],
    ) by {
        lemma_folds_alike(a[i], b[i]);
    }
}

proof fn lemma_folds_alike(x: char, y: char)
    requires
        x == y || ('A' <= x <= 'Z' && y as int == x as int + 32) || ('A' <= y <= 'Z' && x as int
            == y as int + 32),
    ensures
        text::folded(x) == text::folded(y),
{
}

} // verus!
