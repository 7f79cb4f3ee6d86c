//! Unix paths as text.
//!
//! A path is split at `/` into pieces. Empty pieces do not count, nor does `.`
//! except at the start of a relative path. Two spellings with the same root and
//! the same pieces name the same path.

use vstd::prelude::*;
use crate::text;

verus! {

/// Where the piece that starts at `at` ends: the next `/`, or the end.
pub open spec fn piece_end(path: Seq<char>, at: int) -> int
    decreases path.len() - at,
{
    if at >= path.len() || path[at] == '/' {
        at
    } else {
        piece_end(path, at + 1)
    }
}

/// Whether the piece from `from` to `to` counts.
pub open spec fn counts(path: Seq<char>, from: int, to: int) -> bool {
    from < to && !(to == from + 1 && path[from] == '.' && from > 0)
}

/// The bounds of the pieces that count, from position `at` on.
pub open spec fn pieces_from(path: Seq<char>, at: int) -> Seq<(int, int)>
    decreases path.len() - at, 1nat,
{
    if at < 0 || at > path.len() {
        Seq::empty()
    } else {
        let to = piece_end(path, at);
        let rest = if at <= to < path.len() {
            pieces_from(path, to + 1)
        } else {
            Seq::empty()
        };
        if counts(path, at, to) {
            seq![(at, to)] + rest
        } else {
            rest
        }
    }
}

/// The bounds of the pieces of a path.
pub open spec fn pieces(path: Seq<char>) -> Seq<(int, int)> {
    pieces_from(path, 0)
}

/// The pieces of a path.
pub open spec fn parts(path: Seq<char>) -> Seq<Seq<char>> {
    Seq::new(pieces(path).len(), |i: int| path.subrange(pieces(path)[i].0, pieces(path)[i].1))
}

/// Whether a path starts at the root.
pub open spec fn is_rooted(path: Seq<char>) -> bool {
    path.len() > 0 && path[0] == '/'
}

/// Whether two spellings name the same path.
pub open spec fn same_path(a: Seq<char>, b: Seq<char>) -> bool {
    is_rooted(a) == is_rooted(b) && parts(a) == parts(b)
}

/// Two spellings of one path are interchangeable.
pub proof fn same_path_is_an_equivalence(a: Seq<char>, b: Seq<char>, c: Seq<char>)
    ensures
        same_path(a, a),
        same_path(a, b) ==> same_path(b, a),
        same_path(a, b) && same_path(b, c) ==> same_path(a, c),
{
}

/// The last piece of a path, unless it is `.` or `..`.
pub open spec fn file_name(path: Seq<char>) -> Option<Seq<char>> {
    if parts(path).len() == 0 {
        None
    } else {
        let last = parts(path).last();
        if last == seq!['.'] || last == seq!['.', '.'] {
            None
        } else {
            Some(last)
        }
    }
}

/// The name shown for a path: its last piece, or else the whole path.
pub open spec fn base_name(path: Seq<char>) -> Seq<char> {
    match file_name(path) {
        Some(name) => name,
        None => path,
    }
}

/// What follows the pieces of `base` in `path`, as it is spelled there, when
/// `path` starts with `base`.
pub open spec fn below(path: Seq<char>, base: Seq<char>) -> Option<Seq<char>> {
    let count = parts(base).len() as int;
    if !is_rooted(base) && count == 0 {
        Some(path.subrange(0, body_end(path)))
    } else if is_rooted(path) != is_rooted(base) || count > parts(path).len() || parts(path).take(
        count,
    ) != parts(base) {
        None
    } else if count == parts(path).len() {
        Some(Seq::empty())
    } else {
        Some(path.subrange(pieces(path)[count].0, pieces(path).last().1))
    }
}

/// Where the last piece of a path ends.
pub open spec fn body_end(path: Seq<char>) -> int {
    if pieces(path).len() > 0 {
        pieces(path).last().1
    } else if is_rooted(path) {
        1
    } else {
        0
    }
}

/// A path with the home directory written as `~`.
pub open spec fn collapsed(path: Seq<char>, home: Option<Seq<char>>) -> Seq<char> {
    match home {
        Some(base) => match below(path, base) {
            Some(rest) => if rest.len() == 0 {
                seq!['~']
            } else {
                seq!['~', '/'] + rest
            },
            None => path,
        },
        None => path,
    }
}

/// A name put below a directory; a name that starts at the root stands alone.
pub open spec fn child(dir: Seq<char>, name: Seq<char>) -> Seq<char> {
    if is_rooted(name) || dir.len() == 0 {
        name
    } else if dir.last() == '/' {
        dir + name
    } else {
        dir.push('/') + name
    }
}

/// A piece never ends before it starts, nor after the path.
proof fn lemma_piece_end(path: Seq<char>, at: int)
    requires
        0 <= at <= path.len(),
    ensures
        at <= piece_end(path, at) <= path.len(),
        piece_end(path, at) < path.len() ==> path[piece_end(path, at)] == '/',
    decreases path.len() - at,
{
    if at < path.len() && path[at] != '/' {
        lemma_piece_end(path, at + 1);
    }
}

/// Every piece lies within its path.
proof fn lemma_pieces_from(path: Seq<char>, at: int)
    requires
        0 <= at <= path.len(),
    ensures
        forall|i: int|
            0 <= i < pieces_from(path, at).len() ==> {
                let piece = #[trigger] pieces_from(path, at)[i];
                at <= piece.0 < piece.1 <= path.len()
            },
        forall|i: int, j: int|
            0 <= i < j < pieces_from(path, at).len() ==> (#[trigger] pieces_from(path, at)[i]).1 < (
            #[trigger] pieces_from(path, at)[j]).0,
    decreases path.len() - at,
{
    lemma_piece_end(path, at);
    let to = piece_end(path, at);
    let rest = if to < path.len() {
        pieces_from(path, to + 1)
    } else {
        Seq::empty()
    };
    if to < path.len() {
        lemma_pieces_from(path, to + 1);
    }
    let all = pieces_from(path, at);
    let shift: int = if counts(path, at, to) {
        1
    } else {
        0
    };
    assert forall|i: int| 0 <= i < all.len() implies {
        let piece = #[trigger] all[i];
        at <= piece.0 < piece.1 <= path.len()
    } by {
        if i >= shift {
            assert(all[i] == rest[i - shift]);
        }
    }
    assert forall|i: int, j: int| 0 <= i < j < all.len() implies (#[trigger] all[i]).1 < (
    #[trigger] all[j]).0 by {
        assert(all[j] == rest[j - shift]);
        if i >= shift {
            assert(all[i] == rest[i - shift]);
        }
    }
}

/// Find the end of a piece.
fn end_of_piece(path: &Vec<char>, at: usize) -> (to: usize)
    requires
        at <= path@.len(),
    ensures
        to == piece_end(path@, at as int),
        at <= to <= path@.len(),
        to < path@.len() ==> path@[to as int] == '/',
{
    let mut to: usize = at;
    while to < path.len() && path[to] != '/'
        invariant
            at <= to <= path@.len(),
            piece_end(path@, at as int) == piece_end(path@, to as int),
        decreases path@.len() - to,
    {
        to += 1;
    }
    to
}

/// The bounds of pieces, as integers.
pub open spec fn bounds(found: Seq<(usize, usize)>) -> Seq<(int, int)> {
    Seq::new(found.len(), |i: int| (found[i].0 as int, found[i].1 as int))
}

/// Find the pieces of a path.
fn find_pieces(path: &Vec<char>) -> (found: Vec<(usize, usize)>)
    ensures
        bounds(found@) == pieces(path@),
        forall|i: int|
            0 <= i < found@.len() ==> (#[trigger] found@[i]).0 < found@[i].1 <= path@.len(),
        forall|i: int, j: int|
            0 <= i < j < found@.len() ==> (#[trigger] found@[i]).1 < (#[trigger] found@[j]).0,
{
    let mut found: Vec<(usize, usize)> = Vec::new();
    let mut at: usize = 0;
    let mut done: bool = false;
    assert(bounds(found@) + pieces_from(path@, 0) =~= pieces(path@));
    while !done
        invariant
            at <= path@.len(),
            done ==> bounds(found@) == pieces(path@),
            !done ==> bounds(found@) + pieces_from(path@, at as int) == pieces(path@),
        decreases path@.len() - at, if done {
                0int
            } else {
                1int
            },
    {
        let to = end_of_piece(path, at);
        let ghost before = found@;
        let ghost rest: Seq<(int, int)> = if to < path@.len() {
            pieces_from(path@, to + 1)
        } else {
            Seq::empty()
        };
        if at < to && !(to == at + 1 && path[at] == '.' && at > 0) {
            found.push((at, to));
            assert(bounds(found@) =~= bounds(before).push((at as int, to as int)));
            assert(bounds(found@) + rest =~= bounds(before) + (seq![(at as int, to as int)]
                + rest));
        } else {
            assert(pieces_from(path@, at as int) == rest);
        }
        if to < path.len() {
            at = to + 1;
        } else {
            done = true;
            assert(bounds(found@) + Seq::empty() =~= bounds(found@));
        }
    }
    proof {
        lemma_pieces_from(path@, 0);
        assert forall|i: int| 0 <= i < found@.len() implies (#[trigger] found@[i]).0 < found@[i].1
            <= path@.len() by {
            assert(bounds(found@)[i] == pieces(path@)[i]);
        }
        assert forall|i: int, j: int| 0 <= i < j < found@.len() implies (#[trigger] found@[i]).1 < (
        #[trigger] found@[j]).0 by {
            assert(bounds(found@)[i] == pieces(path@)[i]);
            assert(bounds(found@)[j] == pieces(path@)[j]);
        }
    }
    found
}

/// The pieces of a path, as texts.
pub fn split(path: &str) -> (found: Vec<String>)
    ensures
        text::views(found@) == parts(path@),
{
    let chars = text::chars_of(path);
    let spans = find_pieces(&chars);
    let mut found: Vec<String> = Vec::new();
    let mut i: usize = 0;
    while i < spans.len()
        invariant
            i <= spans@.len(),
            chars@ == path@,
            bounds(spans@) == pieces(chars@),
            forall|k: int|
                0 <= k < spans@.len() ==> (#[trigger] spans@[k]).0 < spans@[k].1 <= chars@.len(),
            text::views(found@) == parts(path@).take(i as int),
        decreases spans@.len() - i,
    {
        let ghost before = found@;
        found.push(text::text_between(&chars, spans[i].0, spans[i].1));
        proof {
            assert(bounds(spans@)[i as int] == pieces(chars@)[i as int]);
            assert(parts(path@).take(i + 1) =~= parts(path@).take(i as int).push(
                parts(path@)[i as int],
            ));
            assert(text::views(found@) =~= text::views(before).push(found@.last()@));
        }
        i += 1;
    }
    assert(bounds(spans@).len() == pieces(path@).len());
    assert(parts(path@).take(i as int) =~= parts(path@));
    found
}

/// Whether a text starts with `/`.
pub fn rooted(path: &str) -> (found: bool)
    ensures
        found == is_rooted(path@),
{
    let chars = text::chars_of(path);
    chars.len() > 0 && chars[0] == '/'
}

/// Whether two lists hold the same texts.
pub fn same_texts(a: &Vec<String>, b: &Vec<String>) -> (equal: bool)
    ensures
        equal == (text::views(a@) == text::views(b@)),
{
    if a.len() != b.len() {
        assert(text::views(a@).len() != text::views(b@).len());
        return false;
    }
    let mut i: usize = 0;
    while i < a.len()
        invariant
            i <= a@.len(),
            a@.len() == b@.len(),
            forall|k: int| 0 <= k < i ==> (#[trigger] a@[k])@ == b@[k]@,
        decreases a@.len() - i,
    {
        if !text::same(a[i].as_str(), b[i].as_str()) {
            assert(text::views(a@)[i as int] != text::views(b@)[i as int]);
            return false;
        }
        i += 1;
    }
    assert(text::views(a@) =~= text::views(b@));
    true
}

/// Decide [`same_path`].
pub fn equal_paths(a: &str, b: &str) -> (equal: bool)
    ensures
        equal == same_path(a@, b@),
{
    rooted(a) == rooted(b) && same_texts(&split(a), &split(b))
}

/// The last piece of a path, or else the whole path.
pub fn last_name(path: &str) -> (name: String)
    ensures
        name@ == base_name(path@),
{
    let chars = text::chars_of(path);
    let spans = find_pieces(&chars);
    assert(bounds(spans@).len() == pieces(path@).len());
    if spans.len() == 0 {
        return path.to_string();
    }
    let (from, to) = spans[spans.len() - 1];
    let name = text::text_between(&chars, from, to);
    proof {
        assert(bounds(spans@).last() == pieces(path@).last());
        assert(parts(path@).last() == name@);
    }
    let dots = chars[from] == '.' && (to - from == 1 || (to - from == 2 && chars[from + 1] == '.'));
    proof {
        assert(name@.len() == to - from);
        assert(name@[0] == chars@[from as int]);
        assert(to - from >= 2 ==> name@[1] == chars@[from + 1]);
        if dots {
            if to - from == 1 {
                assert(name@ =~= seq!['.']);
            } else {
                assert(name@ =~= seq!['.', '.']);
            }
        } else {
            assert(seq!['.'][0] == '.');
            assert(seq!['.', '.'][0] == '.' && seq!['.', '.'][1] == '.');
        }
    }
    if dots {
        path.to_string()
    } else {
        name
    }
}

/// What follows `base` in `path`, when `path` starts with it.
pub fn strip(path: &str, base: &str) -> (rest: Option<String>)
    ensures
        text::view_of(rest) == below(path@, base@),
{
    let chars = text::chars_of(path);
    let spans = find_pieces(&chars);
    let mine = split(path);
    let wanted = split(base);
    proof {
        assert(bounds(spans@).len() == pieces(path@).len());
        assert(text::views(mine@).len() == parts(path@).len());
        assert(text::views(wanted@).len() == parts(base@).len());
    }
    if !rooted(base) && wanted.len() == 0 {
        let end: usize = if spans.len() > 0 {
            assert(bounds(spans@).last() == pieces(path@).last());
            spans[spans.len() - 1].1
        } else if rooted(path) {
            1
        } else {
            0
        };
        return Some(text::text_between(&chars, 0, end));
    }
    if rooted(path) != rooted(base) || wanted.len() > mine.len() {
        return None;
    }
    let mut i: usize = 0;
    while i < wanted.len()
        invariant
            i <= wanted@.len() <= mine@.len(),
            text::views(mine@) == parts(path@),
            text::views(wanted@) == parts(base@),
            is_rooted(path@) == is_rooted(base@),
            is_rooted(base@) || wanted@.len() > 0,
            forall|k: int| 0 <= k < i ==> (#[trigger] mine@[k])@ == wanted@[k]@,
        decreases wanted@.len() - i,
    {
        if !text::same(mine[i].as_str(), wanted[i].as_str()) {
            proof {
                assert(text::views(mine@)[i as int] != text::views(wanted@)[i as int]);
                assert(parts(path@).take(wanted@.len() as int)[i as int] != parts(
                    base@,
                )[i as int]);
            }
            return None;
        }
        i += 1;
    }
    assert(parts(path@).take(wanted@.len() as int) =~= parts(base@)) by {
        assert forall|k: int| 0 <= k < wanted@.len() implies parts(path@)[k] == parts(base@)[k] by {
            assert(text::views(mine@)[k] == mine@[k]@);
            assert(text::views(wanted@)[k] == wanted@[k]@);
        }
    }
    if wanted.len() == mine.len() {
        return Some(String::new());
    }
    let count: usize = wanted.len();
    let last: usize = spans.len() - 1;
    proof {
        assert(bounds(spans@).last() == pieces(path@).last());
        assert(bounds(spans@)[count as int] == pieces(path@)[count as int]);
        assert(spans@[count as int].0 < spans@[count as int].1);
        if count < last {
            assert(spans@[count as int].1 < spans@[last as int].0);
        }
    }
    Some(text::text_between(&chars, spans[count].0, spans[last].1))
}

/// Write the home directory as `~`.
pub fn collapse_under(path: &str, home: Option<&str>) -> (shown: String)
    ensures
        shown@ == collapsed(
            path@,
            match home {
                Some(base) => Some(base@),
                None => None,
            },
        ),
{
    if let Some(base) = home {
        if let Some(rest) = strip(path, base) {
            let mut shown = String::new();
            shown.push('~');
            if rest.as_str().is_empty() {
                assert(shown@ =~= seq!['~']);
                return shown;
            }
            shown.push('/');
            shown.append(rest.as_str());
            assert(shown@ =~= seq!['~', '/'] + rest@);
            return shown;
        }
    }
    path.to_string()
}

/// Put a name below a directory.
pub fn join(dir: &str, name: &str) -> (path: String)
    ensures
        path@ == child(dir@, name@),
{
    let chars = text::chars_of(dir);
    if rooted(name) || chars.len() == 0 {
        name.to_string()
    } else {
        let mut path = dir.to_string();
        if chars[chars.len() - 1] != '/' {
            path.push('/');
        }
        path.append(name);
        path
    }
}

} // verus!
