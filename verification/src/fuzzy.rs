//! Fuzzy matching, by the nucleo matcher.

use vstd::prelude::*;
use crate::text;
use crate::width;

verus! {

/// `nucleo_matcher::Matcher`, the matcher with its configuration and buffers.
#[verifier::external_type_specification]
#[verifier::external_body]
pub struct ExMatcher(nucleo_matcher::Matcher);

/// A fuzzy matcher in nucleo's default configuration.
pub struct FuzzyMatcher {
    inner: nucleo_matcher::Matcher,
}

/// The score of a text under a query: nucleo's pattern score with smart case and
/// smart normalization, in the default configuration.
pub uninterp spec fn fuzzy_score(query: Seq<char>, value: Seq<char>) -> Option<u32>;

/// Whether a query is split into words at a place: at a space that no backslash
/// escapes.
pub open spec fn splits(query: Seq<char>, i: int) -> bool {
    query[i] == ' ' && !(i > 0 && query[i - 1] == '\\')
}

/// How many characters a character of a query can put into a word: backslashes can
/// be doubled.
pub open spec fn weight(c: char) -> nat {
    if c == '\\' {
        2
    } else {
        1
    }
}

/// How many characters the word before place `n` of a query can have.
pub open spec fn word_size(query: Seq<char>, n: nat) -> nat
    decreases n,
{
    if n == 0 || splits(query, n - 1) {
        0
    } else {
        word_size(query, (n - 1) as nat) + weight(query[n - 1])
    }
}

/// The longest word whose score fits 16 bits: 36 for its first character and 26
/// for every other one.
pub const LONGEST_WORD: usize = 2_520;

/// The longest query whose words' scores fit 32 bits together, at 36 for each of
/// the characters that its words can have.
pub const LONGEST_QUERY: usize = 50_000_000;

/// The longest text with at most 2^32 - 1 bytes in UTF-8.
pub const LONGEST_TEXT: usize = 1_073_741_823;

/// The first characters of a text's clusters, which alone the matcher looks at.
pub open spec fn firsts(value: Seq<char>) -> Seq<char> {
    Seq::new(width::clusters(value).len(), |i: int| width::clusters(value)[i][0])
}

/// Whether a text is ASCII.
pub open spec fn is_ascii(value: Seq<char>) -> bool {
    forall|i: int| 0 <= i < value.len() ==> #[trigger] value[i] < '\u{80}'
}

/// The most characters that the matcher can see in a text. It sees the bytes of a
/// text of which all clusters begin with ASCII characters.
pub open spec fn room(value: Seq<char>) -> nat {
    if is_ascii(value) || !is_ascii(firsts(value)) {
        value.len()
    } else {
        4 * value.len()
    }
}

/// Whether the scores of a query's words fit 16 bits for a text. No word longer
/// than what the matcher sees of a text matches it.
pub open spec fn words_fit(query: Seq<char>, value: Seq<char>) -> bool {
    (forall|n: nat| n <= query.len() ==> #[trigger] word_size(query, n) <= LONGEST_WORD) || room(
        value,
    ) <= LONGEST_WORD
}

/// The form of a character without case: nucleo's simple case folding.
pub uninterp spec fn case_folded(c: char) -> char;

/// The letter that a character is a variant of: nucleo's Latin normalization.
pub uninterp spec fn normalized(c: char) -> char;

/// Whether one lowercase character is folded to another. The matcher folds these
/// where it looks for the first character of a word, but not where it scores it,
/// unless it also normalizes.
pub open spec fn folds_late(c: char, to: char) -> bool {
    let from = c as u32;
    let code = to as u32;
    ||| (from == 0xb5 && code == 0x3bc)
    ||| (from == 0x17f && code == 0x73)
    ||| (from == 0x345 && code == 0x3b9)
    ||| (from == 0x3c2 && code == 0x3c3)
    ||| (from == 0x3d0 && code == 0x3b2)
    ||| (from == 0x3d1 && code == 0x3b8)
    ||| (from == 0x3d5 && code == 0x3c6)
    ||| (from == 0x3d6 && code == 0x3c0)
    ||| (from == 0x3f0 && code == 0x3ba)
    ||| (from == 0x3f1 && code == 0x3c1)
    ||| (from == 0x3f5 && code == 0x3b5)
    ||| (0x13f8 <= from <= 0x13fd && code == from - 8)
    ||| (from == 0x1c80 && code == 0x432)
    ||| (from == 0x1c81 && code == 0x434)
    ||| (from == 0x1c82 && code == 0x43e)
    ||| (from == 0x1c83 && code == 0x441)
    ||| (from == 0x1c84 && code == 0x442)
    ||| (from == 0x1c85 && code == 0x442)
    ||| (from == 0x1c86 && code == 0x44a)
    ||| (from == 0x1c87 && code == 0x463)
    ||| (from == 0x1c88 && code == 0xa64b)
    ||| (from == 0x1e9b && code == 0x1e61)
    ||| (from == 0x1fbe && code == 0x3b9)
    ||| (0xab70 <= from <= 0xabbf && code == from - 0x97d0)
}

/// Whether no character of a text is folded late to one of a query.
pub open spec fn folds_none_late(query: Seq<char>, value: Seq<char>) -> bool {
    forall|i: int| 0 <= i < value.len() ==> !meets_late_folding(query, #[trigger] value[i])
}

/// Whether a character is folded late to one of a query.
pub open spec fn meets_late_folding(query: Seq<char>, c: char) -> bool {
    exists|j: int| 0 <= j < query.len() && folds_late(c, #[trigger] query[j])
}

/// Whether a word of a query starts at a place.
pub open spec fn starts_word(query: Seq<char>, s: int) -> bool {
    s == 0 || splits(query, s - 1)
}

/// Where the word ends that is still going on at a place.
pub open spec fn word_end(query: Seq<char>, i: int) -> int
    decreases query.len() - i,
{
    if i >= query.len() || splits(query, i) {
        i
    } else {
        word_end(query, i + 1)
    }
}

/// Whether a word is to stand at the end of a text, and so is not matched fuzzily.
pub open spec fn is_ending(word: Seq<char>) -> bool {
    word.len() > 0 && word.last() == '$' && !(word.len() > 1 && word[word.len() - 2] == '\\')
}

/// Whether the matcher folds case for a word, but does not normalize.
pub open spec fn folds_only(needle: Seq<char>) -> bool {
    &&& exists|i: int| 0 <= i < needle.len() && normalized(#[trigger] needle[i]) != needle[i]
    &&& forall|i: int| 0 <= i < needle.len() ==> case_folded(#[trigger] needle[i]) == needle[i]
}

/// Whether a place of a text is the first whose character is folded to another.
pub open spec fn folds_first(seen: Seq<char>, to: char, i: int) -> bool {
    case_folded(seen[i]) == to && forall|j: int|
        0 <= j < i ==> case_folded(#[trigger] seen[j]) != to
}

/// Whether a character is folded to another at a place or after it.
pub open spec fn folds_from(seen: Seq<char>, to: char, from: int) -> bool {
    exists|k: int| from <= k < seen.len() && case_folded(#[trigger] seen[k]) == to
}

/// Whether the matcher starts to score a word at a character that it does not fold
/// there. The text goes on for longer than the word from there, or else the two
/// are compared as they are.
pub open spec fn starts_late(word: Seq<char>, needle: Seq<char>, seen: Seq<char>) -> bool {
    exists|i: int|
        {
            &&& 0 <= i < seen.len()
            &&& folds_late(#[trigger] seen[i], needle[0])
            &&& folds_first(seen, needle[0], i)
            &&& word.contains('\\') || folds_from(seen, needle.last(), i + needle.len())
        }
}

/// Whether the matcher would start to score a word where it does not match.
pub open spec fn misplaces(word: Seq<char>, value: Seq<char>) -> bool {
    let needle = firsts(word);
    &&& needle.len() >= 2
    &&& !is_ending(word)
    &&& folds_only(needle)
    &&& starts_late(word, needle, firsts(value))
}

/// Whether the matcher finds each word's first character where it scores it.
pub open spec fn folds_alike(query: Seq<char>, value: Seq<char>) -> bool {
    folds_none_late(query, value) || forall|s: int|
        0 <= s < query.len() && #[trigger] starts_word(query, s) ==> !misplaces(
            query.subrange(s, word_end(query, s)),
            value,
        )
}

/// Whether a query and a text are within what the matcher can score. Beyond it
/// sums could leave their machine integers, or the matcher's own checks fail.
pub open spec fn matchable(query: Seq<char>, value: Seq<char>) -> bool {
    &&& value.len() <= LONGEST_TEXT
    &&& query.len() <= LONGEST_QUERY
    &&& 8 * (value.len() * query.len()) <= usize::MAX
    &&& words_fit(query, value)
    &&& folds_alike(query, value)
}

/// The score of a text under a query. A text that the matcher cannot score does
/// not match.
pub open spec fn field_score(query: Seq<char>, value: Seq<char>) -> Option<u32> {
    if matchable(query, value) {
        fuzzy_score(query, value)
    } else {
        None
    }
}

/// `chars::to_lower_case`: the simple case folding of a character, a function of
/// it. Of ASCII characters only capitals change. What other characters are folded
/// to is not stated here.
#[verifier::external_body]
fn fold_case(c: char) -> (folded: char)
    ensures
        folded == case_folded(c),
        c < '\u{80}' ==> folded == text::folded(c),
{
    nucleo_matcher::chars::to_lower_case(c)
}

/// `chars::normalize`: the letter that a character is a variant of, a function of
/// it. ASCII characters are variants of none. Which other characters change is not
/// stated here.
#[verifier::external_body]
fn normalize(c: char) -> (letter: char)
    ensures
        letter == normalized(c),
        c < '\u{80}' ==> letter == c,
{
    nucleo_matcher::chars::normalize(c)
}

/// `Matcher::new` with `Config::DEFAULT`: a new matcher.
#[verifier::external_body]
fn new_matcher() -> (matcher: nucleo_matcher::Matcher)
{
    nucleo_matcher::Matcher::new(nucleo_matcher::Config::DEFAULT)
}

impl FuzzyMatcher {
    /// A matcher in the default configuration.
    pub fn new() -> (matcher: FuzzyMatcher)
    {
        FuzzyMatcher { inner: new_matcher() }
    }

    /// `Pattern::parse` and `Pattern::score`: the score of a text under a query.
    /// The pattern sets case folding and normalization for each of its atoms
    /// anew and the rest of the configuration is the default one, so the score
    /// is a function of the two texts; buffers do not matter. The bounds keep the
    /// matcher's sums within their integers and its debug assertions true.
    #[verifier::external_body]
    fn pattern_score(&mut self, query: &str, value: &str) -> (score: Option<u32>)
        requires
            matchable(query@, value@),
        ensures
            score == fuzzy_score(query@, value@),
    {
        let pattern = nucleo_matcher::pattern::Pattern::parse(
            query,
            nucleo_matcher::pattern::CaseMatching::Smart,
            nucleo_matcher::pattern::Normalization::Smart,
        );
        let mut buffer = Vec::new();
        pattern.score(nucleo_matcher::Utf32Str::new(value, &mut buffer), &mut self.inner)
    }

    /// The score of a text under a query.
    pub fn score(&mut self, query: &str, value: &str) -> (score: Option<u32>)
        ensures
            score == field_score(query@, value@),
    {
        let asked = text::chars_of(query);
        let held = text::chars_of(value);
        if can_score(&asked, &held, value) {
            self.pattern_score(query, value)
        } else {
            None
        }
    }
}

/// The first characters of a text's clusters.
fn first_chars(value: &str) -> (seen: Vec<char>)
    ensures
        seen@ == firsts(value@),
{
    let found = width::graphemes(value);
    let ghost all = text::views(found@);
    let mut seen: Vec<char> = Vec::new();
    let mut i: usize = 0;
    while i < found.len()
        invariant
            i <= found@.len(),
            all == text::views(found@),
            all == width::clusters(value@),
            forall|k: int| 0 <= k < found@.len() ==> (#[trigger] found@[k])@.len() > 0,
            seen@ == firsts(value@).take(i as int),
        decreases found@.len() - i,
    {
        let cluster = text::chars_of(found[i].as_str());
        assert(all[i as int] == found@[i as int]@);
        seen.push(cluster[0]);
        assert(firsts(value@).take(i + 1) =~= firsts(value@).take(i as int).push(
            firsts(value@)[i as int],
        ));
        i += 1;
    }
    assert(firsts(value@).take(i as int) =~= firsts(value@));
    seen
}

/// Decide whether a text is ASCII.
fn check_ascii(value: &Vec<char>) -> (ascii: bool)
    ensures
        ascii == is_ascii(value@),
{
    let mut i: usize = 0;
    while i < value.len()
        invariant
            i <= value@.len(),
            forall|k: int| 0 <= k < i ==> #[trigger] value@[k] < '\u{80}',
        decreases value@.len() - i,
    {
        if value[i] >= '\u{80}' {
            return false;
        }
        i += 1;
    }
    true
}

/// Decide whether no word of a query is too long to score.
fn check_sizes(query: &Vec<char>) -> (fit: bool)
    requires
        query@.len() <= LONGEST_QUERY,
    ensures
        fit == (forall|n: nat|
            n <= query@.len() ==> #[trigger] word_size(query@, n) <= LONGEST_WORD),
{
    let mut size: usize = 0;
    let mut i: usize = 0;
    while i < query.len()
        invariant
            i <= query@.len() <= LONGEST_QUERY,
            size == word_size(query@, i as nat),
            size <= LONGEST_WORD,
            forall|n: nat| n <= i ==> #[trigger] word_size(query@, n) <= LONGEST_WORD,
        decreases query@.len() - i,
    {
        if parts(query, i) {
            size = 0;
        } else if query[i] == '\\' {
            size += 2;
        } else {
            size += 1;
        }
        i += 1;
        assert(size == word_size(query@, i as nat));
        if size > LONGEST_WORD {
            return false;
        }
    }
    true
}

/// Decide whether a query is split into words at a place.
fn parts(query: &Vec<char>, i: usize) -> (split: bool)
    requires
        i < query@.len(),
    ensures
        split == splits(query@, i as int),
{
    query[i] == ' ' && !(i > 0 && query[i - 1] == '\\')
}

/// Decide whether the scores of a query's words fit for a text.
fn check_words(query: &Vec<char>, held: &Vec<char>, value: &str) -> (fit: bool)
    requires
        held@ == value@,
        held@.len() <= LONGEST_TEXT,
        query@.len() <= LONGEST_QUERY,
    ensures
        fit == words_fit(query@, value@),
{
    if check_sizes(query) || held.len() <= LONGEST_WORD / 4 {
        return true;
    }
    held.len() <= LONGEST_WORD && (check_ascii(held) || !check_ascii(&first_chars(value)))
}

/// Decide whether one character is folded late to another.
fn fold_differs(c: char, to: char) -> (differs: bool)
    ensures
        differs == folds_late(c, to),
{
    let from: u32 = c as u32;
    let code: u32 = to as u32;
    if from < 0xb5 {
        return false;
    }
    (from == 0xb5 && code == 0x3bc) || (from == 0x17f && code == 0x73) || (from == 0x345 && code
        == 0x3b9) || (from == 0x3c2 && code == 0x3c3) || (from == 0x3d0 && code == 0x3b2) || (from
        == 0x3d1 && code == 0x3b8) || (from == 0x3d5 && code == 0x3c6) || (from == 0x3d6 && code
        == 0x3c0) || (from == 0x3f0 && code == 0x3ba) || (from == 0x3f1 && code == 0x3c1) || (from
        == 0x3f5 && code == 0x3b5) || (0x13f8 <= from && from <= 0x13fd && code == from - 8) || (
    from == 0x1c80 && code == 0x432) || (from == 0x1c81 && code == 0x434) || (from == 0x1c82 && code
        == 0x43e) || (from == 0x1c83 && code == 0x441) || (from == 0x1c84 && code == 0x442) || (from
        == 0x1c85 && code == 0x442) || (from == 0x1c86 && code == 0x44a) || (from == 0x1c87 && code
        == 0x463) || (from == 0x1c88 && code == 0xa64b) || (from == 0x1e9b && code == 0x1e61) || (
    from == 0x1fbe && code == 0x3b9) || (0xab70 <= from && from <= 0xabbf && code == from - 0x97d0)
}

/// Decide whether a character is folded late to one of a query.
fn meets_difference(query: &Vec<char>, c: char) -> (meets: bool)
    ensures
        meets == meets_late_folding(query@, c),
{
    let mut j: usize = 0;
    while j < query.len()
        invariant
            j <= query@.len(),
            forall|k: int| 0 <= k < j ==> !folds_late(c, #[trigger] query@[k]),
        decreases query@.len() - j,
    {
        if fold_differs(c, query[j]) {
            assert(folds_late(c, query@[j as int]));
            return true;
        }
        j += 1;
    }
    false
}

/// Decide whether no character of a text is folded late to one of a query.
fn check_late_folding(query: &Vec<char>, value: &Vec<char>) -> (none: bool)
    ensures
        none == folds_none_late(query@, value@),
{
    let mut i: usize = 0;
    while i < value.len()
        invariant
            i <= value@.len(),
            forall|k: int| 0 <= k < i ==> !meets_late_folding(query@, #[trigger] value@[k]),
        decreases value@.len() - i,
    {
        if meets_difference(query, value[i]) {
            assert(meets_late_folding(query@, value@[i as int]));
            return false;
        }
        i += 1;
    }
    true
}

/// Decide whether the matcher folds case for a word, but does not normalize.
fn check_folds_only(needle: &Vec<char>) -> (only: bool)
    ensures
        only == folds_only(needle@),
{
    let mut variant: bool = false;
    let mut i: usize = 0;
    while i < needle.len()
        invariant
            i <= needle@.len(),
            variant == (exists|k: int|
                0 <= k < i && normalized(#[trigger] needle@[k]) != needle@[k]),
            forall|k: int| 0 <= k < i ==> case_folded(#[trigger] needle@[k]) == needle@[k],
        decreases needle@.len() - i,
    {
        if fold_case(needle[i]) != needle[i] {
            assert(case_folded(needle@[i as int]) != needle@[i as int]);
            return false;
        }
        if normalize(needle[i]) != needle[i] {
            assert(normalized(needle@[i as int]) != needle@[i as int]);
            variant = true;
        }
        i += 1;
    }
    variant
}

/// Decide whether a character is folded to another at a place or after it.
fn check_folds_from(seen: &Vec<char>, to: char, from: usize) -> (found: bool)
    ensures
        found == folds_from(seen@, to, from as int),
{
    let mut k: usize = from;
    while k < seen.len()
        invariant
            from <= k,
            forall|j: int|
                from <= j < k && j < seen@.len() ==> case_folded(#[trigger] seen@[j]) != to,
        decreases seen@.len() - k,
    {
        if fold_case(seen[k]) == to {
            assert(case_folded(seen@[k as int]) == to);
            return true;
        }
        k += 1;
    }
    false
}

/// Decide whether the matcher starts to score a word at a character that it does
/// not fold there.
fn check_starts_late(word: &Vec<char>, needle: &Vec<char>, seen: &Vec<char>) -> (late: bool)
    requires
        needle@.len() > 0,
    ensures
        late == starts_late(word@, needle@, seen@),
{
    let first = needle[0];
    let mut i: usize = 0;
    while i < seen.len() && fold_case(seen[i]) != first
        invariant
            i <= seen@.len(),
            first == needle@[0],
            forall|j: int| 0 <= j < i ==> case_folded(#[trigger] seen@[j]) != first,
        decreases seen@.len() - i,
    {
        i += 1;
    }
    if i == seen.len() || !fold_differs(seen[i], first) {
        assert(!starts_late(word@, needle@, seen@)) by {
            if starts_late(word@, needle@, seen@) {
                let k = choose|k: int|
                    {
                        &&& 0 <= k < seen@.len()
                        &&& folds_late(#[trigger] seen@[k], needle@[0])
                        &&& folds_first(seen@, needle@[0], k)
                        &&& word@.contains('\\') || folds_from(
                            seen@,
                            needle@.last(),
                            k + needle@.len(),
                        )
                    };
                assert(case_folded(seen@[k]) == first);
                assert(k == i);
            }
        }
        return false;
    }
    assert(folds_first(seen@, first, i as int));
    let escapes = holds_backslash(word);
    let longer = needle.len() < seen.len() - i && check_folds_from(
        seen,
        needle[needle.len() - 1],
        i + needle.len(),
    );
    proof {
        assert(longer == folds_from(seen@, needle@.last(), i + needle@.len()));
        assert(folds_late(seen@[i as int], needle@[0]));
        if starts_late(word@, needle@, seen@) {
            let k = choose|k: int|
                {
                    &&& 0 <= k < seen@.len()
                    &&& folds_late(#[trigger] seen@[k], needle@[0])
                    &&& folds_first(seen@, needle@[0], k)
                    &&& word@.contains('\\') || folds_from(
                        seen@,
                        needle@.last(),
                        k + needle@.len(),
                    )
                };
            assert(case_folded(seen@[k]) == first);
            assert(k == i);
        }
    }
    escapes || longer
}

/// Decide whether a word holds a backslash.
fn holds_backslash(word: &Vec<char>) -> (found: bool)
    ensures
        found == word@.contains('\\'),
{
    let mut i: usize = 0;
    while i < word.len()
        invariant
            i <= word@.len(),
            forall|k: int| 0 <= k < i ==> #[trigger] word@[k] != '\\',
        decreases word@.len() - i,
    {
        if word[i] == '\\' {
            assert(word@[i as int] == '\\');
            return true;
        }
        i += 1;
    }
    false
}

/// Decide whether the matcher would start to score a word where it does not match.
fn check_word(word: &str, seen: &Vec<char>, Ghost(value): Ghost<Seq<char>>) -> (misplaced: bool)
    requires
        seen@ == firsts(value),
    ensures
        misplaced == misplaces(word@, value),
{
    let chars = text::chars_of(word);
    let needle = first_chars(word);
    let count: usize = chars.len();
    let ending = count > 0 && chars[count - 1] == '$' && !(count > 1 && chars[count - 2] == '\\');
    needle.len() >= 2 && !ending && check_folds_only(&needle) && check_starts_late(
        &chars,
        &needle,
        seen,
    )
}

/// Decide whether the matcher finds each word's first character where it scores
/// it.
fn check_folding(query: &Vec<char>, held: &Vec<char>, value: &str) -> (alike: bool)
    requires
        held@ == value@,
    ensures
        alike == folds_alike(query@, value@),
{
    if check_late_folding(query, held) {
        return true;
    }
    let seen = first_chars(value);
    let mut s: usize = 0;
    while s < query.len()
        invariant
            s <= query@.len(),
            seen@ == firsts(value@),
            !folds_none_late(query@, value@),
            forall|k: int|
                0 <= k < s && k < query@.len() && #[trigger] starts_word(query@, k) ==> !misplaces(
                    query@.subrange(k, word_end(query@, k)),
                    value@,
                ),
        decreases query@.len() - s,
    {
        if s == 0 || parts(query, s - 1) {
            let mut end: usize = s;
            while end < query.len() && !parts(query, end)
                invariant
                    s <= end <= query@.len(),
                    word_end(query@, s as int) == word_end(query@, end as int),
                decreases query@.len() - end,
            {
                end += 1;
            }
            let word = text::text_between(query, s, end);
            if check_word(word.as_str(), &seen, Ghost(value@)) {
                assert(starts_word(query@, s as int));
                return false;
            }
        }
        s += 1;
    }
    true
}

/// Decide whether a query and a text are within what the matcher can score.
fn can_score(query: &Vec<char>, held: &Vec<char>, value: &str) -> (able: bool)
    requires
        held@ == value@,
    ensures
        able == matchable(query@, value@),
{
    let asked: usize = query.len();
    let count: usize = held.len();
    if count > LONGEST_TEXT || asked > LONGEST_QUERY {
        return false;
    }
    assert(count * asked <= LONGEST_TEXT * LONGEST_QUERY) by (nonlinear_arith)
        requires
            count <= LONGEST_TEXT,
            asked <= LONGEST_QUERY,
    ;
    let pairs: u128 = 8 * (count as u128 * asked as u128);
    pairs <= usize::MAX as u128 && check_words(query, held, value) && check_folding(
        query,
        held,
        value,
    )
}

} // verus!
