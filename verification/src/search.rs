//! Searching the picker's rows: what a row can be found by, how matches are
//! ranked, and how they are grouped.

use vstd::prelude::*;
use crate::fuzzy;
use crate::fuzzy::FuzzyMatcher;
use crate::model::{Kind, KindModel, Row, RowModel};
use crate::order;
use crate::order::Ranked;
use crate::text;

verus! {

broadcast use crate::text::lemma_views_push;

/// Fields with one more, unless it is empty or known.
pub open spec fn pushed(fields: Seq<Seq<char>>, value: Seq<char>) -> Seq<Seq<char>> {
    if value.len() == 0 || fields.contains(value) {
        fields
    } else {
        fields.push(value)
    }
}

/// The fields offered, each once, without empty ones.
pub open spec fn collected(offered: Seq<Seq<char>>) -> Seq<Seq<char>>
    decreases offered.len(),
{
    if offered.len() == 0 {
        Seq::empty()
    } else {
        pushed(collected(offered.drop_last()), offered.last())
    }
}

/// An optional text as a list.
pub open spec fn listed(value: Option<Seq<char>>) -> Seq<Seq<char>> {
    match value {
        Some(value) => seq![value],
        None => Seq::empty(),
    }
}

/// The texts that a row offers for search.
pub open spec fn offered(row: RowModel) -> Seq<Seq<char>> {
    seq![row.name, row.display] + match row.space {
        Some(space) => seq![space.label] + listed(space.disambiguator),
        None => Seq::empty(),
    } + offered_by_kind(row.path, row.pane_names, row.kind)
}

/// What a row can be found by.
pub open spec fn document(row: RowModel) -> Seq<Seq<char>> {
    collected(offered(row))
}

/// Add a field, unless it is empty or known.
pub fn push_unique(fields: &mut Vec<String>, value: String)
    ensures
        text::views(final(fields)@) == pushed(text::views(old(fields)@), value@),
{
    if !value.as_str().is_empty() && !text::holds(fields, value.as_str()) {
        fields.push(value);
    }
}

/// Add a text to a list.
fn offer(list: &mut Vec<String>, value: &str)
    ensures
        text::views(final(list)@) == text::views(old(list)@) + seq![value@],
{
    let ghost before = text::views(list@);
    list.push(value.to_string());
    assert(before.push(value@) =~= before + seq![value@]);
}

/// Add an optional text to a list.
fn offer_optional(list: &mut Vec<String>, value: &Option<String>)
    ensures
        text::views(final(list)@) == text::views(old(list)@) + listed(text::view_of(*value)),
{
    let ghost before = text::views(list@);
    match value {
        Some(value) => offer(list, value.as_str()),
        None => {
            assert(before =~= before + listed(None));
        },
    }
}

/// Add texts to a list.
fn offer_all(list: &mut Vec<String>, values: &Vec<String>)
    ensures
        text::views(final(list)@) == text::views(old(list)@) + text::views(values@),
{
    let ghost before = text::views(list@);
    let ghost all = text::views(values@);
    let mut i: usize = 0;
    assert(before + all.take(0) =~= before);
    while i < values.len()
        invariant
            i <= values@.len(),
            all == text::views(values@),
            text::views(list@) == before + all.take(i as int),
        decreases values@.len() - i,
    {
        offer(list, values[i].as_str());
        assert(before + all.take(i + 1) =~= before + all.take(i as int) + seq![all[i as int]]);
        i += 1;
    }
    assert(all.take(i as int) =~= all);
}

/// The texts that a kind of row offers for search.
pub open spec fn offered_by_kind(
    path: Seq<char>,
    pane_names: Seq<Seq<char>>,
    kind: KindModel,
) -> Seq<Seq<char>> {
    match kind {
        KindModel::Open { state, agent, .. } => seq![path] + seq![state.name()] + listed(agent)
            + pane_names,
        KindModel::Tab { state, agent, tab_id, .. } => seq![path] + seq![tab_id]
            + seq![state.name()] + listed(agent),
        KindModel::Pane { state, agent, pane_id, tab_id, .. } => seq![path] + seq![pane_id]
            + listed(tab_id) + seq![state.name()] + listed(agent),
        KindModel::Dormant => Seq::empty(),
    }
}

/// List the texts that a kind of row offers for search.
fn texts_of_kind(row: &Row) -> (list: Vec<String>)
    ensures
        text::views(list@) == offered_by_kind(row.path@, text::views(row.pane_names@), row.kind@),
{
    let mut list: Vec<String> = Vec::new();
    assert(text::views(list@) =~= Seq::empty());
    if let Kind::Dormant = &row.kind {
        return list;
    }
    offer(&mut list, row.path.as_str());
    assert(text::views(list@) =~= seq![row.path@]);
    match &row.kind {
        Kind::Open { state, agent, .. } => {
            offer(&mut list, state.word());
            offer_optional(&mut list, agent);
            offer_all(&mut list, &row.pane_names);
        },
        Kind::Tab { state, agent, tab_id, .. } => {
            offer(&mut list, tab_id.as_str());
            offer(&mut list, state.word());
            offer_optional(&mut list, agent);
        },
        Kind::Pane { state, agent, pane_id, tab_id, .. } => {
            offer(&mut list, pane_id.as_str());
            offer_optional(&mut list, tab_id);
            offer(&mut list, state.word());
            offer_optional(&mut list, agent);
        },
        Kind::Dormant => {},
    }
    list
}

/// List the texts that a row offers for search.
fn texts_of_row(row: &Row) -> (list: Vec<String>)
    ensures
        text::views(list@) == offered(row@),
{
    let mut list: Vec<String> = Vec::new();
    assert(text::views(list@) =~= Seq::empty());
    offer(&mut list, row.name.as_str());
    assert(text::views(list@) =~= seq![row.name@]);
    offer(&mut list, row.display.as_str());
    assert(text::views(list@) =~= seq![row.name@, row.display@]);
    let ghost before = text::views(list@);
    if let Some(space) = &row.space {
        offer(&mut list, space.label.as_str());
        offer_optional(&mut list, &space.disambiguator);
        assert(text::views(list@) =~= before + (seq![space.label@] + listed(
            text::view_of(space.disambiguator),
        )));
    } else {
        assert(text::views(list@) =~= before + Seq::empty());
    }
    let rest = texts_of_kind(row);
    offer_all(&mut list, &rest);
    list
}

/// What a row can be found by, as texts.
#[derive(Debug)]
pub struct SearchDocument(pub Vec<String>);

impl SearchDocument {
    /// The fields of a row. Each is matched on its own, so that a match never
    /// crosses from one field to the next.
    pub fn for_row(row: &Row) -> (found: SearchDocument)
        ensures
            text::views(found.0@) == document(row@),
    {
        let list = texts_of_row(row);
        let ghost all = text::views(list@);
        let mut fields: Vec<String> = Vec::new();
        let mut i: usize = 0;
        assert(text::views(fields@) =~= collected(all.take(0)));
        while i < list.len()
            invariant
                i <= list@.len(),
                all == text::views(list@),
                text::views(fields@) == collected(all.take(i as int)),
            decreases list@.len() - i,
        {
            push_unique(&mut fields, list[i].clone());
            proof {
                assert(all.take(i + 1).drop_last() =~= all.take(i as int));
                assert(all.take(i + 1).last() == all[i as int]);
            }
            i += 1;
        }
        assert(all.take(i as int) =~= all);
        SearchDocument(fields)
    }
}

/// The section of a row. Only the first takes part in the quick jumps.
pub fn section(kind: &Kind) -> (section: u8)
    ensures
        section == kind@.section(),
        section < 4,
{
    match kind {
        Kind::Open { .. } => 0,
        Kind::Tab { .. } => 1,
        Kind::Pane { .. } => 2,
        Kind::Dormant => 3,
    }
}

/// The better of two optional scores.
pub open spec fn better(a: Option<u32>, b: Option<u32>) -> Option<u32> {
    match (a, b) {
        (Some(x), Some(y)) => if x >= y {
            Some(x)
        } else {
            Some(y)
        },
        (Some(x), None) => Some(x),
        (None, y) => y,
    }
}

/// The best score that any single field has under a query.
pub open spec fn best_score(query: Seq<char>, fields: Seq<Seq<char>>) -> Option<u32>
    decreases fields.len(),
{
    if fields.len() == 0 {
        None
    } else {
        better(
            best_score(query, fields.drop_last()),
            fuzzy::field_score(query, fields.last()),
        )
    }
}

/// Score fields under a query.
pub fn score_fields(query: &str, fields: &Vec<String>, matcher: &mut FuzzyMatcher) -> (score:
    Option<u32>)
    ensures
        score == best_score(query@, text::views(fields@)),
{
    let ghost all = text::views(fields@);
    let mut score: Option<u32> = None;
    let mut i: usize = 0;
    while i < fields.len()
        invariant
            i <= fields@.len(),
            all == text::views(fields@),
            score == best_score(query@, all.take(i as int)),
        decreases fields@.len() - i,
    {
        proof {
            assert(all.take(i + 1).drop_last() =~= all.take(i as int));
            assert(all.take(i + 1).last() == fields@[i as int]@);
        }
        let mine = matcher.score(query, fields[i].as_str());
        score = match (score, mine) {
            (Some(a), Some(b)) => if a >= b {
                Some(a)
            } else {
                Some(b)
            },
            (Some(a), None) => Some(a),
            (None, b) => b,
        };
        i += 1;
    }
    assert(all.take(i as int) =~= all);
    score
}

/// A matching row: its score and its place in the list.
#[derive(Clone, Copy)]
pub struct Hit {
    pub score: u32,
    pub index: usize,
}

impl View for Hit {
    type V = Hit;

    open spec fn view(&self) -> Hit {
        *self
    }
}

impl Ranked for Hit {
    /// Better scores first, then the order of the list.
    open spec fn precedes(a: Hit, b: Hit) -> bool {
        a.score > b.score || (a.score == b.score && a.index <= b.index)
    }

    proof fn total(a: Hit, b: Hit) {
    }

    proof fn transitive(a: Hit, b: Hit, c: Hit) {
    }

    fn may_precede(&self, other: &Self) -> (before: bool) {
        self.score > other.score || (self.score == other.score && self.index <= other.index)
    }
}

/// Places of the hits, as they stand.
pub open spec fn places_of(hits: Seq<Hit>) -> Seq<int> {
    Seq::new(hits.len(), |i: int| hits[i].index as int)
}

/// Places of the hits, best first.
pub open spec fn ranked_places(hits: Seq<Hit>) -> Seq<int> {
    places_of(order::arranged(hits, order::ordered::<Hit>(hits)))
}

/// The rows of a section that have a score, among the first `n`.
pub open spec fn scored_hits(
    rows: Seq<RowModel>,
    scores: Seq<Option<u32>>,
    section: u8,
    n: nat,
) -> Seq<Hit>
    decreases n,
{
    if n == 0 {
        Seq::empty()
    } else {
        let before = scored_hits(rows, scores, section, (n - 1) as nat);
        let score = scores[n - 1];
        if rows[n - 1].kind.section() == section && score is Some {
            before.push(Hit { score: score->0, index: (n - 1) as usize })
        } else {
            before
        }
    }
}

/// The score of a row: that of its best field. Without a query every row matches.
pub open spec fn row_score(query: Seq<char>, row: RowModel) -> Option<u32> {
    if query.len() == 0 {
        Some(0)
    } else {
        best_score(query, document(row))
    }
}

/// The scores of rows under a query.
pub open spec fn row_scores(rows: Seq<RowModel>, query: Seq<char>) -> Seq<Option<u32>> {
    Seq::new(rows.len(), |i: int| row_score(query, rows[i]))
}

/// The rows of a section that match, among the first `n`. Without a query all
/// match alike.
pub open spec fn hits(rows: Seq<RowModel>, query: Seq<char>, section: u8, n: nat) -> Seq<Hit> {
    scored_hits(rows, row_scores(rows, query), section, n)
}

/// What tells groups of rows apart: the space of a tab or a pane.
pub open spec fn group_key(row: RowModel) -> Option<(Seq<char>, Option<Seq<char>>)> {
    match row.kind {
        KindModel::Tab { .. } | KindModel::Pane { .. } => match row.space {
            Some(space) => Some((space.label, space.disambiguator)),
            None => None,
        },
        _ => None,
    }
}

/// Rows of one space, or a single row without one.
pub struct Group {
    pub key: Option<(String, Option<String>)>,
    pub members: Vec<usize>,
}

/// The view of a [`Group`].
#[verifier::ext_equal]
pub struct GroupModel {
    pub key: Option<(Seq<char>, Option<Seq<char>>)>,
    pub members: Seq<int>,
}

/// The view of a key.
pub open spec fn key_view(key: Option<(String, Option<String>)>) -> Option<
    (Seq<char>, Option<Seq<char>>),
> {
    match key {
        Some((label, disambiguator)) => Some((label@, text::view_of(disambiguator))),
        None => None,
    }
}

impl View for Group {
    type V = GroupModel;

    open spec fn view(&self) -> GroupModel {
        GroupModel { key: key_view(self.key), members: order::positions(self.members@) }
    }
}

/// The order of optional texts: none comes first.
pub open spec fn optional_at_most(a: Option<Seq<char>>, b: Option<Seq<char>>) -> bool {
    match (a, b) {
        (None, _) => true,
        (Some(_), None) => false,
        (Some(x), Some(y)) => text::at_most(x, y),
    }
}

impl Ranked for Group {
    /// By label, then by disambiguator; rows without a space come last.
    open spec fn precedes(a: GroupModel, b: GroupModel) -> bool {
        match (a.key, b.key) {
            (Some(x), Some(y)) => if x.0 != y.0 {
                text::at_most(x.0, y.0)
            } else {
                optional_at_most(x.1, y.1)
            },
            (Some(_), None) => true,
            (None, Some(_)) => false,
            (None, None) => true,
        }
    }

    proof fn total(a: GroupModel, b: GroupModel) {
        if let (Some(x), Some(y)) = (a.key, b.key) {
            text::lemma_at_most_total(x.0, y.0);
            if let (Some(u), Some(v)) = (x.1, y.1) {
                text::lemma_at_most_total(u, v);
            }
        }
    }

    proof fn transitive(a: GroupModel, b: GroupModel, c: GroupModel) {
        if let (Some(x), Some(y), Some(z)) = (a.key, b.key, c.key) {
            if text::at_most(x.0, y.0) && text::at_most(y.0, z.0) {
                text::lemma_at_most_transitive(x.0, y.0, z.0);
                if x.0 == z.0 {
                    text::lemma_at_most_antisymmetric(x.0, y.0);
                }
            }
            if let (Some(u), Some(v), Some(w)) = (x.1, y.1, z.1) {
                if text::at_most(u, v) && text::at_most(v, w) {
                    text::lemma_at_most_transitive(u, v, w);
                }
            }
        }
    }

    fn may_precede(&self, other: &Self) -> (before: bool) {
        match (&self.key, &other.key) {
            (Some(x), Some(y)) => {
                if !text::same(x.0.as_str(), y.0.as_str()) {
                    text::not_after(x.0.as_str(), y.0.as_str())
                } else {
                    match (&x.1, &y.1) {
                        (None, _) => true,
                        (Some(_), None) => false,
                        (Some(u), Some(v)) => text::not_after(u.as_str(), v.as_str()),
                    }
                }
            },
            (Some(_), None) => true,
            (None, Some(_)) => false,
            (None, None) => true,
        }
    }
}

/// The keys of groups.
pub open spec fn keys_of(groups: Seq<GroupModel>) -> Seq<Option<(Seq<char>, Option<Seq<char>>)>> {
    Seq::new(groups.len(), |i: int| groups[i].key)
}

/// Groups with one more row: in the group of its space, or in a group of its own.
/// Rows without a space are never merged.
pub open spec fn with_member(
    groups: Seq<GroupModel>,
    key: Option<(Seq<char>, Option<Seq<char>>)>,
    place: int,
) -> Seq<GroupModel> {
    let own = groups.push(GroupModel { key, members: seq![place] });
    if key is None {
        own
    } else {
        match text::position(keys_of(groups), key) {
            Some(g) => groups.update(
                g,
                GroupModel { key, members: groups[g].members.push(place) },
            ),
            None => own,
        }
    }
}

/// The groups of the first `n` places.
pub open spec fn groups_of(rows: Seq<RowModel>, places: Seq<int>, n: nat) -> Seq<GroupModel>
    decreases n,
{
    if n == 0 {
        Seq::empty()
    } else {
        with_member(
            groups_of(rows, places, (n - 1) as nat),
            group_key(rows[places[n - 1]]),
            places[n - 1],
        )
    }
}

/// The members of groups, one group after the other.
pub open spec fn flat(groups: Seq<GroupModel>) -> Seq<int>
    decreases groups.len(),
{
    if groups.len() == 0 {
        Seq::empty()
    } else {
        flat(groups.drop_last()) + groups.last().members
    }
}

/// Places put together by space, in the order in which the spaces first come, or
/// by label.
pub open spec fn grouped(
    rows: Seq<RowModel>,
    places: Seq<int>,
    alphabetical: bool,
) -> Seq<int> {
    let groups = groups_of(rows, places, places.len());
    if alphabetical {
        flat(order::arranged(groups, order::ordered::<Group>(groups)))
    } else {
        flat(groups)
    }
}

/// The places of a section by the scores of rows, as they are shown: best first
/// in a search, else as they stand.
pub open spec fn scored_section(
    rows: Seq<RowModel>,
    scores: Seq<Option<u32>>,
    searched: bool,
    section: u8,
) -> Seq<int> {
    let found = scored_hits(rows, scores, section, rows.len());
    let places = if searched {
        ranked_places(found)
    } else {
        places_of(found)
    };
    if section == 1 || section == 2 {
        grouped(rows, places, !searched)
    } else {
        places
    }
}

/// The places of all rows that have a score, as they are shown: section by
/// section.
pub open spec fn scored_places(
    rows: Seq<RowModel>,
    scores: Seq<Option<u32>>,
    searched: bool,
) -> Seq<int> {
    scored_section(rows, scores, searched, 0) + scored_section(rows, scores, searched, 1)
        + scored_section(rows, scores, searched, 2) + scored_section(rows, scores, searched, 3)
}

/// The places of a section that match, as they are shown.
pub open spec fn section_places(rows: Seq<RowModel>, query: Seq<char>, section: u8) -> Seq<int> {
    scored_section(rows, row_scores(rows, query), query.len() > 0, section)
}

/// The places of all rows that match, as they are shown: section by section.
pub open spec fn filtered(rows: Seq<RowModel>, query: Seq<char>) -> Seq<int> {
    scored_places(rows, row_scores(rows, query), query.len() > 0)
}

/// The group key of a row.
fn key_for(row: &Row) -> (key: Option<(String, Option<String>)>)
    ensures
        key_view(key) == group_key(row@),
{
    match (&row.kind, &row.space) {
        (Kind::Tab { .. }, Some(space)) => Some(
            (space.label.clone(), text::copied(&space.disambiguator)),
        ),
        (Kind::Pane { .. }, Some(space)) => Some(
            (space.label.clone(), text::copied(&space.disambiguator)),
        ),
        _ => None,
    }
}

/// Whether two optional texts are equal.
pub fn same_optional(a: &Option<String>, b: &Option<String>) -> (equal: bool)
    ensures
        equal == (text::view_of(*a) == text::view_of(*b)),
{
    match (a, b) {
        (Some(x), Some(y)) => text::same(x.as_str(), y.as_str()),
        (None, None) => true,
        _ => false,
    }
}

/// Whether two keys are equal.
fn same_key(a: &Option<(String, Option<String>)>, b: &Option<(String, Option<String>)>) -> (equal:
    bool)
    ensures
        equal == (key_view(*a) == key_view(*b)),
{
    match (a, b) {
        (Some(x), Some(y)) => text::same(x.0.as_str(), y.0.as_str()) && same_optional(&x.1, &y.1),
        (None, None) => true,
        _ => false,
    }
}

/// Find the group of a key.
fn find_group(groups: &Vec<Group>, key: &Option<(String, Option<String>)>) -> (at: Option<usize>)
    ensures
        match at {
            Some(g) => g < groups@.len() && text::position(
                keys_of(text::views(groups@)),
                key_view(*key),
            ) == Some(g as int),
            None => text::position(keys_of(text::views(groups@)), key_view(*key)) is None,
        },
{
    let ghost keys = keys_of(text::views(groups@));
    let mut g: usize = 0;
    while g < groups.len()
        invariant
            g <= groups@.len(),
            keys == keys_of(text::views(groups@)),
            text::position(keys.take(g as int), key_view(*key)) is None,
        decreases groups@.len() - g,
    {
        proof {
            assert(keys.take(g + 1).drop_last() =~= keys.take(g as int));
            assert(keys.take(g + 1).last() == key_view(groups@[g as int].key));
        }
        if same_key(&groups[g].key, key) {
            proof {
                text::lemma_position_prefix(keys, key_view(*key), g + 1);
            }
            return Some(g);
        }
        g += 1;
    }
    assert(keys.take(g as int) =~= keys);
    None
}

/// Add a row to its group.
fn add_member(groups: &mut Vec<Group>, key: Option<(String, Option<String>)>, place: usize)
    ensures
        text::views(final(groups)@) == with_member(
            text::views(old(groups)@),
            key_view(key),
            place as int,
        ),
{
    let ghost before = text::views(groups@);
    if key.is_some() {
        if let Some(g) = find_group(groups, &key) {
            let mut group = groups.remove(g);
            let ghost members = order::positions(group.members@);
            group.members.push(place);
            assert(order::positions(group.members@) =~= members.push(place as int));
            let ghost changed = group@;
            groups.insert(g, group);
            proof {
                text::position_is_the_first(keys_of(before), key_view(key));
                assert(before[g as int].key == key_view(key));
                assert(text::views(groups@) =~= before.update(g as int, changed));
            }
            return;
        }
    }
    let mut members: Vec<usize> = Vec::new();
    members.push(place);
    assert(order::positions(members@) =~= seq![place as int]);
    groups.push(Group { key, members });
}

/// Put the members of groups one after the other, in the given order.
fn flatten(groups: &Vec<Group>, order: &Vec<usize>, limit: usize) -> (places: Vec<usize>)
    requires
        forall|g: int, m: int|
            0 <= g < groups@.len() && 0 <= m < groups@[g].members@.len()
                ==> #[trigger] groups@[g].members@[m] < limit,
        forall|i: int| 0 <= i < order@.len() ==> #[trigger] order@[i] < groups@.len(),
    ensures
        order::positions(places@) == flat(
            order::arranged(text::views(groups@), order::positions(order@)),
        ),
        forall|i: int| 0 <= i < places@.len() ==> #[trigger] places@[i] < limit,
{
    let ghost arranged = order::arranged(text::views(groups@), order::positions(order@));
    let mut places: Vec<usize> = Vec::new();
    let mut i: usize = 0;
    assert(order::positions(places@) =~= flat(arranged.take(0)));
    while i < order.len()
        invariant
            i <= order@.len(),
            arranged == order::arranged(text::views(groups@), order::positions(order@)),
            forall|k: int| 0 <= k < order@.len() ==> #[trigger] order@[k] < groups@.len(),
            order::positions(places@) == flat(arranged.take(i as int)),
            forall|g: int, m: int|
                0 <= g < groups@.len() && 0 <= m < groups@[g].members@.len()
                    ==> #[trigger] groups@[g].members@[m] < limit,
            forall|k: int| 0 <= k < places@.len() ==> #[trigger] places@[k] < limit,
        decreases order@.len() - i,
    {
        let group = &groups[order[i]];
        let ghost before = order::positions(places@);
        let ghost all = order::positions(group.members@);
        proof {
            assert(arranged.take(i + 1).drop_last() =~= arranged.take(i as int));
            assert(arranged.take(i + 1).last().members == all);
        }
        let mut m: usize = 0;
        assert(before + all.take(0) =~= before);
        while m < group.members.len()
            invariant
                m <= group.members@.len(),
                i < order@.len(),
                order@[i as int] < groups@.len(),
                *group == groups@[order@[i as int] as int],
                all == order::positions(group.members@),
                order::positions(places@) == before + all.take(m as int),
                forall|g: int, m: int|
                    0 <= g < groups@.len() && 0 <= m < groups@[g].members@.len()
                        ==> #[trigger] groups@[g].members@[m] < limit,
                forall|k: int| 0 <= k < places@.len() ==> #[trigger] places@[k] < limit,
            decreases group.members@.len() - m,
        {
            places.push(group.members[m]);
            assert(groups@[order@[i as int] as int].members@[m as int] < limit);
            proof {
                assert(order::positions(places@) =~= (before + all.take(m as int)).push(
                    all[m as int],
                ));
                assert(before + all.take(m + 1) =~= (before + all.take(m as int)).push(
                    all[m as int],
                ));
            }
            m += 1;
        }
        assert(all.take(m as int) =~= all);
        i += 1;
    }
    assert(arranged.take(i as int) =~= arranged);
    places
}

/// Put places together by space: in the order in which the spaces first come, or
/// by label.
pub fn group_indices_by_space(rows: &[Row], indices: Vec<usize>, alphabetical: bool) -> (places:
    Vec<usize>)
    requires
        forall|i: int| 0 <= i < indices@.len() ==> #[trigger] indices@[i] < rows@.len(),
    ensures
        order::positions(places@) == grouped(
            text::views(rows@),
            order::positions(indices@),
            alphabetical,
        ),
        forall|i: int| 0 <= i < places@.len() ==> #[trigger] places@[i] < rows@.len(),
{
    let ghost all = text::views(rows@);
    let ghost given = order::positions(indices@);
    let mut groups: Vec<Group> = Vec::new();
    let mut i: usize = 0;
    assert(text::views(groups@) =~= groups_of(all, given, 0));
    while i < indices.len()
        invariant
            i <= indices@.len(),
            all == text::views(rows@),
            given == order::positions(indices@),
            forall|k: int| 0 <= k < indices@.len() ==> #[trigger] indices@[k] < rows@.len(),
            text::views(groups@) == groups_of(all, given, i as nat),
        decreases indices@.len() - i,
    {
        assert(all[given[i as int]] == rows@[indices@[i as int] as int]@);
        let key = key_for(&rows[indices[i]]);
        add_member(&mut groups, key, indices[i]);
        i += 1;
    }
    let ghost found = text::views(groups@);
    let order: Vec<usize> = if alphabetical {
        order::stable_order(&groups)
    } else {
        let mut order: Vec<usize> = Vec::new();
        let mut g: usize = 0;
        while g < groups.len()
            invariant
                g <= groups@.len(),
                order@.len() == g,
                forall|k: int| 0 <= k < g ==> #[trigger] order@[k] == k,
            decreases groups@.len() - g,
        {
            order.push(g);
            g += 1;
        }
        assert(order::arranged(found, order::positions(order@)) =~= found);
        order
    };
    proof {
        assert forall|k: int| 0 <= k < order@.len() implies #[trigger] order@[k]
            < groups@.len() by {
            assert(order::positions(order@)[k] == order@[k]);
        }
    }
    proof {
        lemma_members_in_range(all, given, given.len());
        assert forall|g: int, m: int|
            0 <= g < groups@.len() && 0 <= m < groups@[g].members@.len() implies (
        #[trigger] groups@[g].members@[m]) < rows@.len() by {
            assert(found[g].members[m] == groups@[g].members@[m] as int);
        }
    }
    let places = flatten(&groups, &order, rows.len());
    places
}

/// Members of groups are places given.
proof fn lemma_members_in_range(rows: Seq<RowModel>, places: Seq<int>, n: nat)
    requires
        n <= places.len(),
        forall|i: int| 0 <= i < places.len() ==> 0 <= #[trigger] places[i] < rows.len(),
    ensures
        forall|g: int, m: int|
            0 <= g < groups_of(rows, places, n).len() && 0 <= m < groups_of(
                rows,
                places,
                n,
            )[g].members.len() ==> 0 <= (#[trigger] groups_of(rows, places, n)[g].members[m])
                < rows.len(),
    decreases n,
{
    if n > 0 {
        let before = groups_of(rows, places, (n - 1) as nat);
        lemma_members_in_range(rows, places, (n - 1) as nat);
        let after = groups_of(rows, places, n);
        let key = group_key(rows[places[n - 1]]);
        text::position_is_the_first(keys_of(before), key);
        assert forall|g: int, m: int|
            0 <= g < after.len() && 0 <= m < after[g].members.len() implies 0
            <= (#[trigger] after[g].members[m]) < rows.len() by {
            if g < before.len() {
                if m < before[g].members.len() {
                    assert(after[g].members[m] == before[g].members[m]);
                }
            }
        }
    }
}

/// Hits of one section.
fn collect_hits(rows: &[Row], wanted: u8, scores: &Vec<Option<u32>>) -> (found: Vec<Hit>)
    requires
        scores@.len() == rows@.len(),
    ensures
        found@ == scored_hits(text::views(rows@), scores@, wanted, rows@.len()),
        forall|i: int| 0 <= i < found@.len() ==> (#[trigger] found@[i]).index < rows@.len(),
{
    let ghost all = text::views(rows@);
    let mut found: Vec<Hit> = Vec::new();
    let mut i: usize = 0;
    while i < rows.len()
        invariant
            i <= rows@.len(),
            all == text::views(rows@),
            scores@.len() == rows@.len(),
            found@ == scored_hits(all, scores@, wanted, i as nat),
            forall|k: int| 0 <= k < found@.len() ==> (#[trigger] found@[k]).index < rows@.len(),
        decreases rows@.len() - i,
    {
        assert(all[i as int] == rows@[i as int]@);
        if section(&rows[i].kind) == wanted {
            if let Some(score) = scores[i] {
                found.push(Hit { score, index: i });
            }
        }
        i += 1;
    }
    found
}

/// The places of hits: best first, or as they stand.
fn hit_places(found: &Vec<Hit>, ranked: bool, limit: usize) -> (places: Vec<usize>)
    requires
        forall|i: int| 0 <= i < found@.len() ==> (#[trigger] found@[i]).index < limit,
    ensures
        order::positions(places@) == (if ranked {
            ranked_places(found@)
        } else {
            places_of(found@)
        }),
        forall|i: int| 0 <= i < places@.len() ==> #[trigger] places@[i] < limit,
{
    assert(text::views(found@) =~= found@);
    let mut places: Vec<usize> = Vec::new();
    let mut i: usize = 0;
    if ranked {
        let order = order::stable_order(found);
        let ghost at = order::positions(order@);
        while i < order.len()
            invariant
                i <= order@.len(),
                at == order::positions(order@),
                order::is_permutation(at, found@.len()),
                forall|k: int| 0 <= k < found@.len() ==> (#[trigger] found@[k]).index < limit,
                order::positions(places@) == places_of(order::arranged(found@, at)).take(i as int),
                forall|k: int| 0 <= k < places@.len() ==> #[trigger] places@[k] < limit,
            decreases order@.len() - i,
        {
            assert(at[i as int] == order@[i as int] as int);
            let ghost before = order::positions(places@);
            let hit = found[order[i]];
            places.push(hit.index);
            proof {
                let wanted = places_of(order::arranged(found@, at));
                assert(wanted[i as int] == hit.index);
                assert(order::positions(places@) =~= before.push(hit.index as int));
                assert(wanted.take(i + 1) =~= wanted.take(i as int).push(wanted[i as int]));
            }
            i += 1;
        }
        assert(places_of(order::arranged(found@, at)).take(i as int) =~= places_of(
            order::arranged(found@, at),
        ));
    } else {
        while i < found.len()
            invariant
                i <= found@.len(),
                forall|k: int| 0 <= k < found@.len() ==> (#[trigger] found@[k]).index < limit,
                order::positions(places@) == places_of(found@).take(i as int),
                forall|k: int| 0 <= k < places@.len() ==> #[trigger] places@[k] < limit,
            decreases found@.len() - i,
        {
            let ghost before = order::positions(places@);
            let hit = found[i];
            places.push(hit.index);
            proof {
                let wanted = places_of(found@);
                assert(order::positions(places@) =~= before.push(hit.index as int));
                assert(wanted.take(i + 1) =~= wanted.take(i as int).push(wanted[i as int]));
            }
            i += 1;
        }
        assert(places_of(found@).take(i as int) =~= places_of(found@));
    }
    places
}

/// The places of one section, as they are shown.
fn places_in_section(
    rows: &[Row],
    wanted: u8,
    scores: &Vec<Option<u32>>,
    searched: bool,
) -> (places: Vec<usize>)
    requires
        scores@.len() == rows@.len(),
    ensures
        order::positions(places@) == scored_section(text::views(rows@), scores@, searched, wanted),
        forall|i: int| 0 <= i < places@.len() ==> #[trigger] places@[i] < rows@.len(),
{
    let found = collect_hits(rows, wanted, scores);
    let places = hit_places(&found, searched, rows.len());
    if wanted == 1 || wanted == 2 {
        group_indices_by_space(rows, places, !searched)
    } else {
        places
    }
}

/// The places of the rows that match a query, ranked within each section.
/// Sections always come in their order. Each field of a row is matched on its
/// own and the best score counts.
pub fn filter(rows: &[Row], query: &str, matcher: &mut FuzzyMatcher) -> (places: Vec<usize>)
    ensures
        order::positions(places@) == filtered(text::views(rows@), query@),
        forall|i: int| 0 <= i < places@.len() ==> #[trigger] places@[i] < rows@.len(),
{
    let mut scores: Vec<Option<u32>> = Vec::new();
    let mut i: usize = 0;
    while i < rows.len()
        invariant
            i <= rows@.len(),
            scores@.len() == i,
            forall|k: int|
                0 <= k < i ==> #[trigger] scores@[k] == row_score(query@, rows@[k]@),
        decreases rows@.len() - i,
    {
        let score: Option<u32> = if query.is_empty() {
            Some(0)
        } else {
            let document = SearchDocument::for_row(&rows[i]);
            score_fields(query, &document.0, matcher)
        };
        scores.push(score);
        i += 1;
    }
    assert(scores@ =~= row_scores(text::views(rows@), query@));
    filter_scored(rows, &scores, !query.is_empty())
}

/// The places of the rows that have a score, section by section: in a search best
/// first, else as they stand. Tabs and panes of one space stand together.
pub fn filter_scored(rows: &[Row], scores: &Vec<Option<u32>>, searched: bool) -> (places: Vec<
    usize,
>)
    requires
        scores@.len() == rows@.len(),
    ensures
        order::positions(places@) == scored_places(text::views(rows@), scores@, searched),
        forall|i: int| 0 <= i < places@.len() ==> #[trigger] places@[i] < rows@.len(),
{
    let mut places = places_in_section(rows, 0, scores, searched);
    let mut tabs = places_in_section(rows, 1, scores, searched);
    let mut panes = places_in_section(rows, 2, scores, searched);
    let mut projects = places_in_section(rows, 3, scores, searched);
    let ghost open_places = places@;
    let ghost tab_places = tabs@;
    let ghost pane_places = panes@;
    let ghost project_places = projects@;
    places.append(&mut tabs);
    places.append(&mut panes);
    places.append(&mut projects);
    proof {
        assert(places@ =~= open_places + tab_places + pane_places + project_places);
        assert(order::positions(places@) =~= order::positions(open_places) + order::positions(
            tab_places,
        ) + order::positions(pane_places) + order::positions(project_places));
        assert forall|k: int| 0 <= k < places@.len() implies #[trigger] places@[k] < rows@.len() by {
            let a = open_places.len();
            let b = a + tab_places.len();
            let c = b + pane_places.len();
            if k < a {
                assert(places@[k] == open_places[k]);
            } else if k < b {
                assert(places@[k] == tab_places[k - a]);
            } else if k < c {
                assert(places@[k] == pane_places[k - b]);
            } else {
                assert(places@[k] == project_places[k - c]);
            }
        }
    }
    places
}

} // verus!
