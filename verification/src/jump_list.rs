//! The list of Jump Pane mode: ranking, selection, recency and refreshed
//! runtimes.

use vstd::prelude::*;
use crate::fuzzy;
use crate::fuzzy::FuzzyMatcher;
use crate::herdr;
use crate::jump_pane;
use crate::jump_pane::{EntryModel, IdentityModel, PaneEntry, PaneIdentity, MAX_PANE_RECENCY};
use crate::lists;
use crate::model;
use crate::order;
use crate::order::Ranked;
use crate::picker;
use crate::search;
use crate::text;

verus! {

broadcast use crate::text::lemma_views_push;

/// How a pane ranks under a query.
pub struct PaneRank {
    /// Whether the directory of the foreground process matches.
    pub foreground_match: bool,
    /// Whether it is the query.
    pub foreground_exact: bool,
    /// Whether any field is the query.
    pub exact: bool,
    /// The score of the directory of the foreground process.
    pub foreground_fuzzy: u32,
    /// The best score of any field.
    pub fuzzy: u32,
    /// How recently the pane was focused.
    pub recent: usize,
    /// How close the pane is to the one in use.
    pub proximity: u8,
    pub status: u8,
    pub identity: PaneIdentity,
}

/// The view of a [`PaneRank`].
#[verifier::ext_equal]
pub struct RankModel {
    pub foreground_match: bool,
    pub foreground_exact: bool,
    pub exact: bool,
    pub foreground_fuzzy: u32,
    pub fuzzy: u32,
    pub recent: usize,
    pub proximity: u8,
    pub status: u8,
    pub identity: IdentityModel,
}

impl View for PaneRank {
    type V = RankModel;

    open spec fn view(&self) -> RankModel {
        RankModel {
            foreground_match: self.foreground_match,
            foreground_exact: self.foreground_exact,
            exact: self.exact,
            foreground_fuzzy: self.foreground_fuzzy,
            fuzzy: self.fuzzy,
            recent: self.recent,
            proximity: self.proximity,
            status: self.status,
            identity: self.identity@,
        }
    }
}

impl Ranked for PaneRank {
    /// Matches of the foreground directory first, then exact ones, better scores,
    /// recent panes, close panes, quiet panes, and the order of identities.
    open spec fn precedes(a: RankModel, b: RankModel) -> bool {
        if a.foreground_match != b.foreground_match {
            a.foreground_match
        } else if a.foreground_exact != b.foreground_exact {
            a.foreground_exact
        } else if a.exact != b.exact {
            a.exact
        } else if a.foreground_fuzzy != b.foreground_fuzzy {
            a.foreground_fuzzy > b.foreground_fuzzy
        } else if a.fuzzy != b.fuzzy {
            a.fuzzy > b.fuzzy
        } else if a.recent != b.recent {
            a.recent > b.recent
        } else if a.proximity != b.proximity {
            a.proximity > b.proximity
        } else if a.status != b.status {
            a.status < b.status
        } else {
            jump_pane::not_after(a.identity, b.identity)
        }
    }

    proof fn total(a: RankModel, b: RankModel) {
        <PaneIdentity as Ranked>::total(a.identity, b.identity);
    }

    proof fn transitive(a: RankModel, b: RankModel, c: RankModel) {
        if jump_pane::not_after(a.identity, b.identity) && jump_pane::not_after(
            b.identity,
            c.identity,
        ) {
            <PaneIdentity as Ranked>::transitive(a.identity, b.identity, c.identity);
        }
    }

    fn may_precede(&self, other: &Self) -> (before: bool) {
        if self.foreground_match != other.foreground_match {
            self.foreground_match
        } else if self.foreground_exact != other.foreground_exact {
            self.foreground_exact
        } else if self.exact != other.exact {
            self.exact
        } else if self.foreground_fuzzy != other.foreground_fuzzy {
            self.foreground_fuzzy > other.foreground_fuzzy
        } else if self.fuzzy != other.fuzzy {
            self.fuzzy > other.fuzzy
        } else if self.recent != other.recent {
            self.recent > other.recent
        } else if self.proximity != other.proximity {
            self.proximity > other.proximity
        } else if self.status != other.status {
            self.status < other.status
        } else {
            self.identity.may_precede(&other.identity)
        }
    }
}

/// What panes are ranked by, besides themselves.
#[verifier::ext_equal]
pub struct Ranking {
    pub query: Seq<char>,
    /// The panes that were focused, latest first.
    pub recency: Seq<IdentityModel>,
    /// The workspace and the tab of the pane in use.
    pub current: Option<(Seq<char>, Option<Seq<char>>)>,
}

/// How busy an agent is.
pub open spec fn status_rank(status: Option<Seq<char>>) -> u8 {
    if status == Some("blocked"@) {
        3
    } else if status == Some("working"@) {
        2
    } else if status == Some("done"@) {
        1
    } else {
        0
    }
}

/// Whether any field is the query, but for case.
pub open spec fn any_exact(fields: Seq<Seq<char>>, query: Seq<char>) -> bool {
    exists|i: int| 0 <= i < fields.len() && text::same_ignoring_case(#[trigger] fields[i], query)
}

impl Ranking {
    /// The score of the directory of the foreground process.
    pub open spec fn foreground_score(self, entry: EntryModel) -> Option<u32> {
        if self.query.len() == 0 || entry.foreground_cwd is None {
            None
        } else {
            fuzzy::field_score(self.query, entry.foreground_cwd->0)
        }
    }

    /// The best score of any single field.
    pub open spec fn score(self, entry: EntryModel) -> Option<u32> {
        if self.query.len() == 0 {
            Some(0)
        } else {
            search::best_score(self.query, entry.fields())
        }
    }

    /// How recently a pane was focused; more is later.
    pub open spec fn recent(self, entry: EntryModel) -> usize {
        match text::position(self.recency, entry.identity) {
            Some(at) => (usize::MAX - at) as usize,
            None => 0,
        }
    }

    /// How close a pane is to the one in use: its workspace counts twice, its
    /// tab once.
    pub open spec fn proximity(self, entry: EntryModel) -> u8 {
        match self.current {
            Some((workspace, tab)) => ((if entry.workspace_id == workspace {
                2int
            } else {
                0
            }) + (if tab is Some && entry.tab_id == tab {
                1int
            } else {
                0
            })) as u8,
            None => 0,
        }
    }

    /// The rank of a pane, by the best score of any field and the score of the
    /// directory of the foreground process.
    pub open spec fn rank_by(self, entry: EntryModel, scores: Scores) -> RankModel {
        RankModel {
            foreground_match: scores.foreground is Some,
            foreground_exact: self.query.len() > 0 && entry.foreground_cwd is Some
                && text::same_ignoring_case(entry.foreground_cwd->0, self.query),
            exact: self.query.len() > 0 && any_exact(entry.fields(), self.query),
            foreground_fuzzy: match scores.foreground {
                Some(score) => score,
                None => 0,
            },
            fuzzy: match scores.best {
                Some(score) => score,
                None => 0,
            },
            recent: self.recent(entry),
            proximity: self.proximity(entry),
            status: status_rank(entry.agent_status),
            identity: entry.identity,
        }
    }

    /// The ranks of panes, by their scores.
    pub open spec fn ranks_by(
        self,
        entries: Seq<EntryModel>,
        scores: Seq<Scores>,
        places: Seq<int>,
    ) -> Seq<RankModel> {
        Seq::new(places.len(), |i: int| self.rank_by(entries[places[i]], scores[places[i]]))
    }

    /// The places of the panes that have a score, best first.
    pub open spec fn scored_places(
        self,
        entries: Seq<EntryModel>,
        scores: Seq<Scores>,
    ) -> Seq<int> {
        let hits = scored_hits(scores, entries.len());
        order::arranged(hits, order::ordered::<PaneRank>(self.ranks_by(entries, scores, hits)))
    }

    /// The scores of a pane under the query.
    pub open spec fn scores(self, entry: EntryModel) -> Scores {
        Scores { best: self.score(entry), foreground: self.foreground_score(entry) }
    }

    /// The scores of panes under the query.
    pub open spec fn all_scores(self, entries: Seq<EntryModel>) -> Seq<Scores> {
        Seq::new(entries.len(), |i: int| self.scores(entries[i]))
    }

    /// The rank of a pane that matches.
    pub open spec fn rank(self, entry: EntryModel) -> RankModel {
        self.rank_by(entry, self.scores(entry))
    }

    /// The places of the first `n` panes that match.
    pub open spec fn hits(self, entries: Seq<EntryModel>, n: nat) -> Seq<int> {
        scored_hits(self.all_scores(entries), n)
    }

    /// The places of the panes that match, best first.
    pub open spec fn filtered(self, entries: Seq<EntryModel>) -> Seq<int> {
        self.scored_places(entries, self.all_scores(entries))
    }
}

/// How well a pane matches a query.
#[derive(Debug, Clone, Copy, PartialEq, Eq)]
pub struct Scores {
    /// The best score of any single field.
    pub best: Option<u32>,
    /// The score of the directory of the foreground process.
    pub foreground: Option<u32>,
}

/// The places of the first `n` panes that have a score.
pub open spec fn scored_hits(scores: Seq<Scores>, n: nat) -> Seq<int>
    decreases n,
{
    if n == 0 {
        Seq::empty()
    } else {
        let before = scored_hits(scores, (n - 1) as nat);
        if scores[n - 1].best is Some {
            before.push(n - 1)
        } else {
            before
        }
    }
}

/// Find an identity.
fn find_identity(list: &[PaneIdentity], identity: &PaneIdentity) -> (at: Option<usize>)
    ensures
        match at {
            Some(i) => i < list@.len() && text::position(text::views(list@), identity@) == Some(
                i as int,
            ),
            None => text::position(text::views(list@), identity@) is None,
        },
{
    let ghost all = text::views(list@);
    let mut i: usize = 0;
    assert(all.take(0) =~= Seq::empty());
    while i < list.len()
        invariant
            i <= list@.len(),
            all == text::views(list@),
            text::position(all.take(i as int), identity@) is None,
        decreases list@.len() - i,
    {
        proof {
            assert(all.take(i + 1).drop_last() =~= all.take(i as int));
            assert(all.take(i + 1).last() == list@[i as int]@);
        }
        if list[i].same(identity) {
            proof {
                text::lemma_position_prefix(all, identity@, i + 1);
            }
            return Some(i);
        }
        i += 1;
    }
    assert(all.take(i as int) =~= all);
    None
}

/// Decide whether any field is the query, but for case.
fn exact_field(fields: &Vec<&str>, query: &str) -> (found: bool)
    ensures
        found == any_exact(text::views(fields@), query@),
{
    let ghost all = text::views(fields@);
    let mut i: usize = 0;
    while i < fields.len()
        invariant
            i <= fields@.len(),
            all == text::views(fields@),
            forall|k: int|
                0 <= k < i ==> !text::same_ignoring_case(#[trigger] all[k], query@),
        decreases fields@.len() - i,
    {
        assert(all[i as int] == fields@[i as int]@);
        if text::equal_ignoring_case(fields[i], query) {
            return true;
        }
        i += 1;
    }
    false
}

/// Rank an agent's status.
fn rank_status(status: &Option<String>) -> (rank: u8)
    ensures
        rank == status_rank(text::view_of(*status)),
{
    match status {
        Some(status) => if text::same(status.as_str(), "blocked") {
            3
        } else if text::same(status.as_str(), "working") {
            2
        } else if text::same(status.as_str(), "done") {
            1
        } else {
            0
        },
        None => 0,
    }
}

/// The view of a workspace and a tab.
pub open spec fn current_view(current: Option<(&str, Option<&str>)>) -> Option<
    (Seq<char>, Option<Seq<char>>),
> {
    match current {
        Some((workspace, tab)) => Some((workspace@, model::borrowed(tab))),
        None => None,
    }
}

/// What panes are ranked by, as a model.
pub open spec fn ranking(
    query: &str,
    recency: &[PaneIdentity],
    current: Option<(&str, Option<&str>)>,
) -> Ranking {
    Ranking {
        query: query@,
        recency: text::views(recency@),
        current: current_view(current),
    }
}

/// How close a pane is to the one in use.
fn closeness(entry: &PaneEntry, current: Option<(&str, Option<&str>)>) -> (proximity: u8)
    ensures
        forall|by: Ranking|
            by.current == current_view(current) ==> proximity == #[trigger] by.proximity(entry@),
{
    match current {
        Some((workspace, tab)) => {
            let here: u8 = if text::same(entry.workspace_id.as_str(), workspace) {
                2
            } else {
                0
            };
            let beside: u8 = match (tab, &entry.tab_id) {
                (Some(tab), Some(mine)) => if text::same(mine.as_str(), tab) {
                    1
                } else {
                    0
                },
                _ => 0,
            };
            here + beside
        },
        None => 0,
    }
}

/// Score a pane under a query.
fn score_entry(entry: &PaneEntry, query: &str, matcher: &mut FuzzyMatcher) -> (scores: Scores)
    ensures
        forall|by: Ranking| by.query == query@ ==> scores == #[trigger] by.scores(entry@),
{
    if query.is_empty() {
        return Scores { best: Some(0), foreground: None };
    }
    let fields = entry.search_fields();
    let copies = text::owned(&fields);
    let best = search::score_fields(query, &copies, matcher);
    let foreground = match &entry.foreground_cwd {
        Some(path) => matcher.score(query, path.as_str()),
        None => None,
    };
    Scores { best, foreground }
}

/// Rank a pane by its scores.
fn rank_entry(
    entry: &PaneEntry,
    query: &str,
    scores: Scores,
    recency: &[PaneIdentity],
    current: Option<(&str, Option<&str>)>,
) -> (rank: PaneRank)
    ensures
        rank@ == ranking(query, recency, current).rank_by(entry@, scores),
{
    let ghost by = ranking(query, recency, current);
    let asked = !query.is_empty();
    let fields = entry.search_fields();
    let foreground_exact = match &entry.foreground_cwd {
        Some(path) => asked && text::equal_ignoring_case(path.as_str(), query),
        None => false,
    };
    let recent: usize = match find_identity(recency, &entry.identity) {
        Some(at) => usize::MAX - at,
        None => 0,
    };
    let proximity: u8 = closeness(entry, current);
    assert(proximity == by.proximity(entry@));
    PaneRank {
        foreground_match: scores.foreground.is_some(),
        foreground_exact,
        exact: asked && exact_field(&fields, query),
        foreground_fuzzy: match scores.foreground {
            Some(score) => score,
            None => 0,
        },
        fuzzy: match scores.best {
            Some(score) => score,
            None => 0,
        },
        recent,
        proximity,
        status: rank_status(&entry.agent_status),
        identity: entry.identity.clone(),
    }
}

/// Find the panes that match, best first.
pub fn filter(
    entries: &[PaneEntry],
    query: &str,
    matcher: &mut FuzzyMatcher,
    recency: &[PaneIdentity],
    current: Option<(&str, Option<&str>)>,
) -> (places: Vec<usize>)
    ensures
        order::positions(places@) == ranking(query, recency, current).filtered(
            text::views(entries@),
        ),
        forall|i: int| 0 <= i < places@.len() ==> #[trigger] places@[i] < entries@.len(),
{
    let ghost by = ranking(query, recency, current);
    let ghost all = text::views(entries@);
    let mut scores: Vec<Scores> = Vec::new();
    let mut i: usize = 0;
    while i < entries.len()
        invariant
            i <= entries@.len(),
            by.query == query@,
            all == text::views(entries@),
            scores@ == by.all_scores(all).take(i as int),
        decreases entries@.len() - i,
    {
        assert(all[i as int] == entries@[i as int]@);
        let ghost wanted = by.all_scores(all);
        let scored = score_entry(&entries[i], query, matcher);
        assert(scored == by.scores(all[i as int]));
        scores.push(scored);
        assert(wanted.take(i + 1) =~= wanted.take(i as int).push(wanted[i as int]));
        i += 1;
    }
    assert(by.all_scores(all).take(i as int) =~= by.all_scores(all));
    filter_scored(entries, query, &scores, recency, current)
}

/// The panes that have a score, best first. The query counts only for exact
/// matches.
pub fn filter_scored(
    entries: &[PaneEntry],
    query: &str,
    scores: &Vec<Scores>,
    recency: &[PaneIdentity],
    current: Option<(&str, Option<&str>)>,
) -> (places: Vec<usize>)
    requires
        scores@.len() == entries@.len(),
    ensures
        order::positions(places@) == ranking(query, recency, current).scored_places(
            text::views(entries@),
            scores@,
        ),
        forall|i: int| 0 <= i < places@.len() ==> #[trigger] places@[i] < entries@.len(),
{
    let ghost by = ranking(query, recency, current);
    let ghost all = text::views(entries@);
    let mut hits: Vec<usize> = Vec::new();
    let mut ranks: Vec<PaneRank> = Vec::new();
    let mut i: usize = 0;
    assert(order::positions(hits@) =~= scored_hits(scores@, 0));
    assert(text::views(ranks@) =~= by.ranks_by(all, scores@, scored_hits(scores@, 0)));
    while i < entries.len()
        invariant
            i <= entries@.len(),
            scores@.len() == entries@.len(),
            by == ranking(query, recency, current),
            all == text::views(entries@),
            hits@.len() == ranks@.len(),
            order::positions(hits@) == scored_hits(scores@, i as nat),
            text::views(ranks@) == by.ranks_by(all, scores@, scored_hits(scores@, i as nat)),
            forall|k: int| 0 <= k < hits@.len() ==> #[trigger] hits@[k] < i,
        decreases entries@.len() - i,
    {
        let ghost before = scored_hits(scores@, i as nat);
        assert(all[i as int] == entries@[i as int]@);
        if scores[i].best.is_some() {
            let rank = rank_entry(&entries[i], query, scores[i], recency, current);
            hits.push(i);
            ranks.push(rank);
            assert(order::positions(hits@) =~= before.push(i as int));
            assert(text::views(ranks@) =~= by.ranks_by(all, scores@, before.push(i as int)));
        }
        i += 1;
    }
    let order = order::stable_order(&ranks);
    let mut places: Vec<usize> = Vec::new();
    let mut k: usize = 0;
    let ghost found = order::positions(hits@);
    let ghost wanted = by.scored_places(all, scores@);
    assert(wanted == order::arranged(found, order::positions(order@)));
    assert(order::positions(places@) =~= wanted.take(0));
    while k < order.len()
        invariant
            k <= order@.len(),
            order::is_permutation(order::positions(order@), hits@.len()),
            found == order::positions(hits@),
            wanted == order::arranged(found, order::positions(order@)),
            forall|m: int| 0 <= m < hits@.len() ==> #[trigger] hits@[m] < entries@.len(),
            order::positions(places@) == wanted.take(k as int),
            forall|m: int| 0 <= m < places@.len() ==> #[trigger] places@[m] < entries@.len(),
        decreases order@.len() - k,
    {
        assert(order::positions(order@)[k as int] == order@[k as int] as int);
        assert(wanted[k as int] == found[order@[k as int] as int]);
        let ghost before = order::positions(places@);
        places.push(hits[order[k]]);
        assert(order::positions(places@) =~= before.push(wanted[k as int]));
        assert(wanted.take(k + 1) =~= wanted.take(k as int).push(wanted[k as int]));
        k += 1;
    }
    assert(wanted.take(k as int) =~= wanted);
    places
}

/// The first shown row, so that the selected one is in view, near the middle,
/// while the view is no larger than `capacity`.
pub open spec fn view_start(total: int, selected: int, capacity: int) -> int {
    let last = total - capacity;
    let at = if selected < total {
        selected
    } else {
        total - 1
    };
    let centered = if at > capacity / 2 {
        at - capacity / 2
    } else {
        0
    };
    if last <= 0 || capacity == 0 {
        0
    } else if centered < last {
        centered
    } else {
        last
    }
}

/// Find the first row to show.
pub fn viewport_start(total: usize, selected: usize, capacity: usize) -> (start: usize)
    ensures
        start == view_start(total as int, selected as int, capacity as int),
        selected < total && capacity > 0 ==> start <= selected < start + capacity,
        capacity <= total ==> start + capacity <= total || capacity == 0,
{
    if total <= capacity || capacity == 0 {
        return 0;
    }
    let at: usize = if selected < total {
        selected
    } else {
        total - 1
    };
    let centered: usize = at.saturating_sub(capacity / 2);
    if centered < total - capacity {
        centered
    } else {
        total - capacity
    }
}

/// The panes that were focused, latest first.
#[derive(Debug)]
pub struct PaneRecency(pub Vec<PaneIdentity>);

impl View for PaneRecency {
    type V = Seq<IdentityModel>;

    open spec fn view(&self) -> Seq<IdentityModel> {
        text::views(self.0@)
    }
}

impl Default for PaneRecency {
    /// No pane was focused.
    fn default() -> (recency: Self)
        ensures
            recency@ == Seq::<IdentityModel>::empty(),
    {
        let recency = PaneRecency(Vec::new());
        assert(recency@ =~= Seq::empty());
        recency
    }
}

/// Recency with a pane focused: it comes first, and the oldest fall off.
pub open spec fn touched(recency: Seq<IdentityModel>, identity: IdentityModel) -> Seq<
    IdentityModel,
> {
    lists::at_most_first(lists::fronted(recency, identity), MAX_PANE_RECENCY as nat)
}

/// The first identities of a list, at most `limit`.
fn first_identities(list: &Vec<PaneIdentity>, limit: usize) -> (first: Vec<PaneIdentity>)
    ensures
        text::views(first@) == lists::at_most_first(text::views(list@), limit as nat),
{
    let ghost all = text::views(list@);
    let mut first: Vec<PaneIdentity> = Vec::new();
    let mut i: usize = 0;
    assert(text::views(first@) =~= all.take(0));
    while i < list.len() && i < limit
        invariant
            i <= list@.len(),
            i <= limit,
            all == text::views(list@),
            text::views(first@) == all.take(i as int),
        decreases list@.len() - i,
    {
        first.push(list[i].clone());
        assert(all.take(i + 1) =~= all.take(i as int).push(all[i as int]));
        i += 1;
    }
    assert(text::views(first@) =~= lists::at_most_first(all, limit as nat));
    first
}

impl PaneRecency {
    /// Note that a pane was focused.
    pub fn touch(&mut self, identity: PaneIdentity)
        ensures
            final(self)@ == touched(old(self)@, identity@),
    {
        let ghost before = self@;
        let ghost keep = |other: IdentityModel| other != identity@;
        let mut list: Vec<PaneIdentity> = Vec::new();
        list.push(identity.clone());
        let mut i: usize = 0;
        reveal(Seq::filter);
        assert(text::views(list@) =~= seq![identity@] + before.take(0).filter(keep));
        while i < self.0.len()
            invariant
                i <= self.0@.len(),
                before == text::views(self.0@),
                keep == (|other: IdentityModel| other != identity@),
                text::views(list@) == seq![identity@] + before.take(i as int).filter(keep),
            decreases self.0@.len() - i,
        {
            reveal(Seq::filter);
            assert(before.take(i + 1).drop_last() =~= before.take(i as int));
            assert(before.take(i + 1).last() == self.0@[i as int]@);
            if !self.0[i].same(&identity) {
                let ghost kept = before.take(i as int).filter(keep);
                list.push(self.0[i].clone());
                assert(seq![identity@] + kept.push(before[i as int]) =~= (seq![identity@]
                    + kept).push(before[i as int]));
            }
            i += 1;
        }
        assert(before.take(i as int) =~= before);
        self.0 = first_identities(&list, MAX_PANE_RECENCY);
    }
}

/// Whether an identity names a runtime and a pane.
pub open spec fn is_complete(identity: IdentityModel) -> bool {
    identity.runtime_id.len() > 0 && identity.pane_id.len() > 0
}

/// Recency after the complete ones of the first `n` identities, one after the
/// other.
pub open spec fn touched_all(identities: Seq<IdentityModel>, n: nat) -> Seq<IdentityModel>
    decreases n,
{
    if n == 0 {
        Seq::empty()
    } else {
        let before = touched_all(identities, (n - 1) as nat);
        if is_complete(identities[n - 1]) {
            touched(before, identities[n - 1])
        } else {
            before
        }
    }
}

/// The version of the recency file.
pub const RECENCY_VERSION: u8 = 1;

/// The recency in a file, latest first. A file of another version has none.
pub open spec fn recency_in_file(version: u8, identities: Seq<IdentityModel>) -> Seq<
    IdentityModel,
> {
    if version == RECENCY_VERSION {
        let kept = lists::at_most_first(identities, MAX_PANE_RECENCY as nat);
        touched_all(kept, kept.len()).reverse()
    } else {
        Seq::empty()
    }
}

/// Take the recency out of a file.
pub fn recency_from_file(version: u8, identities: Vec<PaneIdentity>) -> (recency: PaneRecency)
    ensures
        recency@ == recency_in_file(version, text::views(identities@)),
{
    if version != RECENCY_VERSION {
        return PaneRecency::default();
    }
    let kept = first_identities(&identities, MAX_PANE_RECENCY);
    let ghost all = text::views(kept@);
    let mut newest_last = PaneRecency::default();
    let mut i: usize = 0;
    while i < kept.len()
        invariant
            i <= kept@.len(),
            all == text::views(kept@),
            newest_last@ == touched_all(all, i as nat),
        decreases kept@.len() - i,
    {
        assert(all[i as int] == kept@[i as int]@);
        if !kept[i].runtime_id.as_str().is_empty() && !kept[i].pane_id.as_str().is_empty() {
            newest_last.touch(kept[i].clone());
        }
        i += 1;
    }
    let ghost backwards = newest_last@;
    let mut list: Vec<PaneIdentity> = Vec::new();
    let mut left: usize = newest_last.0.len();
    assert(text::views(list@) =~= backwards.reverse().take(0));
    while left > 0
        invariant
            left <= newest_last.0@.len(),
            backwards == text::views(newest_last.0@),
            text::views(list@) == backwards.reverse().take(backwards.len() - left),
        decreases left,
    {
        let ghost before = text::views(list@);
        left -= 1;
        list.push(newest_last.0[left].clone());
        assert(backwards.reverse()[backwards.len() - left - 1] == backwards[left as int]);
        assert(before.push(backwards[left as int]) =~= backwards.reverse().take(
            backwards.len() - left,
        ));
    }
    assert(backwards.reverse().take(backwards.len() as int) =~= backwards.reverse());
    PaneRecency(list)
}

/// What is to be written to the recency file: its version, and the panes that
/// were focused, latest first.
pub fn recency_for_file(recency: &PaneRecency) -> (file: (u8, Vec<PaneIdentity>))
    ensures
        file.0 == RECENCY_VERSION,
        text::views(file.1@) == lists::at_most_first(recency@, MAX_PANE_RECENCY as nat),
{
    (RECENCY_VERSION, first_identities(&recency.0, MAX_PANE_RECENCY))
}

/// The rows, the query and the selection of Jump Pane mode.
#[derive(Debug)]
pub struct JumpPaneState {
    pub entries: Vec<PaneEntry>,
    pub query: String,
    /// The selected one of the rows that match.
    pub selected: usize,
    pub recency: Vec<PaneIdentity>,
    /// The workspace and the tab of the pane in use.
    pub current_context: Option<(String, Option<String>)>,
}

/// The view of a [`JumpPaneState`].
#[verifier::ext_equal]
pub struct JumpModel {
    pub entries: Seq<EntryModel>,
    pub query: Seq<char>,
    pub selected: int,
    pub recency: Seq<IdentityModel>,
    pub current: Option<(Seq<char>, Option<Seq<char>>)>,
}

impl View for JumpPaneState {
    type V = JumpModel;

    open spec fn view(&self) -> JumpModel {
        JumpModel {
            entries: text::views(self.entries@),
            query: self.query@,
            selected: self.selected as int,
            recency: text::views(self.recency@),
            current: search::key_view(self.current_context),
        }
    }
}

impl Default for JumpPaneState {
    /// Nothing to show and nothing typed.
    fn default() -> (state: Self)
        ensures
            state@ == (JumpModel {
                entries: Seq::empty(),
                query: Seq::empty(),
                selected: 0,
                recency: Seq::empty(),
                current: None,
            }),
    {
        let state = JumpPaneState {
            entries: Vec::new(),
            query: String::new(),
            selected: 0,
            recency: Vec::new(),
            current_context: None,
        };
        assert(state@.entries =~= Seq::empty());
        assert(state@.recency =~= Seq::empty());
        state
    }
}

/// The identities of rows.
pub open spec fn identities(entries: Seq<EntryModel>) -> Seq<IdentityModel> {
    Seq::new(entries.len(), |i: int| entries[i].identity)
}

/// Rows in the order of their identities.
pub open spec fn sorted(entries: Seq<EntryModel>) -> Seq<EntryModel> {
    order::arranged(entries, order::ordered::<PaneIdentity>(identities(entries)))
}

/// The first shown row with an identity, from `i` on.
pub open spec fn place_with(
    entries: Seq<EntryModel>,
    filtered: Seq<int>,
    identity: IdentityModel,
    i: int,
) -> Option<int>
    decreases filtered.len() - i,
{
    if i < 0 || i >= filtered.len() {
        None
    } else if entries[filtered[i]].identity == identity {
        Some(i)
    } else {
        place_with(entries, filtered, identity, i + 1)
    }
}

/// Rows with those of a runtime disabled.
pub open spec fn disabled(entries: Seq<EntryModel>, runtime_id: Seq<char>) -> Seq<EntryModel> {
    Seq::new(
        entries.len(),
        |i: int|
            if entries[i].identity.runtime_id == runtime_id {
                EntryModel { runtime_available: false, ..entries[i] }
            } else {
                entries[i]
            },
    )
}

impl JumpModel {
    /// What rows are ranked by.
    pub open spec fn ranking(self) -> Ranking {
        Ranking { query: self.query, recency: self.recency, current: self.current }
    }

    /// The rows that match, best first.
    pub open spec fn filtered(self) -> Seq<int> {
        self.ranking().filtered(self.entries)
    }

    /// The row that is selected.
    pub open spec fn selected_entry(self) -> Option<EntryModel> {
        if 0 <= self.selected < self.filtered().len() {
            Some(self.entries[self.filtered()[self.selected]])
        } else {
            None
        }
    }

    /// Where the selected row stands among other rows, where it does.
    pub open spec fn kept_place(self, entries: Seq<EntryModel>) -> Option<int> {
        match self.selected_entry() {
            Some(entry) => place_with(
                entries,
                self.ranking().filtered(entries),
                entry.identity,
                0,
            ),
            None => None,
        }
    }

    /// After all rows have been replaced. The selected row stays selected where
    /// it still matches; otherwise the first one is.
    pub open spec fn replaced(self, entries: Seq<EntryModel>) -> JumpModel {
        let rows = sorted(entries);
        JumpModel {
            entries: rows,
            selected: picker::clamped(
                match self.kept_place(rows) {
                    Some(place) => place,
                    None => 0,
                },
                self.ranking().filtered(rows).len(),
            ),
            ..self
        }
    }

    /// After the rows of one runtime have been replaced. The selected row stays
    /// selected where it still matches; otherwise the nearest one is.
    pub open spec fn merged(self, runtime_id: Seq<char>, entries: Seq<EntryModel>) -> JumpModel {
        let rows = sorted(
            self.entries.filter(|entry: EntryModel| entry.identity.runtime_id != runtime_id)
                + entries,
        );
        JumpModel {
            entries: rows,
            selected: match self.kept_place(rows) {
                Some(place) => place,
                None => picker::clamped(self.selected, self.ranking().filtered(rows).len()),
            },
            ..self
        }
    }
}

/// Sort rows by identity.
fn sort_entries(entries: &Vec<PaneEntry>) -> (rows: Vec<PaneEntry>)
    ensures
        text::views(rows@) == sorted(text::views(entries@)),
{
    let ghost all = text::views(entries@);
    let mut keys: Vec<PaneIdentity> = Vec::new();
    let mut i: usize = 0;
    assert(text::views(keys@) =~= identities(all).take(0));
    while i < entries.len()
        invariant
            i <= entries@.len(),
            all == text::views(entries@),
            text::views(keys@) == identities(all).take(i as int),
        decreases entries@.len() - i,
    {
        keys.push(entries[i].identity.clone());
        assert(identities(all).take(i + 1) =~= identities(all).take(i as int).push(
            entries@[i as int].identity@,
        ));
        i += 1;
    }
    assert(identities(all).take(i as int) =~= identities(all));
    let order = order::stable_order(&keys);
    let ghost wanted = sorted(all);
    let mut rows: Vec<PaneEntry> = Vec::new();
    let mut k: usize = 0;
    assert(text::views(rows@) =~= wanted.take(0));
    while k < order.len()
        invariant
            k <= order@.len(),
            all == text::views(entries@),
            order::is_permutation(order::positions(order@), entries@.len()),
            wanted == order::arranged(all, order::positions(order@)),
            text::views(rows@) == wanted.take(k as int),
        decreases order@.len() - k,
    {
        assert(order::positions(order@)[k as int] == order@[k as int] as int);
        assert(wanted[k as int] == entries@[order@[k as int] as int]@);
        rows.push(entries[order[k]].clone());
        assert(wanted.take(k + 1) =~= wanted.take(k as int).push(wanted[k as int]));
        k += 1;
    }
    assert(wanted.take(k as int) =~= wanted);
    rows
}

/// Find the first shown row with an identity.
fn find_place(entries: &Vec<PaneEntry>, filtered: &Vec<usize>, identity: &PaneIdentity) -> (place:
    Option<usize>)
    requires
        forall|i: int| 0 <= i < filtered@.len() ==> #[trigger] filtered@[i] < entries@.len(),
    ensures
        match place {
            Some(i) => i < filtered@.len() && place_with(
                text::views(entries@),
                order::positions(filtered@),
                identity@,
                0,
            ) == Some(i as int),
            None => place_with(
                text::views(entries@),
                order::positions(filtered@),
                identity@,
                0,
            ) is None,
        },
{
    let ghost all = text::views(entries@);
    let ghost shown = order::positions(filtered@);
    let mut i: usize = 0;
    while i < filtered.len()
        invariant
            i <= filtered@.len(),
            all == text::views(entries@),
            shown == order::positions(filtered@),
            forall|k: int| 0 <= k < filtered@.len() ==> #[trigger] filtered@[k] < entries@.len(),
            place_with(all, shown, identity@, 0) == place_with(all, shown, identity@, i as int),
        decreases filtered@.len() - i,
    {
        assert(all[shown[i as int]] == entries@[filtered@[i as int] as int]@);
        if entries[filtered[i]].identity.same(identity) {
            return Some(i);
        }
        i += 1;
    }
    None
}

/// The view of the result of listing a runtime's panes.
pub open spec fn listed(result: herdr::Result<Vec<PaneEntry>>) -> std::result::Result<
    Seq<EntryModel>,
    Seq<char>,
> {
    match result {
        Ok(rows) => Ok(text::views(rows@)),
        Err(error) => Err(error@.message()),
    }
}

impl JumpPaneState {
    /// The rows that match, best first.
    pub fn filtered(&self) -> (places: Vec<usize>)
        ensures
            order::positions(places@) == self@.filtered(),
            forall|i: int| 0 <= i < places@.len() ==> #[trigger] places@[i] < self.entries@.len(),
    {
        let mut matcher = FuzzyMatcher::new();
        self.filtered_by(&mut matcher)
    }

    /// The rows that match, best first, by a matcher that is at hand.
    pub fn filtered_by(&self, matcher: &mut FuzzyMatcher) -> (places: Vec<usize>)
        ensures
            order::positions(places@) == self@.filtered(),
            forall|i: int| 0 <= i < places@.len() ==> #[trigger] places@[i] < self.entries@.len(),
    {
        let current = match &self.current_context {
            Some((workspace, tab)) => Some((workspace.as_str(), model::lent(tab))),
            None => None,
        };
        filter(
            self.entries.as_slice(),
            self.query.as_str(),
            matcher,
            self.recency.as_slice(),
            current,
        )
    }

    /// The row that is selected.
    pub fn selected(&self) -> (entry: Option<&PaneEntry>)
        ensures
            match entry {
                Some(entry) => self@.selected_entry() == Some(entry@),
                None => self@.selected_entry() is None,
            },
    {
        let filtered = self.filtered();
        assert(order::positions(filtered@).len() == filtered@.len());
        if self.selected < filtered.len() {
            assert(order::positions(filtered@)[self.selected as int]
                == filtered@[self.selected as int] as int);
            Some(&self.entries[filtered[self.selected]])
        } else {
            None
        }
    }

    /// The identity of the selected row.
    fn selected_identity(&self) -> (identity: Option<PaneIdentity>)
        ensures
            text::view_of(identity) == (match self@.selected_entry() {
                Some(entry) => Some(entry.identity),
                None => None,
            }),
    {
        match self.selected() {
            Some(entry) => Some(entry.identity.clone()),
            None => None,
        }
    }

    /// Take other rows, and select the given one where it matches, otherwise a
    /// row near `fallback`.
    fn settle(&mut self, rows: Vec<PaneEntry>, wanted: Option<PaneIdentity>, fallback: usize)
        ensures
            ({
                let filtered = old(self)@.ranking().filtered(text::views(rows@));
                let found = match wanted {
                    Some(identity) => place_with(
                        text::views(rows@),
                        filtered,
                        identity@,
                        0,
                    ),
                    None => None,
                };
                final(self)@ == (JumpModel {
                    entries: text::views(rows@),
                    selected: match found {
                        Some(place) => place,
                        None => picker::clamped(fallback as int, filtered.len()),
                    },
                    ..old(self)@
                }) && (found is Some ==> 0 <= found->0 < filtered.len())
            }),
    {
        self.entries = rows;
        let filtered = self.filtered();
        assert(order::positions(filtered@).len() == filtered@.len());
        let found: Option<usize> = match &wanted {
            Some(identity) => find_place(&self.entries, &filtered, identity),
            None => None,
        };
        self.selected = match found {
            Some(place) => place,
            None => if fallback < filtered.len() {
                fallback
            } else if filtered.len() > 0 {
                filtered.len() - 1
            } else {
                0
            },
        };
    }

    /// Replace all rows.
    pub fn replace(&mut self, entries: Vec<PaneEntry>)
        ensures
            final(self)@ == old(self)@.replaced(text::views(entries@)),
    {
        let wanted = self.selected_identity();
        let rows = sort_entries(&entries);
        self.settle(rows, wanted, 0);
    }
}

/// Take in the panes of one runtime, listed again. Where that failed, its rows
/// stay, disabled, and the words of the error come back.
pub fn merge_runtime(
    state: &mut JumpPaneState,
    runtime_id: &str,
    result: herdr::Result<Vec<PaneEntry>>,
) -> (error: Option<String>)
    ensures
        match listed(result) {
            Ok(rows) => error is None && final(state)@ == old(state)@.merged(runtime_id@, rows),
            Err(message) => text::view_of(error) == Some(jump_pane::tidy(message))
                && final(state)@ == (JumpModel {
                entries: disabled(old(state)@.entries, runtime_id@),
                ..old(state)@
            }),
        },
{
    match result {
        Ok(rows) => {
            let wanted = state.selected_identity();
            let fallback: usize = state.selected;
            let mut kept = other_runtimes(&state.entries, runtime_id);
            let mut rows = rows;
            let ghost left = kept@;
            let ghost added = rows@;
            kept.append(&mut rows);
            assert(text::views(kept@) =~= text::views(left) + text::views(added));
            let sorted_rows = sort_entries(&kept);
            state.settle(sorted_rows, wanted, fallback);
            None
        },
        Err(error) => {
            disable_runtime(&mut state.entries, runtime_id);
            Some(jump_pane::sanitize(error.message().as_str()))
        },
    }
}

/// The rows of other runtimes.
fn other_runtimes(entries: &Vec<PaneEntry>, runtime_id: &str) -> (kept: Vec<PaneEntry>)
    ensures
        text::views(kept@) == text::views(entries@).filter(
            |entry: EntryModel| entry.identity.runtime_id != runtime_id@,
        ),
{
    let ghost all = text::views(entries@);
    let ghost keep = |entry: EntryModel| entry.identity.runtime_id != runtime_id@;
    let mut kept: Vec<PaneEntry> = Vec::new();
    let mut i: usize = 0;
    reveal(Seq::filter);
    assert(text::views(kept@) =~= all.take(0).filter(keep));
    while i < entries.len()
        invariant
            i <= entries@.len(),
            all == text::views(entries@),
            keep == (|entry: EntryModel| entry.identity.runtime_id != runtime_id@),
            text::views(kept@) == all.take(i as int).filter(keep),
        decreases entries@.len() - i,
    {
        reveal(Seq::filter);
        assert(all.take(i + 1).drop_last() =~= all.take(i as int));
        assert(all.take(i + 1).last() == entries@[i as int]@);
        if !text::same(entries[i].identity.runtime_id.as_str(), runtime_id) {
            kept.push(entries[i].clone());
        }
        i += 1;
    }
    assert(all.take(i as int) =~= all);
    kept
}

/// Disable the rows of a runtime.
fn disable_runtime(entries: &mut Vec<PaneEntry>, runtime_id: &str)
    ensures
        text::views(final(entries)@) == disabled(text::views(old(entries)@), runtime_id@),
{
    let ghost before = text::views(entries@);
    let ghost wanted = disabled(before, runtime_id@);
    let mut rows: Vec<PaneEntry> = Vec::new();
    let mut i: usize = 0;
    assert(text::views(rows@) =~= wanted.take(0));
    while i < entries.len()
        invariant
            i <= entries@.len(),
            before == text::views(entries@),
            wanted == disabled(before, runtime_id@),
            text::views(rows@) == wanted.take(i as int),
        decreases entries@.len() - i,
    {
        assert(before[i as int] == entries@[i as int]@);
        let mut row = entries[i].clone();
        if text::same(row.identity.runtime_id.as_str(), runtime_id) {
            row.runtime_available = false;
        }
        rows.push(row);
        assert(wanted.take(i + 1) =~= wanted.take(i as int).push(wanted[i as int]));
        i += 1;
    }
    assert(wanted.take(i as int) =~= wanted);
    *entries = rows;
}

/// How many panes are asked for their application at most.
pub const MAX_ENRICH_CANDIDATES: usize = 32;

/// The rows whose application is worth asking for: the shown ones, or all of
/// them where none is shown, each once, up to a limit.
pub open spec fn candidates(by: Ranking, entries: Seq<EntryModel>, visible: Seq<int>) -> Seq<int> {
    let ranked = if visible.len() == 0 {
        (Ranking { query: Seq::empty(), ..by }).filtered(entries)
    } else {
        visible
    };
    lists::at_most_first(lists::distinct(ranked), MAX_ENRICH_CANDIDATES as nat)
}

/// The first places of a list, each once, up to a limit.
fn first_places(ranked: &[usize], limit: usize) -> (places: Vec<usize>)
    ensures
        order::positions(places@) == lists::at_most_first(
            lists::distinct(order::positions(ranked@)),
            limit as nat,
        ),
        forall|i: int| 0 <= i < places@.len() ==> ranked@.contains(#[trigger] places@[i]),
        places@.len() <= limit,
{
    let ghost all = order::positions(ranked@);
    let mut places: Vec<usize> = Vec::new();
    let mut i: usize = 0;
    assert(order::positions(places@) =~= lists::distinct(all.take(0)));
    while i < ranked.len() && places.len() < limit
        invariant
            i <= ranked@.len(),
            places@.len() <= limit,
            all == order::positions(ranked@),
            order::positions(places@) == lists::distinct(all.take(i as int)),
            forall|k: int| 0 <= k < places@.len() ==> ranked@.contains(#[trigger] places@[k]),
        decreases ranked@.len() - i,
    {
        let ghost before = order::positions(places@);
        proof {
            assert(all.take(i + 1).drop_last() =~= all.take(i as int));
            assert(all.take(i + 1).last() == ranked@[i as int] as int);
        }
        let mut known: bool = false;
        let mut k: usize = 0;
        while k < places.len() && !known
            invariant
                k <= places@.len(),
                i < ranked@.len(),
                before == order::positions(places@),
                known ==> before.contains(ranked@[i as int] as int),
                !known ==> forall|m: int|
                    0 <= m < k ==> before[m] != ranked@[i as int] as int,
            decreases places@.len() - k, if known {
                    0int
                } else {
                    1int
                },
        {
            assert(before[k as int] == places@[k as int] as int);
            if places[k] == ranked[i] {
                known = true;
            } else {
                k += 1;
            }
        }
        if !known {
            assert(!before.contains(ranked@[i as int] as int));
            places.push(ranked[i]);
            assert(ranked@.contains(ranked@[i as int]));
            assert(order::positions(places@) =~= before.push(ranked@[i as int] as int));
        }
        i += 1;
    }
    proof {
        if i == ranked@.len() {
            assert(all.take(i as int) =~= all);
        } else {
            lists::lemma_distinct_grows(all, i as int);
            assert(order::positions(places@) =~= lists::distinct(all).take(limit as int));
        }
    }
    places
}

/// Choose the rows whose application is worth asking for.
pub fn enrichment_candidates(
    entries: &[PaneEntry],
    visible: &[usize],
    recency: &[PaneIdentity],
    current: Option<(&str, Option<&str>)>,
    matcher: &mut FuzzyMatcher,
) -> (chosen: Vec<usize>)
    ensures
        forall|by: Ranking|
            by.recency == text::views(recency@) && by.current == current_view(current)
                ==> order::positions(chosen@) == #[trigger] candidates(
                by,
                text::views(entries@),
                order::positions(visible@),
            ),
        chosen@.len() <= MAX_ENRICH_CANDIDATES,
{
    proof {
        reveal_strlit("");
        assert(""@ =~= Seq::<char>::empty());
    }
    if visible.len() == 0 {
        let ranked = filter(entries, "", matcher, recency, current);
        first_places(ranked.as_slice(), MAX_ENRICH_CANDIDATES)
    } else {
        first_places(visible, MAX_ENRICH_CANDIDATES)
    }
}

} // verus!
