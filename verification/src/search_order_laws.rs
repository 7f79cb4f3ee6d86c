//! What a search of the picker's rows finds, and in which order it shows it.

use vstd::prelude::*;
use crate::fuzzy;
use crate::model::{AgentState, KindModel, RowModel};
use crate::order;
use crate::order::Ranked;
use crate::search;
use crate::search::{Group, GroupModel, Hit};
use crate::search_laws;
use crate::text;

verus! {

/// Short ASCII queries are scored by the matcher on every text of a usual size,
/// unless it holds the long s.
pub proof fn usual_texts_are_scored(query: Seq<char>, value: Seq<char>)
    requires
        query.len() <= 1_000,
        value.len() <= 100_000,
        forall|i: int| 0 <= i < query.len() ==> #[trigger] query[i] < '\u{80}',
        !value.contains('\u{17f}'),
    ensures
        fuzzy::field_score(query, value) == fuzzy::fuzzy_score(query, value),
{
    assert(value.len() * query.len() <= 100_000 * 1_000) by (nonlinear_arith)
        requires
            query.len() <= 1_000,
            value.len() <= 100_000,
    ;
    assert forall|n: nat| n <= query.len() implies #[trigger] fuzzy::word_size(query, n) <= 2 * n by {
        lemma_word_size(query, n);
    }
    assert forall|i: int| 0 <= i < value.len() implies !fuzzy::meets_late_folding(
        query,
        #[trigger] value[i],
    ) by {
        if fuzzy::meets_late_folding(query, value[i]) {
            let j = choose|j: int|
                0 <= j < query.len() && fuzzy::folds_late(value[i], #[trigger] query[j]);
            lemma_ascii_target(value[i], query[j]);
            assert(value.contains(value[i]));
        }
    }
}

proof fn lemma_ascii_target(c: char, to: char)
    requires
        to < '\u{80}',
        fuzzy::folds_late(c, to),
    ensures
        c == '\u{17f}',
{
}

proof fn lemma_word_size(query: Seq<char>, n: nat)
    requires
        n <= query.len(),
    ensures
        fuzzy::word_size(query, n) <= 2 * n,
    decreases n,
{
    if n > 0 {
        lemma_word_size(query, (n - 1) as nat);
    }
}

/// What has been offered is known, unless it is empty.
pub proof fn lemma_collected(offered: Seq<Seq<char>>)
    ensures
        forall|value: Seq<char>| #[trigger]
            search::collected(offered).contains(value) <==> offered.contains(value) && value.len()
                > 0,
    decreases offered.len(),
{
    let known = search::collected(offered);
    if offered.len() > 0 {
        let front = offered.drop_last();
        let before = search::collected(front);
        lemma_collected(front);
        assert forall|value: Seq<char>| #[trigger] known.contains(value) <==> offered.contains(
            value,
        ) && value.len() > 0 by {
            if known.contains(value) {
                let i = choose|i: int| 0 <= i < known.len() && known[i] == value;
                if i < before.len() {
                    assert(before[i] == value);
                    assert(before.contains(value));
                    let k = choose|k: int| 0 <= k < front.len() && front[k] == value;
                    assert(offered[k] == value);
                } else {
                    assert(offered[offered.len() - 1] == value);
                }
            }
            if offered.contains(value) && value.len() > 0 {
                let k = choose|k: int| 0 <= k < offered.len() && offered[k] == value;
                if k < front.len() {
                    assert(front[k] == value);
                    assert(before.contains(value));
                }
                if before.contains(value) {
                    let i = choose|i: int| 0 <= i < before.len() && before[i] == value;
                    assert(known[i] == value);
                } else {
                    assert(known[known.len() - 1] == value);
                }
            }
        }
    }
}

/// A text is among two lists joined when it is in one of them.
proof fn lemma_in_joined(a: Seq<Seq<char>>, b: Seq<Seq<char>>, value: Seq<char>)
    ensures
        (a + b).contains(value) <==> a.contains(value) || b.contains(value),
{
    if a.contains(value) {
        let i = choose|i: int| 0 <= i < a.len() && a[i] == value;
        assert((a + b)[i] == value);
    }
    if b.contains(value) {
        let i = choose|i: int| 0 <= i < b.len() && b[i] == value;
        assert((a + b)[a.len() + i] == value);
    }
    if (a + b).contains(value) {
        let i = choose|i: int| 0 <= i < (a + b).len() && (a + b)[i] == value;
        if i < a.len() {
            assert(a[i] == value);
        } else {
            assert(b[i - a.len()] == value);
        }
    }
}

proof fn lemma_in_one(item: Seq<char>, value: Seq<char>)
    ensures
        seq![item].contains(value) <==> item == value,
        search::listed(Some(item)).contains(value) <==> item == value,
        !search::listed(None).contains(value),
{
    assert(seq![item][0] == item);
    assert(search::listed(Some(item)) =~= seq![item]);
}

/// A row is searched by its name, by what is shown beside it, by the label and the
/// disambiguator of its space, and, where it is live, by its directory, its state,
/// its agent and what it is known by to Herdr; a workspace by the names of its
/// panes too. Nothing else finds it.
pub proof fn rows_are_searched_by_their_texts(row: RowModel, value: Seq<char>)
    ensures
        search::document(row).contains(value) <==> value.len() > 0 && {
            ||| value == row.name
            ||| value == row.display
            ||| row.space is Some && value == row.space->0.label
            ||| row.space is Some && row.space->0.disambiguator == Some(value)
            ||| row.kind !is Dormant && value == row.path
            ||| match row.kind {
                KindModel::Open { state, agent, .. } => value == state.name() || agent == Some(
                    value,
                ) || row.pane_names.contains(value),
                KindModel::Tab { state, agent, tab_id, .. } => value == state.name() || agent
                    == Some(value) || value == tab_id,
                KindModel::Pane { state, agent, pane_id, tab_id, .. } => value == state.name()
                    || agent == Some(value) || value == pane_id || tab_id == Some(value),
                KindModel::Dormant => false,
            }
        },
{
    lemma_collected(search::offered(row));
    let head = seq![row.name, row.display];
    let space = match row.space {
        Some(space) => seq![space.label] + search::listed(space.disambiguator),
        None => Seq::empty(),
    };
    let kind = search::offered_by_kind(row.path, row.pane_names, row.kind);
    assert(head.contains(value) <==> value == row.name || value == row.display) by {
        assert(head[0] == row.name && head[1] == row.display);
    }
    lemma_in_joined(head, space, value);
    lemma_in_joined(head + space, kind, value);
    if let Some(space) = row.space {
        lemma_in_joined(seq![space.label], search::listed(space.disambiguator), value);
        lemma_in_one(space.label, value);
        if let Some(disambiguator) = space.disambiguator {
            lemma_in_one(disambiguator, value);
        }
    }
    lemma_in_one(row.path, value);
    let path = seq![row.path];
    match row.kind {
        KindModel::Open { state, agent, .. } => {
            lemma_in_one(state.name(), value);
            if let Some(agent) = agent {
                lemma_in_one(agent, value);
            }
            let word = seq![state.name()];
            lemma_in_joined(path, word, value);
            lemma_in_joined(path + word, search::listed(agent), value);
            lemma_in_joined(path + word + search::listed(agent), row.pane_names, value);
        },
        KindModel::Tab { state, agent, tab_id, .. } => {
            lemma_in_one(state.name(), value);
            lemma_in_one(tab_id, value);
            if let Some(agent) = agent {
                lemma_in_one(agent, value);
            }
            let word = seq![state.name()];
            let id = seq![tab_id];
            lemma_in_joined(path, id, value);
            lemma_in_joined(path + id, word, value);
            lemma_in_joined(path + id + word, search::listed(agent), value);
        },
        KindModel::Pane { state, agent, pane_id, tab_id, .. } => {
            lemma_in_one(state.name(), value);
            lemma_in_one(pane_id, value);
            if let Some(agent) = agent {
                lemma_in_one(agent, value);
            }
            if let Some(tab_id) = tab_id {
                lemma_in_one(tab_id, value);
            }
            let word = seq![state.name()];
            let id = seq![pane_id];
            let tab = search::listed(tab_id);
            lemma_in_joined(path, id, value);
            lemma_in_joined(path + id, tab, value);
            lemma_in_joined(path + id + tab, word, value);
            lemma_in_joined(path + id + tab + word, search::listed(agent), value);
        },
        KindModel::Dormant => {},
    }
}

/// The words that stand for states can be typed to find them.
pub proof fn states_are_searched_by_their_words(row: RowModel, state: AgentState)
    requires
        match row.kind {
            KindModel::Open { state: own, .. } => own == state,
            KindModel::Tab { state: own, .. } => own == state,
            KindModel::Pane { state: own, .. } => own == state,
            KindModel::Dormant => false,
        },
    ensures
        search::document(row).contains(
            match state {
                AgentState::Blocked => "blocked"@,
                AgentState::Working => "working"@,
                AgentState::Done => "done"@,
                AgentState::Idle => "idle"@,
                AgentState::Unknown => "unknown"@,
            },
        ),
{
    reveal_strlit("blocked");
    reveal_strlit("working");
    reveal_strlit("done");
    reveal_strlit("idle");
    reveal_strlit("unknown");
    rows_are_searched_by_their_texts(row, state.name());
}

/// The score of a row is the best that any one of its texts has: no text has more,
/// and some text has as much. Without a query every row matches alike.
pub proof fn row_score_is_the_best_text(query: Seq<char>, row: RowModel)
    ensures
        query.len() == 0 ==> search::row_score(query, row) == Some(0u32),
        query.len() > 0 ==> forall|value: Seq<char>| #[trigger]
            search::document(row).contains(value) && fuzzy::field_score(query, value) is Some ==> {
                &&& search::row_score(query, row) is Some
                &&& search::row_score(query, row)->0 >= fuzzy::field_score(query, value)->0
            },
        query.len() > 0 && search::row_score(query, row) is Some ==> exists|value: Seq<char>|
            #[trigger] search::document(row).contains(value) && fuzzy::field_score(query, value)
                == search::row_score(query, row),
{
    let fields = search::document(row);
    if query.len() > 0 {
        lemma_best_score(query, fields);
    }
}

/// The best score of fields is that of one of them, and no other has more.
pub proof fn lemma_best_score(query: Seq<char>, fields: Seq<Seq<char>>)
    ensures
        forall|value: Seq<char>| #[trigger]
            fields.contains(value) && fuzzy::field_score(query, value) is Some ==> {
                &&& search::best_score(query, fields) is Some
                &&& search::best_score(query, fields)->0 >= fuzzy::field_score(query, value)->0
            },
        search::best_score(query, fields) is Some ==> exists|value: Seq<char>| #[trigger]
            fields.contains(value) && fuzzy::field_score(query, value) == search::best_score(
                query,
                fields,
            ),
{
    assert forall|value: Seq<char>| #[trigger]
        fields.contains(value) && fuzzy::field_score(query, value) is Some implies {
        &&& search::best_score(query, fields) is Some
        &&& search::best_score(query, fields)->0 >= fuzzy::field_score(query, value)->0
    } by {
        let i = choose|i: int| 0 <= i < fields.len() && fields[i] == value;
        search_laws::best_field_counts(query, fields, i);
        search_laws::matches_never_cross_fields(query, fields);
    }
    lemma_best_is_reached(query, fields);
}

proof fn lemma_best_is_reached(query: Seq<char>, fields: Seq<Seq<char>>)
    ensures
        search::best_score(query, fields) is Some ==> exists|value: Seq<char>| #[trigger]
            fields.contains(value) && fuzzy::field_score(query, value) == search::best_score(
                query,
                fields,
            ),
    decreases fields.len(),
{
    if fields.len() > 0 {
        let front = fields.drop_last();
        lemma_best_is_reached(query, front);
        let best = search::best_score(query, fields);
        if best is Some {
            if fuzzy::field_score(query, fields.last()) == best {
                assert(fields[fields.len() - 1] == fields.last());
                assert(fields.contains(fields.last()));
            } else {
                let value = choose|value: Seq<char>| #[trigger]
                    front.contains(value) && fuzzy::field_score(query, value)
                        == search::best_score(query, front);
                let k = choose|k: int| 0 <= k < front.len() && front[k] == value;
                assert(fields[k] == value);
                assert(fields.contains(value));
            }
        }
    }
}

/// Where a section begins among the places shown.
spec fn offset(rows: Seq<RowModel>, query: Seq<char>, section: u8) -> int {
    let a = search::section_places(rows, query, 0).len();
    let b = search::section_places(rows, query, 1).len();
    let c = search::section_places(rows, query, 2).len();
    if section == 0 {
        0
    } else if section == 1 {
        a as int
    } else if section == 2 {
        (a + b) as int
    } else {
        (a + b + c) as int
    }
}

/// Each place shown stands in its section.
proof fn lemma_in_section(rows: Seq<RowModel>, query: Seq<char>, i: int, section: u8)
    requires
        rows.len() <= usize::MAX,
        0 <= i < search::filtered(rows, query).len(),
        rows[search::filtered(rows, query)[i]].kind.section() == section,
    ensures
        0 <= search::filtered(rows, query)[i] < rows.len(),
        search::row_score(query, rows[search::filtered(rows, query)[i]]) is Some,
        ({
            let own = search::section_places(rows, query, section);
            let from = offset(rows, query, section);
            &&& from <= i < from + own.len()
            &&& own[i - from] == search::filtered(rows, query)[i]
            &&& from + own.len() <= search::filtered(rows, query).len()
            &&& forall|k: int| 0 <= k < own.len() ==> #[trigger] own[k] == search::filtered(
                rows,
                query,
            )[from + k]
        }),
{
    let a = search::section_places(rows, query, 0);
    let b = search::section_places(rows, query, 1);
    let c = search::section_places(rows, query, 2);
    let d = search::section_places(rows, query, 3);
    let all = search::filtered(rows, query);
    assert(all == a + b + c + d);
    search_laws::search_shows_each_match_once(rows, query);
    assert(all.contains(all[i]));
    search_laws::lemma_section_places(rows, query, 0);
    search_laws::lemma_section_places(rows, query, 1);
    search_laws::lemma_section_places(rows, query, 2);
    search_laws::lemma_section_places(rows, query, 3);
    if i < a.len() {
        assert(a.contains(a[i]));
    } else if i < a.len() + b.len() {
        assert(b.contains(b[i - a.len()]));
    } else if i < a.len() + b.len() + c.len() {
        assert(c.contains(c[i - a.len() - b.len()]));
    } else {
        assert(d.contains(d[i - a.len() - b.len() - c.len()]));
    }
}

/// Whether one place ranks before another: by score, then by place.
spec fn ranks_before(rows: Seq<RowModel>, query: Seq<char>, a: int, b: int) -> bool {
    let x = search::row_score(query, rows[a])->0;
    let y = search::row_score(query, rows[b])->0;
    x > y || (x == y && a < b)
}

/// The ranked places of a section come in the order of their ranks.
proof fn lemma_ranked(rows: Seq<RowModel>, query: Seq<char>, section: u8, i: int, j: int)
    requires
        rows.len() <= usize::MAX,
        0 <= i < j < search::ranked_places(
            search::hits(rows, query, section, rows.len()),
        ).len(),
    ensures
        ({
            let places = search::ranked_places(search::hits(rows, query, section, rows.len()));
            ranks_before(rows, query, places[i], places[j])
        }),
{
    let found = search::hits(rows, query, section, rows.len());
    let order_of = order::ordered::<Hit>(found);
    search_laws::lemma_hits(rows, query, section, rows.len());
    order::ordering_is_a_stable_sort::<Hit>(found);
    assert(Hit::precedes(found[order_of[i]], found[order_of[j]]));
    assert(order_of[i] != order_of[j]);
    let x = found[order_of[i]];
    let y = found[order_of[j]];
    assert(search::row_score(query, rows[x.index as int]) == Some(x.score));
    assert(search::row_score(query, rows[y.index as int]) == Some(y.score));
    if order_of[i] < order_of[j] {
        assert(x.index < y.index);
    } else {
        assert(y.index < x.index);
    }
}

/// The unranked places of a section come as they stand.
proof fn lemma_unranked(rows: Seq<RowModel>, query: Seq<char>, section: u8, i: int, j: int)
    requires
        rows.len() <= usize::MAX,
        0 <= i < j < search::places_of(search::hits(rows, query, section, rows.len())).len(),
    ensures
        search::places_of(search::hits(rows, query, section, rows.len()))[i] < search::places_of(
            search::hits(rows, query, section, rows.len()),
        )[j],
{
    let found = search::hits(rows, query, section, rows.len());
    search_laws::lemma_hits(rows, query, section, rows.len());
    assert(found[i].index < found[j].index);
}

/// A search shows the best matches of live workspaces first, and those of projects
/// too; of equal matches the one listed first comes first.
pub proof fn best_matches_come_first(rows: Seq<RowModel>, query: Seq<char>, i: int, j: int)
    requires
        rows.len() <= usize::MAX,
        query.len() > 0,
        0 <= i < j < search::filtered(rows, query).len(),
        ({
            let a = rows[search::filtered(rows, query)[i]];
            let b = rows[search::filtered(rows, query)[j]];
            (a.kind is Open && b.kind is Open) || (a.kind is Dormant && b.kind is Dormant)
        }),
    ensures
        ({
            let a = search::filtered(rows, query)[i];
            let b = search::filtered(rows, query)[j];
            let x = search::row_score(query, rows[a]);
            let y = search::row_score(query, rows[b]);
            &&& x is Some && y is Some
            &&& x->0 >= y->0
            &&& x->0 == y->0 ==> a < b
        }),
{
    let section = rows[search::filtered(rows, query)[i]].kind.section();
    lemma_in_section(rows, query, i, section);
    lemma_in_section(rows, query, j, section);
    let from = offset(rows, query, section);
    lemma_ranked(rows, query, section, i - from, j - from);
}

/// Without a query live workspaces and projects come as they are listed.
pub proof fn without_a_query_rows_stay_in_order(rows: Seq<RowModel>, i: int, j: int)
    requires
        rows.len() <= usize::MAX,
        0 <= i < j < search::filtered(rows, Seq::empty()).len(),
        ({
            let a = rows[search::filtered(rows, Seq::empty())[i]];
            let b = rows[search::filtered(rows, Seq::empty())[j]];
            (a.kind is Open && b.kind is Open) || (a.kind is Dormant && b.kind is Dormant)
        }),
    ensures
        search::filtered(rows, Seq::empty())[i] < search::filtered(rows, Seq::empty())[j],
{
    let query = Seq::<char>::empty();
    let section = rows[search::filtered(rows, query)[i]].kind.section();
    lemma_in_section(rows, query, i, section);
    lemma_in_section(rows, query, j, section);
    let from = offset(rows, query, section);
    lemma_unranked(rows, query, section, i - from, j - from);
}

/// Whether groups hold places in the order of a list: within each group, and by
/// the first of each group.
spec fn in_list_order(groups: Seq<GroupModel>, places: Seq<int>, n: nat) -> bool {
    &&& forall|g: int| 0 <= g < groups.len() ==> (#[trigger] groups[g]).members.len() > 0
    &&& forall|g: int, m: int|
        0 <= g < groups.len() && 0 <= m < groups[g].members.len() ==> {
            let at = text::position(places, #[trigger] groups[g].members[m]);
            at is Some && 0 <= at->0 < n
        }
    &&& forall|g: int, l: int, m: int|
        0 <= g < groups.len() && 0 <= l < m < groups[g].members.len() ==> text::position(
            places,
            #[trigger] groups[g].members[l],
        )->0 < text::position(places, #[trigger] groups[g].members[m])->0
    &&& forall|g: int, h: int|
        0 <= g < h < groups.len() ==> text::position(
            places,
            (#[trigger] groups[g]).members[0],
        )->0 < text::position(places, (#[trigger] groups[h]).members[0])->0
    &&& forall|g: int|
        0 <= g < groups.len() && (#[trigger] groups[g]).key is None ==> groups[g].members.len() == 1
}

proof fn lemma_groups_in_list_order(rows: Seq<RowModel>, places: Seq<int>, n: nat)
    requires
        n <= places.len(),
        places.no_duplicates(),
    ensures
        in_list_order(search::groups_of(rows, places, n), places, n),
    decreases n,
{
    if n > 0 {
        let m = (n - 1) as nat;
        let before = search::groups_of(rows, places, m);
        let after = search::groups_of(rows, places, n);
        let place = places[n - 1];
        let key = search::group_key(rows[place]);
        let keys = search::keys_of(before);
        lemma_groups_in_list_order(rows, places, m);
        text::position_is_the_first(places, place);
        assert(places.contains(place));
        assert(text::position(places, place) == Some(n - 1));
        text::position_is_the_first(keys, key);
        if key is Some && text::position(keys, key) is Some {
            let g = text::position(keys, key)->0;
            assert(keys[g] == before[g].key);
            assert(after[g].members =~= before[g].members.push(place));
            assert(forall|h: int| 0 <= h < before.len() && h != g ==> after[h] == before[h]);
            assert forall|h: int| 0 <= h < after.len() implies (#[trigger] after[h]).members[0]
                == before[h].members[0] by {
                assert(before[h].members.len() > 0);
            }
        } else {
            assert(after =~= before.push(GroupModel { key, members: seq![place] }));
        }
    }
}

/// Where a group begins among the members shown.
spec fn group_start(groups: Seq<GroupModel>, g: int) -> int {
    search::flat(groups.take(g)).len() as int
}

/// The group and the place in it of a shown position.
proof fn lemma_flat_at(groups: Seq<GroupModel>, at: int) -> (found: (int, int))
    requires
        0 <= at < search::flat(groups).len(),
    ensures
        0 <= found.0 < groups.len(),
        0 <= found.1 < groups[found.0].members.len(),
        at == group_start(groups, found.0) + found.1,
        search::flat(groups)[at] == groups[found.0].members[found.1],
    decreases groups.len(),
{
    let front = groups.drop_last();
    let last = groups.len() - 1;
    assert(groups.take(last) =~= front);
    let size = search::flat(front).len();
    if at >= size {
        (last, at - size)
    } else {
        let found = lemma_flat_at(front, at);
        assert(front.take(found.0) =~= groups.take(found.0));
        assert(front[found.0] == groups[found.0]);
        found
    }
}

/// Groups begin after those before them.
proof fn lemma_group_starts(groups: Seq<GroupModel>, g: int, h: int)
    requires
        0 <= g < h <= groups.len(),
    ensures
        group_start(groups, g) + groups[g].members.len() <= group_start(groups, h),
    decreases h,
{
    assert(groups.take(h).drop_last() =~= groups.take(h - 1));
    assert(groups.take(h).last() == groups[h - 1]);
    if g < h - 1 {
        lemma_group_starts(groups, g, h - 1);
    }
}

/// A member stands where its group says.
proof fn lemma_flat_of(groups: Seq<GroupModel>, g: int, m: int)
    requires
        0 <= g < groups.len(),
        0 <= m < groups[g].members.len(),
    ensures
        0 <= group_start(groups, g) + m < search::flat(groups).len(),
        search::flat(groups)[group_start(groups, g) + m] == groups[g].members[m],
    decreases groups.len(),
{
    let front = groups.drop_last();
    let last = groups.len() - 1;
    assert(groups.take(last) =~= front);
    if g < last {
        lemma_flat_of(front, g, m);
        assert(front.take(g) =~= groups.take(g));
    }
}

/// Whether two rows are of one space.
pub open spec fn same_space(a: RowModel, b: RowModel) -> bool {
    &&& a.space is Some && b.space is Some
    &&& a.space->0.label == b.space->0.label
    &&& a.space->0.disambiguator == b.space->0.disambiguator
}

/// The places that the tabs or panes of a search are grouped from.
spec fn ungrouped(rows: Seq<RowModel>, query: Seq<char>, section: u8) -> Seq<int> {
    let found = search::hits(rows, query, section, rows.len());
    if query.len() > 0 {
        search::ranked_places(found)
    } else {
        search::places_of(found)
    }
}

/// No place is listed twice before places are grouped.
proof fn lemma_ungrouped(rows: Seq<RowModel>, query: Seq<char>, section: u8)
    requires
        rows.len() <= usize::MAX,
        section == 1 || section == 2,
    ensures
        ungrouped(rows, query, section).no_duplicates(),
        search::section_places(rows, query, section) == search::grouped(
            rows,
            ungrouped(rows, query, section),
            query.len() == 0,
        ),
{
    let places = ungrouped(rows, query, section);
    assert forall|i: int, j: int|
        0 <= i < places.len() && 0 <= j < places.len() && i != j implies places[i] != places[j] by {
        if query.len() > 0 {
            if i < j {
                lemma_ranked(rows, query, section, i, j);
            } else {
                lemma_ranked(rows, query, section, j, i);
            }
        } else {
            if i < j {
                lemma_unranked(rows, query, section, i, j);
            } else {
                lemma_unranked(rows, query, section, j, i);
            }
        }
    }
}

/// Places of a list have the positions at which they stand.
proof fn lemma_position_of(places: Seq<int>, place: int)
    requires
        text::position(places, place) is Some,
    ensures
        0 <= text::position(places, place)->0 < places.len(),
        places[text::position(places, place)->0] == place,
{
    text::position_is_the_first(places, place);
}

/// Two places of a search in one section of tabs or panes, by their groups.
proof fn lemma_groups_of_two(
    rows: Seq<RowModel>,
    query: Seq<char>,
    i: int,
    j: int,
    section: u8,
) -> (at: (int, int, int, int))
    requires
        rows.len() <= usize::MAX,
        section == 1 || section == 2,
        query.len() > 0,
        0 <= i < j < search::filtered(rows, query).len(),
        rows[search::filtered(rows, query)[i]].kind.section() == section,
        rows[search::filtered(rows, query)[j]].kind.section() == section,
    ensures
        ({
            let places = ungrouped(rows, query, section);
            let groups = search::groups_of(rows, places, places.len());
            let (g, m, h, l) = at;
            &&& 0 <= g <= h < groups.len()
            &&& 0 <= m < groups[g].members.len()
            &&& 0 <= l < groups[h].members.len()
            &&& g < h || m < l
            &&& groups[g].members[m] == search::filtered(rows, query)[i]
            &&& groups[h].members[l] == search::filtered(rows, query)[j]
            &&& groups[g].key == search::group_key(rows[search::filtered(rows, query)[i]])
            &&& groups[h].key == search::group_key(rows[search::filtered(rows, query)[j]])
            &&& m > 0 ==> exists|k: int|
                0 <= k < i && #[trigger] search::filtered(rows, query)[k] == groups[g].members[0]
                    && rows[search::filtered(rows, query)[k]].kind.section() == section
        }),
{
    let places = ungrouped(rows, query, section);
    let groups = search::groups_of(rows, places, places.len());
    let from = offset(rows, query, section);
    let all = search::filtered(rows, query);
    lemma_ungrouped(rows, query, section);
    lemma_in_section(rows, query, i, section);
    lemma_in_section(rows, query, j, section);
    search_laws::lemma_groups_sound(rows, places, places.len());
    let own = search::section_places(rows, query, section);
    assert(own == search::flat(groups));
    let (g, m) = lemma_flat_at(groups, i - from);
    let (h, l) = lemma_flat_at(groups, j - from);
    if h < g {
        lemma_group_starts(groups, h, g);
    }
    if g < h {
        lemma_group_starts(groups, g, h);
    }
    assert(groups[g].members.contains(groups[g].members[m]));
    assert(groups[h].members.contains(groups[h].members[l]));
    if m > 0 {
        lemma_flat_of(groups, g, 0);
        let k = from + group_start(groups, g);
        assert(own[group_start(groups, g)] == all[k]);
        search_laws::lemma_section_places(rows, query, section);
        assert(own.contains(own[group_start(groups, g)]));
        assert(all[k] == groups[g].members[0]);
    }
    (g, m, h, l)
}

/// Tabs, and renamed panes, of one space come best match first; of equal matches
/// the one listed first comes first.
pub proof fn best_matches_of_a_space_come_first(
    rows: Seq<RowModel>,
    query: Seq<char>,
    i: int,
    j: int,
)
    requires
        rows.len() <= usize::MAX,
        query.len() > 0,
        0 <= i < j < search::filtered(rows, query).len(),
        ({
            let a = rows[search::filtered(rows, query)[i]];
            let b = rows[search::filtered(rows, query)[j]];
            &&& (a.kind is Tab && b.kind is Tab) || (a.kind is Pane && b.kind is Pane)
            &&& same_space(a, b)
        }),
    ensures
        ({
            let a = search::filtered(rows, query)[i];
            let b = search::filtered(rows, query)[j];
            let x = search::row_score(query, rows[a])->0;
            let y = search::row_score(query, rows[b])->0;
            x > y || (x == y && a < b)
        }),
{
    let section = rows[search::filtered(rows, query)[i]].kind.section();
    let places = ungrouped(rows, query, section);
    let groups = search::groups_of(rows, places, places.len());
    let (g, m, h, l) = lemma_groups_of_two(rows, query, i, j, section);
    lemma_ungrouped(rows, query, section);
    lemma_groups_in_list_order(rows, places, places.len());
    search_laws::lemma_groups_sound(rows, places, places.len());
    assert(groups[g].key == groups[h].key);
    assert(g == h);
    lemma_position_of(places, groups[g].members[m]);
    lemma_position_of(places, groups[h].members[l]);
    lemma_ranked(
        rows,
        query,
        section,
        text::position(places, groups[g].members[m])->0,
        text::position(places, groups[h].members[l])->0,
    );
}

/// Spaces come by their best matches: the first tab, or renamed pane, shown of a
/// space matches no worse than any that is shown after it, and so does one without
/// a space; of equal matches the one listed first comes first.
pub proof fn spaces_come_by_their_best_match(
    rows: Seq<RowModel>,
    query: Seq<char>,
    i: int,
    j: int,
)
    requires
        rows.len() <= usize::MAX,
        query.len() > 0,
        0 <= i < j < search::filtered(rows, query).len(),
        ({
            let a = rows[search::filtered(rows, query)[i]];
            let b = rows[search::filtered(rows, query)[j]];
            &&& (a.kind is Tab && b.kind is Tab) || (a.kind is Pane && b.kind is Pane)
            &&& forall|k: int|
                0 <= k < i && rows[#[trigger] search::filtered(rows, query)[k]].kind.section()
                    == a.kind.section() ==> !same_space(
                    rows[search::filtered(rows, query)[k]],
                    a,
                )
        }),
    ensures
        ({
            let a = search::filtered(rows, query)[i];
            let b = search::filtered(rows, query)[j];
            let x = search::row_score(query, rows[a])->0;
            let y = search::row_score(query, rows[b])->0;
            x > y || (x == y && a < b)
        }),
{
    let section = rows[search::filtered(rows, query)[i]].kind.section();
    let places = ungrouped(rows, query, section);
    let groups = search::groups_of(rows, places, places.len());
    let (g, m, h, l) = lemma_groups_of_two(rows, query, i, j, section);
    lemma_ungrouped(rows, query, section);
    lemma_groups_in_list_order(rows, places, places.len());
    search_laws::lemma_groups_sound(rows, places, places.len());
    if m > 0 {
        assert(groups[g].key is Some);
        let k = choose|k: int|
            0 <= k < i && #[trigger] search::filtered(rows, query)[k] == groups[g].members[0]
                && rows[search::filtered(rows, query)[k]].kind.section() == section;
        assert(groups[g].members.contains(groups[g].members[0]));
        assert(same_space(
            rows[search::filtered(rows, query)[k]],
            rows[search::filtered(rows, query)[i]],
        ));
    }
    let a = groups[g].members[0];
    let b = groups[h].members[l];
    lemma_position_of(places, a);
    lemma_position_of(places, b);
    assert(l > 0 ==> text::position(places, groups[h].members[0])->0 < text::position(
        places,
        b,
    )->0);
    lemma_ranked(
        rows,
        query,
        section,
        text::position(places, a)->0,
        text::position(places, b)->0,
    );
}

/// Nothing comes between two tabs, or two renamed panes, of one space.
pub proof fn spaces_stand_together(rows: Seq<RowModel>, query: Seq<char>, i: int, j: int, k: int)
    requires
        rows.len() <= usize::MAX,
        0 <= i <= j <= k < search::filtered(rows, query).len(),
        ({
            let a = rows[search::filtered(rows, query)[i]];
            let b = rows[search::filtered(rows, query)[k]];
            &&& (a.kind is Tab && b.kind is Tab) || (a.kind is Pane && b.kind is Pane)
            &&& same_space(a, b)
        }),
    ensures
        same_space(
            rows[search::filtered(rows, query)[i]],
            rows[search::filtered(rows, query)[j]],
        ),
        rows[search::filtered(rows, query)[j]].kind.section() == rows[search::filtered(
            rows,
            query,
        )[i]].kind.section(),
{
    let section = rows[search::filtered(rows, query)[i]].kind.section();
    let from = offset(rows, query, section);
    if i < j {
        search_laws::search_keeps_sections_in_order(rows, query, i, j);
    }
    if j < k {
        search_laws::search_keeps_sections_in_order(rows, query, j, k);
    }
    lemma_in_section(rows, query, i, section);
    lemma_in_section(rows, query, j, section);
    lemma_in_section(rows, query, k, section);
    lemma_ungrouped(rows, query, section);
    search_laws::rows_of_a_space_stand_together(
        rows,
        ungrouped(rows, query, section),
        query.len() == 0,
        i - from,
        j - from,
        k - from,
    );
}

/// Without a query tabs, and renamed panes, come by the labels of their spaces, then
/// by what tells these apart, none first; those of one space, and those without a
/// space, which come last, stay in the order in which they are listed.
pub proof fn without_a_query_spaces_come_by_label(rows: Seq<RowModel>, i: int, j: int)
    requires
        rows.len() <= usize::MAX,
        0 <= i < j < search::filtered(rows, Seq::empty()).len(),
        ({
            let a = rows[search::filtered(rows, Seq::empty())[i]];
            let b = rows[search::filtered(rows, Seq::empty())[j]];
            (a.kind is Tab && b.kind is Tab) || (a.kind is Pane && b.kind is Pane)
        }),
    ensures
        ({
            let a = search::filtered(rows, Seq::empty())[i];
            let b = search::filtered(rows, Seq::empty())[j];
            let x = rows[a].space;
            let y = rows[b].space;
            &&& x is None ==> y is None && a < b
            &&& x is Some && y is Some ==> text::at_most(x->0.label, y->0.label)
            &&& x is Some && y is Some && x->0.label == y->0.label
                && x->0.disambiguator is Some ==> y->0.disambiguator is Some && text::at_most(
                x->0.disambiguator->0,
                y->0.disambiguator->0,
            )
            &&& same_space(rows[a], rows[b]) ==> a < b
        }),
{
    let query = Seq::<char>::empty();
    let all = search::filtered(rows, query);
    let section = rows[all[i]].kind.section();
    let places = ungrouped(rows, query, section);
    let found = search::groups_of(rows, places, places.len());
    let order_of = order::ordered::<Group>(found);
    let groups = order::arranged(found, order_of);
    let from = offset(rows, query, section);
    lemma_ungrouped(rows, query, section);
    lemma_in_section(rows, query, i, section);
    lemma_in_section(rows, query, j, section);
    lemma_groups_in_list_order(rows, places, places.len());
    search_laws::lemma_groups_sound(rows, places, places.len());
    order::ordering_is_a_stable_sort::<Group>(found);
    let (g, m) = lemma_flat_at(groups, i - from);
    let (h, l) = lemma_flat_at(groups, j - from);
    if h < g {
        lemma_group_starts(groups, h, g);
    }
    if g < h {
        lemma_group_starts(groups, g, h);
        assert(Group::precedes(found[order_of[g]], found[order_of[h]]));
    }
    let x = found[order_of[g]];
    let y = found[order_of[h]];
    assert(x.members.contains(x.members[m]));
    assert(y.members.contains(y.members[l]));
    assert(x.key == search::group_key(rows[all[i]]));
    assert(y.key == search::group_key(rows[all[j]]));
    text::lemma_at_most_total(rows[all[i]].space->0.label, rows[all[j]].space->0.label);
    lemma_position_of(places, all[i]);
    lemma_position_of(places, all[j]);
    let p = text::position(places, all[i])->0;
    let q = text::position(places, all[j])->0;
    if g == h {
        assert(p < q);
        lemma_unranked(rows, query, section, p, q);
    } else if x.key is None && y.key is None {
        assert(order_of[g] < order_of[h]);
        assert(p < q);
        lemma_unranked(rows, query, section, p, q);
    } else if x.key is Some && x.key == y.key {
        assert(order_of[g] == order_of[h]);
    }
    if g == h && rows[all[i]].space is Some && rows[all[i]].space->0.disambiguator is Some {
        text::lemma_at_most_total(
            rows[all[i]].space->0.disambiguator->0,
            rows[all[i]].space->0.disambiguator->0,
        );
    }
}

/// Live workspaces are shown above tabs, these above renamed panes, and these above
/// projects, with or without a query.
pub proof fn sections_are_shown_in_order(rows: Seq<RowModel>, query: Seq<char>, i: int, j: int)
    requires
        rows.len() <= usize::MAX,
        0 <= i < j < search::filtered(rows, query).len(),
    ensures
        ({
            let a = rows[search::filtered(rows, query)[i]].kind;
            let b = rows[search::filtered(rows, query)[j]].kind;
            &&& b is Open ==> a is Open
            &&& b is Tab ==> a is Open || a is Tab
            &&& b is Pane ==> !(a is Dormant)
        }),
{
    search_laws::search_keeps_sections_in_order(rows, query, i, j);
}

/// A row is shown just when there is no query or some text of it matches, and then once.
pub proof fn rows_are_shown_when_they_match(rows: Seq<RowModel>, query: Seq<char>, k: int)
    requires
        rows.len() <= usize::MAX,
        0 <= k < rows.len(),
    ensures
        search::filtered(rows, query).no_duplicates(),
        query.len() == 0 ==> search::filtered(rows, query).contains(k),
        query.len() > 0 ==> (search::filtered(rows, query).contains(k) <==> exists|value: Seq<
            char,
        >| #[trigger]
            search::document(rows[k]).contains(value) && fuzzy::field_score(query, value) is Some),
{
    search_laws::search_shows_each_match_once(rows, query);
    row_score_is_the_best_text(query, rows[k]);
}

} // verus!
