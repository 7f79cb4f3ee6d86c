//! The picker: what is typed, selected and chosen, and what the screen shows.

use vstd::prelude::*;
use crate::fuzzy::FuzzyMatcher;
use crate::model::{Kind, Row, RowId, RowIdModel, RowModel};
use crate::order;
use crate::refresh::Snapshot;
use crate::search;
use crate::text;

verus! {

broadcast use crate::text::lemma_views_push;

/// What the user decided.
#[derive(Debug)]
pub enum Outcome {
    Cancel,
    Jump(Row),
    ForceNew(Row),
    Close(Row),
}

/// The view of an [`Outcome`].
#[verifier::ext_equal]
pub enum OutcomeModel {
    Cancel,
    Jump(RowModel),
    ForceNew(RowModel),
    Close(RowModel),
}

impl View for Outcome {
    type V = OutcomeModel;

    open spec fn view(&self) -> OutcomeModel {
        match self {
            Outcome::Cancel => OutcomeModel::Cancel,
            Outcome::Jump(row) => OutcomeModel::Jump(row@),
            Outcome::ForceNew(row) => OutcomeModel::ForceNew(row@),
            Outcome::Close(row) => OutcomeModel::Close(row@),
        }
    }
}

/// The rows, the query and the selection.
#[derive(Debug)]
pub struct PickerState {
    pub rows: Vec<Row>,
    pub query: String,
    /// The selected one of the rows that match.
    pub selected: usize,
}

/// The view of a [`PickerState`].
#[verifier::ext_equal]
pub struct PickerModel {
    pub rows: Seq<RowModel>,
    pub query: Seq<char>,
    pub selected: int,
}

impl View for PickerState {
    type V = PickerModel;

    open spec fn view(&self) -> PickerModel {
        PickerModel {
            rows: text::views(self.rows@),
            query: self.query@,
            selected: self.selected as int,
        }
    }
}

impl Default for PickerState {
    /// Nothing to show and nothing typed.
    fn default() -> (state: Self)
        ensures
            state@ == (PickerModel { rows: Seq::empty(), query: Seq::empty(), selected: 0 }),
    {
        let state = PickerState { rows: Vec::new(), query: String::new(), selected: 0 };
        assert(text::views(state.rows@) =~= Seq::empty());
        state
    }
}

/// The first shown row with an identity, from `i` on.
pub open spec fn place_with(
    rows: Seq<RowModel>,
    filtered: Seq<int>,
    id: RowIdModel,
    i: int,
) -> Option<int>
    decreases filtered.len() - i,
{
    if i < 0 || i >= filtered.len() {
        None
    } else if rows[filtered[i]].id().same(id) {
        Some(i)
    } else {
        place_with(rows, filtered, id, i + 1)
    }
}

/// The first shown row of a section, from `i` on.
pub open spec fn place_in_section(
    rows: Seq<RowModel>,
    filtered: Seq<int>,
    section: u8,
    i: int,
) -> Option<int>
    decreases filtered.len() - i,
{
    if i < 0 || i >= filtered.len() {
        None
    } else if rows[filtered[i]].kind.section() == section {
        Some(i)
    } else {
        place_in_section(rows, filtered, section, i + 1)
    }
}

/// The shown live workspace after `n` others, from `i` on.
pub open spec fn place_of_open(
    rows: Seq<RowModel>,
    filtered: Seq<int>,
    n: nat,
    i: int,
) -> Option<int>
    decreases filtered.len() - i,
{
    if i < 0 || i >= filtered.len() {
        None
    } else if rows[filtered[i]].kind is Open {
        if n == 0 {
            Some(i)
        } else {
            place_of_open(rows, filtered, (n - 1) as nat, i + 1)
        }
    } else {
        place_of_open(rows, filtered, n, i + 1)
    }
}

/// A position within a list of a given length, at most its last one.
pub open spec fn clamped(at: int, len: nat) -> int {
    if at < len {
        at
    } else if len > 0 {
        len - 1
    } else {
        0
    }
}

/// Whether a row with an identity is among rows.
pub open spec fn has_id(rows: Seq<RowModel>, id: RowIdModel) -> bool {
    exists|i: int| 0 <= i < rows.len() && (#[trigger] rows[i]).id().same(id)
}

impl PickerModel {
    /// The rows that match, as they are shown.
    pub open spec fn filtered(self) -> Seq<int> {
        search::filtered(self.rows, self.query)
    }

    /// The row that is selected.
    pub open spec fn selected_row(self, filtered: Seq<int>) -> Option<RowModel> {
        if 0 <= self.selected < filtered.len() {
            Some(self.rows[filtered[self.selected]])
        } else {
            None
        }
    }

    /// After other rows have come in: the query stays, and so does the selected
    /// row, where it still matches.
    pub open spec fn with_rows(self, rows: Seq<RowModel>) -> PickerModel {
        let filtered = search::filtered(rows, self.query);
        let kept = match self.selected_row(self.filtered()) {
            Some(row) => place_with(rows, filtered, row.id(), 0),
            None => None,
        };
        PickerModel {
            rows,
            query: self.query,
            selected: clamped(
                match kept {
                    Some(place) => place,
                    None => 0,
                },
                filtered.len(),
            ),
        }
    }

    /// The projects that are kept while new ones are still being looked for.
    pub open spec fn kept_projects(self, rows: Seq<RowModel>, n: nat) -> Seq<RowModel>
        decreases n,
    {
        if n == 0 {
            Seq::empty()
        } else {
            let before = self.kept_projects(rows, (n - 1) as nat);
            let row = self.rows[n - 1];
            if row.kind is Dormant && !has_id(rows, row.id()) {
                before.push(row)
            } else {
                before
            }
        }
    }

    /// After live rows have come in, with projects still being looked for.
    pub open spec fn with_live_rows(self, rows: Seq<RowModel>) -> PickerModel {
        self.with_rows(rows + self.kept_projects(rows, self.rows.len()))
    }

    /// Without the rows of an identity.
    pub open spec fn without(self, id: RowIdModel) -> PickerModel {
        let rows = self.rows.filter(|row: RowModel| !row.id().same(id));
        let shown = search::filtered(rows, self.query).len();
        PickerModel { rows, selected: clamped(self.selected, shown), ..self }
    }

    /// With the first row of the next section that shows any selected.
    pub open spec fn in_next_section(self, filtered: Seq<int>) -> PickerModel {
        match self.selected_row(filtered) {
            None => self,
            Some(row) => {
                let here = row.kind.section() as int;
                match self.first_in_section(filtered, here, 1) {
                    Some(place) => PickerModel { selected: place, ..self },
                    None => self,
                }
            },
        }
    }

    /// The first row of the next section that shows any, trying sections from
    /// `offset` after the given one on.
    pub open spec fn first_in_section(self, filtered: Seq<int>, here: int, offset: int) -> Option<
        int,
    >
        decreases 5 - offset,
    {
        if offset < 1 || offset > 4 {
            None
        } else {
            match place_in_section(self.rows, filtered, ((here + offset) % 4) as u8, 0) {
                Some(place) => Some(place),
                None => self.first_in_section(filtered, here, offset + 1),
            }
        }
    }

    /// With the shown live workspace after `n` others selected.
    pub open spec fn at_open(self, filtered: Seq<int>, n: nat) -> (PickerModel, Option<RowModel>) {
        match place_of_open(self.rows, filtered, n, 0) {
            Some(place) => (
                PickerModel { selected: place, ..self },
                Some(self.rows[filtered[place]]),
            ),
            None => (self, None),
        }
    }

    /// The paths of live workspaces among the first `n` rows.
    pub open spec fn open_paths(self, n: nat) -> Seq<Seq<char>>
        decreases n,
    {
        if n == 0 {
            Seq::empty()
        } else {
            let before = self.open_paths((n - 1) as nat);
            if self.rows[n - 1].kind is Open {
                before.push(self.rows[n - 1].path)
            } else {
                before
            }
        }
    }
}

/// Whether a row with an identity is among rows.
pub fn holds_id(rows: &Vec<Row>, id: &RowId) -> (found: bool)
    ensures
        found == has_id(text::views(rows@), id@),
{
    let ghost all = text::views(rows@);
    let mut i: usize = 0;
    while i < rows.len()
        invariant
            i <= rows@.len(),
            all == text::views(rows@),
            forall|k: int| 0 <= k < i ==> !(#[trigger] all[k]).id().same(id@),
        decreases rows@.len() - i,
    {
        assert(all[i as int] == rows@[i as int]@);
        if rows[i].id().same(id) {
            return true;
        }
        i += 1;
    }
    false
}

/// Find the first shown row with an identity.
fn find_place(rows: &Vec<Row>, filtered: &Vec<usize>, id: &RowId) -> (place: Option<usize>)
    requires
        forall|i: int| 0 <= i < filtered@.len() ==> #[trigger] filtered@[i] < rows@.len(),
    ensures
        match place {
            Some(i) => i < filtered@.len() && place_with(
                text::views(rows@),
                order::positions(filtered@),
                id@,
                0,
            ) == Some(i as int),
            None => place_with(text::views(rows@), order::positions(filtered@), id@, 0) is None,
        },
{
    let ghost all = text::views(rows@);
    let ghost shown = order::positions(filtered@);
    let mut i: usize = 0;
    while i < filtered.len()
        invariant
            i <= filtered@.len(),
            all == text::views(rows@),
            shown == order::positions(filtered@),
            forall|k: int| 0 <= k < filtered@.len() ==> #[trigger] filtered@[k] < rows@.len(),
            place_with(all, shown, id@, 0) == place_with(all, shown, id@, i as int),
        decreases filtered@.len() - i,
    {
        assert(all[shown[i as int]] == rows@[filtered@[i as int] as int]@);
        if rows[filtered[i]].id().same(id) {
            return Some(i);
        }
        i += 1;
    }
    None
}

/// Find the first shown row of a section.
fn find_section(rows: &Vec<Row>, filtered: &Vec<usize>, section: u8) -> (place: Option<usize>)
    requires
        forall|i: int| 0 <= i < filtered@.len() ==> #[trigger] filtered@[i] < rows@.len(),
    ensures
        match place {
            Some(i) => i < filtered@.len() && place_in_section(
                text::views(rows@),
                order::positions(filtered@),
                section,
                0,
            ) == Some(i as int),
            None => place_in_section(
                text::views(rows@),
                order::positions(filtered@),
                section,
                0,
            ) is None,
        },
{
    let ghost all = text::views(rows@);
    let ghost shown = order::positions(filtered@);
    let mut i: usize = 0;
    while i < filtered.len()
        invariant
            i <= filtered@.len(),
            all == text::views(rows@),
            shown == order::positions(filtered@),
            forall|k: int| 0 <= k < filtered@.len() ==> #[trigger] filtered@[k] < rows@.len(),
            place_in_section(all, shown, section, 0) == place_in_section(
                all,
                shown,
                section,
                i as int,
            ),
        decreases filtered@.len() - i,
    {
        assert(all[shown[i as int]] == rows@[filtered@[i as int] as int]@);
        if search::section(&rows[filtered[i]].kind) == section {
            return Some(i);
        }
        i += 1;
    }
    None
}

impl PickerState {
    /// The rows that match, as they are shown.
    pub fn filtered(&self, matcher: &mut FuzzyMatcher) -> (places: Vec<usize>)
        ensures
            order::positions(places@) == self@.filtered(),
            forall|i: int| 0 <= i < places@.len() ==> #[trigger] places@[i] < self.rows@.len(),
    {
        search::filter(self.rows.as_slice(), self.query.as_str(), matcher)
    }

    /// Take other rows in.
    fn replace_rows(&mut self, rows: Vec<Row>, matcher: &mut FuzzyMatcher)
        ensures
            final(self)@ == old(self)@.with_rows(text::views(rows@)),
    {
        let ghost start = self@;
        let old_filtered = self.filtered(matcher);
        let selected_id: Option<RowId> = if self.selected < old_filtered.len() {
            assert(order::positions(old_filtered@)[self.selected as int]
                == old_filtered@[self.selected as int] as int);
            Some(self.rows[old_filtered[self.selected]].id())
        } else {
            None
        };
        assert(order::positions(old_filtered@).len() == old_filtered@.len());
        self.rows = rows;
        let filtered = self.filtered(matcher);
        assert(order::positions(filtered@).len() == filtered@.len());
        let place: usize = match selected_id {
            Some(id) => match find_place(&self.rows, &filtered, &id) {
                Some(place) => place,
                None => 0,
            },
            None => 0,
        };
        self.selected = if place < filtered.len() {
            place
        } else if filtered.len() > 0 {
            filtered.len() - 1
        } else {
            0
        };
    }

    /// Take a snapshot in. The query stays, and so does the selected row, where
    /// it still matches.
    pub fn apply_snapshot(&mut self, snapshot: Snapshot, matcher: &mut FuzzyMatcher)
        ensures
            final(self)@ == old(self)@.with_rows(snapshot@.rows),
    {
        self.replace_rows(snapshot.rows, matcher);
    }

    /// Take in a snapshot without projects. The known projects are kept, so that
    /// a loading refresh cannot make them disappear.
    pub fn apply_partial(&mut self, snapshot: Snapshot, matcher: &mut FuzzyMatcher)
        ensures
            final(self)@ == old(self)@.with_live_rows(snapshot@.rows),
    {
        let ghost start = self@;
        let ghost fresh = snapshot@.rows;
        let mut kept: Vec<Row> = Vec::new();
        let mut i: usize = 0;
        assert(text::views(kept@) =~= start.kept_projects(fresh, 0));
        while i < self.rows.len()
            invariant
                i <= self.rows@.len(),
                start == self@,
                fresh == text::views(snapshot.rows@),
                text::views(kept@) == start.kept_projects(fresh, i as nat),
            decreases self.rows@.len() - i,
        {
            assert(start.rows[i as int] == self.rows@[i as int]@);
            if let Kind::Dormant = &self.rows[i].kind {
                if !holds_id(&snapshot.rows, &self.rows[i].id()) {
                    kept.push(self.rows[i].clone());
                }
            }
            i += 1;
        }
        let mut rows = snapshot.rows;
        let ghost added = kept@;
        let ghost live = rows@;
        rows.append(&mut kept);
        assert(text::views(rows@) =~= text::views(live) + text::views(added));
        self.replace_rows(rows, matcher);
    }

    /// The paths of live workspaces.
    pub fn open_workspace_paths(&self) -> (paths: Vec<String>)
        ensures
            text::views(paths@) == self@.open_paths(self.rows@.len()),
    {
        let ghost all = self@;
        let mut paths: Vec<String> = Vec::new();
        let mut i: usize = 0;
        assert(text::views(paths@) =~= all.open_paths(0));
        while i < self.rows.len()
            invariant
                i <= self.rows@.len(),
                all == self@,
                text::views(paths@) == all.open_paths(i as nat),
            decreases self.rows@.len() - i,
        {
            assert(all.rows[i as int] == self.rows@[i as int]@);
            if let Kind::Open { .. } = &self.rows[i].kind {
                paths.push(self.rows[i].path.clone());
            }
            i += 1;
        }
        paths
    }

    /// Remove a row.
    pub fn remove(&mut self, id: &RowId)
        ensures
            final(self)@ == old(self)@.without(id@),
    {
        let ghost all = text::views(self.rows@);
        let ghost keep = |row: RowModel| !row.id().same(id@);
        let mut rows: Vec<Row> = Vec::new();
        let mut i: usize = 0;
        reveal(Seq::filter);
        assert(text::views(rows@) =~= all.take(0).filter(keep));
        while i < self.rows.len()
            invariant
                i <= self.rows@.len(),
                all == text::views(self.rows@),
                keep == (|row: RowModel| !row.id().same(id@)),
                text::views(rows@) == all.take(i as int).filter(keep),
            decreases self.rows@.len() - i,
        {
            reveal(Seq::filter);
            assert(all.take(i + 1).drop_last() =~= all.take(i as int));
            assert(all.take(i + 1).last() == self.rows@[i as int]@);
            if !self.rows[i].id().same(id) {
                rows.push(self.rows[i].clone());
            }
            i += 1;
        }
        assert(all.take(i as int) =~= all);
        self.rows = rows;
        let mut matcher = FuzzyMatcher::new();
        let filtered = self.filtered(&mut matcher);
        assert(order::positions(filtered@).len() == filtered@.len());
        self.selected = if self.selected < filtered.len() {
            self.selected
        } else if filtered.len() > 0 {
            filtered.len() - 1
        } else {
            0
        };
    }

    /// The row that is selected.
    pub fn selected_row(&self, filtered: &Vec<usize>) -> (row: Option<Row>)
        requires
            forall|i: int| 0 <= i < filtered@.len() ==> #[trigger] filtered@[i] < self.rows@.len(),
        ensures
            text::view_of(row) == self@.selected_row(order::positions(filtered@)),
    {
        if self.selected < filtered.len() {
            assert(order::positions(filtered@)[self.selected as int]
                == filtered@[self.selected as int] as int);
            Some(self.rows[filtered[self.selected]].clone())
        } else {
            None
        }
    }

    /// Select the first row of the next section that shows any, in the order of
    /// the sections and round to the first. Sections that show nothing are
    /// skipped.
    pub fn next_section(&mut self, filtered: &Vec<usize>)
        requires
            forall|i: int|
                0 <= i < filtered@.len() ==> #[trigger] filtered@[i] < old(self).rows@.len(),
        ensures
            final(self)@ == old(self)@.in_next_section(order::positions(filtered@)),
            final(self).rows@ == old(self).rows@,
    {
        let ghost start = self@;
        let ghost shown = order::positions(filtered@);
        if self.selected >= filtered.len() {
            return;
        }
        assert(shown[self.selected as int] == filtered@[self.selected as int] as int);
        let here: u8 = search::section(&self.rows[filtered[self.selected]].kind);
        let mut offset: u8 = 1;
        while offset <= 4
            invariant
                1 <= offset <= 5,
                here < 4,
                self@ == start,
                start == old(self)@,
                self.rows@ == old(self).rows@,
                shown == order::positions(filtered@),
                forall|i: int|
                    0 <= i < filtered@.len() ==> #[trigger] filtered@[i] < self.rows@.len(),
                start.first_in_section(shown, here as int, 1) == start.first_in_section(
                    shown,
                    here as int,
                    offset as int,
                ),
                start.in_next_section(shown) == (match start.first_in_section(
                    shown,
                    here as int,
                    1,
                ) {
                    Some(place) => PickerModel { selected: place, ..start },
                    None => start,
                }),
            decreases 5 - offset,
        {
            let target: u8 = (here + offset) % 4;
            if let Some(place) = find_section(&self.rows, filtered, target) {
                self.selected = place;
                return;
            }
            offset += 1;
        }
    }
}

/// The row that a digit jumps to: 1 is the first live workspace, 0 the tenth.
pub open spec fn digit_index(digit: char) -> Option<usize> {
    if digit == '0' {
        Some(9)
    } else if '1' <= digit && digit <= '9' {
        Some((digit as int - '1' as int) as usize)
    } else {
        None
    }
}

/// Map a digit to a row: 1 is the most recently used live workspace and 0 the
/// tenth. Other characters map to none.
pub fn alt_digit_index(digit: char) -> (index: Option<usize>)
    ensures
        index == digit_index(digit),
{
    if digit == '0' {
        Some(9)
    } else if '1' <= digit && digit <= '9' {
        let code: u32 = digit as u32;
        Some((code - 49) as usize)
    } else {
        None
    }
}

/// The digit of a glyph that a macOS terminal sends for Option and a digit.
pub open spec fn option_digit(character: char) -> Option<char> {
    if character == 'º' {
        Some('0')
    } else if character == '¡' {
        Some('1')
    } else if character == '™' {
        Some('2')
    } else if character == '£' {
        Some('3')
    } else if character == '¢' {
        Some('4')
    } else if character == '∞' {
        Some('5')
    } else if character == '§' {
        Some('6')
    } else if character == '¶' {
        Some('7')
    } else if character == '•' {
        Some('8')
    } else if character == 'ª' {
        Some('9')
    } else {
        None
    }
}

/// The row that a glyph of Option and a digit jumps to.
pub open spec fn option_index(character: char) -> Option<usize> {
    match option_digit(character) {
        Some(digit) => digit_index(digit),
        None => None,
    }
}

/// Map a glyph of Option and a digit, as macOS terminals send it, to a row.
pub fn mac_option_digit(character: char) -> (index: Option<usize>)
    ensures
        index == option_index(character),
{
    let digit = if character == 'º' {
        '0'
    } else if character == '¡' {
        '1'
    } else if character == '™' {
        '2'
    } else if character == '£' {
        '3'
    } else if character == '¢' {
        '4'
    } else if character == '∞' {
        '5'
    } else if character == '§' {
        '6'
    } else if character == '¶' {
        '7'
    } else if character == '•' {
        '8'
    } else if character == 'ª' {
        '9'
    } else {
        return None;
    };
    alt_digit_index(digit)
}

/// The digit shown in front of a live workspace is the one that jumps to it.
pub proof fn shown_digit_jumps_there(open_count: nat)
    requires
        open_count <= 9,
    ensures
        digit_index(text::digit(((open_count + 1) % 10) as nat)) == Some(open_count as usize),
{
}

/// Select and return the live workspace after `n` others among the shown rows,
/// as its quick-jump number says. Other rows do not count.
pub fn nth_open_jump(state: &mut PickerState, filtered: &Vec<usize>, n: usize) -> (row: Option<Row>)
    requires
        forall|i: int|
            0 <= i < filtered@.len() ==> #[trigger] filtered@[i] < old(state).rows@.len(),
    ensures
        (final(state)@, text::view_of(row)) == old(state)@.at_open(
            order::positions(filtered@),
            n as nat,
        ),
        final(state).rows@ == old(state).rows@,
{
    let ghost start = state@;
    let ghost shown = order::positions(filtered@);
    let mut left: usize = n;
    let mut i: usize = 0;
    while i < filtered.len()
        invariant
            i <= filtered@.len(),
            state@ == start,
            state.rows@ == old(state).rows@,
            shown == order::positions(filtered@),
            forall|k: int| 0 <= k < filtered@.len() ==> #[trigger] filtered@[k] < state.rows@.len(),
            place_of_open(start.rows, shown, n as nat, 0) == place_of_open(
                start.rows,
                shown,
                left as nat,
                i as int,
            ),
            start == old(state)@,
        decreases filtered@.len() - i,
    {
        assert(start.rows[shown[i as int]] == state.rows@[filtered@[i as int] as int]@);
        if let Kind::Open { .. } = &state.rows[filtered[i]].kind {
            if left == 0 {
                state.selected = i;
                return Some(state.rows[filtered[i]].clone());
            }
            left -= 1;
        }
        i += 1;
    }
    None
}

} // verus!
