//! What keys, the mouse and the refresh do to a run of the picker.

use vstd::prelude::*;
use crate::model::{KindModel, RowIdModel, RowModel};
use crate::paths;
use crate::picker;
use crate::picker::{OutcomeModel, PickerModel};
use crate::picker_laws;
use crate::refresh::{MessageModel, ProjectSourceStatus, SnapshotModel};
use crate::render;
use crate::render::ListSource;
use crate::screen;
use crate::screen::{Area, MouseKind};
use crate::search;
use crate::search_laws;
use crate::session::{FeedModel, Frame, Key, KeyPress, RunModel};
use crate::style;
use crate::text;

verus! {

/// Enter jumps to the selected row, and to none where nothing is shown.
pub proof fn enter_jumps_to_the_selected_row(run: RunModel, press: KeyPress)
    requires
        press.key is Enter,
        0 <= run.state.selected,
    ensures
        run.state.selected < run.filtered.len() ==> run.pressed(press).1 == Some(
            OutcomeModel::Jump(run.state.rows[run.filtered[run.state.selected]]),
        ),
        run.state.selected >= run.filtered.len() ==> run.pressed(press).1 is None,
        run.pressed(press).0 == run,
{
}

/// Down selects the next shown row and Up the one before, and at the ends nothing
/// happens; so each takes back the other. Nothing else changes but that sections are
/// then cycled from the new row.
pub proof fn arrows_move_by_one(run: RunModel, down: KeyPress, up: KeyPress)
    requires
        down.key is Down,
        up.key is Up,
        0 <= run.state.selected < run.filtered.len(),
    ensures
        run.state.selected < run.filtered.len() - 1 ==> {
            &&& run.pressed(down).0.state.selected == run.state.selected + 1
            &&& run.pressed(down).0.pressed(up).0.state == run.state
            &&& run.pressed(down).0.anchor is None
        },
        run.state.selected == run.filtered.len() - 1 ==> run.pressed(down).0 == run,
        run.state.selected > 0 ==> {
            &&& run.pressed(up).0.state.selected == run.state.selected - 1
            &&& run.pressed(up).0.pressed(down).0.state == run.state
            &&& run.pressed(up).0.anchor is None
        },
        run.state.selected == 0 ==> run.pressed(up).0 == run,
        run.pressed(down).0.state.query == run.state.query,
        run.pressed(up).0.state.query == run.state.query,
        run.pressed(down).0.filtered == run.filtered,
        run.pressed(up).0.filtered == run.filtered,
{
}

/// A typed letter is added to the query, and Backspace takes it away again; with no
/// query Backspace leaves it so.
pub proof fn typing_edits_the_query(run: RunModel, c: char, back: KeyPress)
    requires
        back.key is Backspace,
        c < '\u{80}',
    ensures
        ({
            let typed = run.pressed(KeyPress { key: Key::Char(c), control: false, alt: false });
            &&& typed.1 is None
            &&& typed.0.state.query == run.state.query.push(c)
            &&& typed.0.state.selected == 0
            &&& typed.0.anchor is None
            &&& typed.0.state.rows == run.state.rows
            &&& typed.0.pressed(back).0.state.query == run.state.query
            &&& typed.0.pressed(back).0.state.selected == 0
        }),
        run.state.query.len() == 0 ==> run.pressed(back).0.state.query == run.state.query,
        run.pressed(back).1 is None,
{
    assert(run.state.query.push(c).drop_last() =~= run.state.query);
}

/// Control-N asks for a new workspace at the selected project or workspace, and
/// Control-X for the selected workspace to be closed; on other rows they do nothing.
pub proof fn control_keys_act_on_the_selected_row(run: RunModel)
    requires
        0 <= run.state.selected < run.filtered.len(),
    ensures
        ({
            let row = run.state.rows[run.filtered[run.state.selected]];
            let fresh = run.pressed(KeyPress { key: Key::Char('n'), control: true, alt: false });
            let close = run.pressed(KeyPress { key: Key::Char('x'), control: true, alt: false });
            &&& fresh.0 == run && close.0 == run
            &&& fresh.1 == match row.kind {
                KindModel::Open { .. } => Some(OutcomeModel::ForceNew(row)),
                KindModel::Dormant => Some(OutcomeModel::ForceNew(row)),
                _ => None,
            }
            &&& close.1 == match row.kind {
                KindModel::Open { .. } => Some(OutcomeModel::Close(row)),
                _ => None,
            }
        }),
{
}

/// Where nothing but live workspaces is shown up to a place, that place is found by
/// its number.
proof fn lemma_open_at(rows: Seq<RowModel>, filtered: Seq<int>, from: int, n: nat)
    requires
        0 <= from,
        from + n < filtered.len(),
        forall|k: int| from <= k <= from + n ==> rows[#[trigger] filtered[k]].kind is Open,
    ensures
        picker::place_of_open(rows, filtered, n, from) == Some(from + n),
    decreases n,
{
    assert(rows[filtered[from]].kind is Open);
    if n > 0 {
        lemma_open_at(rows, filtered, from + 1, (n - 1) as nat);
    }
}

/// Where no more live workspaces are shown, none is found.
proof fn lemma_no_open_at(rows: Seq<RowModel>, filtered: Seq<int>, from: int, n: nat)
    requires
        0 <= from <= filtered.len(),
        forall|k: int|
            from + n <= k < filtered.len() ==> !(rows[#[trigger] filtered[k]].kind is Open),
    ensures
        picker::place_of_open(rows, filtered, n, from) is None,
    decreases filtered.len() - from,
{
    if from < filtered.len() {
        if rows[filtered[from]].kind is Open {
            assert(n > 0);
            lemma_no_open_at(rows, filtered, from + 1, (n - 1) as nat);
        } else {
            lemma_no_open_at(rows, filtered, from + 1, n);
        }
    }
}

/// Alt and a digit jump to the live workspace that is shown so far from the top: 1 to
/// the first, 9 to the ninth and 0 to the tenth. Where fewer are shown, nothing
/// happens.
pub proof fn digits_jump_from_the_top(run: RunModel, digit: char, n: int)
    requires
        run.state.rows.len() <= usize::MAX,
        run.filtered == run.state.filtered(),
        ({
            ||| digit == '1' && n == 0
            ||| digit == '2' && n == 1
            ||| digit == '3' && n == 2
            ||| digit == '4' && n == 3
            ||| digit == '5' && n == 4
            ||| digit == '6' && n == 5
            ||| digit == '7' && n == 6
            ||| digit == '8' && n == 7
            ||| digit == '9' && n == 8
            ||| digit == '0' && n == 9
        }),
    ensures
        ({
            let after = run.pressed(KeyPress { key: Key::Char(digit), control: false, alt: true });
            if n < run.filtered.len() && run.state.rows[run.filtered[n]].kind is Open {
                &&& after.1 == Some(OutcomeModel::Jump(run.state.rows[run.filtered[n]]))
                &&& after.0.state.selected == n
            } else {
                after == (run, None::<OutcomeModel>)
            }
        }),
{
    let rows = run.state.rows;
    let shown = run.filtered;
    assert(picker::digit_index(digit) == Some(n as usize));
    if n < shown.len() && rows[shown[n]].kind is Open {
        assert forall|k: int| 0 <= k <= 0 + n implies rows[#[trigger] shown[k]].kind is Open by {
            if k < n {
                search_laws::search_keeps_sections_in_order(rows, run.state.query, k, n);
            }
        }
        lemma_open_at(rows, shown, 0, n as nat);
    } else {
        assert forall|k: int| 0 + n <= k < shown.len() implies !(rows[
            #[trigger] shown[k]
        ].kind is Open) by {
            if n < k {
                search_laws::search_keeps_sections_in_order(rows, run.state.query, n, k);
            }
        }
        lemma_no_open_at(rows, shown, 0, n as nat);
    }
}

/// The characters that Option and a digit give on a Mac jump as Alt and that digit
/// do; where there is nothing to jump to they are typed.
pub proof fn option_characters_jump_like_digits(run: RunModel, c: char, digit: char)
    requires
        ({
            ||| c == '¡' && digit == '1'
            ||| c == '™' && digit == '2'
            ||| c == '£' && digit == '3'
            ||| c == '¢' && digit == '4'
            ||| c == '∞' && digit == '5'
            ||| c == '§' && digit == '6'
            ||| c == '¶' && digit == '7'
            ||| c == '•' && digit == '8'
            ||| c == 'ª' && digit == '9'
            ||| c == 'º' && digit == '0'
        }),
    ensures
        ({
            let typed = run.pressed(KeyPress { key: Key::Char(c), control: false, alt: false });
            let alt = run.pressed(KeyPress { key: Key::Char(digit), control: false, alt: true });
            if alt.1 is Some {
                typed == alt
            } else {
                typed.1 is None && typed.0.state.query == run.state.query.push(c)
            }
        }),
{
}

/// Tab selects a row of another section and marks the row from which this began; a
/// second Tab keeps that mark, and moving drops it.
pub proof fn cycling_marks_where_it_began(run: RunModel, tab: KeyPress, down: KeyPress)
    requires
        tab.key is Tab,
        down.key is Down,
        0 <= run.state.selected < run.filtered.len(),
    ensures
        run.anchor is None ==> run.pressed(tab).0.anchor == Some(
            run.state.rows[run.filtered[run.state.selected]].id(),
        ),
        run.anchor is Some ==> run.pressed(tab).0.anchor == run.anchor,
        run.pressed(tab).0.filtered == run.filtered,
        run.pressed(tab).0.pressed(down).0.state.selected != run.pressed(tab).0.state.selected
            ==> run.pressed(tab).0.pressed(down).0.anchor is None,
        exists|offset: int| #[trigger] picker_laws::first_row_after(
            run.state.rows,
            run.filtered,
            run.state.rows[run.filtered[run.state.selected]].kind.section() as int,
            offset,
            run.pressed(tab).0.state.selected,
        ),
{
    picker_laws::cycling_skips_empty_sections(run.state, run.filtered);
}

/// A click selects the row whose line it is on, and turning the wheel over the list
/// selects the next row or the one before; elsewhere, and on titles, nothing happens.
/// The mouse never changes rows or query.
pub proof fn the_mouse_selects(
    run: RunModel,
    kind: MouseKind,
    column: u16,
    row: u16,
    area: Area,
    offset: int,
    positions: Seq<Option<usize>>,
)
    requires
        0 <= run.state.selected < run.filtered.len(),
        0 <= offset,
        area.x + area.width < u16::MAX,
        area.y + area.height < u16::MAX,
    ensures
        ({
            let after = run.moused(kind, column, row, area, offset, positions);
            let inside = area.x <= column < area.x + area.width && area.y <= row < area.y
                + area.height;
            let line = offset + row - area.y;
            &&& !inside ==> after == run
            &&& kind is LeftDown && inside && line < positions.len() && positions[line] is Some
                ==> after.state.selected == positions[line]->0
            &&& kind is LeftDown && inside && (line >= positions.len() || positions[line] is None)
                ==> after == run
            &&& kind is ScrollUp && inside && run.state.selected > 0 ==> after.state.selected
                == run.state.selected - 1
            &&& kind is ScrollUp && run.state.selected == 0 ==> after == run
            &&& kind is ScrollDown && inside && run.state.selected + 1 < run.filtered.len()
                ==> after.state.selected == run.state.selected + 1
            &&& kind is ScrollDown && run.state.selected + 1 == run.filtered.len() ==> after == run
            &&& after.state.rows == run.state.rows
            &&& after.state.query == run.state.query
        }),
{
}

/// A final snapshot brings exactly its rows, and the refresh is over; a first one
/// brings its rows and keeps the projects known before, and the refresh goes on.
/// Either says which workspaces live, where the picker was opened from, and how
/// zoxide did, and takes back an earlier error. The query stays.
pub proof fn snapshots_bring_their_rows(run: RunModel, snapshot: SnapshotModel)
    ensures
        ({
            let after = run.received(FeedModel::Message(MessageModel::Ready(snapshot)));
            &&& after.state.rows == snapshot.rows
            &&& after.state.query == run.state.query
            &&& !after.loading
            &&& after.live_workspace_ids == snapshot.live_workspace_ids
            &&& after.origin_workspace == snapshot.origin_workspace
            &&& after.project_source_status == snapshot.project_source_status
            &&& after.refresh_error is None
            &&& after.channel_open == run.channel_open
            &&& after.anchor == run.anchor
        }),
        ({
            let after = run.received(FeedModel::Message(MessageModel::Partial(snapshot)));
            &&& after.state.rows.len() >= snapshot.rows.len()
            &&& after.state.rows.take(snapshot.rows.len() as int) == snapshot.rows
            &&& forall|i: int|
                snapshot.rows.len() <= i < after.state.rows.len() ==> (
                #[trigger] after.state.rows[i]).kind is Dormant && run.state.rows.contains(
                    after.state.rows[i],
                )
            &&& after.state.query == run.state.query
            &&& after.loading && after.project_search_started
            &&& after.live_workspace_ids == snapshot.live_workspace_ids
            &&& after.origin_workspace == snapshot.origin_workspace
            &&& after.project_source_status == snapshot.project_source_status
            &&& after.refresh_error is None
            &&& after.channel_open == run.channel_open
            &&& after.anchor == run.anchor
        }),
{
    let kept = run.state.kept_projects(snapshot.rows, run.state.rows.len());
    let after = run.received(FeedModel::Message(MessageModel::Partial(snapshot)));
    assert(after.state.rows == snapshot.rows + kept);
    assert(after.state.rows.take(snapshot.rows.len() as int) =~= snapshot.rows);
    lemma_kept_projects(run.state, snapshot.rows, run.state.rows.len());
    assert forall|i: int| snapshot.rows.len() <= i < after.state.rows.len() implies (
    #[trigger] after.state.rows[i]).kind is Dormant && run.state.rows.contains(
        after.state.rows[i],
    ) by {
        assert(after.state.rows[i] == kept[i - snapshot.rows.len()]);
    }
}

proof fn lemma_kept_projects(state: PickerModel, rows: Seq<RowModel>, n: nat)
    requires
        n <= state.rows.len(),
    ensures
        forall|i: int|
            0 <= i < state.kept_projects(rows, n).len() ==> (#[trigger] state.kept_projects(
                rows,
                n,
            )[i]).kind is Dormant && state.rows.contains(state.kept_projects(rows, n)[i])
                && !picker::has_id(rows, state.kept_projects(rows, n)[i].id()),
    decreases n,
{
    if n > 0 {
        lemma_kept_projects(state, rows, (n - 1) as nat);
        assert(state.rows.contains(state.rows[n - 1]));
    }
}

/// No project is listed twice by a first snapshot: a known project that comes again is
/// shown as it comes.
pub proof fn known_projects_are_not_doubled(run: RunModel, snapshot: SnapshotModel, i: int, j: int)
    requires
        0 <= i < snapshot.rows.len(),
        snapshot.rows.len() <= j < run.received(
            FeedModel::Message(MessageModel::Partial(snapshot)),
        ).state.rows.len(),
        snapshot.rows[i].kind is Dormant,
    ensures
        !paths::same_path(
            snapshot.rows[i].path,
            run.received(FeedModel::Message(MessageModel::Partial(snapshot))).state.rows[j].path,
        ),
{
    let kept = run.state.kept_projects(snapshot.rows, run.state.rows.len());
    lemma_kept_projects(run.state, snapshot.rows, run.state.rows.len());
    let other = kept[j - snapshot.rows.len()];
    if paths::same_path(snapshot.rows[i].path, other.path) {
        assert(snapshot.rows[i].id().same(other.id()));
    }
}

/// A refresh that fails says why and is over; one that ends before it was done says
/// that, and one that was done says nothing more. What is shown stays.
pub proof fn refreshes_end_with_a_word(run: RunModel, error: Seq<char>)
    ensures
        ({
            let after = run.received(FeedModel::Message(MessageModel::Failed(error)));
            &&& after.refresh_error == Some("Refresh failed: "@ + error)
            &&& !after.loading && !after.project_search_started
            &&& after.state == run.state
            &&& after.live_workspace_ids == run.live_workspace_ids
            &&& after.origin_workspace == run.origin_workspace
        }),
        ({
            let after = run.received(FeedModel::Disconnected);
            &&& !after.channel_open
            &&& !after.loading
            &&& run.loading ==> after.refresh_error == Some("Refresh stopped before completion"@)
            &&& !run.loading ==> after.refresh_error == run.refresh_error
            &&& after.state == run.state
            &&& after.live_workspace_ids == run.live_workspace_ids
        }),
        run.received(FeedModel::Empty) == run,
{
}

/// Before anything is drawn the rows that match are looked up anew, and the mark from
/// which sections were cycled goes with its row.
pub proof fn settling_looks_rows_up_anew(run: RunModel)
    requires
        0 <= run.state.selected,
    ensures
        run.settled().filtered == search::filtered(run.state.rows, run.state.query),
        run.settled().state.rows == run.state.rows,
        run.settled().state.query == run.state.query,
        run.state.selected < run.settled().filtered.len() ==> run.settled().state.selected
            == run.state.selected,
        run.state.selected >= run.settled().filtered.len() > 0 ==> run.settled().state.selected
            == run.settled().filtered.len() - 1,
        run.anchor is Some && (forall|i: int|
            0 <= i < run.state.rows.len() ==> !(#[trigger] run.state.rows[i]).id().same(
                run.anchor->0,
            )) ==> run.settled().anchor is None,
        run.anchor is Some && (exists|i: int|
            0 <= i < run.state.rows.len() && (#[trigger] run.state.rows[i]).id().same(
                run.anchor->0,
            )) ==> run.settled().anchor == run.anchor,
        run.anchor is None ==> run.settled().anchor is None,
{
}

/// When the selected row is gone, or does not match any more, the first is selected.
pub proof fn a_lost_selection_goes_to_the_top(state: PickerModel, rows: Seq<RowModel>)
    requires
        ({
            let shown = search::filtered(rows, state.query);
            match state.selected_row(state.filtered()) {
                Some(row) => forall|k: int|
                    0 <= k < shown.len() ==> !rows[#[trigger] shown[k]].id().same(row.id()),
                None => true,
            }
        }),
    ensures
        state.with_rows(rows).selected == 0,
        state.with_rows(rows).rows == rows,
{
    let shown = search::filtered(rows, state.query);
    if let Some(row) = state.selected_row(state.filtered()) {
        lemma_place_is_none(rows, shown, row.id(), 0);
    }
}

proof fn lemma_place_is_none(rows: Seq<RowModel>, shown: Seq<int>, id: RowIdModel, i: int)
    requires
        0 <= i,
        forall|k: int| 0 <= k < shown.len() ==> !rows[#[trigger] shown[k]].id().same(id),
    ensures
        picker::place_with(rows, shown, id, i) is None,
    decreases shown.len() - i,
{
    if i < shown.len() {
        assert(!rows[shown[i]].id().same(id));
        lemma_place_is_none(rows, shown, id, i + 1);
    }
}

/// Rows are known again by what they stand for: a workspace, a tab or a pane by its
/// id, whatever else about it has changed, and a project by its directory.
pub proof fn rows_are_known_by_what_they_stand_for(a: RowModel, b: RowModel)
    ensures
        a.kind is Open && b.kind is Open ==> (a.id().same(b.id()) <==> a.kind->Open_workspace_id
            == b.kind->Open_workspace_id),
        a.kind is Tab && b.kind is Tab ==> (a.id().same(b.id()) <==> a.kind->Tab_tab_id
            == b.kind->Tab_tab_id),
        a.kind is Pane && b.kind is Pane ==> (a.id().same(b.id()) <==> a.kind->Pane_pane_id
            == b.kind->Pane_pane_id),
        a.kind is Dormant && b.kind is Dormant ==> (a.id().same(b.id()) <==> paths::same_path(
            a.path,
            b.path,
        )),
        a.kind is Open != b.kind is Open ==> !a.id().same(b.id()),
        a.kind is Tab != b.kind is Tab ==> !a.id().same(b.id()),
        a.kind is Pane != b.kind is Pane ==> !a.id().same(b.id()),
{
}

/// A run begins with a refresh under way, no error, and nothing known of live
/// workspaces.
pub proof fn a_run_begins_with_a_refresh(state: PickerModel)
    ensures
        RunModel::begun(state).state == state,
        RunModel::begun(state).loading,
        RunModel::begun(state).channel_open,
        RunModel::begun(state).refresh_error is None,
        RunModel::begun(state).live_workspace_ids is None,
        RunModel::begun(state).origin_workspace is None,
        RunModel::begun(state).anchor is None,
        RunModel::begun(state).project_source_status is Searching,
{
}

/// When a row is removed the rows after it move up: the selection stays at its place, or
/// goes to the last row where that was it. Query and all other rows stay.
pub proof fn removing_keeps_the_place(state: PickerModel, id: RowIdModel)
    requires
        0 <= state.selected,
    ensures
        ({
            let after = state.without(id);
            let shown = search::filtered(after.rows, state.query);
            &&& after.query == state.query
            &&& after.rows == state.rows.filter(|row: RowModel| !row.id().same(id))
            &&& state.selected < shown.len() ==> after.selected == state.selected
            &&& state.selected >= shown.len() > 0 ==> after.selected == shown.len() - 1
            &&& shown.len() == 0 ==> after.selected == 0
        }),
{
}

/// The directories of live workspaces are listed in the order of their rows, and no
/// other.
pub proof fn open_directories_are_those_of_workspaces(state: PickerModel, n: nat, path: Seq<char>)
    requires
        n <= state.rows.len(),
    ensures
        state.open_paths(n).contains(path) <==> exists|i: int|
            0 <= i < n && (#[trigger] state.rows[i]).kind is Open && state.rows[i].path == path,
    decreases n,
{
    if n > 0 {
        let before = state.open_paths((n - 1) as nat);
        let after = state.open_paths(n);
        open_directories_are_those_of_workspaces(state, (n - 1) as nat, path);
        if after.contains(path) {
            let x = choose|x: int| 0 <= x < after.len() && after[x] == path;
            if x < before.len() {
                assert(before[x] == path);
                assert(before.contains(path));
            } else {
                assert(state.rows[n - 1].kind is Open);
            }
        }
        if before.contains(path) {
            let x = choose|x: int| 0 <= x < before.len() && before[x] == path;
            assert(after[x] == path);
        }
        if state.rows[n - 1].kind is Open && state.rows[n - 1].path == path {
            assert(after[before.len() as int] == path);
        }
    }
}

/// Keys that mean nothing do nothing: others than those named, letters with Alt, and
/// letters with Control but for those that act.
pub proof fn other_keys_do_nothing(run: RunModel, c: char, control: bool, alt: bool)
    ensures
        run.pressed(KeyPress { key: Key::Other, control, alt }) == (run, None::<OutcomeModel>),
        !('0' <= c <= '9') && c != 'c' ==> run.pressed(
            KeyPress { key: Key::Char(c), control, alt: true },
        ) == (run, None::<OutcomeModel>),
        c != 'c' && c != 'n' && c != 'x' ==> run.pressed(
            KeyPress { key: Key::Char(c), control: true, alt: false },
        ) == (run, None::<OutcomeModel>),
{
}

/// A character that is no letter of ASCII is typed too, unless it is one that Option and
/// a digit give.
pub proof fn other_letters_are_typed(run: RunModel, c: char)
    requires
        c != '¡' && c != '™' && c != '£' && c != '¢' && c != '∞',
        c != '§' && c != '¶' && c != '•' && c != 'ª' && c != 'º',
    ensures
        ({
            let typed = run.pressed(KeyPress { key: Key::Char(c), control: false, alt: false });
            typed.1 is None && typed.0.state.query == run.state.query.push(c)
                && typed.0.state.selected == 0
        }),
{
}

/// A frame shows the run: how many live workspaces and projects there are, the query and
/// how many rows match, what Enter does with the selected row, and the rows, of which the
/// selected one is marked; or why there are none.
pub proof fn frames_show_the_run(run: RunModel, frame: Frame, width: usize)
    requires
        run.looks(frame, width),
    ensures
        frame.title@ == screen::title_spans(
            run.state.rows.filter(|row: RowModel| row.kind is Open).len(),
            run.state.rows.filter(|row: RowModel| row.kind is Dormant).len(),
            screen::refresh_status(
                run.loading,
                run.project_search_started,
                run.refresh_error is Some,
                run.project_source_status,
            ),
        ),
        frame.prompt@ == screen::prompt_of(run.state.query, run.filtered.len(), width),
        0 <= run.state.selected < run.filtered.len() ==> frame.footer@ == style::cut_spans(
            screen::footer_spans(
                Some(run.state.rows[run.filtered[run.state.selected]].kind),
            ),
            width,
        ),
        run.filtered.len() == 0 ==> frame.selected is None && text::views(frame.items@).len() == 1,
        run.filtered.len() > 0 ==> {
            let shown = (ListSource {
                rows: run.state.rows,
                filtered: run.filtered,
                selected: run.state.selected,
                width: if width >= 2 {
                    (width - 2) as usize
                } else {
                    0
                },
                anchor: run.anchor,
            }).listing(run.filtered.len());
            &&& text::views(frame.items@) == shown.items
            &&& frame.selected is Some && frame.selected->0 == shown.selected_position as usize
            &&& render::row_positions(frame.row_positions@) == shown.positions
        },
{
}

/// The directories of live workspaces come in the order of their rows.
pub proof fn open_directories_come_in_order(state: PickerModel, n: nat)
    requires
        n <= state.rows.len(),
    ensures
        state.open_paths(n) == state.rows.take(n as int).filter(
            |row: RowModel| row.kind is Open,
        ).map_values(|row: RowModel| row.path),
    decreases n,
{
    reveal(Seq::filter);
    let keep = |row: RowModel| row.kind is Open;
    let path = |row: RowModel| row.path;
    let rows = state.rows.take(n as int);
    if n == 0 {
        assert(state.open_paths(n) =~= rows.filter(keep).map_values(path));
    } else {
        open_directories_come_in_order(state, (n - 1) as nat);
        assert(rows.drop_last() =~= state.rows.take(n - 1));
        assert(rows.last() == state.rows[n - 1]);
        assert(state.open_paths(n) =~= rows.filter(keep).map_values(path));
    }
}

} // verus!
