//! What a client holds that is sent the history of a screen and then the
//! screen: all that was there.
use vstd::prelude::*;

use crate::grid::{
    blank_row, cells_wf, history_append, max, Cell, CellAttrs, CursorView, GridView,
    SCROLLBACK_LIMIT,
};
use crate::laws::{chunks_hold_the_history, concatenated};
use crate::render::styled_row;
use crate::restore::{
    after_step, after_steps, is_printed_row, is_quiet, is_replayable, is_replayed,
    lemma_after_concat, lemma_after_feed, lemma_after_one, lemma_row_drawn, lemma_row_text,
    lemma_text_concat, lemma_text_two, replay_restores_both_screens, replay_steps, row_steps,
    steps_text, Step,
};
use crate::screen::ScreenView;
use crate::snapshot::{styled_chunks, styled_lines};
use crate::text::lemma_append;

verus! {

/// The steps that write one row of the history.
pub open spec fn line_steps(row: Seq<Cell>) -> Seq<Step> {
    row_steps(row) + seq![Step::Return, Step::Feed]
}

/// The steps that write the history.
pub open spec fn history_steps(rows: Seq<Seq<Cell>>) -> Seq<Step>
    decreases rows.len(),
{
    if rows.len() == 0 {
        Seq::empty()
    } else {
        history_steps(rows.drop_last()) + line_steps(rows.last())
    }
}

/// The text of the history is that of its steps.
proof fn lemma_history_text(rows: Seq<Seq<Cell>>)
    ensures
        styled_lines(rows) == steps_text(history_steps(rows)),
    decreases rows.len(),
{
    if rows.len() > 0 {
        let front = rows.drop_last();
        let row = rows.last();
        let end = seq![Step::Return, Step::Feed];
        lemma_history_text(front);
        lemma_row_text(row);
        lemma_text_two(Step::Return, Step::Feed);
        reveal_strlit("\r\n");
        assert(steps_text(end) =~= "\r\n"@);
        lemma_text_concat(row_steps(row), end);
        lemma_text_concat(history_steps(front), line_steps(row));
        lemma_append(styled_lines(front), styled_row(row), "\r\n"@);
    }
}

/// The pieces of the history, whatever their size, are the text of its steps.
pub proof fn chunks_write_their_steps(rows: Seq<Seq<Cell>>, lines: int)
    requires
        lines > 0,
    ensures
        concatenated(styled_chunks(rows, lines)) == steps_text(history_steps(rows)),
{
    chunks_hold_the_history(rows, lines);
    lemma_history_text(rows);
}

/// How many of `k` rows have left a screen of `rows` rows, which keeps its last
/// row for the cursor.
pub open spec fn gone_rows(k: int, rows: int) -> int {
    max(0, k - (rows - 1))
}

/// A fresh screen to which a history was written: the last rows are in view,
/// with the cursor below them, and those above are in its own history.
pub open spec fn history_shown(cols: int, rows: int, history: Seq<Seq<Cell>>) -> ScreenView {
    let fresh = ScreenView::fresh(cols, rows);
    let gone = gone_rows(history.len() as int, rows);
    ScreenView {
        primary: GridView {
            cells: Seq::new(
                rows as nat,
                |i: int|
                    if i < history.len() - gone {
                        history[gone + i]
                    } else {
                        blank_row(cols)
                    },
            ),
            cursor: CursorView {
                row: history.len() - gone,
                col: 0,
                attrs: CellAttrs::plain(),
            },
            ..fresh.primary
        },
        scrollback: history.take(gone),
        ..fresh
    }
}

/// Whether a history can be written to a screen of `cols` columns: its rows
/// have that width and are as printing leaves them.
pub open spec fn is_writable(history: Seq<Seq<Cell>>, cols: int) -> bool {
    &&& history.len() <= SCROLLBACK_LIMIT
    &&& cells_wf(history)
    &&& forall|i: int|
        0 <= i < history.len() ==> (#[trigger] history[i]).len() == cols && is_printed_row(
            history[i],
        )
}

/// Such a screen is well formed, and quiet.
pub(crate) proof fn lemma_shown_quiet(cols: int, rows: int, history: Seq<Seq<Cell>>)
    requires
        cols >= 0,
        rows > 0,
        is_writable(history, cols),
    ensures
        is_quiet(history_shown(cols, rows, history)),
{
    let shown = history_shown(cols, rows, history);
    let gone = gone_rows(history.len() as int, rows);
    let cells = shown.primary.cells;
    assert forall|a: int, b: int| 0 <= a < cells.len() && 0 <= b < cells[a].len() implies (
    #[trigger] cells[a][b]).wf() by {
        if a < history.len() - gone {
            assert(history[gone + a][b].wf());
        }
    }
    assert forall|a: int, b: int|
        0 <= a < shown.scrollback.len() && 0 <= b < shown.scrollback[a].len() implies (
    #[trigger] shown.scrollback[a][b]).wf() by {
        assert(history[a][b].wf());
    }
    assert forall|i: int| 0 <= i < rows implies (#[trigger] cells[i]).len() == cols by {
        if i < history.len() - gone {
            assert(history[gone + i].len() == cols);
        }
    }
}

/// The cursor goes to the start of its line.
proof fn lemma_after_return(screen: ScreenView)
    requires
        is_quiet(screen),
    ensures
        after_step(screen, Step::Return) == screen.with_active(
            screen.active().with_cursor(screen.active().cursor.row, 0),
        ),
{
    reveal(after_step);
}

/// A line feed above the last row.
proof fn lemma_after_feed_above(screen: ScreenView)
    requires
        is_quiet(screen),
        !screen.using_alternate,
        screen.primary.scroll_bottom == screen.rows - 1,
        0 <= screen.primary.cursor.row < screen.rows - 1,
    ensures
        after_step(screen, Step::Feed) == screen.with_active(
            screen.primary.with_cursor(screen.primary.cursor.row + 1, screen.primary.cursor.col),
        ),
{
    reveal(after_step);
    let none = Seq::<Seq<Cell>>::empty();
    assert(screen.scrollback + none =~= screen.scrollback);
    assert(history_append(screen.scrollback, none) =~= screen.scrollback);
}

/// One more row of the history: it is drawn in the line of the cursor.
proof fn lemma_line_drawn(cols: int, rows: int, front: Seq<Seq<Cell>>, row: Seq<Cell>)
    requires
        cols >= 0,
        rows > 0,
        is_writable(front.push(row), cols),
    ensures
        ({
            let before = history_shown(cols, rows, front);
            let i = before.primary.cursor.row;
            let drawn = ScreenView {
                primary: GridView {
                    cells: before.primary.cells.update(i, row),
                    ..before.primary
                },
                ..before
            };
            &&& is_quiet(drawn)
            &&& after_steps(before, row_steps(row) + seq![Step::Return]) == drawn
        }),
{
    let all = front.push(row);
    let before = history_shown(cols, rows, front);
    let i = before.primary.cursor.row;
    assert(is_writable(front, cols)) by {
        assert forall|k: int| 0 <= k < front.len() implies (#[trigger] front[k]).len() == cols
            && is_printed_row(front[k]) by {
            assert(all[k] == front[k]);
        }
        assert forall|a: int, b: int| 0 <= a < front.len() && 0 <= b < front[a].len() implies (
        #[trigger] front[a][b]).wf() by {
            assert(all[a][b].wf());
        }
    }
    lemma_shown_quiet(cols, rows, front);
    assert(all[front.len() as int] == row);
    lemma_row_drawn(before, i, row);
    let drawn = ScreenView {
        primary: GridView { cells: before.primary.cells.update(i, row), ..before.primary },
        ..before
    };
    let cells = drawn.primary.cells;
    assert forall|a: int, b: int| 0 <= a < cells.len() && 0 <= b < cells[a].len() implies (
    #[trigger] cells[a][b]).wf() by {
        if a == i {
            assert(all[front.len() as int][b].wf());
        } else {
            assert(before.primary.cells[a][b].wf());
        }
    }
    lemma_after_concat(before, row_steps(row), seq![Step::Return]);
    let inked = after_steps(before, row_steps(row));
    lemma_after_one(inked, Step::Return);
    lemma_after_return(inked);
    assert(after_step(inked, Step::Return) =~= drawn);
}

/// One more row of the history: the cursor goes to the line below it.
proof fn lemma_line_fed(cols: int, rows: int, front: Seq<Seq<Cell>>, row: Seq<Cell>)
    requires
        cols >= 0,
        rows > 0,
        is_writable(front.push(row), cols),
    ensures
        after_steps(history_shown(cols, rows, front), line_steps(row)) == history_shown(
            cols,
            rows,
            front.push(row),
        ),
{
    let all = front.push(row);
    let before = history_shown(cols, rows, front);
    let after = history_shown(cols, rows, all);
    let i = before.primary.cursor.row;
    let ink = row_steps(row) + seq![Step::Return];
    lemma_line_drawn(cols, rows, front, row);
    let drawn = after_steps(before, ink);
    assert(line_steps(row) =~= ink + seq![Step::Feed]);
    lemma_after_concat(before, ink, seq![Step::Feed]);
    lemma_after_one(drawn, Step::Feed);
    if i < rows - 1 {
        lemma_after_feed_above(drawn);
        assert(drawn.primary.cells =~= after.primary.cells);
        assert(drawn.scrollback =~= after.scrollback);
    } else {
        lemma_after_feed(drawn);
        let gone = gone_rows(front.len() as int, rows);
        assert(drawn.primary.cells[0] == all[gone]);
        assert(drawn.primary.scrolled_up().cells =~= after.primary.cells);
        assert(history_append(drawn.scrollback, seq![all[gone]]) =~= after.scrollback);
    }
}

/// A fresh client of the same width that is sent a history holds it: the last
/// rows in view above the cursor, the others in its own history.
pub proof fn history_is_written(cols: int, rows: int, history: Seq<Seq<Cell>>)
    requires
        cols >= 0,
        rows > 0,
        is_writable(history, cols),
    ensures
        after_steps(ScreenView::fresh(cols, rows), history_steps(history)) == history_shown(
            cols,
            rows,
            history,
        ),
    decreases history.len(),
{
    let fresh = ScreenView::fresh(cols, rows);
    if history.len() == 0 {
        let shown = history_shown(cols, rows, history);
        assert(shown.primary.cells =~= fresh.primary.cells);
        assert(shown.scrollback =~= fresh.scrollback);
    } else {
        let front = history.drop_last();
        let row = history.last();
        assert(front.push(row) =~= history);
        assert(is_writable(front, cols)) by {
            assert forall|a: int, b: int| 0 <= a < front.len() && 0 <= b < front[a].len() implies (
            #[trigger] front[a][b]).wf() by {
                assert(history[a][b].wf());
            }
        }
        history_is_written(cols, rows, front);
        lemma_after_concat(fresh, history_steps(front), line_steps(row));
        lemma_line_fed(cols, rows, front, row);
    }
}

/// The rows of the history that a client shows and those in its own history
/// are all of it, once the rows that are shown have gone there too.
pub(crate) proof fn lemma_history_kept(screen: ScreenView)
    requires
        screen.rows > 0,
        is_writable(screen.scrollback, screen.cols),
    ensures
        ({
            let client = history_shown(screen.cols, screen.rows, screen.scrollback);
            history_append(client.scrollback, client.primary.cells.take(screen.rows_in_view()))
                == screen.scrollback
        }),
{
    let history = screen.scrollback;
    let client = history_shown(screen.cols, screen.rows, history);
    let gone = gone_rows(history.len() as int, screen.rows);
    let n = screen.rows_in_view();
    assert(n == history.len() - gone);
    assert(history.take(gone) + client.primary.cells.take(n) =~= history);
    assert(history_append(client.scrollback, client.primary.cells.take(n)) =~= history);
}

/// A fresh client of the same size that is sent the history of a pane and then
/// its snapshot for clients that reconnect holds all of it: the whole history,
/// no row of it lost, repeated or drawn over, both screens with their cursors,
/// and the private modes but for focus events.
pub proof fn history_and_replay_restore_a_pane(screen: ScreenView)
    requires
        screen.wf(),
        is_replayable(screen.primary),
        screen.using_alternate ==> is_replayable(screen.alternate),
        is_writable(screen.scrollback, screen.cols),
    ensures
        ({
            let fresh = ScreenView::fresh(screen.cols, screen.rows);
            let client = after_steps(fresh, history_steps(screen.scrollback));
            let after = after_steps(client, replay_steps(screen));
            &&& is_replayed(client, screen, after)
            &&& after.scrollback == screen.scrollback
        }),
{
    let rows = screen.rows;
    let history = screen.scrollback;
    history_is_written(screen.cols, rows, history);
    lemma_shown_quiet(screen.cols, rows, history);
    let client = history_shown(screen.cols, rows, history);
    replay_restores_both_screens(client, screen);
    lemma_history_kept(screen);
}

} // verus!
