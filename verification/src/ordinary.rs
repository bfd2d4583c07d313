//! What ordinary output, without wide characters and combining marks, leaves on
//! a screen: rows that can be drawn again.
use vstd::prelude::*;

use crate::editing::cell_of;
use crate::grid::{blank_row, history_append, Cell, CursorView, GridView, SCROLLBACK_LIMIT};
use crate::parser::{vte_actions, ActionView};
use crate::replay::is_writable;
use crate::restore::{is_printed_cell, is_printed_row, is_replayable};
use crate::screen::ScreenView;
use crate::width::{is_mark, is_wide};

verus! {

/// Whether a character takes one column.
pub open spec fn is_ordinary(c: char) -> bool {
    c != '\0' && !is_mark(c) && !is_wide(c)
}

/// Whether a cell holds one such character, and nothing else.
pub open spec fn is_simple_cell(cell: Cell) -> bool {
    cell == cell_of(cell.ch, cell.attrs) && is_ordinary(cell.ch)
}

/// Whether a row has `cols` cells, each of them simple.
#[verifier::opaque]
pub open spec fn is_simple_row(row: Seq<Cell>, cols: int) -> bool {
    row.len() == cols && forall|j: int| 0 <= j < row.len() ==> is_simple_cell(#[trigger] row[j])
}

/// Whether all of some rows are simple.
pub open spec fn are_simple_rows(rows: Seq<Seq<Cell>>, cols: int) -> bool {
    forall|i: int| 0 <= i < rows.len() ==> is_simple_row(#[trigger] rows[i], cols)
}

/// Whether a cursor stands on a grid, or behind the last column of it.
pub open spec fn is_near(cursor: CursorView, rows: int, cols: int) -> bool {
    0 <= cursor.row < rows && 0 <= cursor.col <= cols
}

/// Whether the rows of a grid are simple, and its cursor is near.
pub open spec fn is_simple_grid(grid: GridView) -> bool {
    &&& grid.rows > 0
    &&& grid.cols >= 0
    &&& grid.cells.len() == grid.rows
    &&& 0 <= grid.scroll_top <= grid.scroll_bottom < grid.rows
    &&& are_simple_rows(grid.cells, grid.cols)
    &&& is_near(grid.cursor, grid.rows, grid.cols)
}

/// Whether both grids and the history of a screen are simple, and its cursors
/// are near.
pub open spec fn is_simple(screen: ScreenView) -> bool {
    &&& is_simple_grid(screen.primary)
    &&& is_simple_grid(screen.alternate)
    &&& screen.primary.rows == screen.rows
    &&& screen.primary.cols == screen.cols
    &&& screen.alternate.rows == screen.rows
    &&& screen.alternate.cols == screen.cols
    &&& are_simple_rows(screen.scrollback, screen.cols)
    &&& screen.scrollback.len() <= SCROLLBACK_LIMIT
    &&& screen.saved_cursor matches Some(cursor) ==> is_near(cursor, screen.rows, screen.cols)
}

/// Whether an action prints no character but an ordinary one.
pub open spec fn is_ordinary_action(action: ActionView) -> bool {
    action matches ActionView::Print(c) ==> is_ordinary(c)
}

/// An empty row is simple.
proof fn lemma_blank_simple(cols: int)
    requires
        cols >= 0,
    ensures
        is_simple_row(blank_row(cols), cols),
{
    reveal(is_simple_row);
}

/// A simple row with another simple cell is simple.
proof fn lemma_cell_simple(row: Seq<Cell>, cols: int, j: int, cell: Cell)
    requires
        is_simple_row(row, cols),
        0 <= j < cols,
        is_simple_cell(cell),
    ensures
        is_simple_row(row.update(j, cell), cols),
{
    reveal(is_simple_row);
    assert forall|k: int| 0 <= k < row.len() implies is_simple_cell(
        #[trigger] row.update(j, cell)[k],
    ) by {
        assert(is_simple_cell(row[k]));
    }
}

/// A grid with another simple row is simple.
proof fn lemma_row_simple(grid: GridView, i: int, row: Seq<Cell>)
    requires
        is_simple_grid(grid),
        0 <= i < grid.rows,
        is_simple_row(row, grid.cols),
    ensures
        is_simple_grid(GridView { cells: grid.cells.update(i, row), ..grid }),
{
    let cells = grid.cells.update(i, row);
    assert forall|k: int| 0 <= k < cells.len() implies is_simple_row(
        #[trigger] cells[k],
        grid.cols,
    ) by {
        if k != i {
            assert(cells[k] == grid.cells[k]);
        }
    }
}

/// A placed character leaves a grid simple.
proof fn lemma_placed_simple(grid: GridView, c: char)
    requires
        is_simple_grid(grid),
        grid.cursor.col < grid.cols,
        is_ordinary(c),
    ensures
        is_simple_grid(grid.placed(c)),
{
    let i = grid.cursor_row();
    let row = grid.cells[i];
    lemma_cell_simple(row, grid.cols, grid.cursor.col, cell_of(c, grid.cursor.attrs));
    lemma_row_simple(
        grid,
        i,
        row.update(grid.cursor.col, cell_of(c, grid.cursor.attrs)),
    );
}

/// A scrolled grid is simple, and so are the rows that leave it.
proof fn lemma_scrolled_simple(grid: GridView)
    requires
        is_simple_grid(grid),
    ensures
        is_simple_grid(grid.scrolled_up()),
        is_simple_grid(grid.scrolled_down()),
        are_simple_rows(grid.scrolled_off(), grid.cols),
{
    lemma_blank_simple(grid.cols);
    let up = grid.scrolled_up().cells;
    let down = grid.scrolled_down().cells;
    assert forall|k: int| 0 <= k < up.len() implies is_simple_row(#[trigger] up[k], grid.cols) by {
        if k != grid.scroll_bottom {
            let from = if grid.scroll_top <= k < grid.scroll_bottom {
                k + 1
            } else {
                k
            };
            assert(up[k] == grid.cells[from]);
        }
    }
    assert forall|k: int| 0 <= k < down.len() implies is_simple_row(
        #[trigger] down[k],
        grid.cols,
    ) by {
        if k != grid.scroll_top {
            let from = if grid.scroll_top < k <= grid.scroll_bottom {
                k - 1
            } else {
                k
            };
            assert(down[k] == grid.cells[from]);
        }
    }
}

/// A line feed leaves a grid simple.
proof fn lemma_fed_simple(grid: GridView, col: int)
    requires
        is_simple_grid(grid),
        0 <= col <= grid.cols,
    ensures
        is_simple_grid(grid.line_fed(col)),
        are_simple_rows(grid.fed_off(), grid.cols),
{
    lemma_scrolled_simple(grid.with_cursor(grid.cursor_row(), col));
    lemma_scrolled_simple(grid);
}

/// An ordinary character leaves a grid simple.
proof fn lemma_printed_simple(grid: GridView, c: char)
    requires
        is_simple_grid(grid),
        is_ordinary(c),
    ensures
        is_simple_grid(grid.printed(c)),
        are_simple_rows(grid.printed_off(c), grid.cols),
{
    lemma_fed_simple(grid, 0);
    if grid.cols > 0 {
        if grid.wraps(c) {
            lemma_placed_simple(grid.line_fed(0), c);
        } else {
            lemma_placed_simple(grid, c);
        }
    }
}

/// Emptied cells leave a grid simple.
proof fn lemma_erased_simple(grid: GridView, i: int, from: int, to: int)
    requires
        is_simple_grid(grid),
        0 <= i < grid.rows,
    ensures
        is_simple_grid(grid.erased(i, from, to)),
{
    let row = grid.erased(i, from, to).cells[i];
    assert(is_simple_row(row, grid.cols)) by {
        reveal(is_simple_row);
        assert(is_simple_row(grid.cells[i], grid.cols));
        assert forall|j: int| 0 <= j < row.len() implies is_simple_cell(#[trigger] row[j]) by {
            assert(is_simple_cell(grid.cells[i][j]));
        }
    }
    lemma_row_simple(grid, i, row);
}

/// Emptied rows leave a grid simple.
proof fn lemma_cleared_simple(grid: GridView, from: int, to: int)
    requires
        is_simple_grid(grid),
    ensures
        is_simple_grid(grid.cleared(from, to)),
{
    lemma_blank_simple(grid.cols);
    let cells = grid.cleared(from, to).cells;
    assert forall|k: int| 0 <= k < cells.len() implies is_simple_row(
        #[trigger] cells[k],
        grid.cols,
    ) by {
        assert(is_simple_row(grid.cells[k], grid.cols));
    }
}

/// A control sequence leaves a grid simple.
proof fn lemma_controlled_simple(grid: GridView, params: Seq<Seq<u16>>, action: char)
    requires
        is_simple_grid(grid),
    ensures
        is_simple_grid(grid.controlled(params, action)),
{
    let row = grid.cursor_row();
    if action == 'J' {
        lemma_erased_simple(grid, row, grid.cursor_col(), grid.cols);
        lemma_erased_simple(grid, row, 0, grid.cursor_col() + 1);
        lemma_cleared_simple(grid.line_erased(0), row + 1, grid.rows);
        lemma_cleared_simple(grid.line_erased(1), 0, row);
        lemma_cleared_simple(grid, 0, grid.rows);
    } else if action == 'K' {
        lemma_erased_simple(grid, row, grid.cursor_col(), grid.cols);
        lemma_erased_simple(grid, row, 0, grid.cursor_col() + 1);
        lemma_erased_simple(grid, row, 0, grid.cols);
    }
}

/// Rows that go to a history leave it simple, and within its limit.
proof fn lemma_history_simple(history: Seq<Seq<Cell>>, rows: Seq<Seq<Cell>>, cols: int)
    requires
        are_simple_rows(history, cols),
        are_simple_rows(rows, cols),
        history.len() <= SCROLLBACK_LIMIT,
    ensures
        are_simple_rows(history_append(history, rows), cols),
        history_append(history, rows).len() <= SCROLLBACK_LIMIT,
{
    let all = history + rows;
    let kept = history_append(history, rows);
    assert forall|k: int| 0 <= k < kept.len() implies is_simple_row(#[trigger] kept[k], cols) by {
        let at = k + (all.len() - kept.len());
        assert(kept[k] == all[at]);
        if at < history.len() {
            assert(all[at] == history[at]);
        } else {
            assert(all[at] == rows[at - history.len()]);
        }
    }
}

/// Another simple grid in the place of the one that is shown leaves a screen
/// simple.
proof fn lemma_active_simple(screen: ScreenView, grid: GridView)
    requires
        is_simple(screen),
        is_simple_grid(grid),
        grid.rows == screen.rows,
        grid.cols == screen.cols,
    ensures
        is_simple(screen.with_active(grid)),
{
}

/// Simple rows that leave the grid leave a screen simple.
proof fn lemma_off_simple(screen: ScreenView, rows: Seq<Seq<Cell>>)
    requires
        is_simple(screen),
        are_simple_rows(rows, screen.cols),
    ensures
        is_simple(screen.with_rows_off(rows)),
{
    lemma_history_simple(screen.scrollback, rows, screen.cols);
}

/// Printing leaves a screen simple.
proof fn lemma_print_simple(screen: ScreenView, c: char)
    requires
        is_simple(screen),
        is_ordinary(c),
    ensures
        is_simple(screen.printed(c)),
{
    let grid = screen.active();
    lemma_printed_simple(grid, c);
    lemma_off_simple(screen, grid.printed_off(c));
    lemma_active_simple(screen.with_rows_off(grid.printed_off(c)), grid.printed(c));
}

/// A line feed leaves a screen simple.
proof fn lemma_feed_simple(screen: ScreenView, col: int)
    requires
        is_simple(screen),
        0 <= col <= screen.cols,
    ensures
        is_simple(screen.line_fed(col)),
{
    let grid = screen.active();
    lemma_fed_simple(grid, col);
    lemma_off_simple(screen, grid.fed_off());
    lemma_active_simple(screen.with_rows_off(grid.fed_off()), grid.line_fed(col));
}

/// A control character leaves a screen simple.
proof fn lemma_execute_simple(screen: ScreenView, byte: u8)
    requires
        is_simple(screen),
    ensures
        is_simple(screen.executed(byte)),
{
    let grid = screen.active();
    lemma_controlled_simple(grid, Seq::empty(), 'D');
    lemma_feed_simple(screen, grid.cursor.col);
    lemma_active_simple(screen, grid.controlled(Seq::empty(), 'D'));
    lemma_active_simple(screen, grid.tabbed());
    lemma_active_simple(screen, grid.with_cursor(grid.cursor.row, 0));
}

/// An escape sequence leaves a screen simple.
proof fn lemma_escape_simple(screen: ScreenView, byte: u8)
    requires
        is_simple(screen),
    ensures
        is_simple(screen.escaped(byte)),
{
    let grid = screen.active();
    lemma_feed_simple(screen, grid.cursor.col);
    lemma_feed_simple(screen, 0);
    lemma_scrolled_simple(grid.with_cursor(grid.cursor_row(), grid.cursor.col));
    lemma_active_simple(screen, grid.line_reversed());
    if let Some(cursor) = screen.saved_cursor {
        lemma_active_simple(screen, GridView { cursor, ..grid });
    }
}

/// Private modes leave a screen simple.
proof fn lemma_modes_simple(screen: ScreenView, params: Seq<Seq<u16>>, on: bool)
    requires
        is_simple(screen),
    ensures
        is_simple(screen.with_modes(params, on)),
    decreases params.len(),
{
    if params.len() > 0 {
        lemma_modes_simple(screen, params.drop_last(), on);
    }
}

/// A control sequence leaves a screen simple.
proof fn lemma_control_simple(
    screen: ScreenView,
    params: Seq<Seq<u16>>,
    intermediates: Seq<u8>,
    action: char,
)
    requires
        is_simple(screen),
    ensures
        is_simple(screen.controlled(params, intermediates, action)),
{
    let grid = screen.active();
    lemma_controlled_simple(grid, params, action);
    lemma_active_simple(screen, grid.controlled(params, action));
    lemma_modes_simple(screen, params, true);
    lemma_modes_simple(screen, params, false);
}

/// An action that prints no character but an ordinary one leaves a screen
/// simple.
proof fn lemma_action_simple(screen: ScreenView, action: ActionView)
    requires
        is_simple(screen),
        is_ordinary_action(action),
    ensures
        is_simple(screen.performed(action)),
{
    match action {
        ActionView::Print(c) => lemma_print_simple(screen, c),
        ActionView::Execute(byte) => lemma_execute_simple(screen, byte),
        ActionView::Csi { params, intermediates, ignore, action } => {
            lemma_control_simple(screen, params, intermediates, action);
        },
        ActionView::Esc { intermediates, ignore, byte } => lemma_escape_simple(screen, byte),
        ActionView::Osc { fields, bell_terminated } => {},
    }
}

/// A change of screens leaves a screen simple.
proof fn lemma_settled_simple(screen: ScreenView)
    requires
        is_simple(screen),
    ensures
        is_simple(screen.settled()),
{
    lemma_empty_simple(screen.cols, screen.rows);
}

/// An empty grid is simple.
proof fn lemma_empty_simple(cols: int, rows: int)
    requires
        cols >= 0,
        rows > 0,
    ensures
        is_simple_grid(GridView::empty(cols, rows)),
{
    lemma_blank_simple(cols);
}

/// A fresh screen is simple.
pub proof fn fresh_screens_are_simple(cols: int, rows: int)
    requires
        cols >= 0,
        rows > 0,
    ensures
        is_simple(ScreenView::fresh(cols, rows)),
{
    lemma_empty_simple(cols, rows);
}

/// Actions that print no characters but ordinary ones leave a screen simple.
pub proof fn ordinary_actions_keep_a_screen_simple(screen: ScreenView, actions: Seq<ActionView>)
    requires
        is_simple(screen),
        forall|i: int| 0 <= i < actions.len() ==> is_ordinary_action(#[trigger] actions[i]),
    ensures
        is_simple(screen.performed_all(actions)),
        is_simple(screen.performed_all(actions).settled()),
    decreases actions.len(),
{
    if actions.len() > 0 {
        let front = actions.drop_last();
        assert forall|i: int| 0 <= i < front.len() implies is_ordinary_action(
            #[trigger] front[i],
        ) by {
            assert(front[i] == actions[i]);
        }
        ordinary_actions_keep_a_screen_simple(screen, front);
        assert(is_ordinary_action(actions[actions.len() - 1]));
        lemma_action_simple(screen.performed_all(front), actions.last());
    }
    lemma_settled_simple(screen.performed_all(actions));
}

/// Whether output, behind the bytes that a parser was fed before, prints no
/// characters but ordinary ones.
pub open spec fn is_ordinary_output(input: Seq<u8>, data: Seq<u8>) -> bool
    decreases data.len(),
{
    data.len() > 0 ==> {
        let front = data.drop_last();
        let actions = vte_actions(input + front, data.last());
        &&& is_ordinary_output(input, front)
        &&& forall|i: int| 0 <= i < actions.len() ==> is_ordinary_action(#[trigger] actions[i])
    }
}

/// A screen keeps account of the bytes that it was fed, and its size.
pub(crate) proof fn lemma_fed_input(screen: ScreenView, data: Seq<u8>)
    ensures
        screen.fed(data).input == screen.input + data,
        screen.fed(data).cols == screen.cols,
        screen.fed(data).rows == screen.rows,
    decreases data.len(),
{
    if data.len() == 0 {
        assert(screen.input + data =~= screen.input);
    } else {
        let front = data.drop_last();
        let before = screen.fed(front);
        lemma_fed_input(screen, front);
        let parsed = ScreenView { input: before.input.push(data.last()), ..before };
        lemma_actions_input(parsed, vte_actions(before.input, data.last()));
        assert((screen.input + front).push(data.last()) =~= screen.input + data);
    }
}

/// A control character feeds no bytes, and keeps the size.
proof fn lemma_executed_input(screen: ScreenView, byte: u8)
    ensures
        screen.executed(byte).input == screen.input,
        screen.executed(byte).cols == screen.cols,
        screen.executed(byte).rows == screen.rows,
{
}

/// An escape sequence feeds no bytes, and keeps the size.
proof fn lemma_escaped_input(screen: ScreenView, byte: u8)
    ensures
        screen.escaped(byte).input == screen.input,
        screen.escaped(byte).cols == screen.cols,
        screen.escaped(byte).rows == screen.rows,
{
}

/// A control sequence feeds no bytes, and keeps the size.
proof fn lemma_controlled_input(
    screen: ScreenView,
    params: Seq<Seq<u16>>,
    intermediates: Seq<u8>,
    action: char,
)
    ensures
        screen.controlled(params, intermediates, action).input == screen.input,
        screen.controlled(params, intermediates, action).cols == screen.cols,
        screen.controlled(params, intermediates, action).rows == screen.rows,
{
    lemma_modes_input(screen, params, true);
    lemma_modes_input(screen, params, false);
}

/// An action feeds no bytes, and keeps the size.
proof fn lemma_action_input(screen: ScreenView, action: ActionView)
    ensures
        screen.performed(action).input == screen.input,
        screen.performed(action).cols == screen.cols,
        screen.performed(action).rows == screen.rows,
{
    match action {
        ActionView::Execute(byte) => lemma_executed_input(screen, byte),
        ActionView::Csi { params, intermediates, ignore, action } => {
            lemma_controlled_input(screen, params, intermediates, action);
        },
        ActionView::Esc { intermediates, ignore, byte } => lemma_escaped_input(screen, byte),
        _ => {},
    }
}

/// Actions feed no bytes, and keep the size.
proof fn lemma_actions_input(screen: ScreenView, actions: Seq<ActionView>)
    ensures
        screen.performed_all(actions).input == screen.input,
        screen.performed_all(actions).cols == screen.cols,
        screen.performed_all(actions).rows == screen.rows,
    decreases actions.len(),
{
    if actions.len() > 0 {
        lemma_actions_input(screen, actions.drop_last());
        lemma_action_input(screen.performed_all(actions.drop_last()), actions.last());
    }
}

/// Private modes feed no bytes, and keep the size.
proof fn lemma_modes_input(screen: ScreenView, params: Seq<Seq<u16>>, on: bool)
    ensures
        screen.with_modes(params, on).input == screen.input,
        screen.with_modes(params, on).cols == screen.cols,
        screen.with_modes(params, on).rows == screen.rows,
    decreases params.len(),
{
    if params.len() > 0 {
        lemma_modes_input(screen, params.drop_last(), on);
    }
}

/// Output that prints no characters but ordinary ones leaves a screen simple.
pub proof fn ordinary_output_keeps_a_screen_simple(screen: ScreenView, data: Seq<u8>)
    requires
        is_simple(screen),
    ensures
        is_ordinary_output(screen.input, data) ==> is_simple(screen.fed(data)),
    decreases data.len(),
{
    if data.len() > 0 && is_ordinary_output(screen.input, data) {
        let front = data.drop_last();
        let before = screen.fed(front);
        ordinary_output_keeps_a_screen_simple(screen, front);
        lemma_fed_input(screen, front);
        let parsed = ScreenView { input: before.input.push(data.last()), ..before };
        ordinary_actions_keep_a_screen_simple(parsed, vte_actions(before.input, data.last()));
    }
}

/// A simple row is as printing leaves it.
proof fn lemma_simple_printed(row: Seq<Cell>, cols: int)
    requires
        is_simple_row(row, cols),
    ensures
        is_printed_row(row),
        row.len() == cols,
        forall|j: int| 0 <= j < row.len() ==> (#[trigger] row[j]).wf(),
{
    reveal(is_simple_row);
    reveal(is_printed_row);
    assert forall|j: int| 0 <= j < row.len() implies #[trigger] is_printed_cell(row, j) by {
        assert(is_simple_cell(row[j]));
        assert(row[j].marks().len() == 0);
    }
    assert forall|j: int| 0 <= j < row.len() implies (#[trigger] row[j]).wf() by {
        assert(is_simple_cell(row[j]));
    }
}

/// A simple grid whose places can be written can be drawn, and its cursor put
/// back.
proof fn lemma_simple_replayable(grid: GridView)
    requires
        is_simple_grid(grid),
        grid.rows < u16::MAX,
        grid.cols < u16::MAX,
    ensures
        is_replayable(grid),
{
    assert forall|i: int| 0 <= i < grid.rows implies (#[trigger] grid.cells[i]).len() == grid.cols
        && is_printed_row(grid.cells[i]) by {
        lemma_simple_printed(grid.cells[i], grid.cols);
    }
    assert forall|i: int, j: int|
        0 <= i < grid.cells.len() && 0 <= j < grid.cells[i].len() implies (
    #[trigger] grid.cells[i][j]).wf() by {
        lemma_simple_printed(grid.cells[i], grid.cols);
    }
}

/// A simple screen whose places can be written is well formed, and can be
/// drawn again with its history.
pub proof fn simple_screens_can_be_replayed(screen: ScreenView)
    requires
        is_simple(screen),
        screen.rows < u16::MAX,
        screen.cols < u16::MAX,
    ensures
        screen.wf(),
        is_replayable(screen.primary),
        is_replayable(screen.alternate),
        is_writable(screen.scrollback, screen.cols),
{
    lemma_simple_replayable(screen.primary);
    lemma_simple_replayable(screen.alternate);
    let history = screen.scrollback;
    assert forall|i: int| 0 <= i < history.len() implies (#[trigger] history[i]).len()
        == screen.cols && is_printed_row(history[i]) by {
        lemma_simple_printed(history[i], screen.cols);
    }
    assert forall|i: int, j: int| 0 <= i < history.len() && 0 <= j < history[i].len() implies (
    #[trigger] history[i][j]).wf() by {
        lemma_simple_printed(history[i], screen.cols);
    }
}

/// Whatever a screen is fed that prints no characters but ordinary ones, it can
/// be drawn again with its history.
pub proof fn ordinary_output_can_be_replayed(cols: int, rows: int, data: Seq<u8>)
    requires
        0 <= cols < u16::MAX,
        0 < rows < u16::MAX,
    ensures
        ({
            let screen = ScreenView::fresh(cols, rows).fed(data);
            is_ordinary_output(Seq::empty(), data) ==> {
                &&& screen.wf()
                &&& is_replayable(screen.primary)
                &&& is_replayable(screen.alternate)
                &&& is_writable(screen.scrollback, screen.cols)
            }
        }),
{
    let fresh = ScreenView::fresh(cols, rows);
    fresh_screens_are_simple(cols, rows);
    ordinary_output_keeps_a_screen_simple(fresh, data);
    lemma_fed_input(fresh, data);
    if is_ordinary_output(Seq::empty(), data) {
        simple_screens_can_be_replayed(fresh.fed(data));
    }
}

} // verus!
