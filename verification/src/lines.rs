//! Where the lines of a grid go when it scrolls and when its size changes.
use vstd::prelude::*;

use crate::grid::{
    blank_at_bottom, history_append, is_blank_cell, is_blank_row, Cell, CellAttrs, GridView,
};
use crate::screen::ScreenView;

verus! {

/// Whether a cell is as nothing has ever been written to it: a space in the
/// plain look, without marks.
pub open spec fn is_untouched(cell: Cell) -> bool {
    &&& cell.ch == ' '
    &&& cell.combining_len == 0
    &&& has_plain_look(cell)
}

/// Whether a cell has no colours and is neither bold nor dim, slanted,
/// underlined, inverse or struck out.
pub open spec fn has_plain_look(cell: Cell) -> bool {
    &&& cell.attrs.fg is None
    &&& cell.attrs.bg is None
    &&& !cell.attrs.bold
    &&& !cell.attrs.dim
    &&& !cell.attrs.italic
    &&& !cell.attrs.underline
    &&& !cell.attrs.inverse
    &&& !cell.attrs.strikethrough
}

/// Whether nothing can be seen of a row: spaces, and null characters, in the
/// plain look.
pub open spec fn shows_nothing(row: Seq<Cell>) -> bool {
    forall|j: int|
        0 <= j < row.len() ==> ((#[trigger] row[j]).ch == ' ' || row[j].ch == '\0')
            && has_plain_look(row[j])
}

/// Whether a row is as nothing has ever been written to it.
pub open spec fn is_untouched_row(row: Seq<Cell>, cols: int) -> bool {
    row.len() == cols && forall|j: int| 0 <= j < cols ==> is_untouched(#[trigger] row[j])
}

/// Scrolling up loses no line of the top of the screen, whatever rows are kept
/// at its bottom: the row that leaves to the history and those that stay are all
/// the rows in their order, but for an empty one that comes in at the end of the
/// part that scrolls.
pub proof fn scrolling_up_keeps_every_line(grid: GridView)
    requires
        grid.wf(),
        grid.scroll_top == 0,
    ensures
        grid.scrolled_off() + grid.scrolled_up().cells.remove(grid.scroll_bottom) == grid.cells,
        grid.scrolled_off().len() == 1,
        is_untouched_row(grid.scrolled_up().cells[grid.scroll_bottom], grid.cols),
        grid.scrolled_up().cells.len() == grid.rows,
{
    let up = grid.scrolled_up().cells;
    assert(grid.scrolled_off() + up.remove(grid.scroll_bottom) =~= grid.cells);
}

/// Where the top line of the screen does not scroll, scrolling up leaves the
/// history alone and loses the first row of the part that scrolls, and no
/// other.
pub proof fn scrolling_up_below_the_top(grid: GridView)
    requires
        grid.wf(),
        grid.scroll_top > 0,
    ensures
        grid.scrolled_off().len() == 0,
        grid.scrolled_up().cells.remove(grid.scroll_bottom) == grid.cells.remove(grid.scroll_top),
        is_untouched_row(grid.scrolled_up().cells[grid.scroll_bottom], grid.cols),
        grid.scrolled_up().cells.len() == grid.rows,
{
    let up = grid.scrolled_up().cells;
    assert(up.remove(grid.scroll_bottom) =~= grid.cells.remove(grid.scroll_top));
}

/// Scrolling down loses the last row of the part that scrolls, and no other; an
/// empty one comes in at its start.
pub proof fn scrolling_down_loses_the_last_line(grid: GridView)
    requires
        grid.wf(),
    ensures
        grid.scrolled_down().cells.remove(grid.scroll_top) == grid.cells.remove(
            grid.scroll_bottom,
        ),
        is_untouched_row(grid.scrolled_down().cells[grid.scroll_top], grid.cols),
        grid.scrolled_down().cells.len() == grid.rows,
{
    let down = grid.scrolled_down().cells;
    assert(down.remove(grid.scroll_top) =~= grid.cells.remove(grid.scroll_bottom));
}

/// Scrolling down undoes scrolling up but for the row that left, and the other
/// way round.
pub proof fn scrolling_there_and_back(grid: GridView, row: int)
    requires
        grid.wf(),
        0 <= row < grid.rows,
    ensures
        row != grid.scroll_top ==> grid.scrolled_up().scrolled_down().cells[row]
            == grid.cells[row],
        row != grid.scroll_bottom ==> grid.scrolled_down().scrolled_up().cells[row]
            == grid.cells[row],
{
}

/// Scrolling moves rows and nothing else: the cursor, its look, the part that
/// scrolls and the size stay.
pub proof fn scrolling_keeps_the_cursor(grid: GridView)
    ensures
        grid.scrolled_up() == (GridView { cells: grid.scrolled_up().cells, ..grid }),
        grid.scrolled_down() == (GridView { cells: grid.scrolled_down().cells, ..grid }),
{
}

/// The history keeps its newest rows, up to ten thousand of them; a row that
/// comes is its last, and those before it keep their order.
pub proof fn history_takes_a_row(history: Seq<Seq<Cell>>, row: Seq<Cell>)
    requires
        history.len() <= 10000,
    ensures
        ({
            let after = history_append(history, seq![row]);
            &&& after.last() == row
            &&& history.len() < 10000 ==> after == history.push(row)
            &&& history.len() == 10000 ==> after == history.push(row).skip(1)
        }),
{
    let all = history + seq![row];
    assert(all =~= history.push(row));
}

/// The history that gets no row stays as it is, and one that gets more rows gets
/// them in their order.
pub proof fn history_takes_rows(history: Seq<Seq<Cell>>, rows: Seq<Seq<Cell>>)
    requires
        history.len() <= 10000,
    ensures
        rows.len() == 0 ==> history_append(history, rows) == history,
        history.len() + rows.len() <= 10000 ==> history_append(history, rows) == history + rows,
        history.len() + rows.len() > 10000 ==> history_append(history, rows) == (history
            + rows).skip(history.len() + rows.len() - 10000),
{
    assert(rows.len() == 0 ==> history + rows =~= history);
}

/// A grid that gets no fewer rows keeps every line in its place and its cursor
/// in the line where it stood; empty rows come in at the bottom, and columns at
/// the right. No row leaves.
pub proof fn growing_keeps_every_line(grid: GridView, cols: int, rows: int)
    requires
        grid.wf(),
        grid.cursor.row >= 0,
        grid.cursor.col >= 0,
        cols > 0,
        rows >= grid.rows,
    ensures
        ({
            let after = grid.resized(cols, rows);
            &&& grid.shifted_rows(rows) == 0
            &&& after.cells.len() == rows
            &&& forall|i: int| 0 <= i < rows ==> (#[trigger] after.cells[i]).len() == cols
            &&& forall|i: int, j: int|
                0 <= i < rows && 0 <= j < cols ==> if i < grid.rows && j < grid.cols {
                    #[trigger] after.cells[i][j] == grid.cells[i][j]
                } else {
                    is_untouched(after.cells[i][j])
                }
            &&& grid.cursor.row < rows ==> after.cursor.row == grid.cursor.row
            &&& grid.cursor.row >= rows ==> after.cursor.row == rows - 1
            &&& grid.cursor.col < cols ==> after.cursor.col == grid.cursor.col
            &&& grid.cursor.col >= cols ==> after.cursor.col == cols - 1
            &&& after.cursor.attrs == grid.cursor.attrs
        }),
{
}

/// A grid that gets fewer rows first loses rows of which nothing can be seen,
/// from the bottom up to the cursor, and no more of them than there are rows too
/// many. The rest leaves at the top. What stays is what was between, with the
/// cursor in the line where it stood, or in the first one if that line has left.
pub proof fn shrinking_keeps_the_newest_lines(grid: GridView, cols: int, rows: int)
    requires
        grid.wf(),
        grid.cursor.row >= 0,
        grid.cursor.col >= 0,
        cols > 0,
        0 < rows < grid.rows,
    ensures
        ({
            let after = grid.resized(cols, rows);
            let up = grid.shifted_rows(rows);
            let end = up + rows;
            &&& 0 <= up <= end <= grid.rows
            &&& after.cells.len() == rows
            &&& forall|i: int| 0 <= i < rows ==> (#[trigger] after.cells[i]).len() == cols
            &&& forall|i: int, j: int|
                0 <= i < rows && 0 <= j < cols ==> if j < grid.cols {
                    #[trigger] after.cells[i][j] == grid.cells[up + i][j]
                } else {
                    is_untouched(after.cells[i][j])
                }
            &&& forall|i: int|
                end <= i < grid.rows ==> i > grid.cursor.row && shows_nothing(
                    #[trigger] grid.cells[i],
                )
            &&& up > 0 ==> end - 1 <= grid.cursor.row || !shows_nothing(grid.cells[end - 1])
            &&& up <= grid.cursor.row < grid.rows ==> after.cursor.row == grid.cursor.row - up
            &&& grid.cursor.row < up ==> after.cursor.row == 0
            &&& grid.cursor.row >= grid.rows ==> after.cursor.row == if grid.cursor.row - up
                < rows {
                grid.cursor.row - up
            } else {
                rows - 1
            }
            &&& grid.cursor.col < cols ==> after.cursor.col == grid.cursor.col
            &&& grid.cursor.col >= cols ==> after.cursor.col == cols - 1
            &&& after.cursor.attrs == grid.cursor.attrs
        }),
{
    let up = grid.shifted_rows(rows);
    let end = up + rows;
    lemma_blank_is_counted(grid.cells);
    assert forall|i: int| end <= i < grid.rows implies shows_nothing(#[trigger] grid.cells[i]) by {
        assert(is_blank_row(grid.cells[i]));
        lemma_blank_is_seen(grid.cells[i]);
    }
    lemma_blank_is_seen(grid.cells[end - 1]);
}

/// A row is blank if nothing can be seen of it.
proof fn lemma_blank_is_seen(row: Seq<Cell>)
    ensures
        is_blank_row(row) == shows_nothing(row),
{
    assert forall|j: int| 0 <= j < row.len() implies is_blank_cell(#[trigger] row[j]) == ((
    row[j].ch == ' ' || row[j].ch == '\0') && has_plain_look(row[j])) by {
        if has_plain_look(row[j]) {
            assert(row[j].attrs =~= CellAttrs::plain());
        }
    }
}

/// The rows that are counted as blank are blank, and the one above them is not.
proof fn lemma_blank_is_counted(rows: Seq<Seq<Cell>>)
    ensures
        blank_at_bottom(rows) <= rows.len(),
        forall|i: int|
            rows.len() - blank_at_bottom(rows) <= i < rows.len() ==> is_blank_row(
                #[trigger] rows[i],
            ),
        blank_at_bottom(rows) < rows.len() ==> !is_blank_row(
            rows[rows.len() - 1 - blank_at_bottom(rows)],
        ),
    decreases rows.len(),
{
    if rows.len() > 0 && is_blank_row(rows.last()) {
        let front = rows.drop_last();
        lemma_blank_is_counted(front);
        assert forall|i: int|
            rows.len() - blank_at_bottom(rows) <= i < rows.len() implies is_blank_row(
            #[trigger] rows[i],
        ) by {
            if i < front.len() {
                assert(rows[i] == front[i]);
            }
        }
        if blank_at_bottom(rows) < rows.len() {
            let k = rows.len() - 1 - blank_at_bottom(rows);
            assert(rows[k] == front[k]);
        }
    }
}

/// A grid in another size has that size, and all of it scrolls.
pub proof fn resizing_frees_the_margins(grid: GridView, cols: int, rows: int)
    ensures
        grid.resized(cols, rows).cols == cols,
        grid.resized(cols, rows).rows == rows,
        grid.resized(cols, rows).scroll_top == 0,
        grid.resized(cols, rows).scroll_bottom == rows - 1,
{
}

/// A screen in another size has both of its grids in that size. The rows that
/// leave the primary grid at the top are the newest of its history, and nothing
/// else changes: not the shown screen, the modes, the running command or what is
/// queued.
pub proof fn resizing_concerns_both_grids(screen: ScreenView, cols: int, rows: int)
    requires
        screen.wf(),
        cols > 0,
        rows > 0,
    ensures
        ({
            let after = screen.resized(cols, rows);
            let gone = screen.primary.shifted_rows(rows);
            &&& after.primary == screen.primary.resized(cols, rows)
            &&& after.alternate == screen.alternate.resized(cols, rows)
            &&& after.cols == cols
            &&& after.rows == rows
            &&& screen.scrollback.len() + gone <= 10000 ==> after.scrollback == screen.scrollback
                + screen.primary.cells.take(gone)
            &&& screen.scrollback.len() + gone > 10000 ==> after.scrollback == (screen.scrollback
                + screen.primary.cells.take(gone)).skip(screen.scrollback.len() + gone - 10000)
            &&& after == (ScreenView {
                primary: after.primary,
                alternate: after.alternate,
                scrollback: after.scrollback,
                cols,
                rows,
                ..screen
            })
        }),
{
    let gone = screen.primary.shifted_rows(rows);
    lemma_shift_inside(screen.primary, rows);
    history_takes_rows(screen.scrollback, screen.primary.cells.take(gone));
}

/// No more rows leave at the top than there are.
proof fn lemma_shift_inside(grid: GridView, rows: int)
    requires
        grid.wf(),
        rows > 0,
    ensures
        0 <= grid.shifted_rows(rows) <= grid.cells.len(),
{
}

/// An empty grid holds nothing, with its cursor at the upper left, and scrolls
/// as a whole.
pub proof fn empty_grids_hold_nothing(cols: int, rows: int)
    requires
        cols >= 0,
        rows > 0,
    ensures
        ({
            let grid = GridView::empty(cols, rows);
            &&& grid.cells.len() == rows
            &&& forall|i: int|
                0 <= i < rows ==> is_untouched_row(#[trigger] grid.cells[i], cols)
            &&& grid.cursor.row == 0
            &&& grid.cursor.col == 0
            &&& grid.cursor.attrs == CellAttrs::plain()
            &&& grid.scroll_top == 0
            &&& grid.scroll_bottom == rows - 1
            &&& grid.cols == cols
            &&& grid.rows == rows
        }),
{
}

} // verus!
