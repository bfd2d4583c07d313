//! What printing and the control functions do to a grid.
use std::collections::VecDeque;
use vstd::prelude::*;

use crate::grid::{
    blank_row, cells_wf, history_append, max, min, row_views, Cell, CellAttrs, CursorView,
    GridView, ScreenBuffer, SCROLLBACK_LIMIT,
};
use crate::sgr::{apply_sgr, inner, with_params};
use crate::width::{is_mark, is_wide, takes_no_column, takes_two_columns};

verus! {

/// A cell that holds one character.
pub open spec fn cell_of(c: char, attrs: CellAttrs) -> Cell {
    Cell { ch: c, attrs, ..Cell::blank() }
}

/// How many columns a tabulator stop is from the next.
pub const TAB_WIDTH: usize = 8;

impl GridView {
    /// The grid with its cursor at another place.
    pub open spec fn with_cursor(self, row: int, col: int) -> GridView {
        GridView { cursor: CursorView { row, col, ..self.cursor }, ..self }
    }

    /// The row of the cursor, as far as the grid has it.
    pub open spec fn cursor_row(self) -> int {
        min(self.cursor.row, self.rows - 1)
    }

    /// The column of the cursor, which may stand behind the last one.
    pub open spec fn cursor_col(self) -> int {
        min(self.cursor.col, self.cols)
    }

    /// Whether a line feed scrolls.
    pub open spec fn at_bottom(self) -> bool {
        self.cursor_row() == self.scroll_bottom
    }

    /// After a line feed to column `col`.
    pub open spec fn line_fed(self, col: int) -> GridView {
        if self.at_bottom() {
            self.with_cursor(self.cursor_row(), col).scrolled_up()
        } else {
            self.with_cursor(min(self.cursor_row() + 1, self.rows - 1), col)
        }
    }

    /// The rows that a line feed moves to the history.
    pub open spec fn fed_off(self) -> Seq<Seq<Cell>> {
        if self.at_bottom() {
            self.scrolled_off()
        } else {
            Seq::empty()
        }
    }

    /// With the cell under the cursor replaced and the cursor behind it.
    pub open spec fn placed(self, c: char) -> GridView {
        let row = self.cursor_row();
        let col = self.cursor.col;
        let cells = self.cells.update(
            row,
            self.cells[row].update(col, cell_of(c, self.cursor.attrs)),
        );
        GridView { cells, ..self.with_cursor(row, col + 1) }
    }

    /// The column of the cell that a combining mark goes to: the one before
    /// the cursor, or before that where it only fills up a wide character.
    pub open spec fn marked_col(self) -> int {
        let before = self.cursor_col() - 1;
        if before > 0 && self.cells[self.cursor_row()][before].ch == '\0' {
            before - 1
        } else {
            before
        }
    }

    /// With a combining mark in the cell before the cursor. At the start of a
    /// row there is none.
    pub open spec fn with_mark(self, c: char) -> GridView {
        let row = self.cursor_row();
        let col = self.marked_col();
        if col < 0 {
            self
        } else {
            let cell = self.cells[row][col].with_mark(c);
            GridView {
                cells: self.cells.update(row, self.cells[row].update(col, cell)),
                ..self
            }
        }
    }

    /// How many columns a character takes here: none for a combining mark, two
    /// for a wide character where the grid has two, else one.
    pub open spec fn columns_of(self, c: char) -> int {
        if is_mark(c) {
            0
        } else if is_wide(c) && self.cols > 1 {
            2
        } else {
            1
        }
    }

    /// Whether a character goes to the next line because it does not fit
    /// behind the cursor.
    pub open spec fn wraps(self, c: char) -> bool {
        !is_mark(c) && self.cols > 0 && self.cursor.col + self.columns_of(c) > self.cols
    }

    /// After one character. A combining mark goes to the cell before the
    /// cursor. A wide character takes two cells, the second of them with a null
    /// character. What does not fit behind the cursor goes to the next line.
    pub open spec fn printed(self, c: char) -> GridView {
        let start = if self.wraps(c) {
            self.line_fed(0)
        } else {
            self
        };
        if self.cols == 0 {
            self
        } else if is_mark(c) {
            self.with_mark(c)
        } else if self.columns_of(c) == 2 {
            start.placed(c).placed('\0')
        } else {
            start.placed(c)
        }
    }

    /// The rows that one character moves to the history.
    pub open spec fn printed_off(self, c: char) -> Seq<Seq<Cell>> {
        if self.wraps(c) {
            self.fed_off()
        } else {
            Seq::empty()
        }
    }

    /// After a tabulator.
    pub open spec fn tabbed(self) -> GridView {
        if self.cursor.col < self.cols {
            self.with_cursor(
                self.cursor_row(),
                min((self.cursor.col / TAB_WIDTH as int + 1) * TAB_WIDTH, self.cols - 1),
            )
        } else {
            self
        }
    }

    /// After a reverse line feed.
    pub open spec fn line_reversed(self) -> GridView {
        if self.cursor_row() == self.scroll_top {
            self.with_cursor(self.cursor_row(), self.cursor.col).scrolled_down()
        } else {
            self.with_cursor(max(self.cursor_row() - 1, 0), self.cursor.col)
        }
    }

    /// With the cursor at a place, or as near to it as the grid goes.
    pub open spec fn moved_to(self, row: int, col: int) -> GridView {
        self.with_cursor(
            max(0, min(row, self.rows - 1)),
            max(0, min(col, self.cols - 1)),
        )
    }

    /// With the cells of one row emptied from one column to before another.
    pub open spec fn erased(self, row: int, from: int, to: int) -> GridView {
        GridView {
            cells: self.cells.update(
                row,
                Seq::new(
                    self.cells[row].len(),
                    |j: int|
                        if from <= j < to {
                            Cell::blank()
                        } else {
                            self.cells[row][j]
                        },
                ),
            ),
            ..self
        }
    }

    /// With the rows from one to before another emptied.
    pub open spec fn cleared(self, from: int, to: int) -> GridView {
        GridView {
            cells: Seq::new(
                self.cells.len(),
                |i: int|
                    if from <= i < to {
                        blank_row(self.cols)
                    } else {
                        self.cells[i]
                    },
            ),
            ..self
        }
    }

    /// After an "erase in line": to the end, to the cursor, or all of it.
    pub open spec fn line_erased(self, mode: u16) -> GridView {
        let row = self.cursor_row();
        if mode == 0 {
            self.erased(row, self.cursor_col(), self.cols)
        } else if mode == 1 {
            self.erased(row, 0, self.cursor_col() + 1)
        } else if mode == 2 {
            self.erased(row, 0, self.cols)
        } else {
            self
        }
    }

    /// After an "erase in display": to the end, to the cursor, or all of it.
    pub open spec fn display_erased(self, mode: u16) -> GridView {
        let row = self.cursor_row();
        if mode == 0 {
            self.line_erased(0).cleared(row + 1, self.rows)
        } else if mode == 1 {
            self.line_erased(1).cleared(0, row)
        } else if mode == 2 {
            self.cleared(0, self.rows)
        } else {
            self
        }
    }

    /// With the part from one row to another as the part that scrolls, and the
    /// cursor at the upper left. Rows count from 1, and 0 stands for the
    /// outermost. A part of less than two rows is refused.
    pub open spec fn with_region(self, top: u16, bottom: u16) -> GridView {
        let first = max(top as int, 1) - 1;
        let last = if bottom == 0 {
            self.rows - 1
        } else {
            min(bottom as int, self.rows) - 1
        };
        if first < last {
            GridView { scroll_top: first, scroll_bottom: last, ..self }.with_cursor(0, 0)
        } else {
            self
        }
    }
}

/// The first number of the parameter at `i`, 0 where there is none.
pub open spec fn number_at(params: Seq<Seq<u16>>, i: int) -> u16 {
    if 0 <= i < params.len() && params[i].len() > 0 {
        params[i][0]
    } else {
        0
    }
}

/// The first number of the parameter at `i`, 1 where there is none or it is 0.
pub open spec fn count_at(params: Seq<Seq<u16>>, i: int) -> u16 {
    if number_at(params, i) == 0 {
        1
    } else {
        number_at(params, i)
    }
}

impl GridView {
    /// After the control sequence that ends in `action`: a move of the cursor,
    /// an erasure, another look, or another part that scrolls.
    pub open spec fn controlled(self, params: Seq<Seq<u16>>, action: char) -> GridView {
        let n = count_at(params, 0);
        if action == 'A' {
            self.moved_to(max(0, self.cursor_row() - n), self.cursor_col())
        } else if action == 'B' {
            self.moved_to(self.cursor_row() + n, self.cursor_col())
        } else if action == 'C' {
            self.moved_to(self.cursor_row(), self.cursor_col() + n)
        } else if action == 'D' {
            self.moved_to(self.cursor_row(), max(0, self.cursor_col() - n))
        } else if action == 'H' || action == 'f' {
            self.moved_to(n - 1, count_at(params, 1) - 1)
        } else if action == 'J' {
            self.display_erased(number_at(params, 0))
        } else if action == 'K' {
            self.line_erased(number_at(params, 0))
        } else if action == 'm' {
            self.with_attrs(with_params(self.cursor.attrs, params))
        } else if action == 'r' {
            self.with_region(number_at(params, 0), number_at(params, 1))
        } else {
            self
        }
    }

    /// With another look of what is printed next.
    pub open spec fn with_attrs(self, attrs: CellAttrs) -> GridView {
        GridView { cursor: CursorView { attrs, ..self.cursor }, ..self }
    }
}

/// The first number of the parameter at `i`, 0 where there is none.
pub(crate) fn read_number(params: &Vec<Vec<u16>>, i: usize) -> (number: u16)
    ensures
        number == number_at(inner(params@), i as int),
{
    if i < params.len() && params[i].len() > 0 {
        params[i][0]
    } else {
        0
    }
}

/// The first number of the parameter at `i`, 1 where there is none or it is 0.
fn read_count(params: &Vec<Vec<u16>>, i: usize) -> (count: u16)
    ensures
        count == count_at(inner(params@), i as int),
        count > 0,
{
    let number = read_number(params, i);
    if number == 0 {
        1
    } else {
        number
    }
}

/// Replacing one row by another of the same length keeps a grid well formed.
proof fn lemma_update_wf(grid: GridView, row: int, cells: Seq<Cell>)
    requires
        grid.wf(),
        0 <= row < grid.rows,
        cells.len() == grid.cols,
        forall|j: int| 0 <= j < cells.len() ==> (#[trigger] cells[j]).wf(),
    ensures
        (GridView { cells: grid.cells.update(row, cells), ..grid }).wf(),
{
    let after = grid.cells.update(row, cells);
    assert forall|i: int, j: int| 0 <= i < after.len() && 0 <= j < after[i].len() implies (
    #[trigger] after[i][j]).wf() by {
        if i != row {
            assert(grid.cells[i][j].wf());
        } else {
            assert(cells[j].wf());
        }
    }
}

impl ScreenBuffer {
    /// The row of the cursor, as far as the grid has it.
    fn cursor_row(&self) -> (row: usize)
        requires
            self.wf(),
        ensures
            row == self@.cursor_row(),
            row < self.rows,
    {
        if self.cursor.row >= self.rows {
            self.rows - 1
        } else {
            self.cursor.row
        }
    }

    /// Feeds a line, to column `col`.
    pub fn line_feed(&mut self, col: usize, scrollback: &mut VecDeque<Vec<Cell>>)
        requires
            old(self).wf(),
            cells_wf(row_views(old(scrollback)@)),
            old(scrollback)@.len() <= SCROLLBACK_LIMIT,
        ensures
            final(self).wf(),
            final(self)@ == old(self)@.line_fed(col as int),
            row_views(final(scrollback)@) == history_append(
                row_views(old(scrollback)@),
                old(self)@.fed_off(),
            ),
            cells_wf(row_views(final(scrollback)@)),
            final(scrollback)@.len() <= SCROLLBACK_LIMIT,
    {
        let row = self.cursor_row();
        self.cursor.col = col;
        if row == self.scroll_bottom {
            self.cursor.row = row;
            self.scroll_up(scrollback);
        } else {
            self.cursor.row = if row + 1 < self.rows {
                row + 1
            } else {
                row
            };
            assert(row_views(scrollback@) + old(self)@.fed_off() =~= row_views(scrollback@));
        }
    }

    /// Puts one character under the cursor, which goes to the next column.
    fn place(&mut self, c: char)
        requires
            old(self).wf(),
            old(self).cursor.col < old(self).cols,
        ensures
            final(self).wf(),
            final(self)@ == old(self)@.placed(c),
    {
        let ghost before = self@;
        let row = self.cursor_row();
        let col = self.cursor.col;
        let mut cell = Cell::default();
        cell.ch = c;
        cell.attrs = self.cursor.attrs;
        assert(before.cells[row as int].len() == before.cols);
        self.cells[row][col] = cell;
        self.cursor.row = row;
        self.cursor.col = col + 1;
        proof {
            let cells = before.cells[row as int].update(col as int, cell);
            assert(self@.cells =~= before.cells.update(row as int, cells));
            assert forall|j: int| 0 <= j < cells.len() implies (#[trigger] cells[j]).wf() by {
                if j != col {
                    assert(before.cells[row as int][j].wf());
                }
            }
            lemma_update_wf(before, row as int, cells);
        }
    }

    /// Adds a combining mark to the cell before the cursor.
    fn add_mark(&mut self, c: char)
        requires
            old(self).wf(),
        ensures
            final(self).wf(),
            final(self)@ == old(self)@.with_mark(c),
    {
        let ghost before = self@;
        let row = self.cursor_row();
        let end = if self.cursor.col < self.cols {
            self.cursor.col
        } else {
            self.cols
        };
        assert(before.cells[row as int].len() == before.cols);
        if end == 0 {
            return;
        }
        let col = if end > 1 && self.cells[row][end - 1].ch == '\0' {
            end - 2
        } else {
            end - 1
        };
        let mut cell = self.cells[row][col];
        assert(before.cells[row as int][col as int].wf());
        cell.push_combining(c);
        self.cells[row][col] = cell;
        proof {
            let cells = before.cells[row as int].update(col as int, cell);
            assert(self@.cells =~= before.cells.update(row as int, cells));
            assert forall|j: int| 0 <= j < cells.len() implies (#[trigger] cells[j]).wf() by {
                if j != col {
                    assert(before.cells[row as int][j].wf());
                }
            }
            lemma_update_wf(before, row as int, cells);
        }
    }

    /// Prints one character.
    pub fn print(&mut self, c: char, scrollback: &mut VecDeque<Vec<Cell>>)
        requires
            old(self).wf(),
            cells_wf(row_views(old(scrollback)@)),
            old(scrollback)@.len() <= SCROLLBACK_LIMIT,
        ensures
            final(self).wf(),
            final(self)@ == old(self)@.printed(c),
            row_views(final(scrollback)@) == history_append(
                row_views(old(scrollback)@),
                old(self)@.printed_off(c),
            ),
            cells_wf(row_views(final(scrollback)@)),
            final(scrollback)@.len() <= SCROLLBACK_LIMIT,
    {
        assert(row_views(scrollback@) + Seq::<Seq<Cell>>::empty() =~= row_views(scrollback@));
        if self.cols == 0 {
            return;
        }
        if takes_no_column(c) {
            self.add_mark(c);
            return;
        }
        let columns: usize = if takes_two_columns(c) && self.cols > 1 {
            2
        } else {
            1
        };
        if self.cursor.col >= self.cols || self.cols - self.cursor.col < columns {
            self.line_feed(0, scrollback);
        }
        self.place(c);
        if columns == 2 {
            self.place('\0');
        }
    }

    /// Moves the cursor to the next tabulator stop.
    pub fn tab(&mut self)
        requires
            old(self).wf(),
        ensures
            final(self).wf(),
            final(self)@ == old(self)@.tabbed(),
    {
        if self.cursor.col < self.cols {
            self.cursor.row = self.cursor_row();
            let last = self.cols - 1;
            let used = self.cursor.col % TAB_WIDTH;
            let step = TAB_WIDTH - used;
            self.cursor.col = if last - self.cursor.col < step {
                last
            } else {
                self.cursor.col + step
            };
        }
    }

    /// Moves the cursor one row up, or the lines down where it is at the top.
    pub fn reverse_line_feed(&mut self)
        requires
            old(self).wf(),
        ensures
            final(self).wf(),
            final(self)@ == old(self)@.line_reversed(),
    {
        let row = self.cursor_row();
        if row == self.scroll_top {
            self.cursor.row = row;
            self.scroll_down();
        } else if row > 0 {
            self.cursor.row = row - 1;
        } else {
            self.cursor.row = 0;
        }
    }

    /// Moves the cursor to a place, or as near to it as the grid goes.
    pub fn move_to(&mut self, row: usize, col: usize)
        requires
            old(self).wf(),
        ensures
            final(self).wf(),
            final(self)@ == old(self)@.moved_to(row as int, col as int),
    {
        self.cursor.row = if row < self.rows {
            row
        } else {
            self.rows - 1
        };
        self.cursor.col = if col < self.cols {
            col
        } else {
            self.cols.saturating_sub(1)
        };
    }

    /// Moves the cursor by rows and columns, up or down and back or ahead.
    pub fn move_by(&mut self, up: u16, down: u16, back: u16, ahead: u16)
        requires
            old(self).wf(),
        ensures
            final(self).wf(),
            final(self)@ == old(self)@.moved_to(
                max(0, old(self)@.cursor_row() - up) + down,
                max(0, old(self)@.cursor_col() - back) + ahead,
            ),
    {
        let row = self.cursor_row().saturating_sub(up as usize).saturating_add(down as usize);
        let mut col = self.cursor.col;
        if col > self.cols {
            col = self.cols;
        }
        self.move_to(row, col.saturating_sub(back as usize).saturating_add(ahead as usize));
    }

    /// Empties the cells of one row from one column to before another.
    fn erase(&mut self, row: usize, from: usize, to: usize)
        requires
            old(self).wf(),
            row < old(self).rows,
            from <= to <= old(self).cols,
        ensures
            final(self).wf(),
            final(self)@ == old(self)@.erased(row as int, from as int, to as int),
    {
        let ghost before = self@;
        let ghost after = before.erased(row as int, from as int, to as int);
        let mut j: usize = from;
        assert(before.cells[row as int].len() == before.cols);
        while j < to
            invariant
                from <= j <= to <= self.cols,
                row < self.rows,
                self@ == (GridView { cells: self@.cells, ..before }),
                self.cells@.len() == self.rows,
                before.cells.len() == self.rows,
                self.cells@[row as int]@.len() == self.cols,
                before.cells[row as int].len() == self.cols,
                forall|i: int|
                    0 <= i < self.rows && i != row ==> (#[trigger] self.cells@[i])@
                        == before.cells[i],
                forall|k: int|
                    0 <= k < self.cols ==> #[trigger] self.cells@[row as int]@[k] == (if from <= k
                        < j {
                        Cell::blank()
                    } else {
                        before.cells[row as int][k]
                    }),
            decreases to - j,
        {
            self.cells[row][j] = Cell::default();
            j += 1;
        }
        proof {
            let cells = after.cells[row as int];
            assert(self.cells@[row as int]@ =~= cells);
            assert(self@.cells =~= after.cells);
            assert forall|k: int| 0 <= k < cells.len() implies (#[trigger] cells[k]).wf() by {
                assert(before.cells[row as int][k].wf());
            }
            lemma_update_wf(before, row as int, cells);
        }
    }

    /// Empties the rows from one to before another.
    fn clear_rows(&mut self, from: usize, to: usize)
        requires
            old(self).wf(),
            from <= to <= old(self).rows,
        ensures
            final(self).wf(),
            final(self)@ == old(self)@.cleared(from as int, to as int),
    {
        let ghost before = self@;
        let mut i: usize = from;
        assert(before.cleared(from as int, i as int).cells =~= before.cells);
        while i < to
            invariant
                from <= i <= to <= self.rows,
                self.wf(),
                self@ == before.cleared(from as int, i as int),
            decreases to - i,
        {
            let ghost now = self@;
            self.erase(i, 0, self.cols);
            proof {
                let next = before.cleared(from as int, i + 1);
                assert(now.cells[i as int].len() == now.cols);
                assert(self@.cells[i as int] =~= blank_row(before.cols));
                assert(self@.cells =~= next.cells);
            }
            i += 1;
        }
    }

    /// Erases in the line of the cursor.
    pub fn erase_line(&mut self, mode: u16)
        requires
            old(self).wf(),
        ensures
            final(self).wf(),
            final(self)@ == old(self)@.line_erased(mode),
    {
        let row = self.cursor_row();
        let col = if self.cursor.col < self.cols {
            self.cursor.col
        } else {
            self.cols
        };
        if mode == 0 {
            self.erase(row, col, self.cols);
        } else if mode == 1 {
            if col < self.cols {
                self.erase(row, 0, col + 1);
            } else {
                assert(self@.cells[row as int].len() == self@.cols);
                self.erase(row, 0, self.cols);
                proof {
                    let a = old(self)@.erased(row as int, 0, self.cols as int);
                    let b = old(self)@.erased(row as int, 0, col + 1);
                    assert(a.cells[row as int] =~= b.cells[row as int]);
                    assert(a.cells =~= b.cells);
                }
            }
        } else if mode == 2 {
            self.erase(row, 0, self.cols);
        }
    }

    /// Erases in the display.
    pub fn erase_display(&mut self, mode: u16)
        requires
            old(self).wf(),
        ensures
            final(self).wf(),
            final(self)@ == old(self)@.display_erased(mode),
    {
        let row = self.cursor_row();
        if mode == 0 {
            self.erase_line(0);
            self.clear_rows(row + 1, self.rows);
        } else if mode == 1 {
            self.erase_line(1);
            self.clear_rows(0, row);
        } else if mode == 2 {
            self.clear_rows(0, self.rows);
        }
    }

    /// Sets the part that scrolls.
    pub fn set_region(&mut self, top: u16, bottom: u16)
        requires
            old(self).wf(),
        ensures
            final(self).wf(),
            final(self)@ == old(self)@.with_region(top, bottom),
    {
        let first: usize = if top == 0 {
            0
        } else {
            top as usize - 1
        };
        let last: usize = if bottom == 0 || bottom as usize > self.rows {
            self.rows - 1
        } else {
            bottom as usize - 1
        };
        if first < last {
            self.scroll_top = first;
            self.scroll_bottom = last;
            self.cursor.row = 0;
            self.cursor.col = 0;
        }
    }

    /// Changes the look of what is printed next.
    pub fn select_rendition(&mut self, params: &Vec<Vec<u16>>)
        requires
            old(self).wf(),
        ensures
            final(self).wf(),
            final(self)@ == old(self)@.with_attrs(
                with_params(old(self)@.cursor.attrs, inner(params@)),
            ),
    {
        let mut attrs = self.cursor.attrs;
        apply_sgr(&mut attrs, params);
        self.cursor.attrs = attrs;
    }

    /// Obeys the control sequence that ends in `action`.
    pub fn control(&mut self, params: &Vec<Vec<u16>>, action: char)
        requires
            old(self).wf(),
        ensures
            final(self).wf(),
            final(self)@ == old(self)@.controlled(inner(params@), action),
    {
        let n = read_count(params, 0);
        match action {
            'A' => self.move_by(n, 0, 0, 0),
            'B' => self.move_by(0, n, 0, 0),
            'C' => self.move_by(0, 0, 0, n),
            'D' => self.move_by(0, 0, n, 0),
            'H' | 'f' => {
                let col = read_count(params, 1);
                self.move_to(n as usize - 1, col as usize - 1);
            },
            'J' => self.erase_display(read_number(params, 0)),
            'K' => self.erase_line(read_number(params, 0)),
            'm' => self.select_rendition(params),
            'r' => self.set_region(read_number(params, 0), read_number(params, 1)),
            _ => {},
        }
    }
}

} // verus!
