//! What printing and control functions do to the places of a grid.
use vstd::prelude::*;
use vstd::utf8::*;

use crate::capture::{CaptureView, CommandState};
use crate::grid::{history_append, CursorView, GridView};
use crate::lines::{history_takes_a_row, is_untouched};
use crate::modes::PrivateModes;
use crate::parser::ActionView;
use crate::screen::{OscView, ScreenView, SyncEvent};
use crate::sgr::with_params;
use crate::width::{is_mark, is_wide};

verus! {

/// Whether the cursor stands in a cell of the grid, or behind the last one of a
/// row.
pub open spec fn has_cursor_inside(grid: GridView) -> bool {
    &&& 0 <= grid.cursor.row < grid.rows
    &&& 0 <= grid.cursor.col <= grid.cols
}

/// Whether two grids hold the same cells but for those between two columns of
/// one row.
pub open spec fn same_but_for(
    before: GridView,
    after: GridView,
    row: int,
    from: int,
    to: int,
) -> bool {
    &&& after.cells.len() == before.cells.len()
    &&& forall|i: int|
        0 <= i < before.cells.len() ==> (#[trigger] after.cells[i]).len() == before.cells[i].len()
    &&& forall|i: int, j: int|
        0 <= i < before.cells.len() && 0 <= j < before.cells[i].len() && !(i == row && from <= j
            < to) ==> #[trigger] after.cells[i][j] == before.cells[i][j]
}

/// Whether two grids have the same size, and the same part that scrolls.
pub open spec fn same_frame(before: GridView, after: GridView) -> bool {
    &&& after.cols == before.cols
    &&& after.rows == before.rows
    &&& after.scroll_top == before.scroll_top
    &&& after.scroll_bottom == before.scroll_bottom
}

/// A character of one column goes to the cell under the cursor, in the look of
/// the cursor, and the cursor to the next column. No other cell changes.
pub proof fn character_goes_under_the_cursor(grid: GridView, c: char)
    requires
        grid.wf(),
        has_cursor_inside(grid),
        grid.cursor.col < grid.cols,
        !is_mark(c),
        !is_wide(c),
    ensures
        ({
            let after = grid.printed(c);
            let row = grid.cursor.row;
            let col = grid.cursor.col;
            let cell = after.cells[row][col];
            &&& cell.ch == c
            &&& cell.combining_len == 0
            &&& cell.attrs == grid.cursor.attrs
            &&& same_but_for(grid, after, row, col, col + 1)
            &&& after.cursor.row == row
            &&& after.cursor.col == col + 1
            &&& after.cursor.attrs == grid.cursor.attrs
            &&& same_frame(grid, after)
            &&& grid.printed_off(c).len() == 0
        }),
{
}

/// A wide character takes two cells, the second of them with a null character,
/// both in the look of the cursor.
pub proof fn wide_character_takes_two_cells(grid: GridView, c: char)
    requires
        grid.wf(),
        has_cursor_inside(grid),
        grid.cursor.col + 1 < grid.cols,
        is_wide(c),
    ensures
        ({
            let after = grid.printed(c);
            let row = grid.cursor.row;
            let col = grid.cursor.col;
            &&& after.cells[row][col].ch == c
            &&& after.cells[row][col].attrs == grid.cursor.attrs
            &&& after.cells[row][col + 1].ch == '\0'
            &&& after.cells[row][col + 1].attrs == grid.cursor.attrs
            &&& same_but_for(grid, after, row, col, col + 2)
            &&& after.cursor.row == row
            &&& after.cursor.col == col + 2
            &&& after.cursor.attrs == grid.cursor.attrs
            &&& same_frame(grid, after)
            &&& grid.printed_off(c).len() == 0
        }),
{
}

/// A character that does not fit behind the cursor goes to the start of the next
/// line, as if a line had been fed there first.
pub proof fn character_that_does_not_fit_wraps(grid: GridView, c: char)
    requires
        grid.wf(),
        has_cursor_inside(grid),
        !is_mark(c),
        grid.cols > 1,
        grid.cursor.col >= grid.cols || (is_wide(c) && grid.cursor.col + 1 >= grid.cols),
    ensures
        grid.printed(c) == grid.line_fed(0).printed(c),
        grid.printed_off(c) == grid.fed_off(),
{
}

/// A combining mark changes no cell but the one before the cursor, or the wide
/// character there. That cell gets it behind its other marks, while it has fewer
/// than three. The cursor stays.
pub proof fn mark_goes_to_the_character_before(grid: GridView, c: char)
    requires
        grid.wf(),
        has_cursor_inside(grid),
        is_mark(c),
    ensures
        ({
            let after = grid.printed(c);
            let row = grid.cells[grid.cursor.row];
            let last = grid.cursor.col - 1;
            let col = if last > 0 && row[last].ch == '\0' {
                last - 1
            } else {
                last
            };
            &&& grid.cursor.col == 0 ==> after == grid
            &&& grid.cursor.col > 0 ==> {
                let cell = after.cells[grid.cursor.row][col];
                &&& same_but_for(grid, after, grid.cursor.row, col, col + 1)
                &&& row[col].combining_len < 3 ==> cell.text() == row[col].text().push(c)
                &&& row[col].combining_len >= 3 ==> cell == row[col]
                &&& cell.attrs == row[col].attrs
            }
            &&& after.cursor == grid.cursor
            &&& same_frame(grid, after)
            &&& grid.printed_off(c).len() == 0
        }),
{
    if grid.cursor.col > 0 {
        let row = grid.cells[grid.cursor.row];
        assert(row.len() == grid.cols);
        let last = grid.cursor.col - 1;
        let col = if last > 0 && row[last].ch == '\0' {
            last - 1
        } else {
            last
        };
        let old_cell = row[col];
        assert(grid.cells[grid.cursor.row][col].wf());
        let cell = grid.printed(c).cells[grid.cursor.row][col];
        assert(cell == old_cell.with_mark(c));
        if old_cell.combining_len < 3 {
            assert(cell.text() =~= old_cell.text().push(c));
        }
    }
}

/// A line feed above the bottom of the part that scrolls moves the cursor down
/// by a row, where there is one, and changes no cell. At that bottom the part
/// scrolls up and the cursor stays in its row.
pub proof fn line_feed_goes_down_or_scrolls(grid: GridView, col: int)
    requires
        grid.wf(),
        has_cursor_inside(grid),
    ensures
        ({
            let after = grid.line_fed(col);
            &&& after.cursor.col == col
            &&& after.cursor.attrs == grid.cursor.attrs
            &&& same_frame(grid, after)
            &&& grid.cursor.row != grid.scroll_bottom ==> {
                &&& after.cells == grid.cells
                &&& grid.fed_off().len() == 0
                &&& grid.cursor.row + 1 < grid.rows ==> after.cursor.row == grid.cursor.row + 1
                &&& grid.cursor.row + 1 == grid.rows ==> after.cursor.row == grid.cursor.row
            }
            &&& grid.cursor.row == grid.scroll_bottom ==> {
                &&& after.cells == grid.scrolled_up().cells
                &&& grid.fed_off() == grid.scrolled_off()
                &&& after.cursor.row == grid.cursor.row
            }
        }),
{
}

/// A reverse line feed below the top of the part that scrolls moves the cursor
/// up by a row, where there is one, and changes no cell. At that top the part
/// scrolls down and the cursor stays in its row.
pub proof fn reverse_feed_goes_up_or_scrolls(grid: GridView)
    requires
        grid.wf(),
        has_cursor_inside(grid),
    ensures
        ({
            let after = grid.line_reversed();
            &&& after.cursor.col == grid.cursor.col
            &&& after.cursor.attrs == grid.cursor.attrs
            &&& same_frame(grid, after)
            &&& grid.cursor.row != grid.scroll_top ==> {
                &&& after.cells == grid.cells
                &&& grid.cursor.row > 0 ==> after.cursor.row == grid.cursor.row - 1
                &&& grid.cursor.row == 0 ==> after.cursor.row == 0
            }
            &&& grid.cursor.row == grid.scroll_top ==> {
                &&& after.cells == grid.scrolled_down().cells
                &&& after.cursor.row == grid.cursor.row
            }
        }),
{
}

/// A tabulator moves the cursor to the next column that is a multiple of eight,
/// or to the last one, and changes no cell.
pub proof fn tab_goes_to_a_multiple_of_eight(grid: GridView)
    requires
        grid.wf(),
        has_cursor_inside(grid),
    ensures
        ({
            let after = grid.tabbed();
            let col = after.cursor.col;
            &&& after.cells == grid.cells
            &&& after.cursor.row == grid.cursor.row
            &&& after.cursor.attrs == grid.cursor.attrs
            &&& same_frame(grid, after)
            &&& grid.cursor.col == grid.cols ==> col == grid.cols
            &&& grid.cursor.col < grid.cols ==> {
                &&& grid.cursor.col <= col < grid.cols
                &&& col == grid.cols - 1 || (col % 8 == 0 && grid.cursor.col < col
                    <= grid.cursor.col + 8)
                &&& forall|k: int| grid.cursor.col < k < col ==> #[trigger] (k % 8) != 0
            }
        }),
{
    let from = grid.cursor.col;
    let stop = (from / 8 + 1) * 8;
    assert(stop % 8 == 0);
    assert(from < stop <= from + 8);
    assert forall|k: int| from < k < stop implies #[trigger] (k % 8) != 0 by {
        if k % 8 == 0 {
            assert(k / 8 == from / 8);
        }
    }
}

/// A cursor that stands below the grid, as one that was saved before the grid
/// shrank may do, acts as if it stood in the last row.
pub proof fn cursor_below_acts_in_the_last_row(grid: GridView, c: char, col: int, mode: u16)
    requires
        grid.wf(),
        grid.cols > 0,
        grid.cursor.row >= grid.rows,
        !is_mark(c),
    ensures
        ({
            let inside = GridView {
                cursor: CursorView { row: grid.rows - 1, ..grid.cursor },
                ..grid
            };
            let asked = seq![seq![mode]];
            &&& grid.printed(c) == inside.printed(c)
            &&& grid.printed_off(c) == inside.printed_off(c)
            &&& grid.line_fed(col) == inside.line_fed(col)
            &&& grid.fed_off() == inside.fed_off()
            &&& grid.line_reversed() == inside.line_reversed()
            &&& grid.controlled(asked, 'K').cells == inside.controlled(asked, 'K').cells
            &&& grid.controlled(asked, 'J').cells == inside.controlled(asked, 'J').cells
            &&& grid.controlled(asked, 'A') == inside.controlled(asked, 'A')
            &&& grid.controlled(asked, 'B') == inside.controlled(asked, 'B')
            &&& grid.controlled(asked, 'C') == inside.controlled(asked, 'C')
            &&& grid.controlled(asked, 'D') == inside.controlled(asked, 'D')
        }),
{
    let inside = GridView { cursor: CursorView { row: grid.rows - 1, ..grid.cursor }, ..grid };
    let asked = seq![seq![mode]];
    assert(grid.controlled(asked, 'K').cells =~= inside.controlled(asked, 'K').cells);
    assert(grid.controlled(asked, 'J').cells =~= inside.controlled(asked, 'J').cells);
}

/// How often a function is asked for: once where no number is given, or 0.
pub open spec fn times(number: u16) -> int {
    if number == 0 {
        1
    } else {
        number as int
    }
}

/// The cursor goes up, down, right or left by as many places as are asked for,
/// or as far as the grid goes, and changes no cell.
pub proof fn cursor_moves_inside_the_grid(grid: GridView, number: u16)
    requires
        grid.wf(),
        has_cursor_inside(grid),
        grid.cols > 0,
    ensures
        ({
            let asked = seq![seq![number]];
            let row = grid.cursor.row;
            let col = grid.cursor.col;
            let last = grid.cols - 1;
            let up = grid.controlled(asked, 'A');
            let down = grid.controlled(asked, 'B');
            let right = grid.controlled(asked, 'C');
            let left = grid.controlled(asked, 'D');
            &&& up.cursor.row == if row >= times(number) {
                row - times(number)
            } else {
                0
            }
            &&& down.cursor.row == if row + times(number) < grid.rows {
                row + times(number)
            } else {
                grid.rows - 1
            }
            &&& col < grid.cols ==> up.cursor.col == col && down.cursor.col == col
            &&& right.cursor.row == row && left.cursor.row == row
            &&& right.cursor.col == if col + times(number) <= last {
                col + times(number)
            } else {
                last
            }
            &&& left.cursor.col == if col >= times(number) {
                col - times(number)
            } else {
                0
            }
            &&& up.cells == grid.cells && down.cells == grid.cells
            &&& right.cells == grid.cells && left.cells == grid.cells
            &&& same_frame(grid, up) && same_frame(grid, down)
            &&& same_frame(grid, right) && same_frame(grid, left)
        }),
{
    let asked = seq![seq![number]];
    assert(asked[0][0] == number);
}

/// The cursor goes to the row and the column that are named, which count from 1,
/// or as near as the grid goes.
pub proof fn cursor_goes_where_it_is_sent(grid: GridView, row: u16, col: u16, action: char)
    requires
        grid.wf(),
        grid.cols > 0,
        action == 'H' || action == 'f',
    ensures
        ({
            let after = grid.controlled(seq![seq![row], seq![col]], action);
            &&& after.cursor.row == if times(row) <= grid.rows {
                times(row) - 1
            } else {
                grid.rows - 1
            }
            &&& after.cursor.col == if times(col) <= grid.cols {
                times(col) - 1
            } else {
                grid.cols - 1
            }
            &&& after.cursor.attrs == grid.cursor.attrs
            &&& after.cells == grid.cells
            &&& same_frame(grid, after)
        }),
{
    let asked = seq![seq![row], seq![col]];
    assert(asked[0][0] == row);
    assert(asked[1][0] == col);
}

/// Erasing in a line empties the cells from the cursor on, those up to the
/// cursor, or all of them, and none in another line. The cursor stays.
pub proof fn erasing_in_a_line(grid: GridView, mode: u16)
    requires
        grid.wf(),
        has_cursor_inside(grid),
        mode <= 2,
    ensures
        ({
            let after = grid.controlled(seq![seq![mode]], 'K');
            let row = grid.cursor.row;
            let from = if mode == 0 {
                grid.cursor.col
            } else {
                0
            };
            let to = if mode == 1 {
                grid.cursor.col + 1
            } else {
                grid.cols
            };
            &&& same_but_for(grid, after, row, from, to)
            &&& forall|j: int|
                from <= j < to && j < grid.cols ==> is_untouched(#[trigger] after.cells[row][j])
            &&& after.cursor == grid.cursor
            &&& same_frame(grid, after)
        }),
{
    assert(seq![seq![mode]][0][0] == mode);
    assert(grid.cells[grid.cursor.row].len() == grid.cols);
}

/// Erasing in the display empties all from the cursor on, all up to the cursor,
/// or all there is. The cursor stays.
pub proof fn erasing_in_the_display(grid: GridView, mode: u16)
    requires
        grid.wf(),
        has_cursor_inside(grid),
        mode <= 2,
    ensures
        ({
            let after = grid.controlled(seq![seq![mode]], 'J');
            &&& after.cells.len() == grid.rows
            &&& forall|i: int, j: int|
                0 <= i < grid.rows && 0 <= j < grid.cols ==> {
                    let behind = i > grid.cursor.row || (i == grid.cursor.row && j
                        >= grid.cursor.col);
                    let ahead = i < grid.cursor.row || (i == grid.cursor.row && j
                        <= grid.cursor.col);
                    if mode == 2 || (mode == 0 && behind) || (mode == 1 && ahead) {
                        is_untouched(#[trigger] after.cells[i][j])
                    } else {
                        after.cells[i][j] == grid.cells[i][j]
                    }
                }
            &&& after.cursor == grid.cursor
            &&& same_frame(grid, after)
        }),
{
    assert(seq![seq![mode]][0][0] == mode);
    assert(grid.cells[grid.cursor.row].len() == grid.cols);
}

/// The part that scrolls is set from one row to another, which count from 1,
/// and the cursor goes to the upper left. A part of less than two rows changes
/// nothing.
pub proof fn part_that_scrolls_is_set(grid: GridView, top: u16, bottom: u16)
    requires
        grid.wf(),
    ensures
        ({
            let after = grid.controlled(seq![seq![top], seq![bottom]], 'r');
            let first = times(top);
            let last = if bottom == 0 || bottom > grid.rows {
                grid.rows
            } else {
                bottom as int
            };
            &&& after.cells == grid.cells
            &&& after.cols == grid.cols
            &&& after.rows == grid.rows
            &&& after.cursor.attrs == grid.cursor.attrs
            &&& first < last ==> {
                &&& after.scroll_top == first - 1
                &&& after.scroll_bottom == last - 1
                &&& after.cursor.row == 0
                &&& after.cursor.col == 0
            }
            &&& first >= last ==> after == grid
        }),
{
    let asked = seq![seq![top], seq![bottom]];
    assert(asked[0][0] == top);
    assert(asked[1][0] == bottom);
}

/// Whether two screens are the same but for the grid that is shown.
pub open spec fn same_but_shown(before: ScreenView, after: ScreenView) -> bool {
    after == if before.using_alternate {
        ScreenView { alternate: after.alternate, ..before }
    } else {
        ScreenView { primary: after.primary, ..before }
    }
}

/// A control sequence without intermediate bytes concerns the grid that is shown
/// and nothing else. One that was cut off concerns nothing.
pub proof fn control_sequences_concern_the_shown_grid(
    screen: ScreenView,
    params: Seq<Seq<u16>>,
    action: char,
)
    ensures
        ({
            let asked = ActionView::Csi {
                params,
                intermediates: Seq::empty(),
                ignore: false,
                action,
            };
            &&& screen.performed(asked).active() == screen.active().controlled(params, action)
            &&& same_but_shown(screen, screen.performed(asked))
        }),
{
}

/// An escape sequence or a control sequence that was cut off does nothing.
pub proof fn cut_off_sequences_do_nothing(
    screen: ScreenView,
    params: Seq<Seq<u16>>,
    intermediates: Seq<u8>,
    action: char,
    byte: u8,
)
    ensures
        screen.performed(ActionView::Csi { params, intermediates, ignore: true, action })
            == screen,
        screen.performed(ActionView::Esc { intermediates, ignore: true, byte }) == screen,
{
}

/// Whether a command runs in a screen and what is printed is its text.
pub open spec fn is_collecting(screen: ScreenView) -> bool {
    screen.pending is Some && screen.command_state != CommandState::Idle
}

/// Whether the text of the running command has become `capture`, and nothing
/// else of the command has changed.
pub open spec fn has_text(before: ScreenView, after: ScreenView, capture: CaptureView) -> bool {
    &&& after.pending is Some
    &&& after.pending->0.capture == capture
    &&& after.pending->0.start_time == before.pending->0.start_time
    &&& after.pending->0.waiter == before.pending->0.waiter
    &&& after.command_state == before.command_state
    &&& after.results == before.results
}

/// A character goes to the grid that is shown, and to the text of the command
/// that runs. Rows that it moves off the primary screen go to the history; those
/// of the alternate screen are gone.
pub proof fn character_is_shown_and_collected(screen: ScreenView, c: char)
    ensures
        ({
            let after = screen.performed(ActionView::Print(c));
            &&& after.active() == screen.active().printed(c)
            &&& after.using_alternate == screen.using_alternate
            &&& screen.using_alternate ==> after.primary == screen.primary && after.scrollback
                == screen.scrollback
            &&& !screen.using_alternate ==> after.alternate == screen.alternate
                && after.scrollback == history_append(
                screen.scrollback,
                screen.primary.printed_off(c),
            )
            &&& is_collecting(screen) ==> has_text(
                screen,
                after,
                screen.pending->0.capture.captured(c),
            )
            &&& !is_collecting(screen) ==> after.pending == screen.pending
            &&& after == (ScreenView {
                primary: after.primary,
                alternate: after.alternate,
                scrollback: after.scrollback,
                pending: after.pending,
                ..screen
            })
        }),
{
}

/// A line feed, a vertical tabulator and a form feed feed a line in the column
/// where the cursor stands, and a newline to the text of the command.
pub proof fn line_feed_is_shown_and_collected(screen: ScreenView, byte: u8)
    requires
        0x0a <= byte <= 0x0c,
    ensures
        ({
            let after = screen.performed(ActionView::Execute(byte));
            let grid = screen.active();
            &&& after.active() == grid.line_fed(grid.cursor.col)
            &&& screen.using_alternate ==> after.primary == screen.primary && after.scrollback
                == screen.scrollback
            &&& !screen.using_alternate ==> after.alternate == screen.alternate
                && after.scrollback == history_append(screen.scrollback, grid.fed_off())
            &&& is_collecting(screen) ==> has_text(
                screen,
                after,
                screen.pending->0.capture.captured('\n'),
            )
            &&& !is_collecting(screen) ==> after.pending == screen.pending
        }),
{
}

/// A line that a line feed moves off the top of the primary screen is the newest
/// of the history, whatever rows are kept at the bottom of the screen.
pub proof fn line_that_leaves_is_kept(screen: ScreenView)
    requires
        screen.wf(),
        !screen.using_alternate,
        has_cursor_inside(screen.primary),
        screen.primary.cursor.row == screen.primary.scroll_bottom,
        screen.primary.scroll_top == 0,
    ensures
        ({
            let after = screen.performed(ActionView::Execute(0x0a));
            &&& after.scrollback.len() > 0
            &&& after.scrollback.last() == screen.primary.cells[0]
            &&& screen.scrollback.len() < 10000 ==> after.scrollback == screen.scrollback.push(
                screen.primary.cells[0],
            )
        }),
{
    line_feed_is_shown_and_collected(screen, 0x0a);
    history_takes_a_row(screen.scrollback, screen.primary.cells[0]);
}

/// A carriage return moves the cursor to the first column and a backspace one
/// column to the left; neither changes a cell. In the text of the command they
/// move the place of the next character.
pub proof fn returns_and_steps_are_shown_and_collected(screen: ScreenView)
    requires
        screen.active().wf(),
        has_cursor_inside(screen.active()),
        screen.active().cols > 0,
    ensures
        ({
            let grid = screen.active();
            let returned = screen.performed(ActionView::Execute(0x0d));
            let stepped = screen.performed(ActionView::Execute(0x08));
            &&& returned.active().cells == grid.cells
            &&& returned.active().cursor.row == grid.cursor.row
            &&& returned.active().cursor.col == 0
            &&& stepped.active().cells == grid.cells
            &&& stepped.active().cursor.row == grid.cursor.row
            &&& stepped.active().cursor.col == if grid.cursor.col > 0 {
                grid.cursor.col - 1
            } else {
                0
            }
            &&& is_collecting(screen) ==> has_text(
                screen,
                returned,
                screen.pending->0.capture.returned(),
            ) && has_text(screen, stepped, screen.pending->0.capture.stepped_back())
            &&& !is_collecting(screen) ==> returned.pending == screen.pending && stepped.pending
                == screen.pending
            &&& returned.scrollback == screen.scrollback
            &&& stepped.scrollback == screen.scrollback
        }),
{
}

/// A tabulator is shown as such, and is a character of the text of the command.
pub proof fn tab_is_shown_and_collected(screen: ScreenView)
    ensures
        ({
            let after = screen.performed(ActionView::Execute(0x09));
            &&& after.active() == screen.active().tabbed()
            &&& after.scrollback == screen.scrollback
            &&& is_collecting(screen) ==> has_text(
                screen,
                after,
                screen.pending->0.capture.captured('\t'),
            )
            &&& !is_collecting(screen) ==> after.pending == screen.pending
        }),
{
}

/// A bell asks for attention and does nothing else; other control characters do
/// nothing at all.
pub proof fn bell_asks_for_attention(screen: ScreenView, byte: u8)
    requires
        byte < 0x07 || byte > 0x0d,
    ensures
        screen.performed(ActionView::Execute(0x07)) == (ScreenView {
            osc_actions: screen.osc_actions.push(OscView::Bell),
            ..screen
        }),
        screen.performed(ActionView::Execute(byte)) == screen,
{
}

/// A saved cursor comes back as it was, with its look, whatever has moved it in
/// between.
pub proof fn saved_cursor_comes_back(screen: ScreenView, moved: ScreenView)
    requires
        ({
            let none = Seq::<u8>::empty();
            let save = ActionView::Esc { intermediates: none, ignore: false, byte: 0x37 };
            moved.saved_cursor == screen.performed(save).saved_cursor
        }),
    ensures
        ({
            let none = Seq::<u8>::empty();
            let restore = ActionView::Esc { intermediates: none, ignore: false, byte: 0x38 };
            let after = moved.performed(restore);
            &&& after.active().cursor == screen.active().cursor
            &&& after.active().cells == moved.active().cells
        }),
{
}

/// Saving the cursor changes nothing that is seen, and where none was saved
/// there is nothing to bring back.
pub proof fn saving_the_cursor_shows_nothing(screen: ScreenView)
    ensures
        screen.performed(escape(0x37)) == (ScreenView {
            saved_cursor: Some(screen.active().cursor),
            ..screen
        }),
        screen.saved_cursor is None ==> screen.performed(escape(0x38)) == screen,
        screen.saved_cursor is Some ==> same_but_shown(screen, screen.performed(escape(0x38))),
{
}

/// A select graphic rendition changes the look of what is printed next, and
/// nothing that is there.
pub proof fn looks_concern_what_comes(grid: GridView, params: Seq<Seq<u16>>)
    ensures
        ({
            let after = grid.controlled(params, 'm');
            &&& after.cells == grid.cells
            &&& after.cursor.row == grid.cursor.row
            &&& after.cursor.col == grid.cursor.col
            &&& after.cursor.attrs == with_params(grid.cursor.attrs, params)
            &&& same_frame(grid, after)
        }),
{
}

/// Control sequences without a meaning do nothing.
pub proof fn other_sequences_do_nothing(grid: GridView, params: Seq<Seq<u16>>, action: char)
    requires
        action != 'A' && action != 'B' && action != 'C' && action != 'D',
        action != 'H' && action != 'f' && action != 'J' && action != 'K',
        action != 'm' && action != 'r',
    ensures
        grid.controlled(params, action) == grid,
{
}

/// A number that is not given counts as 0 where a kind of erasing is asked for,
/// as 1 where the cursor moves, and as the outermost row where the part that
/// scrolls is set.
pub proof fn missing_numbers(grid: GridView, action: char)
    ensures
        grid.controlled(Seq::empty(), action) == grid.controlled(seq![seq![0u16]], action)
            || action == 'm',
        grid.controlled(Seq::empty(), action) == grid.controlled(
            seq![seq![0u16], seq![0u16]],
            action,
        ) || action == 'm',
{
    let one = seq![seq![0u16]];
    let two = seq![seq![0u16], seq![0u16]];
    assert(one[0][0] == 0);
    assert(two[0][0] == 0);
    assert(two[1][0] == 0);
}

/// An escape sequence of one byte.
pub open spec fn escape(byte: u8) -> ActionView {
    ActionView::Esc { intermediates: Seq::empty(), ignore: false, byte }
}

/// An index feeds a line in the column of the cursor, a next line to the first
/// column, and a reverse index the other way. None of them is a part of the text
/// of a command.
pub proof fn escapes_feed_lines(screen: ScreenView)
    ensures
        ({
            let grid = screen.active();
            let index = screen.performed(escape(0x44));
            let next = screen.performed(escape(0x45));
            let reverse = screen.performed(escape(0x4d));
            &&& index.active() == grid.line_fed(grid.cursor.col)
            &&& next.active() == grid.line_fed(0)
            &&& reverse.active() == grid.line_reversed()
            &&& screen.using_alternate ==> index.scrollback == screen.scrollback
                && next.scrollback == screen.scrollback
            &&& !screen.using_alternate ==> index.scrollback == history_append(
                screen.scrollback,
                grid.fed_off(),
            ) && next.scrollback == index.scrollback
            &&& reverse.scrollback == screen.scrollback
            &&& index.pending == screen.pending && next.pending == screen.pending
            &&& reverse.pending == screen.pending
        }),
{
}

/// The keypad is switched on and off by escape sequences too. Bytes without a
/// meaning do nothing.
pub proof fn escapes_switch_the_keypad(screen: ScreenView, byte: u8)
    requires
        byte != 0x37 && byte != 0x38 && byte != 0x3d && byte != 0x3e,
        byte != 0x44 && byte != 0x45 && byte != 0x4d,
    ensures
        screen.performed(escape(0x3d)).private_modes == (PrivateModes {
            keypad: true,
            ..screen.private_modes
        }),
        screen.performed(escape(0x3e)).private_modes == (PrivateModes {
            keypad: false,
            ..screen.private_modes
        }),
        screen.performed(escape(byte)) == screen,
{
}

/// A private mode that is switched on or off.
pub open spec fn private_mode(mode: u16, on: bool) -> ActionView {
    ActionView::Csi {
        params: seq![seq![mode]],
        intermediates: seq![0x3fu8],
        ignore: false,
        action: if on {
            'h'
        } else {
            'l'
        },
    }
}

/// The UTF-8 of a question mark and of an exclamation mark.
proof fn lemma_signs()
    ensures
        encode_utf8("?"@) == seq![0x3fu8],
        encode_utf8("!"@) == seq![0x21u8],
{
    reveal_strlit("?");
    reveal_strlit("!");
    is_ascii_chars_encode_utf8("?"@);
    is_ascii_chars_encode_utf8("!"@);
    assert(encode_utf8("?"@) =~= seq![0x3fu8]);
    assert(encode_utf8("!"@) =~= seq![0x21u8]);
}

/// Private modes ask for another screen, tell where a frame of synchronized
/// output starts and stops, or are kept; each does that alone.
pub proof fn private_modes_are_sorted(screen: ScreenView, mode: u16, on: bool)
    ensures
        ({
            let after = screen.performed(private_mode(mode, on));
            &&& mode == 47 || mode == 1047 || mode == 1049 ==> after == (ScreenView {
                pending_switch: Some(on),
                ..screen
            })
            &&& mode == 2026 ==> after == (ScreenView {
                sync_events: screen.sync_events.push(
                    if on {
                        SyncEvent::Start
                    } else {
                        SyncEvent::Stop
                    },
                ),
                ..screen
            })
            &&& mode != 47 && mode != 1047 && mode != 1049 && mode != 2026 ==> after == (
            ScreenView { private_modes: screen.private_modes.with_mode(mode, on), ..screen })
        }),
{
    lemma_signs();
    let params = seq![seq![mode]];
    assert(params.drop_last() =~= Seq::<Seq<u16>>::empty());
    assert(screen.with_modes(params.drop_last(), on) == screen);
    assert(params[0][0] == mode);
    assert(screen.with_modes(params, on) == screen.with_mode(mode, on));
}

/// A soft reset switches the keys, pasted text in brackets and focus events off;
/// the mouse keeps its modes, and nothing else changes.
pub proof fn soft_reset_keeps_the_mouse(screen: ScreenView, params: Seq<Seq<u16>>)
    ensures
        ({
            let after = screen.performed(
                ActionView::Csi {
                    params,
                    intermediates: seq![0x21u8],
                    ignore: false,
                    action: 'p',
                },
            );
            &&& after.private_modes.mouse == screen.private_modes.mouse
            &&& after.private_modes.encoding == screen.private_modes.encoding
            &&& !after.private_modes.cursor_keys
            &&& !after.private_modes.keypad
            &&& !after.private_modes.bracketed_paste
            &&& !after.private_modes.focus_event
            &&& after == (ScreenView { private_modes: after.private_modes, ..screen })
        }),
{
    lemma_signs();
    assert(seq![0x21u8][0] != encode_utf8("?"@)[0]);
}

/// Control sequences with other intermediate bytes, or with another end behind
/// these, do nothing.
pub proof fn other_private_sequences_do_nothing(
    screen: ScreenView,
    params: Seq<Seq<u16>>,
    intermediates: Seq<u8>,
    action: char,
)
    requires
        intermediates.len() > 0,
        intermediates == seq![0x3fu8] ==> action != 'h' && action != 'l',
        intermediates == seq![0x21u8] ==> action != 'p',
    ensures
        screen.performed(ActionView::Csi { params, intermediates, ignore: false, action })
            == screen,
{
    lemma_signs();
}

/// Several private modes in one sequence are switched one after the other.
pub proof fn private_modes_are_switched_in_order(
    screen: ScreenView,
    params: Seq<Seq<u16>>,
    mode: u16,
    on: bool,
)
    ensures
        ({
            let action = if on {
                'h'
            } else {
                'l'
            };
            let intermediates = seq![0x3fu8];
            let front = ActionView::Csi { params, intermediates, ignore: false, action };
            let all = ActionView::Csi {
                params: params.push(seq![mode]),
                intermediates,
                ignore: false,
                action,
            };
            screen.performed(all) == screen.performed(front).performed(private_mode(mode, on))
        }),
{
    lemma_signs();
    let all = params.push(seq![mode]);
    let one = seq![seq![mode]];
    let before = screen.with_modes(params, on);
    assert(all.drop_last() =~= params);
    assert(all[all.len() - 1][0] == mode);
    assert(one.drop_last() =~= Seq::<Seq<u16>>::empty());
    assert(before.with_modes(one.drop_last(), on) == before);
    assert(one[0][0] == mode);
    assert(before.with_modes(one, on) == before.with_mode(mode, on));
}

} // verus!
