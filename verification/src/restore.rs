//! What a client shows that is sent a snapshot: the text of a snapshot as the
//! steps that it asks for, and what those steps do to another screen.
use vstd::prelude::*;
use vstd::utf8::*;

use crate::editing::cell_of;
use crate::grid::{
    blank_row, history_append, is_blank_cell, lemma_history_append, max, min, Cell, CellAttrs,
    CursorView, GridView,
};
use crate::modes::{when_on, MouseEncoding, MouseProtocol, PrivateModes};
use crate::parser::ActionView;
use crate::performer::{CARRIAGE_RETURN, LINE_FEED};
use crate::render::{
    drawn, move_to, rendered, rendered_rows, restored, styled_row, visible_end,
};
use crate::screen::ScreenView;
use crate::snapshot::newlines;
use crate::sgr::{joined, sgr, sgr_codes, sgr_round_trip, singles, with_params};
use crate::text::{decimal, lemma_append};
use crate::width::{is_mark, is_wide};

verus! {

/// One thing that a snapshot asks of a terminal.
pub enum Step {
    /// Draw a character.
    Put(char),
    /// Go to the start of the line.
    Return,
    /// Feed a line.
    Feed,
    /// Obey a control sequence, a private one or a public one.
    Ask { private: bool, codes: Seq<u16>, action: char },
}

impl Step {
    /// How the step is written.
    pub open spec fn text(self) -> Seq<char> {
        match self {
            Step::Put(c) => seq![c],
            Step::Return => seq!['\r'],
            Step::Feed => seq!['\n'],
            Step::Ask { private, codes, action } => "\x1b["@ + when_on(private, "?"@) + joined(
                codes,
            ) + seq![action],
        }
    }

    /// The action that the step is.
    pub open spec fn action(self) -> ActionView {
        match self {
            Step::Put(c) => ActionView::Print(c),
            Step::Return => ActionView::Execute(CARRIAGE_RETURN),
            Step::Feed => ActionView::Execute(LINE_FEED),
            Step::Ask { private, codes, action } => ActionView::Csi {
                params: singles(numbers(codes)),
                intermediates: if private {
                    encode_utf8("?"@)
                } else {
                    Seq::empty()
                },
                ignore: false,
                action,
            },
        }
    }
}

/// The numbers of a control sequence: where none is written there is one, 0.
pub open spec fn numbers(codes: Seq<u16>) -> Seq<u16> {
    if codes.len() == 0 {
        seq![0]
    } else {
        codes
    }
}

/// A control sequence.
pub open spec fn ask(codes: Seq<u16>, action: char) -> Step {
    Step::Ask { private: false, codes, action }
}

/// A private mode switched on or off.
pub open spec fn ask_mode(mode: u16, on: bool) -> Step {
    Step::Ask {
        private: true,
        codes: seq![mode],
        action: if on {
            'h'
        } else {
            'l'
        },
    }
}

/// How some steps are written.
pub open spec fn steps_text(steps: Seq<Step>) -> Seq<char>
    decreases steps.len(),
{
    if steps.len() == 0 {
        Seq::empty()
    } else {
        steps_text(steps.drop_last()) + steps.last().text()
    }
}

/// The steps that draw combining marks.
pub open spec fn mark_steps(marks: Seq<char>) -> Seq<Step>
    decreases marks.len(),
{
    if marks.len() == 0 {
        Seq::empty()
    } else {
        put_after(mark_steps(marks.drop_last()), marks.last())
    }
}

/// Some steps and then a character.
pub open spec fn put_after(steps: Seq<Step>, c: char) -> Seq<Step> {
    steps.push(Step::Put(c))
}

/// The steps that draw the character of a cell and its marks.
pub open spec fn glyph_steps(cell: Cell) -> Seq<Step> {
    seq![Step::Put(cell.ch)] + mark_steps(cell.marks())
}

/// The step that changes the look, where it changes.
pub open spec fn look_steps(before: CellAttrs, attrs: CellAttrs) -> Seq<Step> {
    if before == attrs {
        Seq::empty()
    } else {
        seq![ask(sgr_codes(attrs), 'm')]
    }
}

/// The steps that draw some cells, from the plain look on.
pub open spec fn cell_steps(cells: Seq<Cell>) -> Seq<Step>
    decreases cells.len(),
{
    if cells.len() == 0 {
        Seq::empty()
    } else {
        let before = cell_steps(cells.drop_last());
        let cell = cells.last();
        if cell.ch == '\0' {
            before
        } else {
            before + look_steps(drawn(cells.drop_last()).attrs, cell.attrs) + glyph_steps(cell)
        }
    }
}

/// The steps that draw a row and go back to the plain look.
#[verifier::opaque]
pub open spec fn row_steps(row: Seq<Cell>) -> Seq<Step> {
    let cells = row.take(visible_end(row));
    if drawn(cells).attrs != CellAttrs::plain() {
        cell_steps(cells).push(ask(seq![0], 'm'))
    } else {
        cell_steps(cells)
    }
}

/// The steps that put the cursor at a place.
pub open spec fn move_step(row: int, col: int) -> Step {
    ask(seq![(row + 1) as u16, (col + 1) as u16], 'H')
}

/// The steps that draw the first `n` rows.
pub open spec fn grid_steps(cells: Seq<Seq<Cell>>, n: int) -> Seq<Step>
    decreases n,
{
    if n <= 0 {
        Seq::empty()
    } else {
        grid_steps(cells, n - 1) + (seq![move_step(n - 1, 0), ask(Seq::empty(), 'K')] + row_steps(
            cells[n - 1],
        ))
    }
}

/// The steps that put the cursor back, with its look.
pub open spec fn cursor_steps(cursor: CursorView) -> Seq<Step> {
    seq![move_step(cursor.row, cursor.col), ask(sgr_codes(cursor.attrs), 'm')]
}

/// A mode that is switched on, where it is.
#[verifier::opaque]
pub open spec fn mode_step(on: bool, mode: u16) -> Seq<Step> {
    if on {
        seq![ask_mode(mode, true)]
    } else {
        Seq::empty()
    }
}

/// The steps that switch private modes on.
pub open spec fn mode_steps(modes: PrivateModes) -> Seq<Step> {
    mode_step(modes.encoding == MouseEncoding::Sgr, 1006) + mode_step(
        modes.encoding == MouseEncoding::SgrPixels,
        1016,
    ) + mode_step(modes.mouse == MouseProtocol::X10, 9) + mode_step(
        modes.mouse == MouseProtocol::Normal,
        1000,
    ) + mode_step(modes.mouse == MouseProtocol::Button, 1002) + mode_step(
        modes.mouse == MouseProtocol::Any,
        1003,
    ) + mode_step(modes.cursor_keys, 1) + mode_step(modes.keypad, 66) + mode_step(
        modes.bracketed_paste,
        2004,
    )
}

/// The steps of a snapshot.
pub open spec fn snapshot_steps(screen: ScreenView) -> Seq<Step> {
    let grid = screen.active();
    seq![ask_mode(25, false), ask(seq![0], 'm')] + mode_step(screen.using_alternate, 1049)
        + whole_grid_steps(grid) + mode_steps(screen.private_modes) + cursor_steps(grid.cursor)
        + seq![ask_mode(25, true)]
}

/// As many line feeds as `n` says.
pub open spec fn feed_steps(n: int) -> Seq<Step> {
    Seq::new(n as nat, |i: int| Step::Feed)
}

/// The steps that scroll the replayed history out of view.
pub open spec fn scroll_steps(screen: ScreenView) -> Seq<Step> {
    if screen.rows_in_view() > 0 {
        seq![move_step(screen.rows - 1, 0)] + feed_steps(screen.rows_in_view())
    } else {
        Seq::empty()
    }
}

/// The steps that draw a grid, from the plain look on.
pub open spec fn whole_grid_steps(grid: GridView) -> Seq<Step> {
    grid_steps(grid.cells, grid.cells.len() as int)
}

/// The steps of a snapshot for a client that reconnects.
pub open spec fn replay_steps(screen: ScreenView) -> Seq<Step> {
    let reset = seq![ask(seq![0], 'm')];
    let primary = seq![ask_mode(25, false)] + scroll_steps(screen) + reset + whole_grid_steps(
        screen.primary,
    );
    let show = seq![ask_mode(25, true)];
    if screen.using_alternate {
        primary + cursor_steps(screen.primary.cursor) + seq![ask_mode(1049, true)] + reset
            + whole_grid_steps(screen.alternate) + mode_steps(screen.private_modes)
            + cursor_steps(screen.alternate.cursor) + show
    } else {
        primary + mode_steps(screen.private_modes) + cursor_steps(screen.primary.cursor) + show
    }
}

/// A cell with some combining marks, the first of them first.
pub open spec fn with_marks(cell: Cell, marks: Seq<char>) -> Cell
    decreases marks.len(),
{
    if marks.len() == 0 {
        cell
    } else {
        with_marks(cell, marks.drop_last()).with_mark(marks.last())
    }
}

/// Whether the cell at `j` of a row is as printing leaves it: a character with
/// its marks, where nothing blank has marks, and a null behind each wide
/// character and nowhere else.
pub open spec fn is_printed_cell(row: Seq<Cell>, j: int) -> bool {
    let cell = row[j];
    &&& cell.wf()
    &&& cell == with_marks(cell_of(cell.ch, cell.attrs), cell.marks())
    &&& forall|k: int| 0 <= k < cell.marks().len() ==> is_mark(#[trigger] cell.marks()[k])
    &&& is_blank_cell(cell) ==> cell.combining_len == 0
    &&& !is_mark(cell.ch)
    &&& cell.ch == '\0' ==> {
        &&& cell.combining_len == 0
        &&& j > 0
        &&& is_wide(row[j - 1].ch)
        &&& row[j - 1].attrs == cell.attrs
    }
    &&& is_wide(cell.ch) ==> j + 1 < row.len() && row[j + 1].ch == '\0'
}

/// Whether every cell of a row is as printing leaves it.
#[verifier::opaque]
pub open spec fn is_printed_row(row: Seq<Cell>) -> bool {
    forall|j: int| 0 <= j < row.len() ==> #[trigger] is_printed_cell(row, j)
}

/// Whether every row of a grid is as printing leaves it, and its places can be
/// written as parameters.
pub open spec fn is_drawable(grid: GridView) -> bool {
    &&& grid.wf()
    &&& grid.rows <= u16::MAX
    &&& grid.cols <= u16::MAX
    &&& forall|i: int| 0 <= i < grid.rows ==> is_printed_row(#[trigger] grid.cells[i])
}

/// The place of a cursor, or the one on a grid that is nearest to it.
pub open spec fn nearest(cursor: CursorView, rows: int, cols: int) -> CursorView {
    CursorView {
        row: max(0, min(cursor.row, rows - 1)),
        col: max(0, min(cursor.col, cols - 1)),
        attrs: cursor.attrs,
    }
}

/// A cursor on a grid is nearest to itself.
pub proof fn cursor_on_the_grid_is_kept(cursor: CursorView, rows: int, cols: int)
    requires
        0 <= cursor.row < rows,
        0 <= cursor.col < cols,
    ensures
        nearest(cursor, rows, cols) == cursor,
{
}

/// Whether a grid can be drawn, and the place of its cursor written.
pub open spec fn is_replayable(grid: GridView) -> bool {
    &&& is_drawable(grid)
    &&& 0 <= grid.cursor.row < u16::MAX
    &&& 0 <= grid.cursor.col < u16::MAX
}

/// The text of two stretches of steps, one after the other.
pub(crate) proof fn lemma_text_concat(a: Seq<Step>, b: Seq<Step>)
    ensures
        steps_text(a + b) == steps_text(a) + steps_text(b),
    decreases b.len(),
{
    if b.len() == 0 {
        assert(a + b =~= a);
        assert(steps_text(a) + steps_text(b) =~= steps_text(a));
    } else {
        lemma_text_concat(a, b.drop_last());
        assert((a + b).drop_last() =~= a + b.drop_last());
        assert((a + b).last() == b.last());
        lemma_append(steps_text(a), steps_text(b.drop_last()), b.last().text());
    }
}

/// The text of one step.
proof fn lemma_text_one(step: Step)
    ensures
        steps_text(seq![step]) == step.text(),
{
    assert(seq![step].drop_last() =~= Seq::<Step>::empty());
    assert(steps_text(seq![step].drop_last()) =~= Seq::<char>::empty());
    assert(Seq::<char>::empty() + step.text() =~= step.text());
}

/// The text of two steps.
pub(crate) proof fn lemma_text_two(first: Step, second: Step)
    ensures
        steps_text(seq![first, second]) == first.text() + second.text(),
{
    lemma_text_one(first);
    assert(seq![first, second].drop_last() =~= seq![first]);
}

/// A public control sequence is written as its introducer, its numbers and its
/// end.
proof fn lemma_ask_text(codes: Seq<u16>, action: char)
    ensures
        ask(codes, action).text() == "\x1b["@ + joined(codes) + seq![action],
{
    assert("\x1b["@ + when_on(false, "?"@) =~= "\x1b["@);
}

/// A change of look is written as one.
proof fn lemma_sgr_text(attrs: CellAttrs)
    ensures
        ask(sgr_codes(attrs), 'm').text() == sgr(attrs),
{
    lemma_ask_text(sgr_codes(attrs), 'm');
    reveal_strlit("m");
    assert("m"@ =~= seq!['m']);
}

/// The way back to the plain look is written as it is in a snapshot.
proof fn lemma_reset_text()
    ensures
        ask(seq![0], 'm').text() == "\x1b[0m"@,
{
    lemma_ask_text(seq![0], 'm');
    reveal_strlit("\x1b[");
    reveal_strlit("\x1b[0m");
    assert(joined(seq![0u16]) =~= seq!['0']);
    assert("\x1b["@ + seq!['0'] + seq!['m'] =~= "\x1b[0m"@);
}

/// A place is written as it is in a snapshot.
proof fn lemma_move_text(row: int, col: int)
    requires
        0 <= row < u16::MAX,
        0 <= col < u16::MAX,
    ensures
        move_step(row, col).text() == move_to(row, col),
{
    let codes = seq![(row + 1) as u16, (col + 1) as u16];
    lemma_ask_text(codes, 'H');
    assert(codes.drop_last() =~= seq![(row + 1) as u16]);
    assert(joined(seq![(row + 1) as u16]) == decimal(row + 1));
    assert(joined(codes) == decimal(row + 1) + ";"@ + decimal(col + 1));
    reveal_strlit("H");
    assert("H"@ =~= seq!['H']);
    let a = "\x1b["@;
    let b = decimal(row + 1);
    let c = ";"@;
    let d = decimal(col + 1);
    lemma_append(a, b, c);
    lemma_append(a, b + c, d);
}

/// One more character behind some steps.
proof fn lemma_put_after(steps: Seq<Step>, c: char)
    ensures
        put_after(steps, c).len() > 0,
        put_after(steps, c).drop_last() == steps,
        put_after(steps, c).last() == Step::Put(c),
        steps_text(put_after(steps, c)) == steps_text(steps).push(c),
{
    assert(put_after(steps, c).drop_last() =~= steps);
    assert(steps_text(steps) + seq![c] =~= steps_text(steps).push(c));
}

/// The text of combining marks is that of their steps.
proof fn lemma_marks_text(marks: Seq<char>)
    ensures
        steps_text(mark_steps(marks)) == marks,
    decreases marks.len(),
{
    if marks.len() > 0 {
        let front = marks.drop_last();
        lemma_marks_text(front);
        lemma_put_after(mark_steps(front), marks.last());
        assert(steps_text(mark_steps(marks)) == front.push(marks.last()));
        assert(front.push(marks.last()) =~= marks);
    } else {
        assert(marks =~= Seq::<char>::empty());
    }
}

/// The text of drawn cells is that of their steps.
proof fn lemma_cells_text(cells: Seq<Cell>)
    ensures
        drawn(cells).text == steps_text(cell_steps(cells)),
    decreases cells.len(),
{
    if cells.len() > 0 {
        let cell = cells.last();
        let front = cells.drop_last();
        let before = cell_steps(front);
        let look = look_steps(drawn(front).attrs, cell.attrs);
        let put = Step::Put(cell.ch);
        lemma_cells_text(front);
        lemma_text_one(put);
        lemma_marks_text(cell.marks());
        lemma_text_concat(seq![put], mark_steps(cell.marks()));
        assert(steps_text(glyph_steps(cell)) == cell.text());
        lemma_text_concat(before, look);
        lemma_text_concat(before + look, glyph_steps(cell));
        if cell.attrs == drawn(front).attrs {
            assert(steps_text(before) + steps_text(look) =~= steps_text(before));
        } else {
            lemma_text_one(ask(sgr_codes(cell.attrs), 'm'));
            lemma_sgr_text(cell.attrs);
        }
    }
}

/// The text of a row is that of its steps.
pub(crate) proof fn lemma_row_text(row: Seq<Cell>)
    ensures
        styled_row(row) == steps_text(row_steps(row)),
{
    reveal(row_steps);
    let cells = row.take(visible_end(row));
    lemma_cells_text(cells);
    if drawn(cells).attrs != CellAttrs::plain() {
        lemma_reset_text();
        assert(row_steps(row).drop_last() =~= cell_steps(cells));
    }
}

/// Nothing can be seen of the cells behind the visible ones.
proof fn lemma_visible_end(row: Seq<Cell>)
    ensures
        0 <= visible_end(row) <= row.len(),
        forall|j: int| visible_end(row) <= j < row.len() ==> is_blank_cell(#[trigger] row[j]),
    decreases row.len(),
{
    if row.len() > 0 && is_blank_cell(row.last()) {
        lemma_visible_end(row.drop_last());
        assert forall|j: int| visible_end(row) <= j < row.len() implies is_blank_cell(
            #[trigger] row[j],
        ) by {
            if j < row.len() - 1 {
                assert(row[j] == row.drop_last()[j]);
            }
        }
    }
}

/// The text of the first rows is that of their steps.
proof fn lemma_rows_text(grid: GridView, n: int)
    requires
        is_drawable(grid),
        0 <= n <= grid.rows,
    ensures
        rendered_rows(grid.cells, n) == steps_text(grid_steps(grid.cells, n)),
    decreases n,
{
    if n > 0 {
        let row = grid.cells[n - 1];
        let go = move_step(n - 1, 0);
        let clear = ask(Seq::empty(), 'K');
        lemma_rows_text(grid, n - 1);
        lemma_row_text(row);
        lemma_move_text(n - 1, 0);
        lemma_ask_text(Seq::empty(), 'K');
        reveal_strlit("\x1b[");
        reveal_strlit("\x1b[K");
        assert(clear.text() =~= "\x1b[K"@);
        lemma_text_two(go, clear);
        lemma_text_concat(seq![go, clear], row_steps(row));
        lemma_text_concat(
            grid_steps(grid.cells, n - 1),
            seq![go, clear] + row_steps(row),
        );
    }
}

/// The text of a mode that is switched on.
proof fn lemma_mode_text(on: bool, mode: u16, text: Seq<char>)
    requires
        text == "\x1b[?"@ + decimal(mode as int) + "h"@,
    ensures
        steps_text(mode_step(on, mode)) == when_on(on, text),
{
    reveal(mode_step);
    if on {
        lemma_text_one(ask_mode(mode, true));
        lemma_switch_text(mode, true);
    }
}

/// A private mode is written as its introducer, its number and its end.
proof fn lemma_switch_text(mode: u16, on: bool)
    ensures
        ask_mode(mode, on).text() == "\x1b[?"@ + decimal(mode as int) + if on {
            "h"@
        } else {
            "l"@
        },
{
    reveal_strlit("\x1b[");
    reveal_strlit("?");
    reveal_strlit("\x1b[?");
    reveal_strlit("h");
    reveal_strlit("l");
    assert("\x1b["@ + "?"@ =~= "\x1b[?"@);
    assert("h"@ =~= seq!['h']);
    assert("l"@ =~= seq!['l']);
    assert(joined(seq![mode]) == decimal(mode as int));
}

/// The private modes as a snapshot writes them.
proof fn lemma_mode_literals()
    ensures
        "\x1b[?"@ + decimal(1006) + "h"@ == "\x1b[?1006h"@,
        "\x1b[?"@ + decimal(1016) + "h"@ == "\x1b[?1016h"@,
        "\x1b[?"@ + decimal(9) + "h"@ == "\x1b[?9h"@,
        "\x1b[?"@ + decimal(1000) + "h"@ == "\x1b[?1000h"@,
        "\x1b[?"@ + decimal(1002) + "h"@ == "\x1b[?1002h"@,
        "\x1b[?"@ + decimal(1003) + "h"@ == "\x1b[?1003h"@,
        "\x1b[?"@ + decimal(1) + "h"@ == "\x1b[?1h"@,
        "\x1b[?"@ + decimal(66) + "h"@ == "\x1b[?66h"@,
        "\x1b[?"@ + decimal(2004) + "h"@ == "\x1b[?2004h"@,
        "\x1b[?"@ + decimal(1049) + "h"@ == "\x1b[?1049h"@,
        "\x1b[?"@ + decimal(25) + "h"@ == "\x1b[?25h"@,
        "\x1b[?"@ + decimal(25) + "l"@ == "\x1b[?25l"@,
{
    reveal_with_fuel(decimal, 4);
    reveal_strlit("\x1b[?");
    reveal_strlit("h");
    reveal_strlit("l");
    reveal_strlit("\x1b[?1006h");
    assert(decimal(1006) =~= seq!['1', '0', '0', '6']);
    assert("\x1b[?"@ + decimal(1006) + "h"@ =~= "\x1b[?1006h"@);
    reveal_strlit("\x1b[?1016h");
    assert(decimal(1016) =~= seq!['1', '0', '1', '6']);
    assert("\x1b[?"@ + decimal(1016) + "h"@ =~= "\x1b[?1016h"@);
    reveal_strlit("\x1b[?9h");
    assert(decimal(9) =~= seq!['9']);
    assert("\x1b[?"@ + decimal(9) + "h"@ =~= "\x1b[?9h"@);
    reveal_strlit("\x1b[?1000h");
    assert(decimal(1000) =~= seq!['1', '0', '0', '0']);
    assert("\x1b[?"@ + decimal(1000) + "h"@ =~= "\x1b[?1000h"@);
    reveal_strlit("\x1b[?1002h");
    assert(decimal(1002) =~= seq!['1', '0', '0', '2']);
    assert("\x1b[?"@ + decimal(1002) + "h"@ =~= "\x1b[?1002h"@);
    reveal_strlit("\x1b[?1003h");
    assert(decimal(1003) =~= seq!['1', '0', '0', '3']);
    assert("\x1b[?"@ + decimal(1003) + "h"@ =~= "\x1b[?1003h"@);
    reveal_strlit("\x1b[?1h");
    assert(decimal(1) =~= seq!['1']);
    assert("\x1b[?"@ + decimal(1) + "h"@ =~= "\x1b[?1h"@);
    reveal_strlit("\x1b[?66h");
    assert(decimal(66) =~= seq!['6', '6']);
    assert("\x1b[?"@ + decimal(66) + "h"@ =~= "\x1b[?66h"@);
    reveal_strlit("\x1b[?2004h");
    assert(decimal(2004) =~= seq!['2', '0', '0', '4']);
    assert("\x1b[?"@ + decimal(2004) + "h"@ =~= "\x1b[?2004h"@);
    reveal_strlit("\x1b[?1049h");
    assert(decimal(1049) =~= seq!['1', '0', '4', '9']);
    assert("\x1b[?"@ + decimal(1049) + "h"@ =~= "\x1b[?1049h"@);
    reveal_strlit("\x1b[?25h");
    assert(decimal(25) =~= seq!['2', '5']);
    assert("\x1b[?"@ + decimal(25) + "h"@ =~= "\x1b[?25h"@);
    reveal_strlit("\x1b[?25l");
    assert(decimal(25) =~= seq!['2', '5']);
    assert("\x1b[?"@ + decimal(25) + "l"@ =~= "\x1b[?25l"@);
}

/// Hiding the cursor, showing it and entering the alternate screen are written
/// as they are in a snapshot.
proof fn lemma_switch_texts()
    ensures
        steps_text(seq![ask_mode(25, false)]) == "\x1b[?25l"@,
        ask_mode(25, false).text() == "\x1b[?25l"@,
        steps_text(seq![ask_mode(25, true)]) == "\x1b[?25h"@,
        steps_text(seq![ask_mode(1049, true)]) == "\x1b[?1049h"@,
        steps_text(mode_step(true, 1049)) == "\x1b[?1049h"@,
        steps_text(mode_step(false, 1049)) == Seq::<char>::empty(),
        steps_text(seq![ask(seq![0], 'm')]) == "\x1b[0m"@,
{
    lemma_mode_literals();
    lemma_switch_text(25, false);
    lemma_switch_text(25, true);
    lemma_switch_text(1049, true);
    lemma_text_one(ask_mode(25, false));
    lemma_text_one(ask_mode(25, true));
    lemma_text_one(ask_mode(1049, true));
    lemma_mode_text(true, 1049, "\x1b[?1049h"@);
    lemma_mode_text(false, 1049, "\x1b[?1049h"@);
    lemma_reset_text();
    lemma_text_one(ask(seq![0], 'm'));
}

/// The text of private modes is that of their steps.
proof fn lemma_modes_text(modes: PrivateModes)
    ensures
        modes.replay() == steps_text(mode_steps(modes)),
{
    lemma_mode_literals();
    let sgr = modes.encoding == MouseEncoding::Sgr;
    let pixels = modes.encoding == MouseEncoding::SgrPixels;
    let x10 = modes.mouse == MouseProtocol::X10;
    let normal = modes.mouse == MouseProtocol::Normal;
    let button = modes.mouse == MouseProtocol::Button;
    let any = modes.mouse == MouseProtocol::Any;
    lemma_mode_text(sgr, 1006, "\x1b[?1006h"@);
    lemma_mode_text(pixels, 1016, "\x1b[?1016h"@);
    lemma_mode_text(x10, 9, "\x1b[?9h"@);
    lemma_mode_text(normal, 1000, "\x1b[?1000h"@);
    lemma_mode_text(button, 1002, "\x1b[?1002h"@);
    lemma_mode_text(any, 1003, "\x1b[?1003h"@);
    lemma_mode_text(modes.cursor_keys, 1, "\x1b[?1h"@);
    lemma_mode_text(modes.keypad, 66, "\x1b[?66h"@);
    lemma_mode_text(modes.bracketed_paste, 2004, "\x1b[?2004h"@);
    let s1 = mode_step(sgr, 1006) + mode_step(pixels, 1016);
    let s2 = s1 + mode_step(x10, 9);
    let s3 = s2 + mode_step(normal, 1000);
    let s4 = s3 + mode_step(button, 1002);
    let s5 = s4 + mode_step(any, 1003);
    let s6 = s5 + mode_step(modes.cursor_keys, 1);
    let s7 = s6 + mode_step(modes.keypad, 66);
    lemma_text_concat(mode_step(sgr, 1006), mode_step(pixels, 1016));
    lemma_text_concat(s1, mode_step(x10, 9));
    lemma_text_concat(s2, mode_step(normal, 1000));
    lemma_text_concat(s3, mode_step(button, 1002));
    lemma_text_concat(s4, mode_step(any, 1003));
    lemma_text_concat(s5, mode_step(modes.cursor_keys, 1));
    lemma_text_concat(s6, mode_step(modes.keypad, 66));
    lemma_text_concat(s7, mode_step(modes.bracketed_paste, 2004));
    assert(steps_text(s1) =~= modes.encoding.replay());
    assert(steps_text(s5) =~= modes.encoding.replay() + modes.mouse.replay());
}

/// The text of a cursor that is put back is that of its steps.
proof fn lemma_cursor_text(cursor: CursorView)
    requires
        0 <= cursor.row < u16::MAX,
        0 <= cursor.col < u16::MAX,
    ensures
        restored(cursor) == steps_text(cursor_steps(cursor)),
{
    lemma_move_text(cursor.row, cursor.col);
    lemma_sgr_text(cursor.attrs);
    lemma_text_two(move_step(cursor.row, cursor.col), ask(sgr_codes(cursor.attrs), 'm'));
}

/// The text of a snapshot is that of its steps, where the rows of the screen are
/// as printing leaves them.
pub proof fn snapshot_writes_its_steps(screen: ScreenView)
    requires
        is_replayable(screen.active()),
    ensures
        screen.snapshot() == steps_text(snapshot_steps(screen)),
{
    let grid = screen.active();
    let hide = ask_mode(25, false);
    let reset = ask(seq![0], 'm');
    let a = seq![hide, reset];
    let b = mode_step(screen.using_alternate, 1049);
    let c = whole_grid_steps(grid);
    let d = mode_steps(screen.private_modes);
    let e = cursor_steps(grid.cursor);
    let f = seq![ask_mode(25, true)];
    lemma_switch_texts();
    lemma_reset_text();
    lemma_text_two(hide, reset);
    lemma_rows_text(grid, grid.rows);
    lemma_modes_text(screen.private_modes);
    lemma_cursor_text(grid.cursor);
    lemma_text_concat(a, b);
    lemma_text_concat(a + b, c);
    lemma_text_concat(a + b + c, d);
    lemma_text_concat(a + b + c + d, e);
    lemma_text_concat(a + b + c + d + e, f);
}

/// A screen after one step. A change of screens is made at once.
#[verifier::opaque]
pub open spec fn after_step(screen: ScreenView, step: Step) -> ScreenView {
    screen.performed(step.action()).settled()
}

/// A screen after some steps.
pub open spec fn after_steps(screen: ScreenView, steps: Seq<Step>) -> ScreenView
    decreases steps.len(),
{
    if steps.len() == 0 {
        screen
    } else {
        after_step(after_steps(screen, steps.drop_last()), steps.last())
    }
}

/// Whether a screen shows what it is sent and does nothing else: no command
/// runs in it, and no change of screens is due.
pub open spec fn is_quiet(screen: ScreenView) -> bool {
    &&& screen.wf()
    &&& screen.pending is None
    &&& screen.pending_switch is None
}

/// Two stretches of steps, one after the other.
pub(crate) proof fn lemma_after_concat(screen: ScreenView, a: Seq<Step>, b: Seq<Step>)
    ensures
        after_steps(screen, a + b) == after_steps(after_steps(screen, a), b),
    decreases b.len(),
{
    if b.len() == 0 {
        assert(a + b =~= a);
    } else {
        lemma_after_concat(screen, a, b.drop_last());
        assert((a + b).drop_last() =~= a + b.drop_last());
        assert((a + b).last() == b.last());
    }
}

/// One step.
pub(crate) proof fn lemma_after_one(screen: ScreenView, step: Step)
    ensures
        after_steps(screen, seq![step]) == after_step(screen, step),
{
    assert(seq![step].drop_last() =~= Seq::<Step>::empty());
    assert(after_steps(screen, seq![step].drop_last()) == screen);
}

/// A public control sequence concerns the grid that is shown.
proof fn lemma_after_ask(screen: ScreenView, codes: Seq<u16>, action: char)
    requires
        is_quiet(screen),
    ensures
        after_step(screen, ask(codes, action)) == screen.with_active(
            screen.active().controlled(singles(numbers(codes)), action),
        ),
{
    reveal(after_step);
}

/// A character that takes one column is drawn at the cursor.
proof fn lemma_after_put(screen: ScreenView, c: char)
    requires
        is_quiet(screen),
        0 <= screen.active().cursor.col < screen.active().cols,
        !is_mark(c),
        !is_wide(c),
    ensures
        after_step(screen, Step::Put(c)) == screen.with_active(screen.active().placed(c)),
{
    reveal(after_step);
    lemma_nothing_off(screen);
}

/// A wide character is drawn at the cursor.
proof fn lemma_after_wide(screen: ScreenView, c: char)
    requires
        is_quiet(screen),
        0 <= screen.active().cursor.col,
        screen.active().cursor.col + 2 <= screen.active().cols,
        is_wide(c),
    ensures
        after_step(screen, Step::Put(c)) == screen.with_active(
            screen.active().placed(c).placed('\0'),
        ),
{
    reveal(after_step);
    lemma_nothing_off(screen);
}

/// A combining mark is drawn before the cursor.
proof fn lemma_after_mark(screen: ScreenView, c: char)
    requires
        is_quiet(screen),
        screen.active().cols > 0,
        is_mark(c),
    ensures
        after_step(screen, Step::Put(c)) == screen.with_active(screen.active().with_mark(c)),
{
    reveal(after_step);
    lemma_nothing_off(screen);
}

/// Where no row leaves, the history stays as it is.
proof fn lemma_nothing_off(screen: ScreenView)
    ensures
        history_append(screen.scrollback, Seq::empty()) == screen.scrollback,
{
    let none = Seq::<Seq<Cell>>::empty();
    assert(screen.scrollback + none =~= screen.scrollback);
    assert(history_append(screen.scrollback, none) =~= screen.scrollback);
}

/// A private mode of no other effect is switched.
proof fn lemma_after_mode(screen: ScreenView, mode: u16, on: bool)
    requires
        is_quiet(screen),
        mode != 2026,
        mode != 47,
        mode != 1047,
        mode != 1049,
    ensures
        after_step(screen, ask_mode(mode, on)) == (ScreenView {
            private_modes: screen.private_modes.with_mode(mode, on),
            ..screen
        }),
{
    reveal(after_step);
    lemma_switched(screen, mode, on);
}

/// A private mode is switched by its number.
proof fn lemma_switched(screen: ScreenView, mode: u16, on: bool)
    ensures
        screen.performed(ask_mode(mode, on).action()) == screen.with_mode(mode, on),
{
    encode_utf8_decode_utf8("?"@);
    reveal_strlit("?");
    if encode_utf8("?"@).len() == 0 {
        assert(decode_utf8(encode_utf8("?"@)).len() == 0);
    }
    let params = singles(seq![mode]);
    assert(params.drop_last() =~= Seq::<Seq<u16>>::empty());
    assert(params[0] =~= seq![mode]);
    assert(screen.with_modes(params.drop_last(), on) == screen);
    assert(screen.with_modes(params, on) == screen.with_mode(mode, on));
}

/// Marks change nothing of a cell but its marks.
proof fn lemma_with_marks(cell: Cell, marks: Seq<char>)
    requires
        cell.wf(),
    ensures
        with_marks(cell, marks).wf(),
        with_marks(cell, marks).ch == cell.ch,
    decreases marks.len(),
{
    if marks.len() > 0 {
        lemma_with_marks(cell, marks.drop_last());
    }
}

/// A grid with another cell at one place.
pub open spec fn with_cell(grid: GridView, i: int, j: int, cell: Cell) -> GridView {
    GridView { cells: grid.cells.update(i, grid.cells[i].update(j, cell)), ..grid }
}

/// Another cell leaves a screen as quiet as before.
proof fn lemma_cell_quiet(screen: ScreenView, i: int, j: int, cell: Cell)
    requires
        is_quiet(screen),
        0 <= i < screen.active().rows,
        0 <= j < screen.active().cols,
        cell.wf(),
    ensures
        is_quiet(screen.with_active(with_cell(screen.active(), i, j, cell))),
{
    let grid = screen.active();
    let after = with_cell(grid, i, j, cell);
    assert forall|a: int, b: int|
        0 <= a < after.cells.len() && 0 <= b < after.cells[a].len() implies (
    #[trigger] after.cells[a][b]).wf() by {
        if a != i || b != j {
            assert(grid.cells[a][b].wf());
        }
    }
}

/// The steps of combining marks add them to the cell before the cursor.
proof fn lemma_marks_drawn(screen: ScreenView, j: int, marks: Seq<char>)
    requires
        is_quiet(screen),
        screen.active().cursor.row >= 0,
        0 <= j < screen.active().cols,
        j == screen.active().marked_col(),
        forall|k: int| 0 <= k < marks.len() ==> is_mark(#[trigger] marks[k]),
    ensures
        ({
            let grid = screen.active();
            let i = grid.cursor_row();
            after_steps(screen, mark_steps(marks)) == screen.with_active(
                with_cell(grid, i, j, with_marks(grid.cells[i][j], marks)),
            )
        }),
    decreases marks.len(),
{
    let grid = screen.active();
    let i = grid.cursor_row();
    let cell = grid.cells[i][j];
    assert(cell.wf());
    if marks.len() == 0 {
        assert(grid.cells[i].update(j, cell) =~= grid.cells[i]);
        assert(with_cell(grid, i, j, cell).cells =~= grid.cells);
    } else {
        let front = marks.drop_last();
        lemma_put_after(mark_steps(front), marks.last());
        lemma_marks_drawn(screen, j, front);
        lemma_with_marks(cell, front);
        lemma_cell_quiet(screen, i, j, with_marks(cell, front));
        let before = with_cell(grid, i, j, with_marks(cell, front));
        assert(is_mark(marks[marks.len() - 1]));
        lemma_after_mark(screen.with_active(before), marks.last());
        assert(before.marked_col() == j);
        let after = with_cell(grid, i, j, with_marks(cell, marks));
        assert(before.with_mark(marks.last()).cells[i] =~= after.cells[i]);
        assert(before.with_mark(marks.last()).cells =~= after.cells);
    }
}

/// A grid in which a character with its marks was drawn at the cursor.
pub open spec fn glyph_drawn(grid: GridView, cell: Cell) -> GridView {
    let i = grid.cursor.row;
    let j = grid.cursor.col;
    if is_wide(cell.ch) {
        with_cell(
            with_cell(grid, i, j, cell),
            i,
            j + 1,
            cell_of('\0', cell.attrs),
        ).with_cursor(i, j + 2)
    } else {
        with_cell(grid, i, j, cell).with_cursor(i, j + 1)
    }
}

/// A character that takes one column is placed as a bare cell.
proof fn lemma_narrow_placed(screen: ScreenView, cell: Cell)
    requires
        is_quiet(screen),
        0 <= screen.active().cursor.row < screen.active().rows,
        0 <= screen.active().cursor.col < screen.active().cols,
        cell.ch != '\0',
        cell.attrs == screen.active().cursor.attrs,
    ensures
        ({
            let grid = screen.active();
            let i = grid.cursor.row;
            let j = grid.cursor.col;
            let placed = with_cell(grid, i, j, cell_of(cell.ch, cell.attrs)).with_cursor(i, j + 1);
            &&& grid.placed(cell.ch) == placed
            &&& is_quiet(screen.with_active(placed))
            &&& placed.marked_col() == j
        }),
{
    let grid = screen.active();
    lemma_cell_quiet(screen, grid.cursor.row, grid.cursor.col, cell_of(cell.ch, cell.attrs));
}

/// A wide character is placed as a bare cell and a null.
proof fn lemma_wide_placed(screen: ScreenView, cell: Cell)
    requires
        is_quiet(screen),
        0 <= screen.active().cursor.row < screen.active().rows,
        0 <= screen.active().cursor.col < screen.active().cols - 1,
        cell.attrs == screen.active().cursor.attrs,
    ensures
        ({
            let grid = screen.active();
            let i = grid.cursor.row;
            let j = grid.cursor.col;
            let null = cell_of('\0', cell.attrs);
            let placed = with_cell(
                with_cell(grid, i, j, cell_of(cell.ch, cell.attrs)),
                i,
                j + 1,
                null,
            ).with_cursor(i, j + 2);
            &&& grid.placed(cell.ch).placed('\0') == placed
            &&& is_quiet(screen.with_active(placed))
            &&& placed.marked_col() == j
        }),
{
    let grid = screen.active();
    let i = grid.cursor.row;
    let j = grid.cursor.col;
    let bare = cell_of(cell.ch, cell.attrs);
    lemma_cell_quiet(screen, i, j, bare);
    let first = screen.with_active(with_cell(grid, i, j, bare));
    lemma_cell_quiet(first, i, j + 1, cell_of('\0', cell.attrs));
}

/// The steps of a cell draw it.
proof fn lemma_glyph_drawn(screen: ScreenView, row: Seq<Cell>)
    requires
        is_quiet(screen),
        0 <= screen.active().cursor.row < screen.active().rows,
        0 <= screen.active().cursor.col < screen.active().cols,
        row.len() == screen.active().cols,
        is_printed_cell(row, screen.active().cursor.col),
        row[screen.active().cursor.col].ch != '\0',
        row[screen.active().cursor.col].attrs == screen.active().cursor.attrs,
    ensures
        after_steps(screen, glyph_steps(row[screen.active().cursor.col])) == screen.with_active(
            glyph_drawn(screen.active(), row[screen.active().cursor.col]),
        ),
{
    let grid = screen.active();
    let i = grid.cursor.row;
    let j = grid.cursor.col;
    let cell = row[j];
    let put = Step::Put(cell.ch);
    lemma_after_concat(screen, seq![put], mark_steps(cell.marks()));
    lemma_after_one(screen, put);
    assert(grid.cells[i].len() == grid.cols);
    let placed = if is_wide(cell.ch) {
        lemma_after_wide(screen, cell.ch);
        lemma_wide_placed(screen, cell);
        grid.placed(cell.ch).placed('\0')
    } else {
        lemma_after_put(screen, cell.ch);
        lemma_narrow_placed(screen, cell);
        grid.placed(cell.ch)
    };
    lemma_marks_drawn(screen.with_active(placed), j, cell.marks());
    let whole = glyph_drawn(grid, cell);
    let marked = with_cell(placed, i, j, cell);
    assert(marked.cells[i] =~= whole.cells[i]);
    assert(marked.cells =~= whole.cells);
}

/// How many cells of a row are there once `n` were drawn: a wide character
/// brings the null behind it along.
#[verifier::opaque]
pub open spec fn begun_end(row: Seq<Cell>, n: int) -> int {
    if n > 0 && is_wide(row[n - 1].ch) {
        n + 1
    } else {
        n
    }
}

/// A grid in which the first `n` cells of one row were drawn.
pub open spec fn row_begun(grid: GridView, i: int, row: Seq<Cell>, n: int) -> GridView {
    GridView {
        cells: grid.cells.update(
            i,
            Seq::new(
                grid.cells[i].len(),
                |j: int|
                    if j < begun_end(row, n) {
                        row[j]
                    } else {
                        grid.cells[i][j]
                    },
            ),
        ),
        cursor: CursorView {
            row: i,
            col: begun_end(row, n),
            attrs: drawn(row.take(n)).attrs,
        },
        ..grid
    }
}

/// A screen in which the start of a row was drawn is as quiet as before.
proof fn lemma_begun_wf(screen: ScreenView, i: int, row: Seq<Cell>, n: int)
    requires
        is_quiet(screen),
        0 <= i < screen.active().rows,
        row.len() == screen.active().cols,
        is_printed_row(row),
        0 <= n <= row.len(),
    ensures
        is_quiet(screen.with_active(row_begun(screen.active(), i, row, n))),
{
    reveal(begun_end);
    reveal(is_printed_row);
    let grid = screen.active();
    let begun = row_begun(grid, i, row, n);
    assert forall|a: int, b: int|
        0 <= a < begun.cells.len() && 0 <= b < begun.cells[a].len() implies (
    #[trigger] begun.cells[a][b]).wf() by {
        if a == i && b < begun_end(row, n) {
            assert(is_printed_cell(row, b));
        } else {
            assert(grid.cells[a][b].wf());
        }
    }
}

/// One more cell of a row.
proof fn lemma_next_cell(grid: GridView, i: int, row: Seq<Cell>, n: int)
    requires
        grid.wf(),
        0 <= i < grid.rows,
        row.len() == grid.cols,
        is_printed_row(row),
        0 <= n < row.len(),
        row[n].ch != '\0',
    ensures
        begun_end(row, n) == n,
        glyph_drawn(row_begun(grid, i, row, n).with_attrs(row[n].attrs), row[n]) == row_begun(
            grid,
            i,
            row,
            n + 1,
        ),
{
    reveal(begun_end);
    reveal(is_printed_row);
    let cell = row[n];
    assert(is_printed_cell(row, n));
    if n > 0 {
        assert(is_printed_cell(row, n - 1));
    }
    assert(row.take(n + 1).drop_last() =~= row.take(n));
    assert(row.take(n + 1).last() == cell);
    assert(grid.cells[i].len() == grid.cols);
    let after = glyph_drawn(row_begun(grid, i, row, n).with_attrs(cell.attrs), cell);
    let whole = row_begun(grid, i, row, n + 1);
    if is_wide(cell.ch) {
        assert(is_printed_cell(row, n + 1));
        lemma_no_marks(row[n + 1]);
        assert(row[n + 1] == cell_of('\0', cell.attrs));
    }
    assert(after.cells[i] =~= whole.cells[i]);
    assert(after.cells =~= whole.cells);
}

/// A cell without marks is its character and its look.
proof fn lemma_no_marks(cell: Cell)
    requires
        cell.combining_len == 0,
        cell == with_marks(cell_of(cell.ch, cell.attrs), cell.marks()),
    ensures
        cell == cell_of(cell.ch, cell.attrs),
{
    assert(cell.marks().len() == 0);
}

/// The look of one more cell of a row.
proof fn lemma_next_look(screen: ScreenView, attrs: CellAttrs)
    requires
        is_quiet(screen),
    ensures
        after_steps(screen, look_steps(screen.active().cursor.attrs, attrs)) == screen.with_active(
            screen.active().with_attrs(attrs),
        ),
{
    let before = screen.active().cursor.attrs;
    if before == attrs {
        assert(screen.with_active(screen.active().with_attrs(attrs)) =~= screen);
    } else {
        lemma_after_one(screen, ask(sgr_codes(attrs), 'm'));
        lemma_after_ask(screen, sgr_codes(attrs), 'm');
        sgr_round_trip(before, attrs);
    }
}

/// The steps of the first cells of a row draw them.
proof fn lemma_cells_drawn(screen: ScreenView, i: int, row: Seq<Cell>, n: int)
    requires
        is_quiet(screen),
        0 <= i < screen.active().rows,
        screen.active().cursor == (CursorView { row: i, col: 0, attrs: CellAttrs::plain() }),
        row.len() == screen.active().cols,
        is_printed_row(row),
        0 <= n <= row.len(),
    ensures
        after_steps(screen, cell_steps(row.take(n))) == screen.with_active(
            row_begun(screen.active(), i, row, n),
        ),
    decreases n,
{
    reveal(begun_end);
    reveal(is_printed_row);
    let grid = screen.active();
    if n == 0 {
        assert(row_begun(grid, i, row, n).cells[i] =~= grid.cells[i]);
        assert(row_begun(grid, i, row, n).cells =~= grid.cells);
    } else {
        let cell = row[n - 1];
        let front = row.take(n - 1);
        assert(row.take(n).drop_last() =~= front);
        assert(row.take(n).last() == cell);
        assert(is_printed_cell(row, n - 1));
        lemma_cells_drawn(screen, i, row, n - 1);
        lemma_begun_wf(screen, i, row, n - 1);
        let begun = screen.with_active(row_begun(grid, i, row, n - 1));
        if cell.ch == '\0' {
            assert(row_begun(grid, i, row, n - 1).cells =~= row_begun(grid, i, row, n).cells);
        } else {
            let look = look_steps(drawn(front).attrs, cell.attrs);
            lemma_next_cell(grid, i, row, n - 1);
            lemma_after_concat(screen, cell_steps(front), look);
            lemma_next_look(begun, cell.attrs);
            let styled = begun.with_active(begun.active().with_attrs(cell.attrs));
            lemma_after_concat(screen, cell_steps(front) + look, glyph_steps(cell));
            lemma_glyph_drawn(styled, row);
        }
    }
}

/// A grid in which the first `n` rows of another were drawn.
pub open spec fn rows_drawn(grid: GridView, cells: Seq<Seq<Cell>>, n: int) -> GridView {
    GridView {
        cells: Seq::new(
            grid.cells.len(),
            |i: int|
                if i < n {
                    cells[i]
                } else {
                    grid.cells[i]
                },
        ),
        cursor: if n <= 0 {
            grid.cursor
        } else {
            CursorView {
                row: n - 1,
                col: begun_end(cells[n - 1], visible_end(cells[n - 1])),
                attrs: CellAttrs::plain(),
            }
        },
        ..grid
    }
}

/// The cursor goes to the start of a row, which is emptied.
proof fn lemma_row_cleared(screen: ScreenView, i: int)
    requires
        is_quiet(screen),
        0 <= i < screen.active().rows,
        i < u16::MAX,
        screen.active().cursor.attrs == CellAttrs::plain(),
    ensures
        ({
            let grid = screen.active();
            let cleared = GridView {
                cells: grid.cells.update(i, blank_row(grid.cols)),
                cursor: CursorView { row: i, col: 0, attrs: CellAttrs::plain() },
                ..grid
            };
            &&& after_steps(screen, seq![move_step(i, 0), ask(Seq::empty(), 'K')])
                == screen.with_active(cleared)
            &&& cleared.wf()
        }),
{
    let grid = screen.active();
    let go = move_step(i, 0);
    let clear = ask(Seq::empty(), 'K');
    let codes = seq![(i + 1) as u16, 1u16];
    let moved = grid.with_cursor(i, 0);
    assert(singles(codes)[0] =~= seq![(i + 1) as u16]);
    assert(singles(codes)[1] =~= seq![1u16]);
    lemma_after_ask(screen, codes, 'H');
    lemma_after_one(screen, go);
    assert(grid.controlled(singles(codes), 'H') =~= moved);
    let there = screen.with_active(moved);
    lemma_after_ask(there, Seq::empty(), 'K');
    assert(seq![go, clear].drop_last() =~= seq![go]);
    let erased = moved.line_erased(0);
    assert(grid.cells[i].len() == grid.cols);
    assert(erased.cells[i] =~= blank_row(grid.cols));
    assert(erased.cells =~= grid.cells.update(i, blank_row(grid.cols)));
    assert forall|a: int, b: int|
        0 <= a < erased.cells.len() && 0 <= b < erased.cells[a].len() implies (
    #[trigger] erased.cells[a][b]).wf() by {
        if a != i {
            assert(grid.cells[a][b].wf());
        }
    }
}

/// The way back to the plain look.
proof fn lemma_plain_again(screen: ScreenView)
    requires
        is_quiet(screen),
    ensures
        after_step(screen, ask(seq![0], 'm')) == screen.with_active(
            screen.active().with_attrs(CellAttrs::plain()),
        ),
{
    lemma_after_ask(screen, seq![0], 'm');
    let params = singles(seq![0u16]);
    assert(params[0] =~= seq![0u16]);
    assert(params.skip(1) =~= Seq::<Seq<u16>>::empty());
    assert(with_params(CellAttrs::plain(), params.skip(1)) == CellAttrs::plain());
}

/// The steps of a row draw it.
pub(crate) proof fn lemma_row_drawn(screen: ScreenView, i: int, row: Seq<Cell>)
    requires
        is_quiet(screen),
        0 <= i < screen.active().rows,
        screen.active().cells[i] == blank_row(screen.active().cols),
        screen.active().cursor == (CursorView { row: i, col: 0, attrs: CellAttrs::plain() }),
        row.len() == screen.active().cols,
        is_printed_row(row),
    ensures
        after_steps(screen, row_steps(row)) == screen.with_active(
            GridView {
                cells: screen.active().cells.update(i, row),
                cursor: CursorView {
                    row: i,
                    col: begun_end(row, visible_end(row)),
                    attrs: CellAttrs::plain(),
                },
                ..screen.active()
            },
        ),
{
    reveal(row_steps);
    reveal(begun_end);
    reveal(is_printed_row);
    let grid = screen.active();
    lemma_visible_end(row);
    let n = visible_end(row);
    let cells = row.take(n);
    lemma_cells_drawn(screen, i, row, n);
    lemma_begun_wf(screen, i, row, n);
    let begun = row_begun(grid, i, row, n);
    assert(begun.cells[i] =~= row) by {
        assert forall|j: int| begun_end(row, n) <= j < row.len() implies #[trigger] row[j]
            == Cell::blank() by {
            assert(is_blank_cell(row[j]));
            assert(is_printed_cell(row, j));
            lemma_no_marks(row[j]);
            if row[j].ch == '\0' && j > n {
                assert(is_blank_cell(row[j - 1]));
            }
        }
    }
    assert(begun.cells =~= grid.cells.update(i, row));
    if drawn(cells).attrs != CellAttrs::plain() {
        assert(row_steps(row).drop_last() =~= cell_steps(cells));
        lemma_plain_again(screen.with_active(begun));
    }
}

/// Drawn rows leave a screen as quiet as before.
proof fn lemma_rows_wf(screen: ScreenView, grid: GridView, n: int)
    requires
        is_quiet(screen),
        is_drawable(grid),
        grid.rows == screen.rows,
        grid.cols == screen.cols,
        0 <= n <= grid.rows,
    ensures
        is_quiet(screen.with_active(rows_drawn(screen.active(), grid.cells, n))),
{
    let before = screen.active();
    let after = rows_drawn(before, grid.cells, n);
    assert forall|a: int, b: int|
        0 <= a < after.cells.len() && 0 <= b < after.cells[a].len() implies (
    #[trigger] after.cells[a][b]).wf() by {
        if a < n {
            assert(grid.cells[a][b].wf());
        } else {
            assert(before.cells[a][b].wf());
        }
    }
}

/// The steps of the first rows draw them.
proof fn lemma_rows_drawn(screen: ScreenView, grid: GridView, n: int)
    requires
        is_quiet(screen),
        is_drawable(grid),
        grid.rows == screen.rows,
        grid.cols == screen.cols,
        0 <= n <= grid.rows,
        screen.active().cursor.attrs == CellAttrs::plain(),
    ensures
        after_steps(screen, grid_steps(grid.cells, n)) == screen.with_active(
            rows_drawn(screen.active(), grid.cells, n),
        ),
    decreases n,
{
    let start = screen.active();
    if n == 0 {
        assert(rows_drawn(start, grid.cells, 0).cells =~= start.cells);
    } else {
        let row = grid.cells[n - 1];
        let first = seq![move_step(n - 1, 0), ask(Seq::empty(), 'K')];
        lemma_rows_drawn(screen, grid, n - 1);
        lemma_rows_wf(screen, grid, n - 1);
        let above = screen.with_active(rows_drawn(start, grid.cells, n - 1));
        lemma_after_concat(screen, grid_steps(grid.cells, n - 1), first + row_steps(row));
        lemma_after_concat(above, first, row_steps(row));
        lemma_row_cleared(above, n - 1);
        let cleared = after_steps(above, first);
        lemma_row_drawn(cleared, n - 1, row);
        let whole = rows_drawn(start, grid.cells, n);
        assert(cleared.active().cells.update(n - 1, row) =~= whole.cells);
    }
}

/// Private modes with one more switched on, where it is.
#[verifier::opaque]
pub open spec fn modes_with(modes: PrivateModes, on: bool, mode: u16) -> PrivateModes {
    if on {
        modes.with_mode(mode, true)
    } else {
        modes
    }
}

/// A screen with other private modes.
pub open spec fn with_private(screen: ScreenView, private_modes: PrivateModes) -> ScreenView {
    ScreenView { private_modes, ..screen }
}

/// Whether some steps switch private modes and do nothing else.
#[verifier::opaque]
pub open spec fn only_switch(screen: ScreenView, steps: Seq<Step>, modes: PrivateModes) -> bool {
    after_steps(screen, steps) == with_private(screen, modes)
}

/// The step of a mode switches it on.
proof fn lemma_mode_on(
    screen: ScreenView,
    before: Seq<Step>,
    modes: PrivateModes,
    on: bool,
    mode: u16,
)
    requires
        is_quiet(screen),
        only_switch(screen, before, modes),
        mode != 2026,
        mode != 47,
        mode != 1047,
        mode != 1049,
    ensures
        only_switch(screen, before + mode_step(on, mode), modes_with(modes, on, mode)),
{
    reveal(only_switch);
    reveal(modes_with);
    reveal(mode_step);
    let now = with_private(screen, modes);
    lemma_after_concat(screen, before, mode_step(on, mode));
    if on {
        lemma_after_one(now, ask_mode(mode, true));
        lemma_after_mode(now, mode, true);
    }
}

/// The encoding of mouse events and their report, as the steps switch them on.
pub open spec fn mouse_with(modes: PrivateModes) -> PrivateModes {
    let m0 = modes_with(PrivateModes::off(), modes.encoding == MouseEncoding::Sgr, 1006);
    let m1 = modes_with(m0, modes.encoding == MouseEncoding::SgrPixels, 1016);
    let m2 = modes_with(m1, modes.mouse == MouseProtocol::X10, 9);
    let m3 = modes_with(m2, modes.mouse == MouseProtocol::Normal, 1000);
    let m4 = modes_with(m3, modes.mouse == MouseProtocol::Button, 1002);
    modes_with(m4, modes.mouse == MouseProtocol::Any, 1003)
}

/// Those steps switch the right encoding and the right report on.
proof fn lemma_mouse_with(modes: PrivateModes)
    ensures
        mouse_with(modes) == (PrivateModes {
            mouse: modes.mouse,
            encoding: modes.encoding,
            ..PrivateModes::off()
        }),
{
    reveal(modes_with);
}

/// Private modes, as the steps switch them on.
pub open spec fn all_with(modes: PrivateModes) -> PrivateModes {
    let m6 = modes_with(mouse_with(modes), modes.cursor_keys, 1);
    let m7 = modes_with(m6, modes.keypad, 66);
    modes_with(m7, modes.bracketed_paste, 2004)
}

/// Those steps switch all modes on but focus events.
proof fn lemma_all_with(modes: PrivateModes)
    ensures
        all_with(modes) == (PrivateModes { focus_event: false, ..modes }),
{
    lemma_mouse_with(modes);
    reveal(modes_with);
}

/// The steps of private modes switch them on, but for focus events.
proof fn lemma_modes_on(screen: ScreenView, modes: PrivateModes)
    requires
        is_quiet(screen),
        screen.private_modes == PrivateModes::off(),
    ensures
        only_switch(screen, mode_steps(modes), PrivateModes { focus_event: false, ..modes }),
{
    let sgr = modes.encoding == MouseEncoding::Sgr;
    let pixels = modes.encoding == MouseEncoding::SgrPixels;
    let x10 = modes.mouse == MouseProtocol::X10;
    let normal = modes.mouse == MouseProtocol::Normal;
    let button = modes.mouse == MouseProtocol::Button;
    let any = modes.mouse == MouseProtocol::Any;
    let none = Seq::<Step>::empty();
    let s0 = mode_step(sgr, 1006);
    let s1 = s0 + mode_step(pixels, 1016);
    let s2 = s1 + mode_step(x10, 9);
    let s3 = s2 + mode_step(normal, 1000);
    let s4 = s3 + mode_step(button, 1002);
    let s5 = s4 + mode_step(any, 1003);
    let s6 = s5 + mode_step(modes.cursor_keys, 1);
    let s7 = s6 + mode_step(modes.keypad, 66);
    let m = PrivateModes::off();
    let m0 = modes_with(m, sgr, 1006);
    let m1 = modes_with(m0, pixels, 1016);
    let m2 = modes_with(m1, x10, 9);
    let m3 = modes_with(m2, normal, 1000);
    let m4 = modes_with(m3, button, 1002);
    let m5 = modes_with(m4, any, 1003);
    let m6 = modes_with(m5, modes.cursor_keys, 1);
    let m7 = modes_with(m6, modes.keypad, 66);
    assert(none + s0 =~= s0);
    assert(only_switch(screen, none, m)) by {
        reveal(only_switch);
        assert(with_private(screen, m) =~= screen);
    }
    lemma_mode_on(screen, none, m, sgr, 1006);
    lemma_mode_on(screen, s0, m0, pixels, 1016);
    lemma_mode_on(screen, s1, m1, x10, 9);
    lemma_mode_on(screen, s2, m2, normal, 1000);
    lemma_mode_on(screen, s3, m3, button, 1002);
    lemma_mode_on(screen, s4, m4, any, 1003);
    lemma_mode_on(screen, s5, m5, modes.cursor_keys, 1);
    lemma_mode_on(screen, s6, m6, modes.keypad, 66);
    lemma_mode_on(screen, s7, m7, modes.bracketed_paste, 2004);
    lemma_all_with(modes);
}

/// The steps of a cursor put it back, or as near to it as the grid goes.
proof fn lemma_cursor_back(screen: ScreenView, cursor: CursorView)
    requires
        is_quiet(screen),
        0 <= cursor.row < u16::MAX,
        0 <= cursor.col < u16::MAX,
    ensures
        after_steps(screen, cursor_steps(cursor)) == screen.with_active(
            GridView { cursor: nearest(cursor, screen.rows, screen.cols), ..screen.active() },
        ),
{
    let grid = screen.active();
    let codes = seq![(cursor.row + 1) as u16, (cursor.col + 1) as u16];
    let steps = cursor_steps(cursor);
    let near = nearest(cursor, screen.rows, screen.cols);
    assert(singles(codes)[0] =~= seq![(cursor.row + 1) as u16]);
    assert(singles(codes)[1] =~= seq![(cursor.col + 1) as u16]);
    lemma_after_ask(screen, codes, 'H');
    lemma_after_one(screen, steps[0]);
    let moved = grid.with_cursor(near.row, near.col);
    assert(grid.controlled(singles(codes), 'H') =~= moved);
    let there = screen.with_active(moved);
    assert(steps.drop_last() =~= seq![steps[0]]);
    lemma_after_ask(there, sgr_codes(cursor.attrs), 'm');
    sgr_round_trip(moved.cursor.attrs, cursor.attrs);
    assert(moved.with_attrs(cursor.attrs) =~= (GridView { cursor: near, ..grid }));
}

/// The steps of a grid, of private modes and of a cursor bring them all back.
proof fn lemma_redrawn(screen: ScreenView, grid: GridView, modes: PrivateModes)
    requires
        is_quiet(screen),
        is_replayable(grid),
        grid.rows == screen.rows,
        grid.cols == screen.cols,
        screen.active().cursor.attrs == CellAttrs::plain(),
        screen.private_modes == PrivateModes::off(),
    ensures
        after_steps(
            screen,
            whole_grid_steps(grid) + mode_steps(modes) + cursor_steps(grid.cursor),
        ) == with_private(screen, PrivateModes { focus_event: false, ..modes }).with_active(
            GridView {
                cells: grid.cells,
                cursor: nearest(grid.cursor, grid.rows, grid.cols),
                ..screen.active()
            },
        ),
{
    let rows = whole_grid_steps(grid);
    lemma_rows_drawn(screen, grid, grid.rows);
    lemma_rows_wf(screen, grid, grid.rows);
    let drawn_rows = rows_drawn(screen.active(), grid.cells, grid.rows);
    assert(drawn_rows.cells =~= grid.cells);
    let shown = screen.with_active(drawn_rows);
    lemma_after_concat(screen, rows, mode_steps(modes));
    lemma_modes_on(shown, modes);
    reveal(only_switch);
    let switched = after_steps(shown, mode_steps(modes));
    lemma_after_concat(screen, rows + mode_steps(modes), cursor_steps(grid.cursor));
    lemma_cursor_back(switched, grid.cursor);
}

/// The steps of a snapshot bring the screen back in a client of the same size
/// with no modes on: its cells, its cursor with its look, on the grid or as near
/// as it goes, and its private modes but for focus events. The history of the
/// client stays as it is.
pub proof fn snapshot_restores_the_screen(client: ScreenView, screen: ScreenView)
    requires
        is_quiet(client),
        !client.using_alternate,
        client.private_modes == PrivateModes::off(),
        client.cols == screen.cols,
        client.rows == screen.rows,
        screen.wf(),
        is_replayable(screen.active()),
    ensures
        ({
            let after = after_steps(client, snapshot_steps(screen));
            &&& after.using_alternate == screen.using_alternate
            &&& after.active().cells == screen.active().cells
            &&& after.active().cursor == nearest(screen.active().cursor, screen.rows, screen.cols)
            &&& after.private_modes == (PrivateModes { focus_event: false, ..screen.private_modes })
            &&& after.scrollback == client.scrollback
        }),
{
    let grid = screen.active();
    let a = seq![ask_mode(25, false), ask(seq![0], 'm')] + mode_step(screen.using_alternate, 1049);
    let rows = whole_grid_steps(grid);
    let modes = mode_steps(screen.private_modes);
    let cursor = cursor_steps(grid.cursor);
    lemma_snapshot_start(client, screen.using_alternate);
    let entered = after_steps(client, a);
    lemma_redrawn(entered, grid, screen.private_modes);
    lemma_redrawn_wf(entered, grid, screen.private_modes);
    lemma_append(a, rows, modes);
    lemma_append(a, rows + modes, cursor);
    lemma_after_concat(client, a, rows + modes + cursor);
    let redrawn = after_steps(client, a + rows + modes + cursor);
    lemma_after_concat(client, a + rows + modes + cursor, seq![ask_mode(25, true)]);
    lemma_after_one(redrawn, ask_mode(25, true));
    lemma_after_mode(redrawn, 25, true);
}

/// The cursor is hidden, the look is plain, and the alternate screen is
/// entered if it is shown.
proof fn lemma_snapshot_start(client: ScreenView, alternate: bool)
    requires
        is_quiet(client),
        !client.using_alternate,
        client.private_modes == PrivateModes::off(),
    ensures
        ({
            let steps = seq![ask_mode(25, false), ask(seq![0], 'm')] + mode_step(alternate, 1049);
            let entered = after_steps(client, steps);
            &&& is_quiet(entered)
            &&& entered.using_alternate == alternate
            &&& entered.active().cursor.attrs == CellAttrs::plain()
            &&& entered.private_modes == PrivateModes::off()
            &&& entered.scrollback == client.scrollback
            &&& entered.cols == client.cols
            &&& entered.rows == client.rows
        }),
{
    reveal(mode_step);
    let hide = ask_mode(25, false);
    let reset = ask(seq![0], 'm');
    lemma_after_one(client, hide);
    lemma_after_mode(client, 25, false);
    assert(after_steps(client, seq![hide]) =~= client);
    assert(seq![hide, reset].drop_last() =~= seq![hide]);
    lemma_plain_again(client);
    let plain = client.with_active(client.active().with_attrs(CellAttrs::plain()));
    assert(after_steps(client, seq![hide, reset]) == plain);
    lemma_after_concat(client, seq![hide, reset], mode_step(alternate, 1049));
    if alternate {
        lemma_after_one(plain, ask_mode(1049, true));
        lemma_entered(plain);
    }
}

/// The alternate screen is entered empty.
proof fn lemma_entered(screen: ScreenView)
    requires
        is_quiet(screen),
        !screen.using_alternate,
    ensures
        after_step(screen, ask_mode(1049, true)) == (ScreenView {
            saved_cursor: Some(screen.primary.cursor),
            alternate: GridView::empty(screen.cols, screen.rows),
            using_alternate: true,
            ..screen
        }),
        is_quiet(after_step(screen, ask_mode(1049, true))),
{
    reveal(after_step);
    lemma_switched(screen, 1049, true);
}

/// A screen with a grid, modes and a cursor brought back is as quiet as before.
proof fn lemma_redrawn_wf(screen: ScreenView, grid: GridView, modes: PrivateModes)
    requires
        is_quiet(screen),
        is_drawable(grid),
        grid.rows == screen.rows,
        grid.cols == screen.cols,
    ensures
        is_quiet(
            with_private(screen, PrivateModes { focus_event: false, ..modes }).with_active(
                GridView {
                    cells: grid.cells,
                    cursor: nearest(grid.cursor, grid.rows, grid.cols),
                    ..screen.active()
                },
            ),
        ),
{
}

/// The text of line feeds.
proof fn lemma_feed_text(n: int)
    requires
        n >= 0,
    ensures
        steps_text(feed_steps(n)) == newlines(n),
    decreases n,
{
    if n > 0 {
        lemma_feed_text(n - 1);
        assert(feed_steps(n).drop_last() =~= feed_steps(n - 1));
        assert(newlines(n - 1) + seq!['\n'] =~= newlines(n));
    } else {
        assert(newlines(n) =~= Seq::<char>::empty());
    }
}

/// The text that scrolls the history out of view is that of its steps.
proof fn lemma_scroll_text(screen: ScreenView)
    requires
        0 < screen.rows <= u16::MAX,
    ensures
        screen.scroll_out() == steps_text(scroll_steps(screen)),
{
    let n = screen.rows_in_view();
    if n > 0 {
        let go = move_step(screen.rows - 1, 0);
        lemma_feed_text(n);
        lemma_text_one(go);
        lemma_text_concat(seq![go], feed_steps(n));
        lemma_move_text(screen.rows - 1, 0);
        reveal_strlit(";");
        reveal_strlit("H");
        reveal_strlit(";1H");
        assert(decimal(1) =~= seq!['1']);
        let start = "\x1b["@ + decimal(screen.rows);
        lemma_append(start, ";"@, decimal(1));
        lemma_append(start, ";"@ + decimal(1), "H"@);
        assert(";"@ + decimal(1) + "H"@ =~= ";1H"@);
    }
}

/// The text of the first part of a replay is that of its steps.
proof fn lemma_replay_start_text(screen: ScreenView)
    requires
        screen.wf(),
        is_replayable(screen.primary),
    ensures
        "\x1b[?25l"@ + screen.scroll_out() + "\x1b[0m"@ + rendered(screen.primary) == steps_text(
            seq![ask_mode(25, false)] + scroll_steps(screen) + seq![ask(seq![0], 'm')]
                + whole_grid_steps(screen.primary),
        ),
{
    let a = seq![ask_mode(25, false)];
    let b = scroll_steps(screen);
    let c = seq![ask(seq![0], 'm')];
    let d = whole_grid_steps(screen.primary);
    lemma_switch_texts();
    lemma_scroll_text(screen);
    lemma_rows_text(screen.primary, screen.primary.rows);
    lemma_text_concat(a, b);
    lemma_text_concat(a + b, c);
    lemma_text_concat(a + b + c, d);
}

/// The text of a snapshot for a client that reconnects is that of its steps,
/// where the rows of what it draws are as printing leaves them.
pub proof fn replay_writes_its_steps(screen: ScreenView)
    requires
        screen.wf(),
        is_replayable(screen.primary),
        screen.using_alternate ==> is_replayable(screen.alternate),
    ensures
        screen.replay_snapshot() == steps_text(replay_steps(screen)),
{
    let reset = seq![ask(seq![0], 'm')];
    let p = seq![ask_mode(25, false)] + scroll_steps(screen) + reset + whole_grid_steps(
        screen.primary,
    );
    let show = seq![ask_mode(25, true)];
    let modes = mode_steps(screen.private_modes);
    let cursor = cursor_steps(screen.primary.cursor);
    lemma_replay_start_text(screen);
    lemma_switch_texts();
    lemma_modes_text(screen.private_modes);
    lemma_cursor_text(screen.primary.cursor);
    if screen.using_alternate {
        let enter = seq![ask_mode(1049, true)];
        let rows = whole_grid_steps(screen.alternate);
        let last = cursor_steps(screen.alternate.cursor);
        lemma_rows_text(screen.alternate, screen.alternate.rows);
        lemma_cursor_text(screen.alternate.cursor);
        lemma_text_concat(p, cursor);
        lemma_text_concat(p + cursor, enter);
        lemma_text_concat(p + cursor + enter, reset);
        lemma_text_concat(p + cursor + enter + reset, rows);
        lemma_text_concat(p + cursor + enter + reset + rows, modes);
        lemma_text_concat(p + cursor + enter + reset + rows + modes, last);
        lemma_text_concat(p + cursor + enter + reset + rows + modes + last, show);
    } else {
        lemma_text_concat(p, modes);
        lemma_text_concat(p + modes, cursor);
        lemma_text_concat(p + modes + cursor, show);
    }
}

/// A screen whose primary grid was scrolled up by `n` rows, all of it.
pub open spec fn scrolled_by(screen: ScreenView, n: int) -> ScreenView {
    let grid = screen.primary;
    ScreenView {
        primary: GridView {
            cells: Seq::new(
                grid.cells.len(),
                |i: int|
                    if i + n < grid.cells.len() {
                        grid.cells[i + n]
                    } else {
                        blank_row(grid.cols)
                    },
            ),
            ..grid
        },
        scrollback: history_append(screen.scrollback, grid.cells.take(n)),
        ..screen
    }
}

/// A scrolled screen is as quiet as before.
proof fn lemma_scrolled_quiet(screen: ScreenView, n: int)
    requires
        is_quiet(screen),
        0 <= n <= screen.rows,
    ensures
        is_quiet(scrolled_by(screen, n)),
{
    let cells = screen.primary.cells;
    let after = scrolled_by(screen, n);
    assert forall|a: int, b: int|
        0 <= a < after.primary.cells.len() && 0 <= b < after.primary.cells[a].len() implies (
    #[trigger] after.primary.cells[a][b]).wf() by {
        if a + n < cells.len() {
            assert(cells[a + n][b].wf());
        }
    }
    let all = screen.scrollback + cells.take(n);
    assert forall|a: int, b: int|
        0 <= a < after.scrollback.len() && 0 <= b < after.scrollback[a].len() implies (
    #[trigger] after.scrollback[a][b]).wf() by {
        let k = a + (all.len() - after.scrollback.len());
        assert(after.scrollback[a] == all[k]);
        if k < screen.scrollback.len() {
            assert(screen.scrollback[k][b].wf());
        } else {
            assert(cells[k - screen.scrollback.len()][b].wf());
        }
    }
}

/// A line feed in the last row of a screen that scrolls as a whole.
pub(crate) proof fn lemma_after_feed(screen: ScreenView)
    requires
        is_quiet(screen),
        !screen.using_alternate,
        screen.primary.scroll_top == 0,
        screen.primary.scroll_bottom == screen.rows - 1,
        screen.primary.cursor.row == screen.rows - 1,
    ensures
        after_step(screen, Step::Feed) == (ScreenView {
            primary: screen.primary.scrolled_up(),
            scrollback: history_append(screen.scrollback, seq![screen.primary.cells[0]]),
            ..screen
        }),
{
    reveal(after_step);
}

/// Line feeds in the last row of a screen that scrolls as a whole.
proof fn lemma_feeds(screen: ScreenView, n: int)
    requires
        is_quiet(screen),
        !screen.using_alternate,
        screen.primary.scroll_top == 0,
        screen.primary.scroll_bottom == screen.rows - 1,
        screen.primary.cursor.row == screen.rows - 1,
        0 <= n <= screen.rows,
    ensures
        after_steps(screen, feed_steps(n)) == scrolled_by(screen, n),
    decreases n,
{
    let cells = screen.primary.cells;
    if n == 0 {
        let none = Seq::<Seq<Cell>>::empty();
        assert(cells.take(0) =~= none);
        assert(screen.scrollback + none =~= screen.scrollback);
        assert(scrolled_by(screen, 0).primary.cells =~= cells);
        assert(scrolled_by(screen, 0).scrollback =~= screen.scrollback);
    } else {
        let before = scrolled_by(screen, n - 1);
        lemma_feeds(screen, n - 1);
        lemma_scrolled_quiet(screen, n - 1);
        assert(feed_steps(n).drop_last() =~= feed_steps(n - 1));
        lemma_after_feed(before);
        let row = seq![before.primary.cells[0]];
        assert(cells.take(n - 1) + row =~= cells.take(n));
        lemma_history_append(screen.scrollback, cells.take(n - 1), row);
        assert(before.primary.scrolled_up().cells =~= scrolled_by(screen, n).primary.cells);
    }
}

/// The history is scrolled out of view.
proof fn lemma_scrolled_out(client: ScreenView, screen: ScreenView)
    requires
        is_quiet(client),
        !client.using_alternate,
        client.primary.scroll_top == 0,
        client.primary.scroll_bottom == client.rows - 1,
        client.rows == screen.rows,
        client.rows <= u16::MAX,
    ensures
        ({
            let after = after_steps(client, scroll_steps(screen));
            let n = screen.rows_in_view();
            &&& is_quiet(after)
            &&& !after.using_alternate
            &&& after.scrollback == history_append(client.scrollback, client.primary.cells.take(n))
            &&& after.private_modes == client.private_modes
            &&& after.cols == client.cols
            &&& after.rows == client.rows
        }),
{
    let n = screen.rows_in_view();
    if n > 0 {
        let go = move_step(screen.rows - 1, 0);
        let codes = seq![screen.rows as u16, 1u16];
        assert(singles(codes)[0] =~= seq![screen.rows as u16]);
        assert(singles(codes)[1] =~= seq![1u16]);
        lemma_after_concat(client, seq![go], feed_steps(n));
        lemma_after_one(client, go);
        lemma_after_ask(client, codes, 'H');
        let moved = client.primary.with_cursor(screen.rows - 1, 0);
        assert(client.primary.controlled(singles(codes), 'H') =~= moved);
        let there = client.with_active(moved);
        lemma_feeds(there, n);
        lemma_scrolled_quiet(there, n);
    } else {
        let none = Seq::<Seq<Cell>>::empty();
        assert(client.primary.cells.take(0) =~= none);
        assert(client.scrollback + none =~= client.scrollback);
    }
}

/// The first part of a replay: the history is scrolled out of view and the
/// primary screen drawn.
proof fn lemma_replay_start(client: ScreenView, screen: ScreenView)
    requires
        is_quiet(client),
        !client.using_alternate,
        client.private_modes == PrivateModes::off(),
        client.primary.scroll_top == 0,
        client.primary.scroll_bottom == client.rows - 1,
        client.cols == screen.cols,
        client.rows == screen.rows,
        screen.wf(),
        is_replayable(screen.primary),
    ensures
        ({
            let steps = seq![ask_mode(25, false)] + scroll_steps(screen) + seq![
                ask(seq![0], 'm'),
            ] + whole_grid_steps(screen.primary);
            let after = after_steps(client, steps);
            let n = screen.rows_in_view();
            &&& is_quiet(after)
            &&& !after.using_alternate
            &&& after.primary.cells == screen.primary.cells
            &&& after.primary.cursor.attrs == CellAttrs::plain()
            &&& after.scrollback == history_append(client.scrollback, client.primary.cells.take(n))
            &&& after.private_modes == PrivateModes::off()
            &&& after.cols == client.cols
            &&& after.rows == client.rows
        }),
{
    let hide = seq![ask_mode(25, false)];
    let scroll = scroll_steps(screen);
    let reset = seq![ask(seq![0], 'm')];
    let rows = whole_grid_steps(screen.primary);
    lemma_after_one(client, ask_mode(25, false));
    lemma_after_mode(client, 25, false);
    assert(after_steps(client, hide) =~= client);
    lemma_after_concat(client, hide, scroll);
    lemma_scrolled_out(client, screen);
    let scrolled = after_steps(client, scroll);
    lemma_after_concat(client, hide + scroll, reset);
    lemma_after_one(scrolled, ask(seq![0], 'm'));
    lemma_plain_again(scrolled);
    let plain = scrolled.with_active(scrolled.active().with_attrs(CellAttrs::plain()));
    lemma_after_concat(client, hide + scroll + reset, rows);
    lemma_rows_drawn(plain, screen.primary, screen.rows);
    lemma_rows_wf(plain, screen.primary, screen.rows);
    assert(rows_drawn(plain.active(), screen.primary.cells, screen.rows).cells
        =~= screen.primary.cells);
}

/// What a client holds after a replay, but for the cursor being shown.
pub open spec fn is_replayed(client: ScreenView, screen: ScreenView, after: ScreenView) -> bool {
    let n = screen.rows_in_view();
    &&& is_quiet(after)
    &&& after.using_alternate == screen.using_alternate
    &&& after.primary.cells == screen.primary.cells
    &&& after.primary.cursor == nearest(screen.primary.cursor, screen.rows, screen.cols)
    &&& screen.using_alternate ==> {
        &&& after.alternate.cells == screen.alternate.cells
        &&& after.alternate.cursor == nearest(screen.alternate.cursor, screen.rows, screen.cols)
        &&& after.saved_cursor == Some(after.primary.cursor)
    }
    &&& after.private_modes == (PrivateModes { focus_event: false, ..screen.private_modes })
    &&& after.scrollback == history_append(client.scrollback, client.primary.cells.take(n))
}

/// The rest of a replay without an alternate screen.
proof fn lemma_replay_primary(client: ScreenView, screen: ScreenView, start: ScreenView)
    requires
        is_quiet(start),
        !start.using_alternate,
        !screen.using_alternate,
        start.private_modes == PrivateModes::off(),
        start.cols == screen.cols,
        start.rows == screen.rows,
        screen.wf(),
        is_replayable(screen.primary),
        start.primary.cells == screen.primary.cells,
        start.scrollback == history_append(
            client.scrollback,
            client.primary.cells.take(screen.rows_in_view()),
        ),
    ensures
        is_replayed(
            client,
            screen,
            after_steps(
                start,
                mode_steps(screen.private_modes) + cursor_steps(screen.primary.cursor),
            ),
        ),
{
    let modes = mode_steps(screen.private_modes);
    lemma_modes_on(start, screen.private_modes);
    reveal(only_switch);
    lemma_after_concat(start, modes, cursor_steps(screen.primary.cursor));
    lemma_cursor_back(after_steps(start, modes), screen.primary.cursor);
}

/// The rest of a replay with an alternate screen.
proof fn lemma_replay_alternate(client: ScreenView, screen: ScreenView, start: ScreenView)
    requires
        is_quiet(start),
        !start.using_alternate,
        screen.using_alternate,
        start.private_modes == PrivateModes::off(),
        start.cols == screen.cols,
        start.rows == screen.rows,
        screen.wf(),
        is_replayable(screen.primary),
        is_replayable(screen.alternate),
        start.primary.cells == screen.primary.cells,
        start.scrollback == history_append(
            client.scrollback,
            client.primary.cells.take(screen.rows_in_view()),
        ),
    ensures
        is_replayed(
            client,
            screen,
            after_steps(
                start,
                cursor_steps(screen.primary.cursor) + (seq![ask_mode(1049, true)] + (seq![
                    ask(seq![0], 'm'),
                ] + (whole_grid_steps(screen.alternate) + mode_steps(screen.private_modes)
                    + cursor_steps(screen.alternate.cursor)))),
            ),
        ),
{
    let cursor = cursor_steps(screen.primary.cursor);
    let enter = seq![ask_mode(1049, true)];
    let reset = seq![ask(seq![0], 'm')];
    let rest = whole_grid_steps(screen.alternate) + mode_steps(screen.private_modes) + cursor_steps(
        screen.alternate.cursor,
    );
    lemma_after_concat(start, cursor, enter + (reset + rest));
    lemma_cursor_back(start, screen.primary.cursor);
    let back = after_steps(start, cursor);
    lemma_after_concat(back, enter, reset + rest);
    lemma_after_one(back, ask_mode(1049, true));
    lemma_entered(back);
    let entered = after_steps(back, enter);
    lemma_after_concat(entered, reset, rest);
    lemma_after_one(entered, ask(seq![0], 'm'));
    lemma_plain_again(entered);
    assert(entered.with_active(entered.active().with_attrs(CellAttrs::plain())) =~= entered);
    lemma_redrawn(entered, screen.alternate, screen.private_modes);
    lemma_redrawn_wf(entered, screen.alternate, screen.private_modes);
}

/// The steps of a snapshot for a client that reconnects bring both screens
/// back in a client of the same size that was reset: what it shows of the
/// history goes to its own history first, the primary screen is there again
/// when the alternate one is left, and the private modes are on but for focus
/// events.
pub proof fn replay_restores_both_screens(client: ScreenView, screen: ScreenView)
    requires
        is_quiet(client),
        !client.using_alternate,
        client.private_modes == PrivateModes::off(),
        client.primary.scroll_top == 0,
        client.primary.scroll_bottom == client.rows - 1,
        client.cols == screen.cols,
        client.rows == screen.rows,
        screen.wf(),
        is_replayable(screen.primary),
        screen.using_alternate ==> is_replayable(screen.alternate),
    ensures
        is_replayed(client, screen, after_steps(client, replay_steps(screen))),
{
    let reset = seq![ask(seq![0], 'm')];
    let p = seq![ask_mode(25, false)] + scroll_steps(screen) + reset + whole_grid_steps(
        screen.primary,
    );
    let show = seq![ask_mode(25, true)];
    let modes = mode_steps(screen.private_modes);
    let cursor = cursor_steps(screen.primary.cursor);
    lemma_replay_start(client, screen);
    let start = after_steps(client, p);
    let rest = if screen.using_alternate {
        let enter = seq![ask_mode(1049, true)];
        let rows = whole_grid_steps(screen.alternate);
        let last = cursor_steps(screen.alternate.cursor);
        lemma_replay_alternate(client, screen, start);
        assert(p + cursor + enter + reset + rows + modes + last =~= p + (cursor + (enter + (reset
            + (rows + modes + last)))));
        cursor + (enter + (reset + (rows + modes + last)))
    } else {
        lemma_replay_primary(client, screen, start);
        lemma_append(p, modes, cursor);
        modes + cursor
    };
    lemma_after_concat(client, p, rest);
    let replayed = after_steps(client, p + rest);
    lemma_after_concat(client, p + rest, show);
    lemma_after_one(replayed, ask_mode(25, true));
    lemma_after_mode(replayed, 25, true);
}

} // verus!
