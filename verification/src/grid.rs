//! The character grid of one screen, and the history above it.
use std::collections::VecDeque;
use vstd::prelude::*;

use crate::render::has_attrs;

verus! {

/// A colour of the palette, or one by its components.
#[derive(Clone, Copy, Debug)]
pub enum Color {
    Indexed(u8),
    Rgb(u8, u8, u8),
}

/// How a cell looks, but for its characters.
#[derive(Clone, Copy, Debug)]
pub struct CellAttrs {
    pub fg: Option<Color>,
    pub bg: Option<Color>,
    pub bold: bool,
    pub dim: bool,
    pub italic: bool,
    pub underline: bool,
    pub inverse: bool,
    pub strikethrough: bool,
}

impl CellAttrs {
    /// The plain look.
    pub open spec fn plain() -> CellAttrs {
        CellAttrs {
            fg: None,
            bg: None,
            bold: false,
            dim: false,
            italic: false,
            underline: false,
            inverse: false,
            strikethrough: false,
        }
    }
}

impl Default for CellAttrs {
    fn default() -> (attrs: Self)
        ensures
            attrs == CellAttrs::plain(),
    {
        CellAttrs {
            fg: None,
            bg: None,
            bold: false,
            dim: false,
            italic: false,
            underline: false,
            inverse: false,
            strikethrough: false,
        }
    }
}

/// The most combining marks that one cell holds.
pub const MAX_COMBINING: usize = 3;

/// One place of the grid: a character, its combining marks, and its look. A
/// null character stands behind a wide one.
#[derive(Clone, Copy, Debug)]
pub struct Cell {
    pub ch: char,
    pub combining: [char; MAX_COMBINING],
    pub combining_len: u8,
    pub attrs: CellAttrs,
}

impl Cell {
    /// The number of marks fits their array.
    pub open spec fn wf(self) -> bool {
        self.combining_len <= MAX_COMBINING
    }

    /// The combining marks.
    pub open spec fn marks(self) -> Seq<char> {
        self.combining@.take(self.combining_len as int)
    }

    /// The character and its marks.
    pub open spec fn text(self) -> Seq<char> {
        seq![self.ch] + self.marks()
    }

    /// The cell with one more combining mark, if it has room for it.
    pub open spec fn with_mark(self, c: char) -> Cell {
        let marks = self.combining@;
        if self.combining_len == 0 {
            Cell { combining: [c, marks[1], marks[2]], combining_len: 1, ..self }
        } else if self.combining_len == 1 {
            Cell { combining: [marks[0], c, marks[2]], combining_len: 2, ..self }
        } else if self.combining_len == 2 {
            Cell { combining: [marks[0], marks[1], c], combining_len: 3, ..self }
        } else {
            self
        }
    }

    /// The empty cell.
    pub open spec fn blank() -> Cell {
        Cell {
            ch: ' ',
            combining: ['\0', '\0', '\0'],
            combining_len: 0,
            attrs: CellAttrs::plain(),
        }
    }

    /// Adds a combining mark; a cell that is full of marks keeps those it has.
    pub fn push_combining(&mut self, c: char)
        ensures
            *final(self) == old(self).with_mark(c),
            final(self).marks() == if old(self).combining_len < MAX_COMBINING {
                old(self).marks().push(c)
            } else {
                old(self).marks()
            },
            final(self).ch == old(self).ch,
            final(self).attrs == old(self).attrs,
            old(self).wf() ==> final(self).wf(),
    {
        let len: usize = self.combining_len as usize;
        if len < MAX_COMBINING {
            self.combining[len] = c;
            self.combining_len += 1;
            assert(self.marks() =~= old(self).marks().push(c));
            assert(self.combining =~= old(self).with_mark(c).combining);
        }
    }

    /// Appends the character and its marks.
    pub fn write_to(&self, out: &mut String)
        requires
            self.wf(),
        ensures
            final(out)@ == old(out)@ + self.text(),
    {
        out.push(self.ch);
        let mut i: usize = 0;
        while i < self.combining_len as usize
            invariant
                i <= self.combining_len <= MAX_COMBINING,
                out@ =~= old(out)@ + seq![self.ch] + self.combining@.take(i as int),
            decreases self.combining_len - i,
        {
            out.push(self.combining[i]);
            i += 1;
        }
        assert(out@ =~= old(out)@ + self.text());
    }
}

impl Default for Cell {
    fn default() -> (cell: Self)
        ensures
            cell == Cell::blank(),
    {
        Cell {
            ch: ' ',
            combining: ['\0', '\0', '\0'],
            combining_len: 0,
            attrs: CellAttrs::default(),
        }
    }
}

/// Where the next character goes, and how it looks.
#[derive(Clone, Copy, Debug)]
pub struct CursorState {
    pub row: usize,
    pub col: usize,
    pub attrs: CellAttrs,
}

/// The plain values of a [`CursorState`].
#[verifier::ext_equal]
pub struct CursorView {
    pub row: int,
    pub col: int,
    pub attrs: CellAttrs,
}

impl View for CursorState {
    type V = CursorView;

    open spec fn view(&self) -> CursorView {
        CursorView { row: self.row as int, col: self.col as int, attrs: self.attrs }
    }
}

impl CursorView {
    /// The upper left corner, in the plain look.
    pub open spec fn home() -> CursorView {
        CursorView { row: 0, col: 0, attrs: CellAttrs::plain() }
    }
}

impl Default for CursorState {
    fn default() -> (cursor: Self)
        ensures
            cursor@ == CursorView::home(),
    {
        CursorState { row: 0, col: 0, attrs: CellAttrs::default() }
    }
}

/// The most rows that the history keeps.
pub const SCROLLBACK_LIMIT: usize = 10000;

/// The rows of a grid as plain sequences.
pub open spec fn row_views(rows: Seq<Vec<Cell>>) -> Seq<Seq<Cell>> {
    Seq::new(rows.len(), |i: int| rows[i]@)
}

/// Whether every cell of every row is well formed.
pub open spec fn cells_wf(rows: Seq<Seq<Cell>>) -> bool {
    forall|i: int, j: int|
        0 <= i < rows.len() && 0 <= j < rows[i].len() ==> (#[trigger] rows[i][j]).wf()
}

/// A row of `cols` empty cells.
pub open spec fn blank_row(cols: int) -> Seq<Cell> {
    Seq::new(cols as nat, |j: int| Cell::blank())
}

/// Whether nothing can be seen of the cell.
pub open spec fn is_blank_cell(cell: Cell) -> bool {
    (cell.ch == ' ' || cell.ch == '\0') && cell.attrs == CellAttrs::plain()
}

/// Whether nothing can be seen of the row.
pub open spec fn is_blank_row(row: Seq<Cell>) -> bool {
    forall|j: int| 0 <= j < row.len() ==> is_blank_cell(#[trigger] row[j])
}

/// How many rows at the bottom are blank.
pub open spec fn blank_at_bottom(rows: Seq<Seq<Cell>>) -> nat
    decreases rows.len(),
{
    if rows.len() > 0 && is_blank_row(rows.last()) {
        1 + blank_at_bottom(rows.drop_last())
    } else {
        0
    }
}

/// The row cut or filled up to `cols` cells.
pub open spec fn fit_row(row: Seq<Cell>, cols: int) -> Seq<Cell> {
    Seq::new(
        cols as nat,
        |j: int|
            if j < row.len() {
                row[j]
            } else {
                Cell::blank()
            },
    )
}

/// The history with `rows` added below: the oldest rows give way where the
/// limit is reached.
pub open spec fn history_append(history: Seq<Seq<Cell>>, rows: Seq<Seq<Cell>>) -> Seq<Seq<Cell>> {
    let all = history + rows;
    let kept = if history.len() > SCROLLBACK_LIMIT {
        history.len() as int
    } else {
        SCROLLBACK_LIMIT as int
    };
    if all.len() > kept {
        all.skip(all.len() - kept)
    } else {
        all
    }
}

/// The smaller of two numbers.
pub open spec fn min(a: int, b: int) -> int {
    if a <= b {
        a
    } else {
        b
    }
}

/// The larger of two numbers.
pub open spec fn max(a: int, b: int) -> int {
    if a >= b {
        a
    } else {
        b
    }
}

/// The grid of one screen.
pub struct ScreenBuffer {
    pub cells: Vec<Vec<Cell>>,
    pub cursor: CursorState,
    pub scroll_top: usize,
    pub scroll_bottom: usize,
    pub cols: usize,
    pub rows: usize,
}

/// The plain values of a [`ScreenBuffer`].
#[verifier::ext_equal]
pub struct GridView {
    pub cells: Seq<Seq<Cell>>,
    pub cursor: CursorView,
    pub scroll_top: int,
    pub scroll_bottom: int,
    pub cols: int,
    pub rows: int,
}

impl View for ScreenBuffer {
    type V = GridView;

    open spec fn view(&self) -> GridView {
        GridView {
            cells: row_views(self.cells@),
            cursor: self.cursor@,
            scroll_top: self.scroll_top as int,
            scroll_bottom: self.scroll_bottom as int,
            cols: self.cols as int,
            rows: self.rows as int,
        }
    }
}

impl GridView {
    /// The grid has the rows and columns that it says, and scrolls between two
    /// rows of its own. The cursor may stand outside: one that was saved
    /// before the grid shrank comes back as it was.
    pub open spec fn wf(self) -> bool {
        &&& self.rows > 0
        &&& self.cols >= 0
        &&& self.cells.len() == self.rows
        &&& forall|i: int| 0 <= i < self.rows ==> (#[trigger] self.cells[i]).len() == self.cols
        &&& cells_wf(self.cells)
        &&& 0 <= self.scroll_top <= self.scroll_bottom < self.rows
    }

    /// An empty grid.
    pub open spec fn empty(cols: int, rows: int) -> GridView {
        GridView {
            cells: Seq::new(rows as nat, |i: int| blank_row(cols)),
            cursor: CursorView::home(),
            scroll_top: 0,
            scroll_bottom: rows - 1,
            cols,
            rows,
        }
    }

    /// How many blank rows below the cursor are dropped when the grid shrinks
    /// to `rows` rows.
    pub open spec fn dropped_rows(self, rows: int) -> int {
        max(
            0,
            min(
                min(self.cells.len() - rows, blank_at_bottom(self.cells) as int),
                self.cells.len() - 1 - self.cursor.row,
            ),
        )
    }

    /// How many rows leave at the top when the grid shrinks to `rows` rows.
    pub open spec fn shifted_rows(self, rows: int) -> int {
        max(0, self.cells.len() - rows - self.dropped_rows(rows))
    }

    /// The grid in another size. Blank rows below the cursor are dropped
    /// first, then rows leave at the top; the cursor goes along, and stays
    /// inside.
    pub open spec fn resized(self, cols: int, rows: int) -> GridView {
        let shifted = self.shifted_rows(rows);
        let kept = self.cells.subrange(shifted, min(shifted + rows, self.cells.len() as int));
        GridView {
            cells: Seq::new(
                rows as nat,
                |i: int|
                    if i < kept.len() {
                        fit_row(kept[i], cols)
                    } else {
                        blank_row(cols)
                    },
            ),
            cursor: CursorView {
                row: min(max(0, self.cursor.row - shifted), rows - 1),
                col: min(self.cursor.col, cols - 1),
                attrs: self.cursor.attrs,
            },
            scroll_top: 0,
            scroll_bottom: rows - 1,
            cols,
            rows,
        }
    }

    /// The grid with the lines of its scrolling part one row up.
    pub open spec fn scrolled_up(self) -> GridView {
        GridView {
            cells: self.cells.remove(self.scroll_top).insert(
                self.scroll_bottom,
                blank_row(self.cols),
            ),
            ..self
        }
    }

    /// The rows that leave to the history when the grid scrolls up.
    pub open spec fn scrolled_off(self) -> Seq<Seq<Cell>> {
        if self.scroll_top == 0 {
            seq![self.cells[0]]
        } else {
            Seq::empty()
        }
    }

    /// The grid with the lines of its scrolling part one row down.
    pub open spec fn scrolled_down(self) -> GridView {
        GridView {
            cells: self.cells.remove(self.scroll_bottom).insert(
                self.scroll_top,
                blank_row(self.cols),
            ),
            ..self
        }
    }
}

/// A row of `cols` empty cells.
fn new_row(cols: usize) -> (row: Vec<Cell>)
    ensures
        row@ == blank_row(cols as int),
{
    let row = vec![Cell::default(); cols];
    assert(row@ =~= blank_row(cols as int));
    row
}

/// Adds one row to the history.
pub(crate) fn push_history(history: &mut VecDeque<Vec<Cell>>, row: Vec<Cell>)
    ensures
        row_views(final(history)@) == history_append(row_views(old(history)@), seq![row@]),
        old(history)@.len() <= SCROLLBACK_LIMIT ==> final(history)@.len() <= SCROLLBACK_LIMIT,
        cells_wf(row_views(old(history)@)) && cells_wf(seq![row@]) ==> cells_wf(
            row_views(final(history)@),
        ),
{
    let ghost before = row_views(history@);
    let ghost all = before + seq![row@];
    history.push_back(row);
    assert(row_views(history@) =~= all);
    if history.len() > SCROLLBACK_LIMIT {
        let ghost long = history@;
        history.pop_front();
        assert(history@ =~= long.skip(1));
        assert(row_views(history@) =~= all.skip(1));
    }
    assert(row_views(history@) =~= history_append(before, seq![row@]));
    proof {
        let rows = row_views(history@);
        if cells_wf(before) && cells_wf(seq![row@]) {
            assert forall|i: int, j: int|
                0 <= i < rows.len() && 0 <= j < rows[i].len() implies (
            #[trigger] rows[i][j]).wf() by {
                let k = i + (all.len() - rows.len());
                assert(rows[i] == all[k]);
                if k < before.len() {
                    assert(before[k][j].wf());
                } else {
                    assert(seq![row@][0][j].wf());
                }
            }
        }
    }
}

/// Adding rows to the history in two steps adds them in one.
pub proof fn lemma_history_append(
    history: Seq<Seq<Cell>>,
    first: Seq<Seq<Cell>>,
    second: Seq<Seq<Cell>>,
)
    ensures
        history_append(history_append(history, first), second) == history_append(
            history,
            first + second,
        ),
{
    assert(history_append(history_append(history, first), second) =~= history_append(
        history,
        first + second,
    ));
}

/// Whether nothing can be seen of the row.
fn row_is_blank(row: &Vec<Cell>) -> (blank: bool)
    ensures
        blank == is_blank_row(row@),
{
    let mut j: usize = 0;
    while j < row.len()
        invariant
            j <= row.len(),
            forall|k: int| 0 <= k < j ==> is_blank_cell(#[trigger] row@[k]),
        decreases row.len() - j,
    {
        let cell = &row[j];
        if !((cell.ch == ' ' || cell.ch == '\0') && !has_attrs(&cell.attrs)) {
            assert(!is_blank_cell(row@[j as int]));
            return false;
        }
        j += 1;
    }
    true
}

/// Adds rows to the history, the first of them first.
fn extend_history(history: &mut VecDeque<Vec<Cell>>, rows: Vec<Vec<Cell>>)
    requires
        cells_wf(row_views(old(history)@)),
        cells_wf(row_views(rows@)),
    ensures
        row_views(final(history)@) == history_append(row_views(old(history)@), row_views(rows@)),
        cells_wf(row_views(final(history)@)),
        old(history)@.len() <= SCROLLBACK_LIMIT ==> final(history)@.len() <= SCROLLBACK_LIMIT,
{
    let mut rows = rows;
    let ghost all = row_views(rows@);
    let ghost before = row_views(history@);
    let ghost limited = history@.len() <= SCROLLBACK_LIMIT;
    let mut i: usize = 0;
    assert(before + all.take(0) =~= before);
    while i < rows.len()
        invariant
            i <= rows.len(),
            rows.len() == all.len(),
            cells_wf(all),
            forall|k: int| i <= k < rows.len() ==> (#[trigger] rows@[k])@ == all[k],
            row_views(history@) == history_append(before, all.take(i as int)),
            cells_wf(row_views(history@)),
            limited ==> history@.len() <= SCROLLBACK_LIMIT,
        decreases rows.len() - i,
    {
        let mut row: Vec<Cell> = Vec::new();
        std::mem::swap(&mut row, &mut rows[i]);
        proof {
            assert forall|a: int, b: int|
                0 <= a < seq![row@].len() && 0 <= b < seq![row@][a].len() implies (
            #[trigger] seq![row@][a][b]).wf() by {
                assert(all[i as int][b].wf());
            }
            lemma_history_append(before, all.take(i as int), seq![row@]);
            assert(all.take(i as int) + seq![row@] =~= all.take(i + 1));
        }
        push_history(history, row);
        i += 1;
    }
    assert(all.take(i as int) =~= all);
}

impl ScreenBuffer {
    /// The grid is well formed.
    pub open spec fn wf(&self) -> bool {
        self@.wf()
    }

    /// An empty grid.
    pub fn new(cols: usize, rows: usize) -> (grid: Self)
        requires
            rows > 0,
        ensures
            grid.wf(),
            grid@ == GridView::empty(cols as int, rows as int),
    {
        let mut cells: Vec<Vec<Cell>> = Vec::new();
        while cells.len() < rows
            invariant
                cells.len() <= rows,
                forall|i: int|
                    0 <= i < cells.len() ==> (#[trigger] cells@[i])@ == blank_row(cols as int),
            decreases rows - cells.len(),
        {
            cells.push(new_row(cols));
        }
        assert(row_views(cells@) =~= GridView::empty(cols as int, rows as int).cells);
        ScreenBuffer {
            cells,
            cursor: CursorState::default(),
            scroll_top: 0,
            scroll_bottom: rows - 1,
            cols,
            rows,
        }
    }

    /// Drops up to `excess` blank rows below the cursor, and says how many more
    /// there were to drop.
    fn drop_blank_rows(&mut self, excess: usize) -> (left: usize)
        requires
            excess < old(self).cells@.len(),
        ensures
            left == excess - old(self)@.dropped_rows(old(self).cells@.len() - excess),
            final(self).cells@ == old(self).cells@.take(
                old(self).cells@.len() - (excess - left),
            ),
            final(self).cursor == old(self).cursor,
            final(self).cols == old(self).cols,
    {
        let ghost all = self.cells@;
        let mut left: usize = excess;
        assert(all.take(all.len() as int) =~= all);
        while left > 0 && self.cells.len() - 1 > self.cursor.row && row_is_blank(
            &self.cells[self.cells.len() - 1],
        )
            invariant
                left <= excess < all.len(),
                self.cursor == old(self).cursor,
                self.cols == old(self).cols,
                self.cells@ == all.take(all.len() - (excess - left)),
                blank_at_bottom(row_views(self.cells@)) + (excess - left) == blank_at_bottom(
                    row_views(all),
                ),
                excess - left <= max(0, all.len() - 1 - self.cursor.row),
            decreases left,
        {
            let ghost rows = row_views(self.cells@);
            let _ = self.cells.pop();
            left -= 1;
            assert(self.cells@ =~= all.take(all.len() - (excess - left)));
            assert(row_views(self.cells@) =~= rows.drop_last());
        }
        proof {
            if left > 0 && self.cells@.len() - 1 > self.cursor.row {
                assert(row_views(self.cells@).last() == self.cells@.last()@);
            }
        }
        left
    }

    /// Gives every row `cols` cells.
    fn fit_rows(&mut self, cols: usize)
        ensures
            final(self).cells@.len() == old(self).cells@.len(),
            forall|i: int|
                0 <= i < old(self).cells@.len() ==> (#[trigger] final(self).cells@[i])@ == fit_row(
                    old(self).cells@[i]@,
                    cols as int,
                ),
            final(self).cursor == old(self).cursor,
    {
        let ghost before = self.cells@;
        let mut i: usize = 0;
        while i < self.cells.len()
            invariant
                i <= self.cells.len(),
                self.cells.len() == before.len(),
                self.cursor == old(self).cursor,
                forall|k: int|
                    0 <= k < i ==> (#[trigger] self.cells@[k])@ == fit_row(before[k]@, cols as int),
                forall|k: int| i <= k < before.len() ==> #[trigger] self.cells@[k] == before[k],
            decreases self.cells.len() - i,
        {
            self.cells[i].resize(cols, Cell::default());
            assert(self.cells@[i as int]@ =~= fit_row(before[i as int]@, cols as int)) by {
                let old_row = before[i as int]@;
                let new_row = self.cells@[i as int]@;
                if cols > old_row.len() {
                    assert forall|j: int| 0 <= j < old_row.len() implies new_row[j]
                        == old_row[j] by {
                        assert(new_row.subrange(0, old_row.len() as int)[j] == new_row[j]);
                    }
                }
            }
            i += 1;
        }
    }

    /// Changes the size of the grid. Blank rows below the cursor are dropped
    /// first; rows that still do not fit leave at the top, into the history
    /// where there is one, so that the newest output stays.
    pub fn resize(
        &mut self,
        cols: usize,
        rows: usize,
        scrollback: Option<&mut VecDeque<Vec<Cell>>>,
    )
        requires
            old(self).wf(),
            cols > 0,
            rows > 0,
            scrollback matches Some(history) ==> cells_wf(row_views((*history)@)),
        ensures
            final(self).wf(),
            final(self)@ == old(self)@.resized(cols as int, rows as int),
            scrollback matches Some(history) ==> {
                &&& row_views(final(history)@) == history_append(
                    row_views((*history)@),
                    old(self)@.cells.take(old(self)@.shifted_rows(rows as int)),
                )
                &&& cells_wf(row_views(final(history)@))
                &&& (*history)@.len() <= SCROLLBACK_LIMIT ==> final(history)@.len()
                    <= SCROLLBACK_LIMIT
            },
    {
        let ghost before = self@;
        let ghost all = self.cells@;
        let old_rows = self.cells.len();
        let mut top: Vec<Vec<Cell>> = Vec::new();
        if rows < old_rows {
            let excess = self.drop_blank_rows(old_rows - rows);
            let kept = self.cells.split_off(excess);
            std::mem::swap(&mut top, &mut self.cells);
            self.cells = kept;
            self.cursor.row = self.cursor.row.saturating_sub(excess);
        } else {
            while self.cells.len() < rows
                invariant
                    all.len() <= self.cells.len() <= rows,
                    self.cursor == old(self).cursor,
                    self.cols == old(self).cols,
                    forall|i: int| 0 <= i < all.len() ==> #[trigger] self.cells@[i] == all[i],
                    forall|i: int|
                        all.len() <= i < self.cells.len() ==> (#[trigger] self.cells@[i])@
                            == blank_row(cols as int),
                decreases rows - self.cells.len(),
            {
                self.cells.push(new_row(cols));
            }
        }
        assert(row_views(top@) =~= before.cells.take(before.shifted_rows(rows as int)));
        let ghost mid = self.cells@;
        if cols != self.cols {
            self.fit_rows(cols);
        }
        self.cols = cols;
        self.rows = rows;
        self.scroll_top = 0;
        self.scroll_bottom = rows - 1;
        if self.cursor.row >= rows {
            self.cursor.row = rows - 1;
        }
        if self.cursor.col >= cols {
            self.cursor.col = cols - 1;
        }
        proof {
            let after = before.resized(cols as int, rows as int);
            let shifted = before.shifted_rows(rows as int);
            assert forall|i: int| 0 <= i < rows implies self@.cells[i] == after.cells[i] by {
                if shifted + i < all.len() {
                    assert(mid[i] == all[shifted + i]);
                    assert(before.cells[shifted + i] == all[shifted + i]@);
                    assert(before.cells[shifted + i].len() == before.cols);
                    assert(after.cells[i] == fit_row(mid[i]@, cols as int));
                } else {
                    assert(mid[i]@ == blank_row(cols as int));
                    assert(after.cells[i] == blank_row(cols as int));
                    assert(fit_row(mid[i]@, cols as int) =~= blank_row(cols as int));
                }
                if cols != before.cols {
                    assert(self.cells@[i]@ == fit_row(mid[i]@, cols as int));
                }
                assert(self@.cells[i] =~= after.cells[i]);
            }
            assert(self@.cells =~= after.cells);
            lemma_resized_wf(before, cols as int, rows as int);
            assert forall|i: int, j: int|
                0 <= i < row_views(top@).len() && 0 <= j < row_views(top@)[i].len() implies (
            #[trigger] row_views(top@)[i][j]).wf() by {
                assert(before.cells[i][j].wf());
            }
        }
        match scrollback {
            Some(history) => extend_history(history, top),
            None => {},
        }
    }

    /// Moves the lines of the scrolling part one row up. The line that leaves
    /// goes to the history if it was the top line of the screen.
    pub fn scroll_up(&mut self, scrollback: &mut VecDeque<Vec<Cell>>)
        requires
            old(self).wf(),
            cells_wf(row_views(old(scrollback)@)),
        ensures
            final(self).wf(),
            final(self)@ == old(self)@.scrolled_up(),
            row_views(final(scrollback)@) == history_append(
                row_views(old(scrollback)@),
                old(self)@.scrolled_off(),
            ),
            cells_wf(row_views(final(scrollback)@)),
            old(scrollback)@.len() <= SCROLLBACK_LIMIT ==> final(scrollback)@.len()
                <= SCROLLBACK_LIMIT,
    {
        let ghost before = self@;
        let row = self.cells.remove(self.scroll_top);
        assert(row@ == before.cells[before.scroll_top]);
        if self.scroll_top == 0 {
            proof {
                assert forall|i: int, j: int|
                    0 <= i < seq![row@].len() && 0 <= j < seq![row@][i].len() implies (
                #[trigger] seq![row@][i][j]).wf() by {
                    assert(before.cells[0][j].wf());
                }
            }
            push_history(scrollback, row);
            assert(seq![row@] =~= before.scrolled_off());
        } else {
            assert(row_views(scrollback@) + before.scrolled_off() =~= row_views(scrollback@));
        }
        self.cells.insert(self.scroll_bottom, new_row(self.cols));
        proof {
            assert(self@.cells =~= before.scrolled_up().cells);
            lemma_scrolled_wf(before);
        }
    }

    /// Moves the lines of the scrolling part one row down. The last of them is
    /// lost.
    pub fn scroll_down(&mut self)
        requires
            old(self).wf(),
        ensures
            final(self).wf(),
            final(self)@ == old(self)@.scrolled_down(),
    {
        let ghost before = self@;
        let _ = self.cells.remove(self.scroll_bottom);
        self.cells.insert(self.scroll_top, new_row(self.cols));
        proof {
            assert(self@.cells =~= before.scrolled_down().cells);
            lemma_scrolled_wf(before);
        }
    }
}

/// A grid in another size is well formed.
proof fn lemma_resized_wf(grid: GridView, cols: int, rows: int)
    requires
        grid.wf(),
        cols > 0,
        rows > 0,
    ensures
        grid.resized(cols, rows).wf(),
{
    let after = grid.resized(cols, rows).cells;
    let shifted = grid.shifted_rows(rows);
    assert forall|i: int, j: int| 0 <= i < after.len() && 0 <= j < after[i].len() implies (
    #[trigger] after[i][j]).wf() by {
        if shifted + i < grid.cells.len() && j < grid.cells[shifted + i].len() {
            assert(grid.cells[shifted + i][j].wf());
        }
    }
}

/// Scrolling keeps a grid well formed.
proof fn lemma_scrolled_wf(grid: GridView)
    requires
        grid.wf(),
    ensures
        grid.scrolled_up().wf(),
        grid.scrolled_down().wf(),
{
    let up = grid.scrolled_up().cells;
    let down = grid.scrolled_down().cells;
    assert forall|i: int, j: int| 0 <= i < up.len() && 0 <= j < up[i].len() implies (
    #[trigger] up[i][j]).wf() by {
        if i != grid.scroll_bottom {
            let k = if grid.scroll_top <= i < grid.scroll_bottom {
                i + 1
            } else {
                i
            };
            assert(up[i] == grid.cells[k]);
            assert(grid.cells[k][j].wf());
        }
    }
    assert forall|i: int, j: int| 0 <= i < down.len() && 0 <= j < down[i].len() implies (
    #[trigger] down[i][j]).wf() by {
        if i != grid.scroll_top {
            let k = if grid.scroll_top < i <= grid.scroll_bottom {
                i - 1
            } else {
                i
            };
            assert(down[i] == grid.cells[k]);
            assert(grid.cells[k][j].wf());
        }
    }
}

} // verus!
