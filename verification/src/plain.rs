//! What plain text is read off a screen and its history.
use vstd::prelude::*;

use crate::grid::{Cell, CellAttrs, GridView};
use crate::lines::is_untouched_row;
use crate::render::{plain_row, text_end};
use crate::snapshot::{history_lines, plain_lines};
use crate::width::{is_mark, is_wide};

verus! {

/// Text ends behind its last character other than a space.
proof fn lemma_text_end(row: Seq<Cell>)
    ensures
        0 <= text_end(row) <= row.len(),
        text_end(row) > 0 ==> row[text_end(row) - 1].ch != ' ' && row[text_end(row) - 1].ch != '\0',
        forall|j: int|
            text_end(row) <= j < row.len() ==> (#[trigger] row[j]).ch == ' ' || row[j].ch == '\0',
    decreases row.len(),
{
    if row.len() > 0 && (row.last().ch == ' ' || row.last().ch == '\0') {
        let front = row.drop_last();
        lemma_text_end(front);
        assert forall|j: int| text_end(row) <= j < row.len() implies (#[trigger] row[j]).ch == ' '
            || row[j].ch == '\0' by {
            if j < front.len() {
                assert(front[j] == row[j]);
            }
        }
    }
}

/// The plain text of a row is its characters in their order, each in its place:
/// a null character is read as a space, any other as it is. It goes up to the
/// last character other than a space, and no further.
pub proof fn plain_row_reads_characters(row: Seq<Cell>)
    ensures
        ({
            let text = plain_row(row);
            &&& text.len() <= row.len()
            &&& forall|j: int|
                0 <= j < text.len() && row[j].ch != '\0' ==> #[trigger] text[j] == row[j].ch
            &&& forall|j: int|
                0 <= j < text.len() && row[j].ch == '\0' ==> #[trigger] text[j] == ' '
            &&& text.len() > 0 ==> text.last() != ' '
            &&& forall|j: int|
                text.len() <= j < row.len() ==> (#[trigger] row[j]).ch == ' ' || row[j].ch == '\0'
        }),
{
    lemma_text_end(row);
}

/// The plain text of a row rests on its characters alone, not on their looks
/// or marks.
pub proof fn looks_are_no_text(a: Seq<Cell>, b: Seq<Cell>)
    requires
        a.len() == b.len(),
        forall|j: int| 0 <= j < a.len() ==> (#[trigger] a[j]).ch == b[j].ch,
    ensures
        plain_row(a) == plain_row(b),
{
    plain_row_reads_characters(a);
    plain_row_reads_characters(b);
    let n = plain_row(a).len() as int;
    let m = plain_row(b).len() as int;
    if n < m {
        assert(a[m - 1].ch == b[m - 1].ch);
        assert(plain_row(b)[m - 1] == plain_row(b).last());
    } else if m < n {
        assert(a[n - 1].ch == b[n - 1].ch);
        assert(plain_row(a)[n - 1] == plain_row(a).last());
    }
    assert(plain_row(a) =~= plain_row(b));
}

/// A text that stands at the start of a row, with nothing but spaces behind it,
/// is what is read, but for spaces at its end.
pub proof fn text_in_a_row_is_read(row: Seq<Cell>, text: Seq<char>)
    requires
        text.len() <= row.len(),
        forall|j: int|
            0 <= j < text.len() ==> (#[trigger] row[j]).ch == text[j] && text[j] != '\0',
        forall|j: int| text.len() <= j < row.len() ==> (#[trigger] row[j]).ch == ' ',
    ensures
        ({
            let read = plain_row(row);
            &&& read.len() <= text.len()
            &&& read == text.take(read.len() as int)
            &&& forall|j: int| read.len() <= j < text.len() ==> #[trigger] text[j] == ' '
            &&& text.len() > 0 && text.last() != ' ' ==> read == text
        }),
{
    plain_row_reads_characters(row);
    let read = plain_row(row);
    if read.len() > text.len() {
        assert(row[read.len() - 1].ch == ' ');
        assert(read[read.len() - 1] == ' ');
    }
    assert forall|j: int| read.len() <= j < text.len() implies #[trigger] text[j] == ' ' by {
        assert(row[j].ch == text[j]);
    }
    assert(read =~= text.take(read.len() as int));
    if text.len() > 0 && text.last() != ' ' {
        assert(read =~= text);
    }
}

/// A grid after some characters, each in a look of its own.
pub open spec fn all_printed(grid: GridView, text: Seq<char>, looks: Seq<CellAttrs>) -> GridView
    decreases text.len(),
{
    if text.len() == 0 {
        grid
    } else {
        let n = text.len() - 1;
        all_printed(grid, text.drop_last(), looks).with_attrs(looks[n]).printed(text[n])
    }
}

/// What printing has left of a row so far.
proof fn lemma_all_printed(grid: GridView, text: Seq<char>, looks: Seq<CellAttrs>)
    requires
        grid.wf(),
        0 <= grid.cursor.row < grid.rows,
        grid.cursor.col == 0,
        text.len() <= grid.cols,
        is_untouched_row(grid.cells[grid.cursor.row], grid.cols),
        forall|i: int| 0 <= i < text.len() ==> !is_mark(#[trigger] text[i]) && !is_wide(text[i]),
    ensures
        ({
            let after = all_printed(grid, text, looks);
            let row = after.cells[grid.cursor.row];
            &&& after.cursor.row == grid.cursor.row
            &&& after.cursor.col == text.len()
            &&& after.cols == grid.cols
            &&& after.rows == grid.rows
            &&& after.cells.len() == grid.cells.len()
            &&& row.len() == grid.cols
            &&& forall|j: int|
                0 <= j < text.len() ==> (#[trigger] row[j]).ch == text[j] && row[j].attrs
                    == looks[j]
            &&& forall|j: int| text.len() <= j < row.len() ==> (#[trigger] row[j]).ch == ' '
            &&& forall|i: int|
                0 <= i < grid.cells.len() && i != grid.cursor.row ==> #[trigger] after.cells[i]
                    == grid.cells[i]
        }),
    decreases text.len(),
{
    if text.len() > 0 {
        let front = text.drop_last();
        assert forall|i: int| 0 <= i < front.len() implies !is_mark(#[trigger] front[i])
            && !is_wide(front[i]) by {
            assert(front[i] == text[i]);
        }
        lemma_all_printed(grid, front, looks);
        assert(!is_mark(text[text.len() - 1]) && !is_wide(text[text.len() - 1]));
    }
}

/// Characters of one column each that are printed from the start of an empty
/// row, in any looks, are read back as they were printed, but for spaces at the
/// end. Each cell has the look that its character was printed in.
pub proof fn printed_text_is_read_back(grid: GridView, text: Seq<char>, looks: Seq<CellAttrs>)
    requires
        grid.wf(),
        0 <= grid.cursor.row < grid.rows,
        grid.cursor.col == 0,
        text.len() <= grid.cols,
        is_untouched_row(grid.cells[grid.cursor.row], grid.cols),
        forall|i: int|
            0 <= i < text.len() ==> !is_mark(#[trigger] text[i]) && !is_wide(text[i]) && text[i]
                != '\0',
    ensures
        ({
            let after = all_printed(grid, text, looks);
            let row = after.cells[grid.cursor.row];
            let read = plain_row(row);
            &&& read == text.take(read.len() as int)
            &&& read.len() <= text.len()
            &&& forall|j: int| read.len() <= j < text.len() ==> #[trigger] text[j] == ' '
            &&& text.len() > 0 && text.last() != ' ' ==> read == text
            &&& forall|j: int| 0 <= j < text.len() ==> (#[trigger] row[j]).attrs == looks[j]
            &&& after.cursor.row == grid.cursor.row
            &&& after.cursor.col == text.len()
        }),
{
    lemma_all_printed(grid, text, looks);
    let row = all_printed(grid, text, looks).cells[grid.cursor.row];
    assert forall|j: int| 0 <= j < text.len() implies (#[trigger] row[j]).ch == text[j] && text[j]
        != '\0' by {
        assert(!is_mark(text[j]));
    }
    text_in_a_row_is_read(row, text);
}

/// The plain text of a screen is that of its rows, with a newline between two.
pub proof fn plain_rows_are_joined(above: Seq<Seq<Cell>>, below: Seq<Seq<Cell>>, row: Seq<Cell>)
    requires
        above.len() > 0,
        below.len() > 0,
    ensures
        plain_lines(seq![row]) == plain_row(row),
        plain_lines(above + below) == plain_lines(above) + seq!['\n'] + plain_lines(below),
    decreases below.len(),
{
    reveal_strlit("\n");
    let newline = seq!['\n'];
    assert("\n"@ =~= newline);
    let all = above + below;
    let front = below.drop_last();
    assert(all.drop_last() =~= above + front);
    assert(all.last() == below.last());
    if below.len() == 1 {
        assert(above + front =~= above);
        assert(plain_lines(below) == plain_row(below[0]));
    } else {
        plain_rows_are_joined(above, front, row);
        let a = plain_lines(above);
        let b = plain_lines(front);
        let c = plain_row(below.last());
        assert(a + newline + b + newline + c =~= a + newline + (b + newline + c));
    }
}

/// The lines of a history are its newest ones, in their order, each read as a
/// row is: all of them, or as many as are asked for.
pub proof fn history_is_read_from_its_end(rows: Seq<Seq<Cell>>, max_lines: Option<usize>)
    ensures
        ({
            let lines = history_lines(rows, max_lines);
            &&& max_lines is None ==> lines.len() == rows.len()
            &&& max_lines matches Some(most) ==> {
                &&& most >= rows.len() ==> lines.len() == rows.len()
                &&& most < rows.len() ==> lines.len() == most
            }
            &&& forall|k: int|
                1 <= k <= lines.len() ==> #[trigger] lines[lines.len() - k] == plain_row(
                    rows[rows.len() - k],
                )
        }),
{
}

} // verus!
