//! Drawing a grid as the control sequences that repaint it.
use vstd::prelude::*;

use crate::grid::{
    cells_wf, is_blank_cell, row_views, Cell, CellAttrs, Color, CursorView, GridView, ScreenBuffer,
};
use crate::sgr::{encode_sgr, sgr};
use crate::text::{decimal, lemma_append, push_decimal};

verus! {

/// Whether two optional colours are the same.
fn color_eq(a: &Option<Color>, b: &Option<Color>) -> (same: bool)
    ensures
        same == (*a == *b),
{
    match (a, b) {
        (None, None) => true,
        (Some(a), Some(b)) => match (a, b) {
            (Color::Indexed(a), Color::Indexed(b)) => *a == *b,
            (Color::Rgb(r, g, l), Color::Rgb(s, h, m)) => *r == *s && *g == *h && *l == *m,
            _ => false,
        },
        _ => false,
    }
}

/// Whether two cells look the same but for their characters.
pub fn attrs_eq(a: &CellAttrs, b: &CellAttrs) -> (same: bool)
    ensures
        same == (*a == *b),
{
    color_eq(&a.fg, &b.fg) && color_eq(&a.bg, &b.bg) && a.bold == b.bold && a.dim == b.dim
        && a.italic == b.italic && a.underline == b.underline && a.inverse == b.inverse
        && a.strikethrough == b.strikethrough
}

/// Whether anything but the plain look is asked for.
pub fn has_attrs(attrs: &CellAttrs) -> (styled: bool)
    ensures
        styled == (*attrs != CellAttrs::plain()),
{
    !attrs_eq(attrs, &CellAttrs::default())
}

/// The index behind the last cell of which something can be seen.
pub open spec fn visible_end(row: Seq<Cell>) -> int
    decreases row.len(),
{
    if row.len() == 0 {
        0
    } else if !is_blank_cell(row.last()) {
        row.len() as int
    } else {
        visible_end(row.drop_last())
    }
}

/// The index behind the last cell that holds a character other than a space.
pub open spec fn text_end(row: Seq<Cell>) -> int
    decreases row.len(),
{
    if row.len() == 0 {
        0
    } else if row.last().ch != ' ' && row.last().ch != '\0' {
        row.len() as int
    } else {
        text_end(row.drop_last())
    }
}

/// What was written so far of a row, and the look that it left.
pub struct Drawn {
    pub text: Seq<char>,
    pub attrs: CellAttrs,
}

/// Cells in order, with a change of look where one differs from the one
/// before. A null character belongs to the wide character before it.
pub open spec fn drawn(cells: Seq<Cell>) -> Drawn
    decreases cells.len(),
{
    if cells.len() == 0 {
        Drawn { text: Seq::empty(), attrs: CellAttrs::plain() }
    } else {
        let before = drawn(cells.drop_last());
        let cell = cells.last();
        if cell.ch == '\0' {
            before
        } else if cell.attrs == before.attrs {
            Drawn { text: before.text + cell.text(), attrs: before.attrs }
        } else {
            Drawn { text: before.text + sgr(cell.attrs) + cell.text(), attrs: cell.attrs }
        }
    }
}

/// A row with its looks, up to its last visible cell, which leaves the plain
/// look behind.
pub open spec fn styled_row(row: Seq<Cell>) -> Seq<char> {
    let all = drawn(row.take(visible_end(row)));
    if all.attrs != CellAttrs::plain() {
        all.text + "\x1b[0m"@
    } else {
        all.text
    }
}

/// A row as plain text, up to its last character other than a space.
pub open spec fn plain_row(row: Seq<Cell>) -> Seq<char> {
    Seq::new(
        text_end(row) as nat,
        |j: int|
            if row[j].ch == '\0' {
                ' '
            } else {
                row[j].ch
            },
    )
}

/// Appends a row with its looks.
pub(crate) fn push_styled_row(row: &Vec<Cell>, out: &mut String)
    requires
        forall|j: int| 0 <= j < row@.len() ==> (#[trigger] row@[j]).wf(),
    ensures
        final(out)@ == old(out)@ + styled_row(row@),
{
    let mut end: usize = row.len();
    assert(row@.take(row@.len() as int) =~= row@);
    while end > 0 && (row[end - 1].ch == ' ' || row[end - 1].ch == '\0') && !has_attrs(
        &row[end - 1].attrs,
    )
        invariant
            end <= row.len(),
            visible_end(row@.take(end as int)) == visible_end(row@),
        decreases end,
    {
        assert(row@.take(end as int).drop_last() =~= row@.take(end - 1));
        end -= 1;
    }
    proof {
        if end > 0 {
            assert(row@.take(end as int).last() == row@[end - 1]);
        }
        assert(visible_end(row@) == end);
    }
    let ghost start = out@;
    let mut attrs = CellAttrs::default();
    let mut j: usize = 0;
    assert(start + drawn(row@.take(0)).text =~= start);
    while j < end
        invariant
            j <= end <= row.len(),
            forall|k: int| 0 <= k < row@.len() ==> (#[trigger] row@[k]).wf(),
            out@ == start + drawn(row@.take(j as int)).text,
            attrs == drawn(row@.take(j as int)).attrs,
        decreases end - j,
    {
        let cell = row[j];
        let ghost before = drawn(row@.take(j as int));
        proof {
            assert(row@.take(j + 1).drop_last() =~= row@.take(j as int));
            assert(row@.take(j + 1).last() == cell);
        }
        if cell.ch != '\0' {
            if !attrs_eq(&cell.attrs, &attrs) {
                out.push_str(encode_sgr(&cell.attrs).as_str());
                proof {
                    lemma_append(start, before.text, sgr(cell.attrs));
                    lemma_append(start, before.text + sgr(cell.attrs), cell.text());
                }
                attrs = cell.attrs;
            } else {
                proof {
                    lemma_append(start, before.text, cell.text());
                }
            }
            cell.write_to(out);
        }
        j += 1;
    }
    if has_attrs(&attrs) {
        proof {
            lemma_append(start, drawn(row@.take(j as int)).text, "\x1b[0m"@);
        }
        out.push_str("\x1b[0m");
    }
}

/// A row as plain text.
pub(crate) fn plain_line(row: &Vec<Cell>) -> (line: String)
    ensures
        line@ == plain_row(row@),
{
    let mut end: usize = row.len();
    assert(row@.take(row@.len() as int) =~= row@);
    while end > 0 && (row[end - 1].ch == ' ' || row[end - 1].ch == '\0')
        invariant
            end <= row.len(),
            text_end(row@.take(end as int)) == text_end(row@),
        decreases end,
    {
        assert(row@.take(end as int).drop_last() =~= row@.take(end - 1));
        end -= 1;
    }
    proof {
        if end > 0 {
            assert(row@.take(end as int).last() == row@[end - 1]);
        }
        assert(text_end(row@) == end);
    }
    let mut line = String::new();
    let mut j: usize = 0;
    while j < end
        invariant
            j <= end <= row.len(),
            end == text_end(row@),
            line@.len() == j,
            forall|k: int| 0 <= k < j ==> line@[k] == #[trigger] plain_row(row@)[k],
        decreases end - j,
    {
        let ch = row[j].ch;
        if ch == '\0' {
            line.push(' ');
        } else {
            line.push(ch);
        }
        j += 1;
    }
    assert(line@ =~= plain_row(row@));
    line
}

/// The sequence that puts the cursor at a place; the first row and the first
/// column are 0.
pub open spec fn move_to(row: int, col: int) -> Seq<char> {
    "\x1b["@ + decimal(row + 1) + ";"@ + decimal(col + 1) + "H"@
}

/// Appends the sequence that puts the cursor at a place.
fn push_move_to(out: &mut String, row: usize, col: usize)
    ensures
        final(out)@ == old(out)@ + move_to(row as int, col as int),
{
    let ghost start = out@;
    out.push_str("\x1b[");
    push_decimal(out, row as u128 + 1);
    out.push_str(";");
    push_decimal(out, col as u128 + 1);
    out.push_str("H");
    proof {
        let a = "\x1b["@;
        let b = decimal(row + 1);
        let c = ";"@;
        let d = decimal(col + 1);
        lemma_append(start, a, b);
        lemma_append(start, a + b, c);
        lemma_append(start, a + b + c, d);
        lemma_append(start, a + b + c + d, "H"@);
    }
}

/// The first `n` rows of a grid, each drawn over a cleared line.
pub open spec fn rendered_rows(cells: Seq<Seq<Cell>>, n: int) -> Seq<char>
    decreases n,
{
    if n <= 0 {
        Seq::empty()
    } else {
        rendered_rows(cells, n - 1) + (move_to(n - 1, 0) + "\x1b[K"@ + styled_row(cells[n - 1]))
    }
}

/// The sequences that draw a grid over whatever is there.
pub open spec fn rendered(grid: GridView) -> Seq<char> {
    rendered_rows(grid.cells, grid.cells.len() as int)
}

/// The sequences that put the cursor back, with its look.
pub open spec fn restored(cursor: CursorView) -> Seq<char> {
    move_to(cursor.row, cursor.col) + sgr(cursor.attrs)
}

/// Appends the sequences that draw a grid.
pub fn render_buffer(buf: &ScreenBuffer, out: &mut String)
    requires
        cells_wf(buf@.cells),
    ensures
        final(out)@ == old(out)@ + rendered(buf@),
{
    let ghost start = out@;
    let ghost cells = buf@.cells;
    let mut i: usize = 0;
    assert(start + rendered_rows(cells, 0) =~= start);
    while i < buf.cells.len()
        invariant
            i <= buf.cells.len(),
            cells == row_views(buf.cells@),
            cells_wf(cells),
            out@ == start + rendered_rows(cells, i as int),
        decreases buf.cells.len() - i,
    {
        let row = &buf.cells[i];
        let ghost before = out@;
        push_move_to(out, i, 0);
        out.push_str("\x1b[K");
        proof {
            assert(cells[i as int] == row@);
            assert forall|j: int| 0 <= j < row@.len() implies (#[trigger] row@[j]).wf() by {
                assert(cells[i as int][j].wf());
            }
        }
        push_styled_row(row, out);
        proof {
            let a = move_to(i as int, 0);
            let b = "\x1b[K"@;
            lemma_append(before, a, b);
            lemma_append(before, a + b, styled_row(row@));
            lemma_append(start, rendered_rows(cells, i as int), a + b + styled_row(row@));
        }
        i += 1;
    }
}

/// Appends the sequences that put the cursor back.
pub fn restore_cursor_state(buf: &ScreenBuffer, out: &mut String)
    ensures
        final(out)@ == old(out)@ + restored(buf@.cursor),
{
    let ghost start = out@;
    push_move_to(out, buf.cursor.row, buf.cursor.col);
    out.push_str(encode_sgr(&buf.cursor.attrs).as_str());
    proof {
        lemma_append(
            start,
            move_to(buf.cursor.row as int, buf.cursor.col as int),
            sgr(buf.cursor.attrs),
        );
    }
}

} // verus!
