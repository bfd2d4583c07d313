//! What the text that clients are sent is made of.
use vstd::prelude::*;

use crate::grid::{is_blank_cell, Cell, CellAttrs, Color, GridView};
use crate::lines::has_plain_look;
use crate::modes::{when_on, MouseEncoding, MouseProtocol, PrivateModes};
use crate::render::{drawn, rendered, rendered_rows, restored, styled_row, visible_end};
use crate::screen::ScreenView;
use crate::sgr::{asked_color, joined, sgr, singles, with_code, with_color, with_params};
use crate::snapshot::{history_chunks, styled_chunks, styled_lines};
use crate::text::{decimal, lemma_append};
use crate::width::{is_mark, is_wide};

verus! {

/// Whether a text starts with another.
pub open spec fn starts_with(text: Seq<char>, start: Seq<char>) -> bool {
    start.len() <= text.len() && text.take(start.len() as int) == start
}

/// Whether a text ends with another.
pub open spec fn ends_with(text: Seq<char>, end: Seq<char>) -> bool {
    end.len() <= text.len() && text.skip(text.len() - end.len()) == end
}

/// A text with two parts starts with the first and ends with the second.
proof fn lemma_parts(a: Seq<char>, b: Seq<char>)
    ensures
        starts_with(a + b, a),
        ends_with(a + b, b),
{
    assert((a + b).take(a.len() as int) =~= a);
    assert((a + b).skip((a + b).len() - b.len()) =~= b);
}

/// A text whose start starts with another starts with it.
proof fn lemma_start_kept(a: Seq<char>, b: Seq<char>, start: Seq<char>)
    requires
        starts_with(a, start),
    ensures
        starts_with(a + b, start),
{
    assert((a + b).take(start.len() as int) =~= a.take(start.len() as int));
}

/// A screen is drawn with its cursor hidden, and the cursor is shown again at
/// the end.
pub proof fn cursor_is_hidden_while_drawing(screen: ScreenView)
    ensures
        starts_with(screen.snapshot(), "\x1b[?25l"@),
        ends_with(screen.snapshot(), "\x1b[?25h"@),
        starts_with(screen.replay_snapshot(), "\x1b[?25l"@),
        ends_with(screen.replay_snapshot(), "\x1b[?25h"@),
{
    let hide = "\x1b[?25l"@;
    let reset = "\x1b[0m"@;
    let show = "\x1b[?25h"@;
    let modes = screen.private_modes.replay();
    let active = screen.active();
    let enter = when_on(screen.using_alternate, "\x1b[?1049h"@);
    let a = hide + reset;
    let b = a + enter;
    let c = b + rendered(active);
    let d = c + modes;
    let e = d + restored(active.cursor);
    lemma_parts(hide, reset);
    lemma_start_kept(a, enter, hide);
    lemma_start_kept(b, rendered(active), hide);
    lemma_start_kept(c, modes, hide);
    lemma_start_kept(d, restored(active.cursor), hide);
    lemma_start_kept(e, show, hide);
    lemma_parts(e, show);
    lemma_replay_hides(screen);
}

/// The same of a snapshot for clients that reconnect.
proof fn lemma_replay_hides(screen: ScreenView)
    ensures
        starts_with(screen.replay_snapshot(), "\x1b[?25l"@),
        ends_with(screen.replay_snapshot(), "\x1b[?25h"@),
{
    let hide = "\x1b[?25l"@;
    let reset = "\x1b[0m"@;
    let enter = "\x1b[?1049h"@;
    let show = "\x1b[?25h"@;
    let modes = screen.private_modes.replay();
    let a = hide + screen.scroll_out();
    let b = a + reset;
    let c = b + rendered(screen.primary);
    lemma_parts(hide, screen.scroll_out());
    lemma_start_kept(a, reset, hide);
    lemma_start_kept(b, rendered(screen.primary), hide);
    let end = if screen.using_alternate {
        let d = c + restored(screen.primary.cursor);
        let e = d + enter;
        let f = e + reset;
        let g = f + rendered(screen.alternate);
        let h = g + modes;
        lemma_start_kept(c, restored(screen.primary.cursor), hide);
        lemma_start_kept(d, enter, hide);
        lemma_start_kept(e, reset, hide);
        lemma_start_kept(f, rendered(screen.alternate), hide);
        lemma_start_kept(g, modes, hide);
        lemma_start_kept(h, restored(screen.alternate.cursor), hide);
        h + restored(screen.alternate.cursor)
    } else {
        let d = c + modes;
        lemma_start_kept(c, modes, hide);
        lemma_start_kept(d, restored(screen.primary.cursor), hide);
        d + restored(screen.primary.cursor)
    };
    lemma_start_kept(end, show, hide);
    lemma_parts(end, show);
}

/// The lines of two stretches of rows, one after the other; and each line is its
/// row and the end of a line.
pub proof fn lines_come_in_order(above: Seq<Seq<Cell>>, below: Seq<Seq<Cell>>, row: Seq<Cell>)
    ensures
        styled_lines(seq![row]) == styled_row(row) + "\r\n"@,
        styled_lines(above + below) == styled_lines(above) + styled_lines(below),
    decreases below.len(),
{
    let one = seq![row];
    assert(one.drop_last() =~= Seq::<Seq<Cell>>::empty());
    assert(styled_lines(one.drop_last()) + styled_row(row) =~= styled_row(row));
    if below.len() == 0 {
        assert(above + below =~= above);
        assert(styled_lines(above) + styled_lines(below) =~= styled_lines(above));
    } else {
        let front = below.drop_last();
        lines_come_in_order(above, front, row);
        assert((above + below).drop_last() =~= above + front);
        let a = styled_lines(above);
        let b = styled_lines(front);
        let c = styled_row(below.last());
        lemma_append(a, b, c);
        lemma_append(a, b + c, "\r\n"@);
    }
}

/// The characters of some cells with their marks, but for null characters.
pub open spec fn cell_texts(cells: Seq<Cell>) -> Seq<char>
    decreases cells.len(),
{
    if cells.len() == 0 {
        Seq::empty()
    } else if cells.last().ch == '\0' {
        cell_texts(cells.drop_last())
    } else {
        cell_texts(cells.drop_last()) + seq![cells.last().ch] + cells.last().combining@.take(
            cells.last().combining_len as int,
        )
    }
}

/// A row ends behind its last cell of which something can be seen: a character
/// other than a space, or any look but the plain one.
pub proof fn row_ends_where_nothing_is_seen(row: Seq<Cell>)
    ensures
        0 <= visible_end(row) <= row.len(),
        forall|j: int|
            visible_end(row) <= j < row.len() ==> ((#[trigger] row[j]).ch == ' ' || row[j].ch
                == '\0') && has_plain_look(row[j]),
        visible_end(row) > 0 ==> {
            let last = row[visible_end(row) - 1];
            (last.ch != ' ' && last.ch != '\0') || !has_plain_look(last)
        },
    decreases row.len(),
{
    if row.len() > 0 {
        let front = row.drop_last();
        if has_plain_look(row.last()) {
            assert(row.last().attrs =~= CellAttrs::plain());
        }
        if is_blank_cell(row.last()) {
            row_ends_where_nothing_is_seen(front);
            assert forall|j: int| visible_end(row) <= j < row.len() implies ((
            #[trigger] row[j]).ch == ' ' || row[j].ch == '\0') && has_plain_look(row[j]) by {
                if j < front.len() {
                    assert(front[j] == row[j]);
                }
            }
        }
    }
}

/// What is drawn of cells in one look.
proof fn lemma_one_look(cells: Seq<Cell>, look: CellAttrs)
    requires
        forall|j: int| 0 <= j < cells.len() ==> (#[trigger] cells[j]).attrs == look,
        forall|j: int| 0 <= j < cells.len() ==> (#[trigger] cells[j]).ch != '\0',
    ensures
        look == CellAttrs::plain() ==> drawn(cells).text == cell_texts(cells),
        cells.len() > 0 ==> drawn(cells).attrs == look,
        cells.len() == 0 ==> drawn(cells).attrs == CellAttrs::plain(),
        look != CellAttrs::plain() && cells.len() > 0 ==> drawn(cells).text == sgr(look)
            + cell_texts(cells),
    decreases cells.len(),
{
    if cells.len() > 0 {
        let front = cells.drop_last();
        assert forall|j: int| 0 <= j < front.len() implies (#[trigger] front[j]).attrs == look
            && front[j].ch != '\0' by {
            assert(front[j] == cells[j]);
        }
        lemma_one_look(front, look);
        let cell = cells[cells.len() - 1];
        assert(cell.attrs == look && cell.ch != '\0');
        assert(cell_texts(cells) =~= cell_texts(front) + cell.text());
        if look != CellAttrs::plain() {
            if front.len() == 0 {
                assert(drawn(front).text + sgr(look) =~= sgr(look));
                assert(cell_texts(front) =~= Seq::<char>::empty());
                assert(cell_texts(cells) =~= cell.text());
            } else {
                lemma_append(sgr(look), cell_texts(front), cell.text());
            }
        }
    }
}

/// A cell behind others is drawn in its own look: with a change of look where
/// the last character before it had another one, and without where it had the
/// same. A null character is not drawn, and changes no look.
pub proof fn cells_are_drawn_in_their_looks(cells: Seq<Cell>, next: Cell)
    requires
        cells.len() > 0,
        cells.last().ch != '\0',
    ensures
        next.ch == '\0' ==> drawn(cells.push(next)) == drawn(cells),
        next.ch != '\0' && next.attrs == cells.last().attrs ==> drawn(cells.push(next)).text
            == drawn(cells).text + seq![next.ch] + next.combining@.take(
            next.combining_len as int,
        ),
        next.ch != '\0' && next.attrs != cells.last().attrs ==> drawn(cells.push(next)).text
            == drawn(cells).text + sgr(next.attrs) + seq![next.ch] + next.combining@.take(
            next.combining_len as int,
        ),
{
    let all = cells.push(next);
    assert(all.drop_last() =~= cells);
    let marks = next.combining@.take(next.combining_len as int);
    let before = drawn(cells).text;
    lemma_append(before, seq![next.ch], marks);
    lemma_append(before + sgr(next.attrs), seq![next.ch], marks);
    assert(drawn(cells).attrs == cells.last().attrs);
}

/// Each row of a grid is drawn from its first column on, over a cleared line,
/// the rows in their order.
pub proof fn rows_are_drawn_in_their_places(grid: GridView, row: Seq<Cell>)
    ensures
        ({
            let more = GridView { cells: grid.cells.push(row), ..grid };
            let place = "\x1b["@ + decimal(grid.cells.len() as int + 1) + ";1H"@;
            rendered(more) == rendered(grid) + (place + "\x1b[K"@ + styled_row(row))
        }),
        rendered((GridView { cells: Seq::empty(), ..grid })).len() == 0,
{
    let n = grid.cells.len() as int;
    let cells = grid.cells.push(row);
    lemma_rows_before(grid.cells, row, n);
    reveal_strlit(";");
    reveal_strlit("H");
    reveal_strlit(";1H");
    assert(decimal(1) =~= seq!['1']);
    assert("\x1b["@ + decimal(n + 1) + ";"@ + decimal(1) + "H"@ =~= "\x1b["@ + decimal(n + 1)
        + ";1H"@);
    assert(cells[n] == row);
}

/// The first rows are drawn the same whatever comes below them.
proof fn lemma_rows_before(cells: Seq<Seq<Cell>>, row: Seq<Cell>, n: int)
    requires
        n <= cells.len(),
    ensures
        rendered_rows(cells.push(row), n) == rendered_rows(cells, n),
    decreases n,
{
    if n > 0 {
        lemma_rows_before(cells, row, n - 1);
    }
}

/// A snapshot draws the screen that is shown; in a client that reconnects the
/// primary screen is drawn first, and the alternate one where it is shown. Then
/// come the modes, and the cursor with its look.
pub proof fn snapshots_draw_what_is_shown(screen: ScreenView)
    ensures
        !screen.using_alternate ==> {
            &&& ends_with(
                screen.snapshot(),
                rendered(screen.primary) + screen.private_modes.replay() + restored(
                    screen.primary.cursor,
                ) + "\x1b[?25h"@,
            )
            &&& ends_with(
                screen.replay_snapshot(),
                rendered(screen.primary) + screen.private_modes.replay() + restored(
                    screen.primary.cursor,
                ) + "\x1b[?25h"@,
            )
        },
        screen.using_alternate ==> {
            &&& ends_with(
                screen.snapshot(),
                "\x1b[?1049h"@ + rendered(screen.alternate) + screen.private_modes.replay()
                    + restored(screen.alternate.cursor) + "\x1b[?25h"@,
            )
            &&& ends_with(
                screen.replay_snapshot(),
                rendered(screen.primary) + restored(screen.primary.cursor) + "\x1b[?1049h"@
                    + "\x1b[0m"@ + rendered(screen.alternate) + screen.private_modes.replay()
                    + restored(screen.alternate.cursor) + "\x1b[?25h"@,
            )
        },
{
    let hide = "\x1b[?25l"@;
    let reset = "\x1b[0m"@;
    let enter = "\x1b[?1049h"@;
    let show = "\x1b[?25h"@;
    let modes = screen.private_modes.replay();
    let first = rendered(screen.primary);
    let second = rendered(screen.alternate);
    let home = restored(screen.primary.cursor);
    let last = restored(screen.alternate.cursor);
    let start = hide + screen.scroll_out() + reset;
    if screen.using_alternate {
        lemma_five(hide + reset, enter, second, modes, last, show);
        lemma_five(start + first + home, enter, reset, second, modes, last);
        let front = start + first + home + enter + reset + second + modes + last;
        let part = first + home + enter + reset + second + modes + last;
        assert(front =~= start + part) by {
            lemma_five(start, first, home, enter, reset, second);
            lemma_append(start, first + home + enter + reset + second, modes);
            lemma_append(start, first + home + enter + reset + second + modes, last);
        }
        lemma_append(start, part, show);
        lemma_parts(start, part + show);
        lemma_parts(hide + reset, enter + second + modes + last + show);
    } else {
        assert(hide + reset + when_on(false, enter) =~= hide + reset);
        lemma_four(hide + reset, first, modes, home, show);
        lemma_four(start, first, modes, home, show);
        lemma_parts(hide + reset, first + modes + home + show);
        lemma_parts(start, first + modes + home + show);
    }
}

/// Four parts behind another.
proof fn lemma_four(
    start: Seq<char>,
    a: Seq<char>,
    b: Seq<char>,
    c: Seq<char>,
    d: Seq<char>,
)
    ensures
        start + a + b + c + d == start + (a + b + c + d),
{
    lemma_append(start, a, b);
    lemma_append(start, a + b, c);
    lemma_append(start, a + b + c, d);
}

/// Five parts behind another.
proof fn lemma_five(
    start: Seq<char>,
    a: Seq<char>,
    b: Seq<char>,
    c: Seq<char>,
    d: Seq<char>,
    e: Seq<char>,
)
    ensures
        start + a + b + c + d + e == start + (a + b + c + d + e),
{
    lemma_four(start, a, b, c, d);
    lemma_append(start, a + b + c + d, e);
}

/// A row in one look is sent as its characters with their marks, up to its end,
/// in that look; the plain look is there again behind it.
pub proof fn row_in_one_look(row: Seq<Cell>, look: CellAttrs)
    requires
        forall|j: int| 0 <= j < row.len() ==> (#[trigger] row[j]).attrs == look,
        forall|j: int| 0 <= j < row.len() ==> (#[trigger] row[j]).ch != '\0',
    ensures
        look == CellAttrs::plain() ==> styled_row(row) == cell_texts(row.take(visible_end(row))),
        look != CellAttrs::plain() && row.len() > 0 ==> styled_row(row) == sgr(look)
            + cell_texts(row) + "\x1b[0m"@,
{
    row_ends_where_nothing_is_seen(row);
    let shown = row.take(visible_end(row));
    assert forall|j: int| 0 <= j < shown.len() implies (#[trigger] shown[j]).attrs == look
        && shown[j].ch != '\0' by {
        assert(shown[j] == row[j]);
    }
    lemma_one_look(shown, look);
    if look != CellAttrs::plain() && row.len() > 0 {
        assert(row.last().attrs == look);
        assert(visible_end(row) == row.len());
        assert(shown =~= row);
    }
}

/// A history comes in pieces of as many rows as are asked for, in their order:
/// the piece at `k` holds the rows from `k * lines` on, and the last piece what
/// is left.
pub proof fn chunks_hold_their_rows(rows: Seq<Seq<Cell>>, lines: int, k: int)
    requires
        lines > 0,
    ensures
        ({
            let chunks = styled_chunks(rows, lines);
            &&& chunks.len() * lines >= rows.len()
            &&& rows.len() == 0 ==> chunks.len() == 0
            &&& rows.len() > 0 ==> (chunks.len() - 1) * lines < rows.len()
            &&& 0 <= k < chunks.len() - 1 ==> 0 <= k * lines <= k * lines + lines <= rows.len()
                && chunks[k] == styled_lines(rows.subrange(k * lines, k * lines + lines))
            &&& 0 <= k == chunks.len() - 1 ==> 0 <= k * lines <= rows.len() && chunks[k]
                == styled_lines(rows.skip(k * lines))
        }),
    decreases rows.len(),
{
    let chunks = styled_chunks(rows, lines);
    if rows.len() == 0 {
    } else if rows.len() <= lines {
        assert(chunks.len() == 1);
        assert(rows.skip(0) =~= rows);
    } else {
        let rest = rows.skip(lines);
        let others = styled_chunks(rest, lines);
        chunks_hold_their_rows(rest, lines, k - 1);
        assert(chunks.len() == others.len() + 1);
        let n = others.len() as int;
        assert((n + 1) * lines == n * lines + lines) by (nonlinear_arith);
        assert((n - 1) * lines == n * lines - lines) by (nonlinear_arith);
        assert(rows.subrange(0, lines) =~= rows.take(lines));
        if 0 < k < chunks.len() {
            assert(chunks[k] == others[k - 1]);
            assert((k - 1) * lines == k * lines - lines) by (nonlinear_arith);
            if k < chunks.len() - 1 {
                assert(rest.subrange((k - 1) * lines, (k - 1) * lines + lines) =~= rows.subrange(
                    k * lines,
                    k * lines + lines,
                ));
            } else {
                assert(rest.skip((k - 1) * lines) =~= rows.skip(k * lines));
            }
        }
    }
}

/// A history in pieces of no rows comes in pieces of one row each, one that is
/// not longer than a piece in one piece, and an empty one in none.
pub proof fn history_comes_in_chunks(rows: Seq<Seq<Cell>>, chunk_lines: usize, k: int)
    ensures
        ({
            let chunks = history_chunks(rows, chunk_lines);
            &&& rows.len() == 0 ==> chunks.len() == 0
            &&& chunk_lines == 0 ==> chunks == history_chunks(rows, 1)
            &&& chunk_lines <= 1 ==> chunks.len() == rows.len()
            &&& chunk_lines <= 1 && 0 <= k < rows.len() ==> chunks[k] == styled_row(rows[k])
                + "\r\n"@
            &&& 0 < rows.len() <= chunk_lines ==> chunks == seq![styled_lines(rows)]
            &&& chunk_lines > 0 ==> chunks == styled_chunks(rows, chunk_lines as int)
        }),
{
    chunks_hold_their_rows(rows, 1, k);
    if 0 <= k < rows.len() {
        lines_come_in_order(Seq::empty(), Seq::empty(), rows[k]);
        assert(rows.subrange(k, k + 1) =~= seq![rows[k]]);
        if k == rows.len() - 1 {
            assert(rows.skip(k) =~= seq![rows[k]]);
        }
    }
}

/// The encoding of mouse events is asked for before anything else, so that no
/// event is reported in another one.
pub proof fn encoding_is_replayed_first(modes: PrivateModes)
    ensures
        starts_with(
            modes.replay(),
            (PrivateModes { encoding: modes.encoding, ..PrivateModes::off() }).replay(),
        ),
        modes.encoding == MouseEncoding::Sgr ==> starts_with(modes.replay(), "\x1b[?1006h"@),
        modes.encoding == MouseEncoding::SgrPixels ==> starts_with(
            modes.replay(),
            "\x1b[?1016h"@,
        ),
{
    let alone = (PrivateModes { encoding: modes.encoding, ..PrivateModes::off() }).replay();
    let first = modes.encoding.replay();
    assert(alone =~= first);
    assert(modes.replay().take(first.len() as int) =~= first);
}

/// What each mode is replayed as, alone; and what the modes are replayed as
/// together: the encoding, the mouse, the cursor keys, the keypad, and pasted
/// text in brackets.
pub proof fn modes_are_replayed_one_by_one(modes: PrivateModes)
    ensures
        ({
            let off = PrivateModes::off();
            modes.replay() == (PrivateModes { encoding: modes.encoding, ..off }).replay() + (
            PrivateModes { mouse: modes.mouse, ..off }).replay() + (PrivateModes {
                cursor_keys: modes.cursor_keys,
                ..off
            }).replay() + (PrivateModes { keypad: modes.keypad, ..off }).replay() + (
            PrivateModes { bracketed_paste: modes.bracketed_paste, ..off }).replay()
        }),
        ({
            let off = PrivateModes::off();
            &&& off.replay().len() == 0
            &&& (PrivateModes { mouse: MouseProtocol::X10, ..off }).replay() == "\x1b[?9h"@
            &&& (PrivateModes { mouse: MouseProtocol::Normal, ..off }).replay()
                == "\x1b[?1000h"@
            &&& (PrivateModes { mouse: MouseProtocol::Button, ..off }).replay()
                == "\x1b[?1002h"@
            &&& (PrivateModes { mouse: MouseProtocol::Any, ..off }).replay() == "\x1b[?1003h"@
            &&& (PrivateModes { encoding: MouseEncoding::Sgr, ..off }).replay()
                == "\x1b[?1006h"@
            &&& (PrivateModes { encoding: MouseEncoding::SgrPixels, ..off }).replay()
                == "\x1b[?1016h"@
            &&& (PrivateModes { cursor_keys: true, ..off }).replay() == "\x1b[?1h"@
            &&& (PrivateModes { keypad: true, ..off }).replay() == "\x1b[?66h"@
            &&& (PrivateModes { bracketed_paste: true, ..off }).replay() == "\x1b[?2004h"@
        }),
{
    let off = PrivateModes::off();
    assert((PrivateModes { encoding: modes.encoding, ..off }).replay()
        =~= modes.encoding.replay());
    assert((PrivateModes { mouse: modes.mouse, ..off }).replay() =~= modes.mouse.replay());
    lemma_alone_replay(modes.cursor_keys, modes.keypad, modes.bracketed_paste);
    lemma_alone_replay(true, true, true);
    assert(off.replay() =~= Seq::<char>::empty());
    assert((PrivateModes { mouse: MouseProtocol::X10, ..off }).replay() =~= "\x1b[?9h"@);
    assert((PrivateModes { mouse: MouseProtocol::Normal, ..off }).replay() =~= "\x1b[?1000h"@);
    assert((PrivateModes { mouse: MouseProtocol::Button, ..off }).replay() =~= "\x1b[?1002h"@);
    assert((PrivateModes { mouse: MouseProtocol::Any, ..off }).replay() =~= "\x1b[?1003h"@);
    assert((PrivateModes { encoding: MouseEncoding::Sgr, ..off }).replay() =~= "\x1b[?1006h"@);
    assert((PrivateModes { encoding: MouseEncoding::SgrPixels, ..off }).replay()
        =~= "\x1b[?1016h"@);
}

/// What the modes of the keys and of pasted text are replayed as, alone.
proof fn lemma_alone_replay(cursor_keys: bool, keypad: bool, bracketed_paste: bool)
    ensures
        ({
            let off = PrivateModes::off();
            &&& (PrivateModes { cursor_keys, ..off }).replay() == when_on(
                cursor_keys,
                "\x1b[?1h"@,
            )
            &&& (PrivateModes { keypad, ..off }).replay() == when_on(
                keypad,
                "\x1b[?66h"@,
            )
            &&& (PrivateModes { bracketed_paste, ..off }).replay() == when_on(
                bracketed_paste,
                "\x1b[?2004h"@,
            )
        }),
{
    let off = PrivateModes::off();
    assert((PrivateModes { cursor_keys, ..off }).replay() =~= when_on(
        cursor_keys,
        "\x1b[?1h"@,
    ));
    assert((PrivateModes { keypad, ..off }).replay() =~= when_on(
        keypad,
        "\x1b[?66h"@,
    ));
    assert((PrivateModes { bracketed_paste, ..off }).replay() =~= when_on(
        bracketed_paste,
        "\x1b[?2004h"@,
    ));
}

/// A mode that is switched on and off again is off, whatever it was; the others
/// stay as they are.
pub proof fn modes_are_switched_alone(modes: PrivateModes, on: bool)
    ensures
        modes.with_mode(1, on) == (PrivateModes { cursor_keys: on, ..modes }),
        modes.with_mode(66, on) == (PrivateModes { keypad: on, ..modes }),
        modes.with_mode(1004, on) == (PrivateModes { focus_event: on, ..modes }),
        modes.with_mode(2004, on) == (PrivateModes { bracketed_paste: on, ..modes }),
        forall|mode: u16|
            mode == 9 || mode == 1000 || mode == 1002 || mode == 1003
                ==> #[trigger] modes.with_mode(mode, false) == (PrivateModes {
                mouse: MouseProtocol::Off,
                ..modes
            }),
        forall|mode: u16|
            mode == 1006 || mode == 1016 ==> #[trigger] modes.with_mode(mode, false) == (
            PrivateModes { encoding: MouseEncoding::Default, ..modes }),
        modes.with_mode(9, true) == (PrivateModes { mouse: MouseProtocol::X10, ..modes }),
        modes.with_mode(1000, true) == (PrivateModes { mouse: MouseProtocol::Normal, ..modes }),
        modes.with_mode(1002, true) == (PrivateModes { mouse: MouseProtocol::Button, ..modes }),
        modes.with_mode(1003, true) == (PrivateModes { mouse: MouseProtocol::Any, ..modes }),
        modes.with_mode(1006, true) == (PrivateModes { encoding: MouseEncoding::Sgr, ..modes }),
        modes.with_mode(1016, true) == (PrivateModes {
            encoding: MouseEncoding::SgrPixels,
            ..modes
        }),
{
}

/// Each part of a look is switched on and off by numbers of its own, and leaves
/// the others as they are; a colour goes back to none.
pub proof fn looks_are_switched_alone(attrs: CellAttrs)
    ensures
        ({
            let after = |code: u16| with_params(attrs, singles(seq![code]));
            &&& after(1) == (CellAttrs { bold: true, ..attrs })
            &&& after(2) == (CellAttrs { dim: true, ..attrs })
            &&& after(22) == (CellAttrs { bold: false, dim: false, ..attrs })
            &&& after(3) == (CellAttrs { italic: true, ..attrs })
            &&& after(23) == (CellAttrs { italic: false, ..attrs })
            &&& after(4) == (CellAttrs { underline: true, ..attrs })
            &&& after(24) == (CellAttrs { underline: false, ..attrs })
            &&& after(7) == (CellAttrs { inverse: true, ..attrs })
            &&& after(27) == (CellAttrs { inverse: false, ..attrs })
            &&& after(9) == (CellAttrs { strikethrough: true, ..attrs })
            &&& after(29) == (CellAttrs { strikethrough: false, ..attrs })
            &&& after(39) == (CellAttrs { fg: None, ..attrs })
            &&& after(49) == (CellAttrs { bg: None, ..attrs })
            &&& after(0) == CellAttrs::plain()
        }),
{
    assert forall|code: u16| code != 38 && code != 48 implies #[trigger] with_params(
        attrs,
        singles(seq![code]),
    ) == with_code(attrs, code) by {
        lemma_one_code(attrs, code);
    }
}

/// One number that stands for itself.
proof fn lemma_one_code(attrs: CellAttrs, code: u16)
    requires
        code != 38,
        code != 48,
    ensures
        with_params(attrs, singles(seq![code])) == with_code(attrs, code),
{
    let params = singles(seq![code]);
    assert(params[0][0] == code);
    assert(params.skip(1) =~= Seq::<Seq<u16>>::empty());
    assert(with_params(with_code(attrs, code), params.skip(1))
        == with_code(attrs, code));
}

/// The eight colours and their bright kind are asked for by numbers in a row.
pub proof fn colours_are_asked_for_in_a_row(attrs: CellAttrs, n: u16)
    requires
        n < 8,
    ensures
        with_params(attrs, singles(seq![(30 + n) as u16])) == (CellAttrs {
            fg: Some(Color::Indexed(n as u8)),
            ..attrs
        }),
        with_params(attrs, singles(seq![(40 + n) as u16])) == (CellAttrs {
            bg: Some(Color::Indexed(n as u8)),
            ..attrs
        }),
        with_params(attrs, singles(seq![(90 + n) as u16])) == (CellAttrs {
            fg: Some(Color::Indexed((n + 8) as u8)),
            ..attrs
        }),
        with_params(attrs, singles(seq![(100 + n) as u16])) == (CellAttrs {
            bg: Some(Color::Indexed((n + 8) as u8)),
            ..attrs
        }),
{
    lemma_one_code(attrs, (30 + n) as u16);
    lemma_one_code(attrs, (40 + n) as u16);
    lemma_one_code(attrs, (90 + n) as u16);
    lemma_one_code(attrs, (100 + n) as u16);
}

/// A colour by its index, or by its components, with or without the number of
/// their colour space, is asked for in one parameter, of what is printed or of
/// what is behind it.
pub proof fn extended_colours_are_asked_for(attrs: CellAttrs, r: u8, g: u8, b: u8, space: u16)
    ensures
        ({
            let index = Some(Color::Indexed(r));
            let parts = Some(Color::Rgb(r, g, b));
            let n = r as u16;
            let m = g as u16;
            let k = b as u16;
            &&& with_params(attrs, seq![seq![38u16, 5, n]]) == (CellAttrs { fg: index, ..attrs })
            &&& with_params(attrs, seq![seq![48u16, 5, n]]) == (CellAttrs { bg: index, ..attrs })
            &&& with_params(attrs, seq![seq![38u16, 2, n, m, k]]) == (CellAttrs {
                fg: parts,
                ..attrs
            })
            &&& with_params(attrs, seq![seq![48u16, 2, n, m, k]]) == (CellAttrs {
                bg: parts,
                ..attrs
            })
            &&& with_params(attrs, seq![seq![38u16, 2, space, n, m, k]]) == (CellAttrs {
                fg: parts,
                ..attrs
            })
            &&& with_params(attrs, seq![seq![48u16, 2, space, n, m, k]]) == (CellAttrs {
                bg: parts,
                ..attrs
            })
        }),
{
    let n = r as u16;
    let m = g as u16;
    let k = b as u16;
    lemma_one_parameter(attrs, seq![38u16, 5, n]);
    lemma_one_parameter(attrs, seq![48u16, 5, n]);
    lemma_one_parameter(attrs, seq![38u16, 2, n, m, k]);
    lemma_one_parameter(attrs, seq![48u16, 2, n, m, k]);
    assert(seq![38u16, 5, n].skip(1) =~= seq![5u16, n]);
    assert(seq![48u16, 5, n].skip(1) =~= seq![5u16, n]);
    assert(seq![38u16, 2, n, m, k].skip(1) =~= seq![2u16, n, m, k]);
    assert(seq![48u16, 2, n, m, k].skip(1) =~= seq![2u16, n, m, k]);
    lemma_one_parameter(attrs, seq![38u16, 2, space, n, m, k]);
    lemma_one_parameter(attrs, seq![48u16, 2, space, n, m, k]);
    assert(seq![38u16, 2, space, n, m, k].skip(1) =~= seq![2u16, space, n, m, k]);
    assert(seq![48u16, 2, space, n, m, k].skip(1) =~= seq![2u16, space, n, m, k]);
}

/// One parameter with a colour in it.
proof fn lemma_one_parameter(attrs: CellAttrs, first: Seq<u16>)
    requires
        first.len() > 1,
        first[0] == 38 || first[0] == 48,
    ensures
        with_params(attrs, seq![first]) == with_color(
            attrs,
            first[0],
            asked_color(first.skip(1)),
        ),
{
    let params = seq![first];
    assert(params.skip(1) =~= Seq::<Seq<u16>>::empty());
    let after = with_color(attrs, first[0], asked_color(first.skip(1)));
    assert(with_params(after, params.skip(1)) == after);
}

/// Numbers are written in decimal notation, the first digit first, without
/// leading zeros.
pub proof fn numbers_are_written_in_tens(n: int, digit: int)
    requires
        n >= 0,
        0 <= digit < 10,
    ensures
        decimal(digit) == seq![(('0' as u32) + digit) as char],
        n > 0 ==> decimal(n * 10 + digit) == decimal(n).push((('0' as u32) + digit) as char),
{
    assert(decimal(digit) =~= seq![(('0' as u32) + digit) as char]);
    if n > 0 {
        assert((n * 10 + digit) / 10 == n);
        assert((n * 10 + digit) % 10 == digit);
        assert(decimal(n * 10 + digit) =~= decimal(n).push((('0' as u32) + digit) as char));
    }
}

/// The numbers of two stretches are written with one semicolon between them.
pub proof fn numbers_are_joined_in_order(first: Seq<u16>, second: Seq<u16>)
    requires
        first.len() > 0,
        second.len() > 0,
    ensures
        joined(seq![first[0]]) == decimal(first[0] as int),
        joined(first + second) == joined(first) + seq![';'] + joined(second),
    decreases second.len(),
{
    reveal_strlit(";");
    assert(";"@ =~= seq![';']);
    let all = first + second;
    let front = second.drop_last();
    assert(all.drop_last() =~= first + front);
    assert(all.last() == second.last());
    if second.len() == 1 {
        assert(first + front =~= first);
    } else {
        numbers_are_joined_in_order(first, front);
        assert(joined(all) =~= joined(first) + seq![';'] + joined(second));
    }
}

/// Characters of the Latin, Greek and Cyrillic scripts, and others before the
/// Hangul, take one column, but for the combining marks; those take none.
pub proof fn western_characters_take_one_column(c: char)
    requires
        (c as u32) < 0x1100,
    ensures
        !is_wide(c),
        is_mark(c) <==> 0x300 <= c as u32 <= 0x36f,
{
}

/// Hangul, kana, Han characters, full width forms and emoji take two columns.
pub proof fn eastern_characters_take_two_columns(c: char)
    requires
        ({
            let n = c as u32;
            ||| 0x1100 <= n <= 0x115f
            ||| 0x3041 <= n <= 0x3098
            ||| 0x309b <= n <= 0x33ff
            ||| 0x3400 <= n <= 0x4dbf
            ||| 0x4e00 <= n <= 0x9fff
            ||| 0xac00 <= n <= 0xd7a3
            ||| 0xf900 <= n <= 0xfaff
            ||| 0xff01 <= n <= 0xff60
            ||| 0xffe0 <= n <= 0xffe6
            ||| 0x1f300 <= n <= 0x1f64f
            ||| 0x1f900 <= n <= 0x1f9ff
            ||| 0x20000 <= n <= 0x2fffd
        }),
    ensures
        is_wide(c),
        !is_mark(c),
{
}

} // verus!
