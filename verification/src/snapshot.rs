//! The screen and its history, written down for clients.
use vstd::prelude::*;

use crate::grid::{max, min, row_views, Cell};
use crate::modes::when_on;
use crate::render::{
    plain_line, plain_row, push_styled_row, render_buffer, rendered, restore_cursor_state,
    restored, styled_row,
};
use crate::screen::{ScreenView, VirtualScreen};
use crate::text::{decimal, lemma_append, push_decimal, push_when};

verus! {

/// Rows of the history, each with its looks and the end of its line.
pub open spec fn styled_lines(rows: Seq<Seq<Cell>>) -> Seq<char>
    decreases rows.len(),
{
    if rows.len() == 0 {
        Seq::empty()
    } else {
        styled_lines(rows.drop_last()) + styled_row(rows.last()) + "\r\n"@
    }
}

/// The history in pieces of `lines` rows; the last may be shorter.
pub open spec fn styled_chunks(rows: Seq<Seq<Cell>>, lines: int) -> Seq<Seq<char>>
    decreases rows.len(),
{
    if rows.len() == 0 || lines <= 0 {
        Seq::empty()
    } else if rows.len() <= lines {
        seq![styled_lines(rows)]
    } else {
        seq![styled_lines(rows.take(lines))] + styled_chunks(rows.skip(lines), lines)
    }
}

/// The history in pieces of `chunk_lines` rows, or of one row where that is 0.
pub open spec fn history_chunks(rows: Seq<Seq<Cell>>, chunk_lines: usize) -> Seq<Seq<char>> {
    styled_chunks(rows, max(1, chunk_lines as int))
}

/// Rows as plain text, with a newline between two.
pub open spec fn plain_lines(rows: Seq<Seq<Cell>>) -> Seq<char>
    decreases rows.len(),
{
    if rows.len() == 0 {
        Seq::empty()
    } else if rows.len() == 1 {
        plain_row(rows[0])
    } else {
        plain_lines(rows.drop_last()) + "\n"@ + plain_row(rows.last())
    }
}

/// The last `max_lines` rows of a history as plain text, or all of them.
pub open spec fn history_lines(
    rows: Seq<Seq<Cell>>,
    max_lines: Option<usize>,
) -> Seq<Seq<char>> {
    let skip = match max_lines {
        Some(most) => max(0, rows.len() - most),
        None => 0,
    };
    Seq::new((rows.len() - skip) as nat, |i: int| plain_row(rows[skip + i]))
}

/// As many newlines as `n` says.
pub open spec fn newlines(n: int) -> Seq<char> {
    Seq::new(n as nat, |i: int| '\n')
}

/// The characters of some strings.
pub open spec fn string_views(strings: Seq<String>) -> Seq<Seq<char>> {
    Seq::new(strings.len(), |i: int| strings[i]@)
}

impl ScreenView {
    /// How many replayed rows of the history are still in view of a client,
    /// which has its cursor in the line below them.
    pub open spec fn rows_in_view(self) -> int {
        min(self.scrollback.len() as int, self.rows - 1)
    }

    /// The sequences that scroll the replayed history out of view.
    pub open spec fn scroll_out(self) -> Seq<char> {
        if self.rows_in_view() > 0 {
            "\x1b["@ + decimal(self.rows) + ";1H"@ + newlines(self.rows_in_view())
        } else {
            Seq::empty()
        }
    }

    /// The sequences that redraw the screen that is shown.
    pub open spec fn snapshot(self) -> Seq<char> {
        "\x1b[?25l"@ + "\x1b[0m"@ + when_on(self.using_alternate, "\x1b[?1049h"@) + rendered(
            self.active(),
        ) + self.private_modes.replay() + restored(self.active().cursor) + "\x1b[?25h"@
    }

    /// The sequences that redraw both screens in a client that was reset and
    /// has just been sent the history.
    pub open spec fn replay_snapshot(self) -> Seq<char> {
        let primary = "\x1b[?25l"@ + self.scroll_out() + "\x1b[0m"@ + rendered(self.primary);
        if self.using_alternate {
            primary + restored(self.primary.cursor) + "\x1b[?1049h"@ + "\x1b[0m"@ + rendered(
                self.alternate,
            ) + self.private_modes.replay() + restored(self.alternate.cursor) + "\x1b[?25h"@
        } else {
            primary + self.private_modes.replay() + restored(self.primary.cursor) + "\x1b[?25h"@
        }
    }
}

/// Appends `n` newlines.
fn push_newlines(out: &mut String, n: usize)
    ensures
        final(out)@ == old(out)@ + newlines(n as int),
{
    let ghost start = out@;
    let mut i: usize = 0;
    assert(start + newlines(0) =~= start);
    while i < n
        invariant
            i <= n,
            out@ == start + newlines(i as int),
        decreases n - i,
    {
        out.push('\n');
        i += 1;
        assert(out@ =~= start + newlines(i as int));
    }
}

impl VirtualScreen {
    /// The history with its looks, in pieces of `chunk_lines` rows. It is the
    /// history of the primary screen, and is there whichever screen is shown.
    pub fn snapshot_scrollback_chunks(&self, chunk_lines: usize) -> (chunks: Vec<String>)
        requires
            self.wf(),
        ensures
            string_views(chunks@) == styled_chunks(
                self@.scrollback,
                max(1, chunk_lines as int),
            ),
            string_views(chunks@) == history_chunks(self@.scrollback, chunk_lines),
    {
        let ghost rows = self@.scrollback;
        let ghost lines = max(1, chunk_lines as int);
        let ghost all = styled_chunks(rows, lines);
        let mut chunks: Vec<String> = Vec::new();
        let mut current = String::new();
        let mut lines_in_chunk: usize = 0;
        let mut i: usize = 0;
        proof {
            assert(rows.skip(0) =~= rows);
            assert(rows.subrange(0, 0) =~= Seq::<Seq<Cell>>::empty());
            assert(string_views(chunks@) + all =~= all);
        }
        while i < self.scrollback.len()
            invariant
                self.wf(),
                rows == row_views(self.scrollback@),
                lines == max(1, chunk_lines as int),
                all == styled_chunks(rows, lines),
                i <= self.scrollback.len(),
                lines_in_chunk <= i,
                lines_in_chunk < lines,
                current@ == styled_lines(rows.subrange(i - lines_in_chunk, i as int)),
                string_views(chunks@) + styled_chunks(rows.skip(i - lines_in_chunk), lines) == all,
            decreases self.scrollback.len() - i,
        {
            let ghost start = i - lines_in_chunk;
            let ghost before = current@;
            let row = &self.scrollback[i];
            proof {
                assert(rows[i as int] == row@);
                assert forall|j: int| 0 <= j < row@.len() implies (#[trigger] row@[j]).wf() by {
                    assert(self@.scrollback[i as int][j].wf());
                }
            }
            push_styled_row(row, &mut current);
            current.push_str("\r\n");
            proof {
                let next = rows.subrange(start, i + 1);
                assert(next.drop_last() =~= rows.subrange(start, i as int));
                assert(next.last() == row@);
                assert(current@ == styled_lines(next));
            }
            i += 1;
            lines_in_chunk += 1;
            if lines_in_chunk >= chunk_lines {
                proof {
                    let rest = rows.skip(start);
                    assert(lines_in_chunk == lines);
                    assert(rest.take(lines) =~= rows.subrange(start, i as int));
                    assert(rest.skip(lines) =~= rows.skip(i as int));
                    if rest.len() <= lines {
                        assert(rest =~= rest.take(lines));
                        assert(styled_chunks(rest.skip(lines), lines) =~= Seq::<
                            Seq<char>,
                        >::empty());
                        assert(styled_chunks(rest, lines) =~= seq![styled_lines(rest.take(lines))]
                            + styled_chunks(rest.skip(lines), lines));
                    }
                }
                let ghost done = string_views(chunks@);
                let ghost text = current@;
                let mut chunk = String::new();
                std::mem::swap(&mut chunk, &mut current);
                chunks.push(chunk);
                lines_in_chunk = 0;
                proof {
                    assert(string_views(chunks@) =~= done + seq![text]);
                    lemma_append(done, seq![text], styled_chunks(rows.skip(i as int), lines));
                    assert(rows.subrange(i as int, i as int) =~= Seq::<Seq<Cell>>::empty());
                }
            }
        }
        let ghost start = i - lines_in_chunk;
        let ghost done = string_views(chunks@);
        proof {
            assert(rows.skip(start) =~= rows.subrange(start, i as int));
            if lines_in_chunk > 0 {
                reveal_strlit("\r\n");
                assert(current@.len() > 0);
            } else {
                assert(rows.skip(start) =~= Seq::<Seq<Cell>>::empty());
                assert(done + styled_chunks(rows.skip(start), lines) =~= done);
            }
        }
        if !current.as_str().is_empty() {
            let ghost text = current@;
            chunks.push(current);
            assert(string_views(chunks@) =~= done + seq![text]);
        }
        chunks
    }

    /// The sequences that redraw the screen that is shown.
    pub fn snapshot(&self) -> (out: String)
        requires
            self.wf(),
        ensures
            out@ == self@.snapshot(),
    {
        let buf = if self.using_alternate {
            &self.alternate
        } else {
            &self.primary
        };
        let mut out = String::new();
        out.push_str("\x1b[?25l");
        assert(out@ =~= "\x1b[?25l"@);
        out.push_str("\x1b[0m");
        push_when(&mut out, self.using_alternate, "\x1b[?1049h");
        render_buffer(buf, &mut out);
        self.private_modes.write_replay(&mut out);
        restore_cursor_state(buf, &mut out);
        out.push_str("\x1b[?25h");
        out
    }

    /// The sequences that redraw both screens in a client that was reset and
    /// has just been sent the history. The end of that history is scrolled out
    /// of view first, or it would be drawn over. Where the alternate screen is
    /// shown, the primary one is drawn before it, to be there when it is left.
    pub fn snapshot_for_replay(&self) -> (out: String)
        requires
            self.wf(),
        ensures
            out@ == self@.replay_snapshot(),
    {
        let mut out = String::new();
        out.push_str("\x1b[?25l");
        assert(out@ =~= "\x1b[?25l"@);
        let ghost start = out@;
        let pending = if self.scrollback.len() < self.rows - 1 {
            self.scrollback.len()
        } else {
            self.rows - 1
        };
        if pending > 0 {
            out.push_str("\x1b[");
            push_decimal(&mut out, self.rows as u128);
            out.push_str(";1H");
            push_newlines(&mut out, pending);
            proof {
                let a = "\x1b["@;
                let b = decimal(self.rows as int);
                let c = ";1H"@;
                lemma_append(start, a, b);
                lemma_append(start, a + b, c);
                lemma_append(start, a + b + c, newlines(pending as int));
            }
        } else {
            assert(start + self@.scroll_out() =~= start);
        }
        out.push_str("\x1b[0m");
        render_buffer(&self.primary, &mut out);
        if self.using_alternate {
            restore_cursor_state(&self.primary, &mut out);
            out.push_str("\x1b[?1049h");
            out.push_str("\x1b[0m");
            render_buffer(&self.alternate, &mut out);
            self.private_modes.write_replay(&mut out);
            restore_cursor_state(&self.alternate, &mut out);
        } else {
            self.private_modes.write_replay(&mut out);
            restore_cursor_state(&self.primary, &mut out);
        }
        out.push_str("\x1b[?25h");
        out
    }

    /// The screen that is shown, as plain text.
    pub fn snapshot_plain(&self) -> (text: String)
        requires
            self.wf(),
        ensures
            text@ == plain_lines(self@.active().cells),
    {
        let buf = if self.using_alternate {
            &self.alternate
        } else {
            &self.primary
        };
        let ghost rows = buf@.cells;
        let mut text = String::new();
        let mut i: usize = 0;
        assert(rows.take(0) =~= Seq::<Seq<Cell>>::empty());
        while i < buf.cells.len()
            invariant
                i <= buf.cells.len(),
                rows == row_views(buf.cells@),
                text@ == plain_lines(rows.take(i as int)),
            decreases buf.cells.len() - i,
        {
            let ghost before = text@;
            if i > 0 {
                text.push_str("\n");
            }
            text.push_str(plain_line(&buf.cells[i]).as_str());
            proof {
                let next = rows.take(i + 1);
                assert(next.drop_last() =~= rows.take(i as int));
                assert(next.last() == rows[i as int]);
                if i == 0 {
                    assert(before =~= Seq::<char>::empty());
                    assert(text@ =~= plain_row(rows[0]));
                }
            }
            i += 1;
        }
        assert(rows.take(i as int) =~= rows);
        text
    }

    /// The last `max_lines` rows of the history as plain text, or all of them.
    pub fn snapshot_scrollback_plain(&self, max_lines: Option<usize>) -> (lines: Vec<String>)
        requires
            self.wf(),
        ensures
            ({
                let rows = self@.scrollback;
                let skip = match max_lines {
                    Some(most) => max(0, rows.len() - most),
                    None => 0,
                };
                string_views(lines@) == Seq::new(
                    (rows.len() - skip) as nat,
                    |i: int| plain_row(rows[skip + i]),
                )
            }),
            string_views(lines@) == history_lines(self@.scrollback, max_lines),
    {
        let skip: usize = match max_lines {
            Some(most) => self.scrollback.len().saturating_sub(most),
            None => 0,
        };
        let ghost rows = self@.scrollback;
        let mut lines: Vec<String> = Vec::new();
        let mut i: usize = skip;
        while i < self.scrollback.len()
            invariant
                skip <= i <= self.scrollback.len(),
                rows == row_views(self.scrollback@),
                lines.len() == i - skip,
                forall|k: int|
                    0 <= k < lines.len() ==> (#[trigger] lines@[k])@ == plain_row(rows[skip + k]),
            decreases self.scrollback.len() - i,
        {
            lines.push(plain_line(&self.scrollback[i]));
            i += 1;
        }
        assert(string_views(lines@) =~= Seq::new(
            (rows.len() - skip) as nat,
            |i: int| plain_row(rows[skip + i]),
        ));
        lines
    }
}

} // verus!
