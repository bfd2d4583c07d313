//! What holds of screens and commands over more than one call.
use std::time::Instant;
use tokio::sync::oneshot::Sender;
use vstd::prelude::*;
use vstd::utf8::*;

use crate::capture::{
    leading_chars, CaptureView, CommandResult, CommandState, OUTPUT_LIMIT,
};
use crate::grid::{
    blank_at_bottom, blank_row, fit_row, history_append, is_blank_row, min, Cell, GridView,
    SCROLLBACK_LIMIT,
};
use crate::modes::{when_on, MouseEncoding, MouseProtocol, PrivateModes};
use crate::osc::{exit_status, is_digit, is_number, number};
use crate::parser::{vte_actions, ActionView};
use crate::render::styled_row;
use crate::screen::{PendingView, ScreenView};
use crate::snapshot::{styled_chunks, styled_lines};
use crate::text::{decimal, lemma_append, line_start};

verus! {

/// How output is cut into pieces makes no difference.
pub proof fn fed_in_pieces(screen: ScreenView, first: Seq<u8>, second: Seq<u8>)
    ensures
        screen.fed(first + second) == screen.fed(first).fed(second),
    decreases second.len(),
{
    if second.len() == 0 {
        assert(first + second =~= first);
    } else {
        fed_in_pieces(screen, first, second.drop_last());
        assert((first + second).drop_last() =~= first + second.drop_last());
        assert((first + second).last() == second.last());
    }
}

/// What may become of a running command while output comes in: it keeps its
/// start and its caller, or it ends, once, with a result for that caller.
pub open spec fn same_command(before: ScreenView, after: ScreenView) -> bool {
    let command = before.pending->0;
    ||| {
        &&& after.results == before.results
        &&& after.pending is Some
        &&& after.pending->0.start_time == command.start_time
        &&& after.pending->0.waiter == command.waiter
    }
    ||| {
        &&& after.pending is None
        &&& after.results.len() == before.results.len() + 1
        &&& after.results.drop_last() == before.results
        &&& after.results.last().waiter == command.waiter
    }
}

/// Output starts no command, and what it ends is the command that runs.
pub open spec fn no_other_command(before: ScreenView, after: ScreenView) -> bool {
    if before.pending is Some {
        same_command(before, after)
    } else {
        after.pending is None && after.results == before.results
    }
}

/// A control character ends no command.
proof fn lemma_executed_command(screen: ScreenView, byte: u8)
    ensures
        no_other_command(screen, screen.executed(byte)),
{
}

/// An escape sequence ends no command.
proof fn lemma_escaped_command(screen: ScreenView, byte: u8)
    ensures
        no_other_command(screen, screen.escaped(byte)),
{
}

/// A control sequence ends no command.
proof fn lemma_controlled_command(
    screen: ScreenView,
    params: Seq<Seq<u16>>,
    intermediates: Seq<u8>,
    action: char,
)
    ensures
        no_other_command(screen, screen.controlled(params, intermediates, action)),
{
    lemma_modes_command(screen, params, true);
    lemma_modes_command(screen, params, false);
}

/// An operating system command ends at most the command that runs.
proof fn lemma_commanded_command(screen: ScreenView, fields: Seq<Seq<u8>>)
    ensures
        no_other_command(screen, screen.commanded(fields)),
{
    let after = screen.commanded(fields);
    if after.results.len() > screen.results.len() {
        assert(after.results.drop_last() =~= screen.results);
    }
}

/// One action starts no command, and ends at most the one that runs.
proof fn lemma_action_command(screen: ScreenView, action: ActionView)
    ensures
        no_other_command(screen, screen.performed(action)),
{
    match action {
        ActionView::Print(c) => {},
        ActionView::Execute(byte) => lemma_executed_command(screen, byte),
        ActionView::Csi { params, intermediates, ignore, action } => {
            lemma_controlled_command(screen, params, intermediates, action);
        },
        ActionView::Esc { intermediates, ignore, byte } => lemma_escaped_command(screen, byte),
        ActionView::Osc { fields, bell_terminated } => lemma_commanded_command(screen, fields),
    }
}

/// Private modes concern no command.
proof fn lemma_modes_command(screen: ScreenView, params: Seq<Seq<u16>>, on: bool)
    ensures
        screen.with_modes(params, on).pending == screen.pending,
        screen.with_modes(params, on).results == screen.results,
        screen.with_modes(params, on).command_state == screen.command_state,
    decreases params.len(),
{
    if params.len() > 0 {
        lemma_modes_command(screen, params.drop_last(), on);
    }
}

/// Actions start no command, and end at most the one that runs.
proof fn lemma_actions_command(screen: ScreenView, actions: Seq<ActionView>)
    ensures
        no_other_command(screen, screen.performed_all(actions)),
    decreases actions.len(),
{
    if actions.len() > 0 {
        lemma_actions_command(screen, actions.drop_last());
        lemma_action_command(screen.performed_all(actions.drop_last()), actions.last());
    }
}

/// Whether a command that runs later is the one that ran before.
pub open spec fn same_start(before: Option<PendingView>, after: Option<PendingView>) -> bool {
    after matches Some(command) ==> before is Some && command.start_time == before->0.start_time
}

/// After some actions no other command runs.
pub(crate) proof fn lemma_actions_start(screen: ScreenView, actions: Seq<ActionView>)
    ensures
        same_start(screen.pending, screen.performed_all(actions).pending),
{
    lemma_actions_command(screen, actions);
}

/// After some output no other command runs.
pub(crate) proof fn lemma_output_start(screen: ScreenView, data: Seq<u8>)
    ensures
        same_start(screen.pending, screen.fed(data).pending),
{
    lemma_output_command(screen, data);
}

/// A command keeps its pane until it ends: whatever output comes, the pane is
/// still held for the caller that sent the command, from the same start, or
/// there is exactly one more result, and it is for that caller.
pub proof fn output_ends_a_command_once(screen: ScreenView, data: Seq<u8>)
    requires
        screen.pending is Some,
    ensures
        same_command(screen, screen.fed(data)),
{
    lemma_output_command(screen, data);
}

/// Without a running command, no output makes a result, not even the mark of
/// an end.
pub proof fn output_alone_makes_no_result(screen: ScreenView, data: Seq<u8>)
    requires
        screen.pending is None,
    ensures
        screen.fed(data).pending is None,
        screen.fed(data).results == screen.results,
{
    lemma_output_command(screen, data);
}

/// Output starts no command, and ends at most the one that runs.
proof fn lemma_output_command(screen: ScreenView, data: Seq<u8>)
    ensures
        no_other_command(screen, screen.fed(data)),
    decreases data.len(),
{
    if data.len() > 0 {
        let before = screen.fed(data.drop_last());
        lemma_output_command(screen, data.drop_last());
        let parsed = ScreenView { input: before.input.push(data.last()), ..before };
        lemma_actions_command(parsed, vte_actions(before.input, data.last()));
    }
}

/// Text is collected only for a command that runs.
pub open spec fn collects_for_a_command(screen: ScreenView) -> bool {
    screen.command_state != CommandState::Idle ==> screen.pending is Some
}

/// One action collects text for no command but one that runs.
proof fn lemma_action_state(screen: ScreenView, action: ActionView)
    requires
        collects_for_a_command(screen),
    ensures
        collects_for_a_command(screen.performed(action)),
{
    match action {
        ActionView::Csi { params, intermediates, ignore, action } => {
            lemma_modes_command(screen, params, true);
            lemma_modes_command(screen, params, false);
        },
        ActionView::Esc { intermediates, ignore, byte } => {
            assert(screen.escaped(byte).pending == screen.pending);
        },
        _ => {},
    }
}

/// Actions collect text for no command but one that runs.
proof fn lemma_actions_state(screen: ScreenView, actions: Seq<ActionView>)
    requires
        collects_for_a_command(screen),
    ensures
        collects_for_a_command(screen.performed_all(actions)),
    decreases actions.len(),
{
    if actions.len() > 0 {
        lemma_actions_state(screen, actions.drop_last());
        lemma_action_state(screen.performed_all(actions.drop_last()), actions.last());
    }
}

/// On a fresh screen and ever after, text is collected only for a command that
/// runs: output keeps it so, and so do a command that is sent, one that is
/// given up, and one that a prompt ends.
pub proof fn text_needs_a_command(
    screen: ScreenView,
    data: Seq<u8>,
    start_time: Instant,
    waiter: Option<Sender<CommandResult>>,
    cols: int,
    rows: int,
)
    requires
        collects_for_a_command(screen),
    ensures
        collects_for_a_command(ScreenView::fresh(cols, rows)),
        collects_for_a_command(screen.fed(data)),
        collects_for_a_command(screen.tracking(start_time, waiter)),
        collects_for_a_command(screen.abandoned()),
        collects_for_a_command(screen.ended_by_prompt()),
        collects_for_a_command(screen.resized(cols, rows)),
    decreases data.len(),
{
    if data.len() > 0 {
        let before = screen.fed(data.drop_last());
        text_needs_a_command(screen, data.drop_last(), start_time, waiter, cols, rows);
        let parsed = ScreenView { input: before.input.push(data.last()), ..before };
        lemma_actions_state(parsed, vte_actions(before.input, data.last()));
    }
}

/// A pane is free once its command has ended or was given up.
pub proof fn ended_command_frees_the_pane(
    screen: ScreenView,
    exit_code: int,
    method: Seq<char>,
    stdout: Seq<char>,
)
    ensures
        screen.completed(exit_code, method, stdout).pending is None,
        screen.ended_by_prompt().pending is None,
        screen.abandoned().pending is None,
        screen.abandoned().results == screen.results,
{
}

/// Only marks of the shell say that it sends marks. No caller can, by sending
/// a command, giving it up, looking for a prompt or resizing the screen.
pub proof fn callers_claim_no_integration(
    screen: ScreenView,
    start_time: Instant,
    waiter: Option<Sender<CommandResult>>,
    cols: int,
    rows: int,
)
    ensures
        screen.tracking(start_time, waiter).shell_integration == screen.shell_integration,
        screen.abandoned().shell_integration == screen.shell_integration,
        screen.ended_by_prompt().shell_integration == screen.shell_integration,
        screen.resized(cols, rows).shell_integration == screen.shell_integration,
{
}

/// A prompt never ends a command whose shell sends marks, nor one that has
/// printed nothing yet.
pub proof fn prompts_need_output_and_no_marks(
    screen: ScreenView,
    start_time: Instant,
    waiter: Option<Sender<CommandResult>>,
)
    ensures
        screen.shell_integration ==> !screen.awaits_prompt(),
        !screen.tracking(start_time, waiter).awaits_prompt(),
{
    assert(CaptureView::nothing().text() =~= Seq::<char>::empty());
}

/// The mark that a command starts to run drops what was collected before, the
/// echo of the command line, and keeps the caller and the start.
pub proof fn execution_mark_drops_echo(screen: ScreenView, status: Seq<u8>)
    requires
        screen.pending is Some,
    ensures
        screen.marked(encode_utf8("C"@), status) == (ScreenView {
            command_state: CommandState::Executing,
            pending: Some(
                PendingView { capture: CaptureView::nothing(), ..screen.pending->0 },
            ),
            shell_integration: true,
            ..screen
        }),
{
    reveal_strlit("A");
    reveal_strlit("C");
    encode_utf8_decode_utf8("A"@);
    encode_utf8_decode_utf8("C"@);
    assert("A"@[0] != "C"@[0]);
}

/// The line of the prompt is no part of the text of a command that a prompt
/// has ended, unless the prompt was marked: the text is empty or ends with its
/// last newline.
pub proof fn prompt_line_is_no_output(screen: ScreenView)
    requires
        screen.pending is Some,
        screen.command_state != CommandState::Idle,
    ensures
        ({
            let stdout = screen.ended_by_prompt().results.last().stdout;
            stdout.len() == 0 || stdout.last() == '\n'
        }),
{
    let capture = screen.pending->0.capture;
    lemma_line_end(capture.text());
    assert(capture.without_line().text() =~= capture.text().take(line_start(capture.text())));
}

/// A line starts at the start of the text or behind a newline.
proof fn lemma_line_end(text: Seq<char>)
    ensures
        0 <= line_start(text) <= text.len(),
        line_start(text) > 0 ==> text[line_start(text) - 1] == '\n',
    decreases text.len(),
{
    if text.len() > 0 && text.last() != '\n' {
        lemma_line_end(text.drop_last());
    }
}

/// Moving the place of the next character back keeps the text.
pub proof fn stepping_back_keeps_text(capture: CaptureView)
    ensures
        capture.stepped_back().text() == capture.text(),
{
    assert(capture.stepped_back().text() =~= capture.text());
}

/// A carriage return keeps the text, but for a last line of nothing but
/// spaces.
pub proof fn returning_keeps_text(capture: CaptureView)
    ensures
        capture.returned().text() == capture.text() || capture.returned().text()
            == capture.without_line().text(),
{
    let text = capture.text();
    lemma_line_end(text);
    let start = line_start(text);
    assert(text.take(start) + text.skip(start) =~= text);
    assert(text.take(start) + Seq::<char>::empty() =~= text.take(start));
}

/// What the alternate screen shows leaves the primary screen and the history
/// alone.
pub proof fn alternate_output_keeps_primary(screen: ScreenView, actions: Seq<ActionView>)
    requires
        screen.using_alternate,
    ensures
        screen.performed_all(actions).using_alternate,
        screen.performed_all(actions).primary == screen.primary,
        screen.performed_all(actions).scrollback == screen.scrollback,
    decreases actions.len(),
{
    if actions.len() > 0 {
        let before = screen.performed_all(actions.drop_last());
        alternate_output_keeps_primary(screen, actions.drop_last());
        match actions.last() {
            ActionView::Csi { params, intermediates, ignore, action } => {
                lemma_modes_grids(before, params, true);
                lemma_modes_grids(before, params, false);
            },
            _ => {},
        }
    }
}

/// Private modes change no grid at once.
proof fn lemma_modes_grids(screen: ScreenView, params: Seq<Seq<u16>>, on: bool)
    ensures
        screen.with_modes(params, on).using_alternate == screen.using_alternate,
        screen.with_modes(params, on).primary == screen.primary,
        screen.with_modes(params, on).scrollback == screen.scrollback,
    decreases params.len(),
{
    if params.len() > 0 {
        lemma_modes_grids(screen, params.drop_last(), on);
    }
}

/// Leaving the alternate screen brings the primary one back as it was when the
/// alternate one was entered, whatever was shown there; the cursor too, if it
/// was not saved anew in the meantime.
pub proof fn alternate_round_trip(screen: ScreenView, actions: Seq<ActionView>)
    requires
        !screen.using_alternate,
    ensures
        ({
            let entered = ScreenView { pending_switch: Some(true), ..screen }.settled();
            let shown = entered.performed_all(actions);
            let left = ScreenView { pending_switch: Some(false), ..shown }.settled();
            &&& entered.using_alternate
            &&& entered.alternate == GridView::empty(screen.cols, screen.rows)
            &&& !left.using_alternate
            &&& left.primary.cells == screen.primary.cells
            &&& left.scrollback == screen.scrollback
            &&& shown.saved_cursor == entered.saved_cursor ==> left.primary == screen.primary
        }),
{
    let entered = ScreenView { pending_switch: Some(true), ..screen }.settled();
    alternate_output_keeps_primary(entered, actions);
}

/// A resized grid has its cursor inside.
pub proof fn resizing_keeps_cursor_inside(grid: GridView, cols: int, rows: int)
    requires
        grid.cursor.row >= 0,
        grid.cursor.col >= 0,
        cols > 0,
        rows > 0,
    ensures
        0 <= grid.resized(cols, rows).cursor.row < rows,
        0 <= grid.resized(cols, rows).cursor.col < cols,
{
}

/// A grid that gets fewer rows loses only blank rows below its cursor: the
/// rows that leave at the top and those that stay are all the others, in their
/// order.
pub proof fn shrinking_keeps_content(grid: GridView, rows: int)
    requires
        grid.wf(),
        grid.cursor.row >= 0,
        0 < rows <= grid.rows,
    ensures
        ({
            let kept = grid.rows - grid.dropped_rows(rows);
            &&& grid.cells.take(grid.shifted_rows(rows)) + grid.resized(grid.cols, rows).cells
                == grid.cells.take(kept)
            &&& forall|i: int|
                kept <= i < grid.rows ==> is_blank_row(#[trigger] grid.cells[i])
            &&& grid.dropped_rows(rows) > 0 ==> grid.cursor.row < kept
        }),
{
    let shifted = grid.shifted_rows(rows);
    let kept = grid.rows - grid.dropped_rows(rows);
    let resized = grid.resized(grid.cols, rows);
    lemma_blank_rows(grid.cells);
    assert forall|i: int| 0 <= i < rows implies #[trigger] resized.cells[i] == grid.cells[shifted
        + i] by {
        assert(grid.cells[shifted + i].len() == grid.cols);
        assert(fit_row(grid.cells[shifted + i], grid.cols) =~= grid.cells[shifted + i]);
    }
    assert(grid.cells.take(shifted) + resized.cells =~= grid.cells.take(kept));
}

/// The rows that are counted as blank are blank.
proof fn lemma_blank_rows(rows: Seq<Seq<Cell>>)
    ensures
        blank_at_bottom(rows) <= rows.len(),
        forall|i: int|
            rows.len() - blank_at_bottom(rows) <= i < rows.len()
                ==> is_blank_row(#[trigger] rows[i]),
    decreases rows.len(),
{
    if rows.len() > 0 && is_blank_row(rows.last()) {
        lemma_blank_rows(rows.drop_last());
        assert forall|i: int|
            rows.len() - blank_at_bottom(rows) <= i
                < rows.len() implies is_blank_row(#[trigger] rows[i]) by {
            if i < rows.len() - 1 {
                assert(rows[i] == rows.drop_last()[i]);
            }
        }
    }
}

/// Scrolling moves the lines of the part that scrolls by one row, and no
/// other: up, an empty line comes in at the bottom; down, at the top.
pub proof fn scrolling_moves_one_part(grid: GridView, row: int)
    requires
        grid.wf(),
        0 <= row < grid.rows,
    ensures
        grid.scrolled_up().cells.len() == grid.rows,
        grid.scrolled_down().cells.len() == grid.rows,
        !(grid.scroll_top <= row <= grid.scroll_bottom) ==> {
            &&& grid.scrolled_up().cells[row] == grid.cells[row]
            &&& grid.scrolled_down().cells[row] == grid.cells[row]
        },
        grid.scroll_top <= row < grid.scroll_bottom ==> {
            &&& grid.scrolled_up().cells[row] == grid.cells[row + 1]
            &&& grid.scrolled_down().cells[row + 1] == grid.cells[row]
        },
        grid.scrolled_up().cells[grid.scroll_bottom] == blank_row(grid.cols),
        grid.scrolled_down().cells[grid.scroll_top] == blank_row(grid.cols),
{
}

/// Text pieces written one after the other.
pub open spec fn concatenated(pieces: Seq<Seq<char>>) -> Seq<char>
    decreases pieces.len(),
{
    if pieces.len() == 0 {
        Seq::empty()
    } else {
        pieces[0] + concatenated(pieces.skip(1))
    }
}

/// The pieces of a history together are the history, whatever their size.
pub proof fn chunks_hold_the_history(rows: Seq<Seq<Cell>>, lines: int)
    requires
        lines > 0,
    ensures
        concatenated(styled_chunks(rows, lines)) == styled_lines(rows),
    decreases rows.len(),
{
    let chunks = styled_chunks(rows, lines);
    if rows.len() == 0 {
    } else if rows.len() <= lines {
        assert(chunks.skip(1) =~= Seq::<Seq<char>>::empty());
        assert(concatenated(chunks.skip(1)) =~= Seq::<char>::empty());
        assert(concatenated(chunks) =~= styled_lines(rows));
    } else {
        chunks_hold_the_history(rows.skip(lines), lines);
        assert(chunks.skip(1) =~= styled_chunks(rows.skip(lines), lines));
        assert(chunks[0] == styled_lines(rows.take(lines)));
        lemma_lines_concat(rows.take(lines), rows.skip(lines));
        assert(rows.take(lines) + rows.skip(lines) =~= rows);
    }
}

/// Lines of two stretches of rows, one after the other.
proof fn lemma_lines_concat(a: Seq<Seq<Cell>>, b: Seq<Seq<Cell>>)
    ensures
        styled_lines(a + b) == styled_lines(a) + styled_lines(b),
    decreases b.len(),
{
    if b.len() == 0 {
        assert(a + b =~= a);
        assert(styled_lines(a) + styled_lines(b) =~= styled_lines(a));
    } else {
        lemma_lines_concat(a, b.drop_last());
        assert((a + b).drop_last() =~= a + b.drop_last());
        assert((a + b).last() == b.last());
        let start = styled_lines(a);
        let middle = styled_lines(b.drop_last());
        let row = styled_row(b.last());
        lemma_append(start, middle, row);
        lemma_append(start, middle + row, "\r\n"@);
    }
}

/// Focus events are not replayed.
pub proof fn focus_is_not_replayed(modes: PrivateModes, focus_event: bool)
    ensures
        (PrivateModes { focus_event, ..modes }).replay() == modes.replay(),
{
}

/// The mark of an end and the mark of a prompt may come in either order.
pub proof fn end_and_prompt_in_any_order(screen: ScreenView, status: Seq<u8>)
    ensures
        ({
            let end = encode_utf8("D"@);
            let prompt = encode_utf8("A"@);
            let none = Seq::<u8>::empty();
            screen.marked(end, status).marked(prompt, none) == screen.marked(prompt, none).marked(
                end,
                status,
            )
        }),
{
    reveal_strlit("A");
    reveal_strlit("C");
    reveal_strlit("D");
    encode_utf8_decode_utf8("A"@);
    encode_utf8_decode_utf8("C"@);
    encode_utf8_decode_utf8("D"@);
    assert("A"@[0] != "D"@[0]);
    assert("C"@[0] != "D"@[0]);
}

/// The mark of an end gives the command the status that it names, and the
/// text that was collected.
pub proof fn end_mark_completes(screen: ScreenView, status: Seq<u8>)
    requires
        screen.pending is Some,
    ensures
        screen.marked(encode_utf8("D"@), status) == (ScreenView {
            shell_integration: true,
            ..screen.completed(
                exit_status(status),
                "shell_integration"@,
                screen.pending->0.capture.text(),
            )
        }),
{
    reveal_strlit("A");
    reveal_strlit("C");
    reveal_strlit("D");
    encode_utf8_decode_utf8("A"@);
    encode_utf8_decode_utf8("C"@);
    encode_utf8_decode_utf8("D"@);
    assert("A"@[0] != "D"@[0]);
    assert("C"@[0] != "D"@[0]);
}

/// A number in decimal notation, as bytes.
pub open spec fn decimal_bytes(n: int) -> Seq<u8> {
    Seq::new(decimal(n).len(), |i: int| decimal(n)[i] as u8)
}

/// A status that is written in decimal notation is read back.
pub proof fn status_is_read_back(n: int)
    requires
        0 <= n <= i32::MAX,
    ensures
        exit_status(decimal_bytes(n)) == n,
{
    lemma_decimal_number(n);
}

/// Decimal notation is a number, and the right one.
proof fn lemma_decimal_number(n: int)
    requires
        n >= 0,
    ensures
        is_number(decimal_bytes(n)),
        number(decimal_bytes(n)) == n,
    decreases n,
{
    let bytes = decimal_bytes(n);
    if n < 10 {
        assert(bytes.drop_last() =~= Seq::<u8>::empty());
        assert(bytes.last() == 0x30 + n);
        assert(number(bytes.drop_last()) == 0);
    } else {
        lemma_decimal_number(n / 10);
        assert(bytes.drop_last() =~= decimal_bytes(n / 10));
        assert(bytes.last() == 0x30 + n % 10);
        assert forall|i: int| 0 <= i < bytes.len() implies is_digit(#[trigger] bytes[i]) by {
            if i < bytes.len() - 1 {
                assert(bytes[i] == decimal_bytes(n / 10)[i]);
            }
        }
    }
}

/// The history keeps to its limit, and what it keeps are the newest rows.
pub proof fn history_keeps_the_newest(history: Seq<Seq<Cell>>, rows: Seq<Seq<Cell>>)
    requires
        history.len() <= SCROLLBACK_LIMIT,
    ensures
        ({
            let all = history + rows;
            let kept = history_append(history, rows);
            &&& kept.len() == min(all.len() as int, SCROLLBACK_LIMIT as int)
            &&& kept == all.skip(all.len() - kept.len())
        }),
{
    let all = history + rows;
    assert(all.skip(0) =~= all);
}

/// A text that outgrows its limit loses its start and keeps its end.
pub proof fn long_text_keeps_its_end(capture: CaptureView)
    ensures
        capture.bounded().text() == capture.text().skip(
            capture.text().len() - capture.bounded().text().len(),
        ),
{
    let text = capture.text();
    let n = leading_chars(text, OUTPUT_LIMIT as int / 2) as int;
    lemma_leading_len(text, OUTPUT_LIMIT as int / 2);
    assert(text.skip(0) =~= text);
    assert(capture.forget(n).text() =~= text.skip(n));
}

/// A text has no more leading characters than characters.
proof fn lemma_leading_len(text: Seq<char>, bytes: int)
    ensures
        leading_chars(text, bytes) <= text.len(),
    decreases text.len(),
{
    if bytes > 0 && text.len() > 0 {
        lemma_leading_len(
            text.drop_first(),
            bytes - encode_scalar(text[0] as u32).len(),
        );
    }
}

/// Without a history to scroll out of view and without an alternate screen, a
/// client that reconnects is sent what any client is sent.
pub proof fn replay_of_one_screen_is_the_snapshot(screen: ScreenView)
    requires
        !screen.using_alternate,
        screen.rows_in_view() <= 0,
    ensures
        screen.replay_snapshot() == screen.snapshot(),
{
    let hide = "\x1b[?25l"@;
    let reset = hide + "\x1b[0m"@;
    assert(hide + screen.scroll_out() =~= hide);
    assert(reset + when_on(screen.using_alternate, "\x1b[?1049h"@) =~= reset);
}

/// Whether two sets of private modes are the same but for focus events.
pub open spec fn same_replayed_modes(a: PrivateModes, b: PrivateModes) -> bool {
    a == (PrivateModes { focus_event: a.focus_event, ..b })
}

/// Whether a text ends in `piece`.
spec fn ends_in(text: Seq<char>, piece: Seq<char>) -> bool {
    text.len() >= piece.len() && text.skip(text.len() - piece.len()) == piece
}

/// An optional piece at the end of two texts, which do not end in it before,
/// can be told from the whole texts.
proof fn lemma_same_end(x: Seq<char>, y: Seq<char>, on_x: bool, on_y: bool, piece: Seq<char>)
    requires
        x + when_on(on_x, piece) == y + when_on(on_y, piece),
        !ends_in(x, piece),
        !ends_in(y, piece),
    ensures
        on_x == on_y,
        x == y,
{
    let none = Seq::<char>::empty();
    assert(x + none =~= x);
    assert(y + none =~= y);
    if on_x && on_y {
        assert((x + piece).len() == (y + piece).len());
        assert((x + piece).take(x.len() as int) =~= x);
        assert((y + piece).take(y.len() as int) =~= y);
    } else if on_x {
        assert((x + piece).skip(x.len() as int) =~= piece);
    } else if on_y {
        assert((y + piece).skip(y.len() as int) =~= piece);
    }
}

/// The `n`-th character of a text from its end; a space where there is none.
spec fn from_end(text: Seq<char>, n: int) -> char {
    if text.len() >= n {
        text[text.len() - n]
    } else {
        ' '
    }
}

/// A text whose characters at the end differ does not end in a piece.
proof fn lemma_other_end(text: Seq<char>, piece: Seq<char>, n: int)
    requires
        0 < n <= piece.len(),
        from_end(text, n) != from_end(piece, n),
    ensures
        !ends_in(text, piece),
{
    if ends_in(text, piece) {
        let tail = text.skip(text.len() - piece.len());
        assert(tail[piece.len() - n] == text[text.len() - n]);
    }
}

/// The characters near the end of a text with an optional piece behind it.
proof fn lemma_end_of(text: Seq<char>, on: bool, piece: Seq<char>, n: int)
    requires
        0 < n <= piece.len(),
    ensures
        from_end(text + when_on(on, piece), n) == if on {
            from_end(piece, n)
        } else {
            from_end(text, n)
        },
{
    assert(text + Seq::<char>::empty() =~= text);
}

/// How the sequences of the modes end.
proof fn lemma_mode_ends()
    ensures
        "\x1b[?1006h"@.len() == 8,
        from_end("\x1b[?1006h"@, 2) == '6',
        from_end("\x1b[?1006h"@, 3) == '0',
        "\x1b[?1016h"@.len() == 8,
        from_end("\x1b[?1016h"@, 2) == '6',
        from_end("\x1b[?1016h"@, 3) == '1',
        "\x1b[?9h"@.len() == 5,
        from_end("\x1b[?9h"@, 2) == '9',
        "\x1b[?1000h"@.len() == 8,
        from_end("\x1b[?1000h"@, 2) == '0',
        "\x1b[?1002h"@.len() == 8,
        from_end("\x1b[?1002h"@, 2) == '2',
        "\x1b[?1003h"@.len() == 8,
        from_end("\x1b[?1003h"@, 2) == '3',
        "\x1b[?1h"@.len() == 5,
        from_end("\x1b[?1h"@, 2) == '1',
        "\x1b[?66h"@.len() == 6,
        from_end("\x1b[?66h"@, 2) == '6',
        from_end("\x1b[?66h"@, 3) == '6',
        "\x1b[?2004h"@.len() == 8,
        from_end("\x1b[?2004h"@, 2) == '4',
{
    reveal_strlit("\x1b[?1006h");
    reveal_strlit("\x1b[?1016h");
    reveal_strlit("\x1b[?9h");
    reveal_strlit("\x1b[?1000h");
    reveal_strlit("\x1b[?1002h");
    reveal_strlit("\x1b[?1003h");
    reveal_strlit("\x1b[?1h");
    reveal_strlit("\x1b[?66h");
    reveal_strlit("\x1b[?2004h");
}

/// The character before the last one that the sequence of a report has.
spec fn mouse_mark(mouse: MouseProtocol) -> char {
    match mouse {
        MouseProtocol::Off => ' ',
        MouseProtocol::X10 => '9',
        MouseProtocol::Normal => '0',
        MouseProtocol::Button => '2',
        MouseProtocol::Any => '3',
    }
}

/// How the sequences of the mouse end.
proof fn lemma_mouse_end(modes: PrivateModes)
    ensures
        ({
            let text = modes.encoding.replay() + modes.mouse.replay();
            &&& modes.mouse != MouseProtocol::Off ==> from_end(text, 2) == mouse_mark(modes.mouse)
            &&& modes.mouse == MouseProtocol::Off ==> text == modes.encoding.replay()
            &&& modes.encoding == MouseEncoding::Default ==> modes.encoding.replay().len() == 0
            &&& modes.encoding != MouseEncoding::Default ==> from_end(modes.encoding.replay(), 2)
                == '6' && from_end(modes.encoding.replay(), 3) == if modes.encoding
                == MouseEncoding::Sgr {
                '0'
            } else {
                '1'
            }
        }),
{
    lemma_mode_ends();
    let text = modes.encoding.replay() + modes.mouse.replay();
    assert(modes.mouse == MouseProtocol::Off ==> text =~= modes.encoding.replay());
}

/// The sequences of the mouse tell its modes.
proof fn lemma_mouse_told(a: PrivateModes, b: PrivateModes)
    requires
        a.encoding.replay() + a.mouse.replay() == b.encoding.replay() + b.mouse.replay(),
    ensures
        a.encoding == b.encoding,
        a.mouse == b.mouse,
{
    lemma_mouse_end(a);
    lemma_mouse_end(b);
    assert(a.mouse == b.mouse);
    let (x, y) = (a.encoding.replay(), b.encoding.replay());
    let whole = x + a.mouse.replay();
    assert(x.len() == y.len());
    assert(whole.take(x.len() as int) =~= x);
    assert((y + b.mouse.replay()).take(y.len() as int) =~= y);
}

/// The sequences of the mouse end in none of the others.
proof fn lemma_mouse_other(modes: PrivateModes)
    ensures
        ({
            let mouse = modes.encoding.replay() + modes.mouse.replay();
            let keys = mouse + when_on(modes.cursor_keys, "\x1b[?1h"@);
            let pad = keys + when_on(modes.keypad, "\x1b[?66h"@);
            &&& !ends_in(mouse, "\x1b[?1h"@)
            &&& !ends_in(keys, "\x1b[?66h"@)
            &&& !ends_in(pad, "\x1b[?2004h"@)
        }),
{
    lemma_mode_ends();
    lemma_mouse_end(modes);
    let mouse = modes.encoding.replay() + modes.mouse.replay();
    let keys = mouse + when_on(modes.cursor_keys, "\x1b[?1h"@);
    let pad = keys + when_on(modes.keypad, "\x1b[?66h"@);
    lemma_other_end(mouse, "\x1b[?1h"@, 2);
    lemma_end_of(mouse, modes.cursor_keys, "\x1b[?1h"@, 2);
    lemma_end_of(mouse, modes.cursor_keys, "\x1b[?1h"@, 3);
    if from_end(keys, 2) == '6' {
        lemma_other_end(keys, "\x1b[?66h"@, 3);
    } else {
        lemma_other_end(keys, "\x1b[?66h"@, 2);
    }
    lemma_end_of(keys, modes.keypad, "\x1b[?66h"@, 2);
    lemma_other_end(pad, "\x1b[?2004h"@, 2);
}

/// Equal sequences come of equal modes, but for focus events.
proof fn lemma_modes_told(a: PrivateModes, b: PrivateModes)
    requires
        a.replay() == b.replay(),
    ensures
        same_replayed_modes(a, b),
{
    lemma_mouse_other(a);
    lemma_mouse_other(b);
    let mouse_a = a.encoding.replay() + a.mouse.replay();
    let mouse_b = b.encoding.replay() + b.mouse.replay();
    let keys_a = mouse_a + when_on(a.cursor_keys, "\x1b[?1h"@);
    let keys_b = mouse_b + when_on(b.cursor_keys, "\x1b[?1h"@);
    let pad_a = keys_a + when_on(a.keypad, "\x1b[?66h"@);
    let pad_b = keys_b + when_on(b.keypad, "\x1b[?66h"@);
    lemma_same_end(pad_a, pad_b, a.bracketed_paste, b.bracketed_paste, "\x1b[?2004h"@);
    lemma_same_end(keys_a, keys_b, a.keypad, b.keypad, "\x1b[?66h"@);
    lemma_same_end(mouse_a, mouse_b, a.cursor_keys, b.cursor_keys, "\x1b[?1h"@);
    lemma_mouse_told(a, b);
}

/// Two texts are the same exactly if they are the same behind another.
proof fn lemma_same_behind(start: Seq<char>, x: Seq<char>, y: Seq<char>)
    ensures
        start + x == start + y <==> x == y,
{
    assert((start + x).skip(start.len() as int) =~= x);
    assert((start + y).skip(start.len() as int) =~= y);
}

/// Where no mode is on, nothing is replayed.
proof fn lemma_off_replay()
    ensures
        PrivateModes::off().replay() == Seq::<char>::empty(),
{
    assert(PrivateModes::off().replay() =~= Seq::<char>::empty());
}

/// What is replayed tells the private modes, but for focus events: behind the
/// same text, two sets of modes are replayed alike exactly if they agree on all
/// others. Where none is on, nothing is replayed.
pub proof fn replay_tells_the_modes(start: Seq<char>, a: PrivateModes, b: PrivateModes)
    ensures
        start + a.replay() == start + b.replay() <==> same_replayed_modes(a, b),
        a.replay() == b.replay() <==> same_replayed_modes(a, b),
        PrivateModes::off().replay() == Seq::<char>::empty(),
{
    lemma_off_replay();
    let (x, y) = (a.replay(), b.replay());
    lemma_same_behind(start, x, y);
    if x == y {
        lemma_modes_told(a, b);
    }
    if same_replayed_modes(a, b) {
        focus_is_not_replayed(b, a.focus_event);
    }
}

} // verus!
