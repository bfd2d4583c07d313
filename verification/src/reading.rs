//! Text that a parser reads as the steps that it was written for.
use vstd::prelude::*;
use vstd::utf8::*;

use crate::capture::CaptureView;
use crate::grid::GridView;
use crate::laws::concatenated;
use crate::modes::PrivateModes;
use crate::osc::field_at;
use crate::parser::{vte_actions, ActionView};
use crate::performer::{
    BACKSPACE, CARRIAGE_RETURN, FORM_FEED, INDEX, LINE_FEED, NEXT_LINE, REVERSE_INDEX, TAB,
};
use crate::replay::{
    chunks_write_their_steps, history_is_written, history_shown, history_steps, is_writable,
    lemma_history_kept, lemma_shown_quiet,
};
use crate::restore::{
    after_step, after_steps, is_quiet, is_replayable, is_replayed, nearest,
    replay_restores_both_screens, replay_steps, replay_writes_its_steps,
    snapshot_restores_the_screen, snapshot_steps, snapshot_writes_its_steps, steps_text, Step,
};
use crate::screen::ScreenView;
use crate::snapshot::{plain_lines, styled_chunks};

verus! {

/// Whether a parser that was fed `input` before reads `data` as some steps: each
/// byte ends one step or none, and they come in their order.
pub open spec fn reads_as(input: Seq<u8>, data: Seq<u8>, steps: Seq<Step>) -> bool
    decreases data.len(),
{
    if data.len() == 0 {
        steps.len() == 0
    } else {
        let front = data.drop_last();
        let actions = vte_actions(input + front, data.last());
        if actions.len() == 0 {
            reads_as(input, front, steps)
        } else {
            &&& actions.len() == 1
            &&& steps.len() > 0
            &&& actions[0] == steps.last().action()
            &&& reads_as(input, front, steps.drop_last())
        }
    }
}

/// A screen whose parser was fed other bytes.
pub open spec fn with_input(screen: ScreenView, input: Seq<u8>) -> ScreenView {
    ScreenView { input, ..screen }
}

/// Whether a screen is another but for what the parser was fed.
pub open spec fn same_but_fed(after: ScreenView, before: ScreenView, input: Seq<u8>) -> bool {
    after == with_input(before, input)
}

/// Private modes do the same whatever the parser was fed.
proof fn lemma_modes_same(screen: ScreenView, params: Seq<Seq<u16>>, on: bool, input: Seq<u8>)
    ensures
        same_but_fed(
            with_input(screen, input).with_modes(params, on),
            screen.with_modes(params, on),
            input,
        ),
    decreases params.len(),
{
    if params.len() > 0 {
        lemma_modes_same(screen, params.drop_last(), on, input);
    }
}

/// The grid that is shown and the text of the command change alike whatever the
/// parser was fed.
proof fn lemma_parts_same(
    screen: ScreenView,
    grid: GridView,
    capture: CaptureView,
    input: Seq<u8>,
)
    ensures
        with_input(screen, input).active() == screen.active(),
        with_input(screen, input).capture() == screen.capture(),
        same_but_fed(with_input(screen, input).with_active(grid), screen.with_active(grid), input),
        same_but_fed(
            with_input(screen, input).with_capture(capture),
            screen.with_capture(capture),
            input,
        ),
        screen.with_active(grid).capture() == screen.capture(),
{
}

/// A line feed does the same whatever the parser was fed.
proof fn lemma_line_fed_same(screen: ScreenView, col: int, input: Seq<u8>)
    ensures
        same_but_fed(with_input(screen, input).line_fed(col), screen.line_fed(col), input),
{
}

/// A step back does the same whatever the parser was fed.
proof fn lemma_backspace_same(screen: ScreenView, input: Seq<u8>)
    ensures
        same_but_fed(
            with_input(screen, input).executed(BACKSPACE),
            screen.executed(BACKSPACE),
            input,
        ),
{
    let grid = screen.active().controlled(Seq::empty(), 'D');
    let capture = screen.capture().stepped_back();
    lemma_parts_same(screen, grid, capture, input);
    lemma_parts_same(screen.with_active(grid), grid, capture, input);
}

/// A control character does the same whatever the parser was fed.
proof fn lemma_executed_same(screen: ScreenView, byte: u8, input: Seq<u8>)
    ensures
        same_but_fed(with_input(screen, input).executed(byte), screen.executed(byte), input),
{
    let grid = screen.active();
    if byte == BACKSPACE {
        lemma_backspace_same(screen, input);
    } else if byte == TAB {
        let capture = screen.capture().captured('\t');
        lemma_parts_same(screen, grid.tabbed(), capture, input);
        lemma_parts_same(screen.with_active(grid.tabbed()), grid, capture, input);
    } else if LINE_FEED <= byte <= FORM_FEED {
        let capture = screen.capture().captured('\n');
        lemma_line_fed_same(screen, grid.cursor.col, input);
        lemma_parts_same(screen, grid, capture, input);
        lemma_parts_same(screen.line_fed(grid.cursor.col), grid, capture, input);
    } else if byte == CARRIAGE_RETURN {
        let moved = grid.with_cursor(grid.cursor.row, 0);
        let capture = screen.capture().returned();
        lemma_parts_same(screen, moved, capture, input);
        lemma_parts_same(screen.with_active(moved), grid, capture, input);
    }
}

/// A character does the same whatever the parser was fed.
proof fn lemma_printed_same(screen: ScreenView, c: char, input: Seq<u8>)
    ensures
        same_but_fed(with_input(screen, input).printed(c), screen.printed(c), input),
{
}

/// A line back does the same whatever the parser was fed.
proof fn lemma_line_back_same(screen: ScreenView, input: Seq<u8>)
    ensures
        same_but_fed(
            with_input(screen, input).escaped(REVERSE_INDEX),
            screen.escaped(REVERSE_INDEX),
            input,
        ),
{
    lemma_parts_same(screen, screen.active().line_reversed(), screen.capture(), input);
}

/// An escape sequence does the same whatever the parser was fed.
#[verifier::rlimit(20)]
proof fn lemma_escaped_same(screen: ScreenView, byte: u8, input: Seq<u8>)
    ensures
        same_but_fed(with_input(screen, input).escaped(byte), screen.escaped(byte), input),
{
    let grid = screen.active();
    lemma_parts_same(screen, grid, screen.capture(), input);
    if byte == INDEX {
        lemma_line_fed_same(screen, grid.cursor.col, input);
    } else if byte == NEXT_LINE {
        lemma_line_fed_same(screen, 0, input);
    } else if byte == REVERSE_INDEX {
        lemma_line_back_same(screen, input);
    }
}

/// A control sequence does the same whatever the parser was fed.
proof fn lemma_controlled_same(
    screen: ScreenView,
    params: Seq<Seq<u16>>,
    intermediates: Seq<u8>,
    action: char,
    input: Seq<u8>,
)
    ensures
        same_but_fed(
            with_input(screen, input).controlled(params, intermediates, action),
            screen.controlled(params, intermediates, action),
            input,
        ),
{
    lemma_modes_same(screen, params, true, input);
    lemma_modes_same(screen, params, false, input);
}

/// A shell mark does the same whatever the parser was fed.
proof fn lemma_marked_same(screen: ScreenView, mark: Seq<u8>, status: Seq<u8>, input: Seq<u8>)
    ensures
        same_but_fed(
            with_input(screen, input).marked(mark, status),
            screen.marked(mark, status),
            input,
        ),
{
}

/// An operating system command does the same whatever the parser was fed.
proof fn lemma_commanded_same(screen: ScreenView, fields: Seq<Seq<u8>>, input: Seq<u8>)
    ensures
        same_but_fed(with_input(screen, input).commanded(fields), screen.commanded(fields), input),
{
    lemma_marked_same(screen, field_at(fields, 1), field_at(fields, 2), input);
}

/// An action does the same whatever the parser was fed.
proof fn lemma_performed_same(screen: ScreenView, action: ActionView, input: Seq<u8>)
    ensures
        same_but_fed(with_input(screen, input).performed(action), screen.performed(action), input),
{
    match action {
        ActionView::Print(c) => lemma_printed_same(screen, c, input),
        ActionView::Execute(byte) => lemma_executed_same(screen, byte, input),
        ActionView::Csi { params, intermediates, ignore, action } => {
            lemma_controlled_same(screen, params, intermediates, action, input);
        },
        ActionView::Esc { intermediates, ignore, byte } => {
            lemma_escaped_same(screen, byte, input);
        },
        ActionView::Osc { fields, bell_terminated } => {
            lemma_commanded_same(screen, fields, input);
        },
    }
}

/// A step does the same whatever the parser was fed, and leaves no change of
/// screens due.
proof fn lemma_step_same(screen: ScreenView, step: Step, input: Seq<u8>)
    ensures
        same_but_fed(
            with_input(screen, input).performed(step.action()).settled(),
            after_step(screen, step),
            input,
        ),
        after_step(screen, step).pending_switch is None,
{
    reveal(after_step);
    lemma_performed_same(screen, step.action(), input);
    let performed = screen.performed(step.action());
    assert(with_input(performed, input).settled() =~= with_input(performed.settled(), input));
}

/// Steps leave no change of screens due.
proof fn lemma_no_switch(screen: ScreenView, steps: Seq<Step>)
    requires
        screen.pending_switch is None,
    ensures
        after_steps(screen, steps).pending_switch is None,
{
    if steps.len() > 0 {
        lemma_step_same(after_steps(screen, steps.drop_last()), steps.last(), Seq::empty());
    }
}

/// Where nothing is due, nothing changes.
proof fn lemma_nothing_due(screen: ScreenView)
    requires
        screen.pending_switch is None,
    ensures
        screen.settled() == screen,
{
}

/// One action and what it makes due are one step.
proof fn lemma_one_action(screen: ScreenView, actions: Seq<ActionView>, step: Step)
    requires
        actions.len() == 1,
        actions[0] == step.action(),
    ensures
        screen.performed_all(actions).settled() == screen.performed(step.action()).settled(),
{
    assert(actions.drop_last() =~= Seq::<ActionView>::empty());
    assert(screen.performed_all(actions.drop_last()) == screen);
}

/// A byte does the step that it ends, or nothing.
proof fn lemma_byte_read(screen: ScreenView, input: Seq<u8>, byte: u8, step: Step)
    requires
        screen.pending_switch is None,
    ensures
        vte_actions(input, byte).len() == 0 ==> with_input(screen, input).fed_byte(byte)
            == with_input(screen, input.push(byte)),
        vte_actions(input, byte).len() == 1 && vte_actions(input, byte)[0] == step.action()
            ==> with_input(screen, input).fed_byte(byte) == with_input(
            after_step(screen, step),
            input.push(byte),
        ),
{
    let parsed = with_input(screen, input.push(byte));
    let actions = vte_actions(input, byte);
    if actions.len() == 0 {
        assert(parsed.performed_all(actions) == parsed);
        lemma_nothing_due(parsed);
    } else if actions.len() == 1 && actions[0] == step.action() {
        lemma_one_action(parsed, actions, step);
        lemma_step_same(screen, step, input.push(byte));
    }
}

/// Bytes that the parser reads as some steps do what the steps do.
pub proof fn read_steps_are_done(screen: ScreenView, data: Seq<u8>, steps: Seq<Step>)
    requires
        screen.pending_switch is None,
    ensures
        reads_as(screen.input, data, steps) ==> screen.fed(data) == with_input(
            after_steps(screen, steps),
            screen.input + data,
        ),
    decreases data.len(),
{
    if data.len() == 0 {
        assert(screen.input + data =~= screen.input);
    } else if reads_as(screen.input, data, steps) {
        let front = data.drop_last();
        let input = screen.input + front;
        assert(input.push(data.last()) =~= screen.input + data);
        if vte_actions(input, data.last()).len() == 0 {
            read_steps_are_done(screen, front, steps);
            lemma_no_switch(screen, steps);
            lemma_byte_read(after_steps(screen, steps), input, data.last(), Step::Feed);
        } else {
            let earlier = steps.drop_last();
            read_steps_are_done(screen, front, earlier);
            lemma_no_switch(screen, earlier);
            lemma_byte_read(after_steps(screen, earlier), input, data.last(), steps.last());
        }
    }
}

/// What a fresh client holds that is fed the history of a pane.
proof fn lemma_history_fed(screen: ScreenView, history: Seq<u8>)
    requires
        screen.wf(),
        is_writable(screen.scrollback, screen.cols),
        reads_as(Seq::empty(), history, history_steps(screen.scrollback)),
    ensures
        ({
            let client = ScreenView::fresh(screen.cols, screen.rows).fed(history);
            &&& client == with_input(
                history_shown(screen.cols, screen.rows, screen.scrollback),
                history,
            )
            &&& is_quiet(client)
        }),
{
    let fresh = ScreenView::fresh(screen.cols, screen.rows);
    history_is_written(screen.cols, screen.rows, screen.scrollback);
    read_steps_are_done(fresh, history, history_steps(screen.scrollback));
    assert(Seq::<u8>::empty() + history =~= history);
    lemma_shown_quiet(screen.cols, screen.rows, screen.scrollback);
}

/// What a client holds after a replay does not rest on what its parser was fed.
proof fn lemma_replayed_same(
    client: ScreenView,
    screen: ScreenView,
    after: ScreenView,
    data: Seq<u8>,
)
    requires
        is_replayed(client, screen, after),
    ensures
        is_replayed(client, screen, with_input(after, client.input + data)),
{
}

/// A fresh client of the same size that is fed the history of a pane, in
/// pieces of any number of lines, and then its snapshot for clients that
/// reconnect, and whose parser reads the two as they were written, holds all of
/// the pane: its history, both screens with their cursors, and the private modes
/// but for focus events.
pub proof fn fed_history_and_replay_restore_a_pane(screen: ScreenView, lines: int)
    requires
        screen.wf(),
        is_replayable(screen.primary),
        screen.using_alternate ==> is_replayable(screen.alternate),
        is_writable(screen.scrollback, screen.cols),
        lines > 0,
    ensures
        ({
            let history = encode_utf8(concatenated(styled_chunks(screen.scrollback, lines)));
            let replay = encode_utf8(screen.replay_snapshot());
            let client = ScreenView::fresh(screen.cols, screen.rows).fed(history);
            let after = client.fed(replay);
            reads_as(Seq::empty(), history, history_steps(screen.scrollback)) && reads_as(
                history,
                replay,
                replay_steps(screen),
            ) ==> {
                &&& is_replayed(client, screen, after)
                &&& after.scrollback == screen.scrollback
                &&& plain_lines(after.active().cells) == plain_lines(screen.active().cells)
            }
        }),
        screen.replay_snapshot() == steps_text(replay_steps(screen)),
        concatenated(styled_chunks(screen.scrollback, lines)) == steps_text(
            history_steps(screen.scrollback),
        ),
{
    let fresh = ScreenView::fresh(screen.cols, screen.rows);
    let history = encode_utf8(concatenated(styled_chunks(screen.scrollback, lines)));
    let replay = encode_utf8(screen.replay_snapshot());
    replay_writes_its_steps(screen);
    chunks_write_their_steps(screen.scrollback, lines);
    if reads_as(Seq::empty(), history, history_steps(screen.scrollback)) && reads_as(
        history,
        replay,
        replay_steps(screen),
    ) {
        lemma_history_fed(screen, history);
        lemma_history_kept(screen);
        let client = fresh.fed(history);
        replay_restores_both_screens(client, screen);
        read_steps_are_done(client, replay, replay_steps(screen));
        lemma_replayed_same(client, screen, after_steps(client, replay_steps(screen)), replay);
    }
}

/// A client of the same size with no modes on that is fed a snapshot, and whose
/// parser reads it as it was written, shows the screen.
pub proof fn fed_snapshot_restores_the_screen(client: ScreenView, screen: ScreenView)
    requires
        is_quiet(client),
        !client.using_alternate,
        client.private_modes == PrivateModes::off(),
        client.cols == screen.cols,
        client.rows == screen.rows,
        screen.wf(),
        is_replayable(screen.active()),
    ensures
        ({
            let snapshot = encode_utf8(screen.snapshot());
            let after = client.fed(snapshot);
            reads_as(client.input, snapshot, snapshot_steps(screen)) ==> {
                &&& after.using_alternate == screen.using_alternate
                &&& after.active().cells == screen.active().cells
                &&& after.active().cursor == nearest(
                    screen.active().cursor,
                    screen.rows,
                    screen.cols,
                )
                &&& after.private_modes == (PrivateModes {
                    focus_event: false,
                    ..screen.private_modes
                })
                &&& after.scrollback == client.scrollback
            }
        }),
        screen.snapshot() == steps_text(snapshot_steps(screen)),
{
    snapshot_writes_its_steps(screen);
    snapshot_restores_the_screen(client, screen);
    read_steps_are_done(client, encode_utf8(screen.snapshot()), snapshot_steps(screen));
}

} // verus!
