//! How a command goes through a pane, from its start to its result.
use std::time::{Duration, Instant};
use tokio::sync::oneshot::Sender;
use vstd::prelude::*;
use vstd::utf8::*;

use crate::capture::{CommandResult, CommandState};
use crate::clock::{lasted_since, reads_since};
use crate::grid::GridView;
use crate::laws::{decimal_bytes, status_is_read_back};
use crate::modes::PrivateModes;
use crate::osc::{exit_status, is_digit, is_number, joined, number};
use crate::parser::ActionView;
use crate::screen::{OscView, ScreenView, VirtualScreen};
use crate::session::{answers, ExecuteError, Session, SessionBackend};
use crate::text::utf8_lossy;
use crate::waiter::Reply;

verus! {

/// A fresh screen shows the primary grid, which is empty, has no history and no
/// command, and has sent nothing out.
pub proof fn fresh_screens_hold_nothing(cols: int, rows: int)
    ensures
        ({
            let screen = ScreenView::fresh(cols, rows);
            &&& !screen.using_alternate
            &&& screen.primary == GridView::empty(cols, rows)
            &&& screen.alternate == GridView::empty(cols, rows)
            &&& screen.scrollback.len() == 0
            &&& screen.cols == cols
            &&& screen.rows == rows
            &&& screen.pending is None
            &&& screen.command_state == CommandState::Idle
            &&& screen.results.len() == 0
            &&& !screen.shell_integration
            &&& screen.sync_events.len() == 0
            &&& screen.osc_actions.len() == 0
            &&& screen.saved_cursor is None
            &&& screen.pending_switch is None
            &&& screen.private_modes == PrivateModes::off()
            &&& screen.input.len() == 0
        }),
{
}

/// No mode is on in a screen where all are off.
pub proof fn off_is_off()
    ensures
        ({
            let modes = PrivateModes::off();
            !modes.cursor_keys && !modes.keypad && !modes.bracketed_paste && !modes.focus_event
        }),
{
}

/// A command that is sent holds the pane from its start on, for the caller that
/// sent it; it has no text yet, and what is printed next is its text. Nothing
/// else changes, not the results that are still queued.
pub proof fn sent_command_holds_the_pane(
    screen: ScreenView,
    start_time: Instant,
    waiter: Option<Sender<CommandResult>>,
)
    ensures
        ({
            let after = screen.tracking(start_time, waiter);
            &&& after.pending is Some
            &&& after.pending->0.start_time == start_time
            &&& after.pending->0.waiter == waiter
            &&& after.pending->0.capture.before.len() == 0
            &&& after.pending->0.capture.after.len() == 0
            &&& after.command_state == CommandState::CommandStart
            &&& after == (ScreenView {
                pending: after.pending,
                command_state: after.command_state,
                ..screen
            })
        }),
{
}

/// A command that is given up frees the pane and leaves no result. Nothing else
/// changes.
pub proof fn given_up_command_leaves_nothing(screen: ScreenView)
    ensures
        screen.abandoned() == (ScreenView {
            pending: None,
            command_state: CommandState::Idle,
            ..screen
        }),
{
}

/// A command that ends frees the pane and leaves one result behind those that
/// are queued, with the caller that sent the command. Nothing else changes.
pub proof fn ended_command_leaves_a_result(
    screen: ScreenView,
    exit_code: int,
    method: Seq<char>,
    stdout: Seq<char>,
)
    requires
        screen.pending is Some,
    ensures
        ({
            let after = screen.completed(exit_code, method, stdout);
            let result = after.results.last();
            &&& after.results.len() == screen.results.len() + 1
            &&& after.results.drop_last() == screen.results
            &&& result.exit_code == exit_code
            &&& result.method == method
            &&& result.stdout == stdout
            &&& result.waiter == screen.pending->0.waiter
            &&& after == (ScreenView {
                results: after.results,
                pending: None,
                command_state: CommandState::Idle,
                ..screen
            })
        }),
{
    let after = screen.completed(exit_code, method, stdout);
    assert(after.results.drop_last() =~= screen.results);
}

/// The operating system command of a mark, with a status or without.
pub open spec fn mark(letter: u8, status: Seq<u8>, bell_terminated: bool) -> ActionView {
    ActionView::Osc {
        fields: seq![seq![0x31u8, 0x33u8, 0x33u8], seq![letter], status],
        bell_terminated,
    }
}

/// The UTF-8 of words that are looked for.
proof fn lemma_words()
    ensures
        encode_utf8("133"@) == seq![0x31u8, 0x33u8, 0x33u8],
        encode_utf8("9"@) == seq![0x39u8],
        encode_utf8("777"@) == seq![0x37u8, 0x37u8, 0x37u8],
        encode_utf8("A"@) == seq![0x41u8],
        encode_utf8("C"@) == seq![0x43u8],
        encode_utf8("D"@) == seq![0x44u8],
{
    reveal_strlit("133");
    reveal_strlit("9");
    reveal_strlit("777");
    reveal_strlit("A");
    reveal_strlit("C");
    reveal_strlit("D");
    is_ascii_chars_encode_utf8("133"@);
    is_ascii_chars_encode_utf8("9"@);
    is_ascii_chars_encode_utf8("777"@);
    is_ascii_chars_encode_utf8("A"@);
    is_ascii_chars_encode_utf8("C"@);
    is_ascii_chars_encode_utf8("D"@);
    assert(encode_utf8("133"@) =~= seq![0x31u8, 0x33u8, 0x33u8]);
    assert(encode_utf8("9"@) =~= seq![0x39u8]);
    assert(encode_utf8("777"@) =~= seq![0x37u8, 0x37u8, 0x37u8]);
    assert(encode_utf8("A"@) =~= seq![0x41u8]);
    assert(encode_utf8("C"@) =~= seq![0x43u8]);
    assert(encode_utf8("D"@) =~= seq![0x44u8]);
}

/// The mark of an end, `D`, ends the command that runs with the text that was
/// collected, and with the status that it names. Without a command there is no
/// result. Either way the shell is known to send marks.
pub proof fn end_mark_ends_the_command(screen: ScreenView, n: int, bell_terminated: bool)
    requires
        0 <= n <= i32::MAX,
    ensures
        ({
            let after = screen.performed(mark(0x44, decimal_bytes(n), bell_terminated));
            &&& after.shell_integration
            &&& screen.pending is None ==> after == (ScreenView {
                shell_integration: true,
                ..screen
            })
            &&& screen.pending is Some ==> {
                let result = after.results.last();
                &&& after.results.len() == screen.results.len() + 1
                &&& after.results.drop_last() == screen.results
                &&& result.exit_code == n
                &&& result.method == "shell_integration"@
                &&& result.stdout == screen.pending->0.capture.text()
                &&& result.waiter == screen.pending->0.waiter
                &&& after == (ScreenView {
                    results: after.results,
                    pending: None,
                    command_state: CommandState::Idle,
                    shell_integration: true,
                    ..screen
                })
            }
        }),
{
    lemma_words();
    status_is_read_back(n);
    let status = decimal_bytes(n);
    let fields = seq![seq![0x31u8, 0x33u8, 0x33u8], seq![0x44u8], status];
    assert(fields[0] == seq![0x31u8, 0x33u8, 0x33u8]);
    assert(fields[1] == seq![0x44u8]);
    assert(fields[2] == status);
    assert(fields[0].len() == 3);
    assert(encode_utf8("9"@).len() == 1);
    assert(fields[0][0] != encode_utf8("777"@)[0]);
    assert(fields[1][0] != encode_utf8("A"@)[0]);
    assert(fields[1][0] != encode_utf8("C"@)[0]);
    let after = screen.performed(mark(0x44, status, bell_terminated));
    assert(screen.performed(mark(0x44, status, bell_terminated)) == screen.ended(status));
    if screen.pending is Some {
        assert(after.results.drop_last() =~= screen.results);
    }
}

/// A status that is no number in decimal notation, or too large a one, is -1.
pub proof fn status_that_is_no_number(status: Seq<u8>)
    requires
        status.len() == 0 || number(status) > 0x7fff_ffff || exists|i: int|
            0 <= i < status.len() && !(0x30 <= #[trigger] status[i] <= 0x39),
    ensures
        exit_status(status) == -1,
{
    if status.len() > 0 && number(status) <= 0x7fff_ffff {
        let i = choose|i: int| 0 <= i < status.len() && !(0x30 <= #[trigger] status[i] <= 0x39);
        if is_number(status) {
            assert(is_digit(status[i]));
        }
    }
}

/// Digits are read in decimal notation, the first digit first.
pub proof fn digits_are_read_in_tens(digits: Seq<u8>, digit: u8)
    requires
        0x30 <= digit <= 0x39,
    ensures
        number(seq![digit]) == digit - 0x30,
        number(digits.push(digit)) == number(digits) * 10 + (digit - 0x30),
{
    assert(seq![digit].drop_last() =~= Seq::<u8>::empty());
    assert(number(seq![digit].drop_last()) == 0);
    assert(digits.push(digit).drop_last() =~= digits);
}

/// The mark that a command starts to run takes up no command where none was
/// sent, and prompts are looked for again.
pub proof fn start_mark_alone_starts_nothing(
    screen: ScreenView,
    status: Seq<u8>,
    bell_terminated: bool,
)
    requires
        screen.pending is None,
    ensures
        screen.performed(mark(0x43, status, bell_terminated)) == (ScreenView {
            shell_integration: false,
            ..screen
        }),
{
    lemma_words();
    let fields = seq![seq![0x31u8, 0x33u8, 0x33u8], seq![0x43u8], status];
    assert(fields[0] == seq![0x31u8, 0x33u8, 0x33u8]);
    assert(fields[1] == seq![0x43u8]);
    assert(fields[0].len() == 3);
    assert(encode_utf8("9"@).len() == 1);
    assert(fields[0][0] != encode_utf8("777"@)[0]);
    assert(fields[1][0] != encode_utf8("A"@)[0]);
}

/// The mark that a command starts to run, `C`, drops the text that was collected
/// before; the command keeps its start and its caller, and what is printed next
/// is its text.
pub proof fn start_mark_drops_the_echo(screen: ScreenView, status: Seq<u8>, bell_terminated: bool)
    requires
        screen.pending is Some,
    ensures
        ({
            let after = screen.performed(mark(0x43, status, bell_terminated));
            &&& after.pending is Some
            &&& after.pending->0.start_time == screen.pending->0.start_time
            &&& after.pending->0.waiter == screen.pending->0.waiter
            &&& after.pending->0.capture.text().len() == 0
            &&& after.command_state == CommandState::Executing
            &&& after == (ScreenView {
                pending: after.pending,
                command_state: CommandState::Executing,
                shell_integration: true,
                ..screen
            })
        }),
{
    lemma_words();
    let fields = seq![seq![0x31u8, 0x33u8, 0x33u8], seq![0x43u8], status];
    assert(fields[0] == seq![0x31u8, 0x33u8, 0x33u8]);
    assert(fields[1] == seq![0x43u8]);
    assert(fields[0].len() == 3);
    assert(encode_utf8("9"@).len() == 1);
    assert(fields[0][0] != encode_utf8("777"@)[0]);
    assert(fields[1][0] != encode_utf8("A"@)[0]);
    assert(screen.performed(mark(0x43, status, bell_terminated)) == screen.started());
}

/// The mark of a prompt, `A`, ends what is collected and keeps all of it, with
/// the pane; the mark of its end, `B`, does nothing.
pub proof fn prompt_marks_keep_the_command(
    screen: ScreenView,
    status: Seq<u8>,
    bell_terminated: bool,
)
    ensures
        screen.performed(mark(0x41, status, bell_terminated)) == (ScreenView {
            command_state: CommandState::Idle,
            ..screen
        }),
        screen.performed(mark(0x42, status, bell_terminated)) == screen,
{
    lemma_words();
    let a = seq![seq![0x31u8, 0x33u8, 0x33u8], seq![0x41u8], status];
    let b = seq![seq![0x31u8, 0x33u8, 0x33u8], seq![0x42u8], status];
    assert(a[0] == seq![0x31u8, 0x33u8, 0x33u8]);
    assert(a[1] == seq![0x41u8]);
    assert(b[0] == seq![0x31u8, 0x33u8, 0x33u8]);
    assert(b[1] == seq![0x42u8]);
    assert(a[0].len() == 3);
    assert(encode_utf8("9"@).len() == 1);
    assert(a[0][0] != encode_utf8("777"@)[0]);
    assert(b[1][0] != encode_utf8("A"@)[0]);
    assert(b[1][0] != encode_utf8("C"@)[0]);
    assert(b[1][0] != encode_utf8("D"@)[0]);
}

/// A notification has all that comes behind its code, with the separators that
/// stood there, for its body.
pub proof fn notifications_hold_what_they_were_sent(
    screen: ScreenView,
    body: Seq<Seq<u8>>,
    bell_terminated: bool,
)
    requires
        body.len() > 0,
    ensures
        screen.performed(
            ActionView::Osc { fields: seq![seq![0x39u8]] + body, bell_terminated },
        ) == (ScreenView {
            osc_actions: screen.osc_actions.push(
                OscView::Notify { title: None, body: utf8_lossy(joined(body)) },
            ),
            ..screen
        }),
{
    lemma_words();
    let fields = seq![seq![0x39u8]] + body;
    assert(fields[0] == seq![0x39u8]);
    assert(fields.skip(1) =~= body);
}

/// A notification with a title has the field behind its name for the title, and
/// all that follows for its body.
pub proof fn notifications_may_have_a_title(
    screen: ScreenView,
    title: Seq<u8>,
    body: Seq<Seq<u8>>,
    bell_terminated: bool,
)
    ensures
        ({
            let name = seq![0x6eu8, 0x6fu8, 0x74u8, 0x69u8, 0x66u8, 0x79u8];
            let fields = seq![seq![0x37u8, 0x37u8, 0x37u8], name, title] + body;
            screen.performed(ActionView::Osc { fields, bell_terminated }) == (ScreenView {
                osc_actions: screen.osc_actions.push(
                    OscView::Notify {
                        title: Some(utf8_lossy(title)),
                        body: utf8_lossy(joined(body)),
                    },
                ),
                ..screen
            })
        }),
{
    lemma_words();
    reveal_strlit("notify");
    is_ascii_chars_encode_utf8("notify"@);
    let name = seq![0x6eu8, 0x6fu8, 0x74u8, 0x69u8, 0x66u8, 0x79u8];
    let fields = seq![seq![0x37u8, 0x37u8, 0x37u8], name, title] + body;
    assert(encode_utf8("notify"@) =~= name);
    assert(fields[0] == seq![0x37u8, 0x37u8, 0x37u8]);
    assert(fields[1] == name);
    assert(fields[2] == title);
    assert(fields.skip(3) =~= body);
    assert(fields[0].len() == 3);
    assert(encode_utf8("9"@).len() == 1);
}

/// Fields of two stretches are joined with one separator between them.
pub proof fn fields_are_joined_in_order(first: Seq<Seq<u8>>, second: Seq<Seq<u8>>)
    requires
        first.len() > 0,
        second.len() > 0,
    ensures
        joined(seq![first[0]]) == first[0],
        joined(first + second) == joined(first) + seq![0x3bu8] + joined(second),
    decreases second.len(),
{
    let all = first + second;
    let front = second.drop_last();
    assert(all.drop_last() =~= first + front);
    assert(all.last() == second.last());
    if second.len() == 1 {
        assert(first + front =~= first);
        assert(joined(all) =~= joined(first) + seq![0x3bu8] + joined(second));
    } else {
        fields_are_joined_in_order(first, front);
        assert(joined(all) =~= joined(first) + seq![0x3bu8] + joined(second));
    }
}

/// A change to the screen that is already shown changes nothing, and so does
/// none.
pub proof fn shown_screen_is_not_entered_again(screen: ScreenView)
    ensures
        screen.pending_switch is None ==> screen.settled() == screen,
        screen.pending_switch == Some(true) && screen.using_alternate ==> screen.settled() == (
        ScreenView { pending_switch: None, ..screen }),
        screen.pending_switch == Some(false) && !screen.using_alternate ==> screen.settled() == (
        ScreenView { pending_switch: None, ..screen }),
{
}

/// Entering the alternate screen keeps the primary one with its cursor, the
/// history, the modes and the running command; leaving it gives the saved cursor
/// back and keeps the rest too.
pub proof fn changing_screens_keeps_the_rest(screen: ScreenView)
    ensures
        screen.pending_switch == Some(true) && !screen.using_alternate ==> {
            let after = screen.settled();
            &&& after.using_alternate
            &&& after.alternate == GridView::empty(screen.cols, screen.rows)
            &&& after.saved_cursor == Some(screen.primary.cursor)
            &&& after == (ScreenView {
                using_alternate: true,
                alternate: after.alternate,
                saved_cursor: after.saved_cursor,
                pending_switch: None,
                ..screen
            })
        },
        screen.pending_switch == Some(false) && screen.using_alternate ==> {
            let after = screen.settled();
            &&& !after.using_alternate
            &&& after.primary.cells == screen.primary.cells
            &&& screen.saved_cursor matches Some(cursor) ==> after.primary.cursor == cursor
            &&& screen.saved_cursor is None ==> after.primary.cursor == screen.primary.cursor
            &&& after == (ScreenView {
                using_alternate: false,
                primary: GridView { cursor: after.primary.cursor, ..screen.primary },
                pending_switch: None,
                ..screen
            })
        },
{
}

/// A pane is closed if nothing runs its shell any more, or if the end of the
/// shell was noticed.
pub proof fn panes_are_closed_by_their_shell(session: Session)
    ensures
        session.backend == SessionBackend::Exited ==> session.closed(),
        session.exited ==> session.closed(),
        session.backend != SessionBackend::Exited && !session.exited ==> !session.closed(),
{
}

/// A caller whose time ran out gets the result if it has come in the meantime,
/// learns that the terminal has closed if none will come, and is told otherwise
/// what its command has printed so far; the command goes on.
pub proof fn late_results_count(
    screen: VirtualScreen,
    reply: Reply,
    outcome: Result<CommandResult, ExecuteError>,
)
    requires
        answers(screen, reply, outcome),
    ensures
        reply matches Reply::Result(result) ==> outcome is Ok && outcome->Ok_0 == result,
        reply is Closed ==> outcome is Err && outcome->Err_0 is Closed,
        reply is Empty ==> {
            &&& outcome is Ok
            &&& outcome->Ok_0.exit_code == -1
            &&& outcome->Ok_0.method@ == "timeout"@
            &&& screen@.pending matches Some(command) ==> outcome->Ok_0.stdout@
                == command.capture.before + command.capture.after && lasted_since(
                command.start_time,
                outcome->Ok_0.duration_ms,
            )
            &&& screen@.pending is None ==> outcome->Ok_0.stdout@.len() == 0
                && outcome->Ok_0.duration_ms == 0
        },
{
}

/// An error names its cause: that the pane is held, that the terminal has
/// closed, or why the input could not be written.
pub proof fn errors_name_their_cause(error: String)
    ensures
        ExecuteError::Busy.says() == "Pane is busy: the previous command has not completed"@,
        ExecuteError::Closed.says() == "Terminal closed before command completion"@,
        ExecuteError::Write(error).says() == "Write failed: "@ + error@,
{
}

/// A duration is the number of whole milliseconds that the clock gives as the
/// time since the start.
pub proof fn durations_are_milliseconds(start: Instant, duration_ms: u64)
    ensures
        lasted_since(start, duration_ms) <==> exists|span: Duration, millis: u128|
            call_ensures(Instant::elapsed, (&start,), span) && #[trigger] call_ensures(
                Duration::as_millis,
                (&span,),
                millis,
            ) && duration_ms == millis as u64,
{
    if exists|span: Duration, millis: u128|
        call_ensures(Instant::elapsed, (&start,), span) && #[trigger] call_ensures(
            Duration::as_millis,
            (&span,),
            millis,
        ) && duration_ms == millis as u64 {
        let (span, millis) = choose|span: Duration, millis: u128|
            call_ensures(Instant::elapsed, (&start,), span) && #[trigger] call_ensures(
                Duration::as_millis,
                (&span,),
                millis,
            ) && duration_ms == millis as u64;
        assert(reads_since(start, millis));
    }
}

} // verus!
