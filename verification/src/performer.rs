//! What terminal output does to a screen and to the command that runs in it.
use std::collections::VecDeque;
use std::time::Instant;
use vstd::prelude::*;
use vstd::utf8::*;

use crate::capture::{CaptureView, CommandState};
use crate::editing::{number_at, read_number};
use crate::grid::{history_append, Cell, GridView, ScreenBuffer};
use crate::laws::{lemma_actions_start, lemma_output_start};
use crate::modes::PrivateModes;
use crate::osc::{exit_status, field_at, is_field, is_word, join_from, joined, read_status};
use crate::parser::{action_views, advance, vte_actions, Action, ActionSink, ActionView};
use crate::screen::{
    lemma_queue_again, lemma_queue_pushed, lemma_queue_same, osc_views, queue_extended,
    queue_grown, OscAction, OscView, PendingView, ScreenView, SyncEvent, VirtualScreen,
};
use crate::sgr::inner;
use crate::text::{decode_lossy, utf8_lossy};

verus! {

pub const BELL: u8 = 0x07;

pub const BACKSPACE: u8 = 0x08;

pub const TAB: u8 = 0x09;

pub const LINE_FEED: u8 = 0x0a;

pub const FORM_FEED: u8 = 0x0c;

pub const CARRIAGE_RETURN: u8 = 0x0d;

pub const SAVE_CURSOR: u8 = 0x37;

pub const RESTORE_CURSOR: u8 = 0x38;

pub const INDEX: u8 = 0x44;

pub const NEXT_LINE: u8 = 0x45;

pub const REVERSE_INDEX: u8 = 0x4d;

pub const KEYPAD_ON: u8 = 0x3d;

pub const KEYPAD_OFF: u8 = 0x3e;

impl ScreenView {
    /// With another grid in the place of the one that is shown.
    pub open spec fn with_active(self, grid: GridView) -> ScreenView {
        if self.using_alternate {
            ScreenView { alternate: grid, ..self }
        } else {
            ScreenView { primary: grid, ..self }
        }
    }

    /// With rows that have left the grid at the top. Those of the primary one
    /// go to the history, those of the alternate one are gone.
    pub open spec fn with_rows_off(self, rows: Seq<Seq<Cell>>) -> ScreenView {
        if self.using_alternate {
            self
        } else {
            ScreenView { scrollback: history_append(self.scrollback, rows), ..self }
        }
    }

    /// Whether what is printed belongs to the running command.
    pub open spec fn capturing(self) -> bool {
        self.pending is Some && self.command_state != CommandState::Idle
    }

    /// With another text of the running command, where it is collected.
    pub open spec fn with_capture(self, capture: CaptureView) -> ScreenView {
        if self.capturing() {
            ScreenView {
                pending: Some(PendingView { capture, ..self.pending->0 }),
                ..self
            }
        } else {
            self
        }
    }

    /// The text of the running command so far.
    pub open spec fn capture(self) -> CaptureView {
        self.pending->0.capture
    }

    /// After a printed character.
    pub open spec fn printed(self, c: char) -> ScreenView {
        let grid = self.active();
        self.with_rows_off(grid.printed_off(c)).with_active(grid.printed(c)).with_capture(
            self.capture().captured(c),
        )
    }

    /// After a line feed to column `col`, which is no part of the text.
    pub open spec fn line_fed(self, col: int) -> ScreenView {
        let grid = self.active();
        self.with_rows_off(grid.fed_off()).with_active(grid.line_fed(col))
    }

    /// After a control character.
    pub open spec fn executed(self, byte: u8) -> ScreenView {
        let grid = self.active();
        if byte == BELL {
            ScreenView { osc_actions: self.osc_actions.push(OscView::Bell), ..self }
        } else if byte == BACKSPACE {
            self.with_active(grid.controlled(Seq::empty(), 'D')).with_capture(
                self.capture().stepped_back(),
            )
        } else if byte == TAB {
            self.with_active(grid.tabbed()).with_capture(self.capture().captured('\t'))
        } else if LINE_FEED <= byte <= FORM_FEED {
            self.line_fed(grid.cursor.col).with_capture(self.capture().captured('\n'))
        } else if byte == CARRIAGE_RETURN {
            self.with_active(grid.with_cursor(grid.cursor.row, 0)).with_capture(
                self.capture().returned(),
            )
        } else {
            self
        }
    }

    /// After an escape sequence without intermediate bytes.
    pub open spec fn escaped(self, byte: u8) -> ScreenView {
        let grid = self.active();
        if byte == SAVE_CURSOR {
            ScreenView { saved_cursor: Some(grid.cursor), ..self }
        } else if byte == RESTORE_CURSOR {
            match self.saved_cursor {
                Some(cursor) => self.with_active(GridView { cursor, ..grid }),
                None => self,
            }
        } else if byte == INDEX {
            self.line_fed(grid.cursor.col)
        } else if byte == NEXT_LINE {
            self.line_fed(0)
        } else if byte == REVERSE_INDEX {
            self.with_active(grid.line_reversed())
        } else if byte == KEYPAD_ON {
            ScreenView {
                private_modes: PrivateModes { keypad: true, ..self.private_modes },
                ..self
            }
        } else if byte == KEYPAD_OFF {
            ScreenView {
                private_modes: PrivateModes { keypad: false, ..self.private_modes },
                ..self
            }
        } else {
            self
        }
    }

    /// With the private mode of one number switched on or off.
    pub open spec fn with_mode(self, mode: u16, on: bool) -> ScreenView {
        if mode == 2026 {
            let event = if on {
                SyncEvent::Start
            } else {
                SyncEvent::Stop
            };
            ScreenView { sync_events: self.sync_events.push(event), ..self }
        } else if mode == 47 || mode == 1047 || mode == 1049 {
            ScreenView { pending_switch: Some(on), ..self }
        } else {
            ScreenView { private_modes: self.private_modes.with_mode(mode, on), ..self }
        }
    }

    /// With the private modes of the parameters switched on or off, the first
    /// one first.
    pub open spec fn with_modes(self, params: Seq<Seq<u16>>, on: bool) -> ScreenView
        decreases params.len(),
    {
        if params.len() == 0 {
            self
        } else {
            self.with_modes(params.drop_last(), on).with_mode(
                number_at(params, params.len() - 1),
                on,
            )
        }
    }

    /// After a control sequence.
    pub open spec fn controlled(
        self,
        params: Seq<Seq<u16>>,
        intermediates: Seq<u8>,
        action: char,
    ) -> ScreenView {
        if intermediates.len() == 0 {
            self.with_active(self.active().controlled(params, action))
        } else if intermediates == encode_utf8("?"@) && action == 'h' {
            self.with_modes(params, true)
        } else if intermediates == encode_utf8("?"@) && action == 'l' {
            self.with_modes(params, false)
        } else if intermediates == encode_utf8("!"@) && action == 'p' {
            ScreenView {
                private_modes: PrivateModes {
                    mouse: self.private_modes.mouse,
                    encoding: self.private_modes.encoding,
                    ..PrivateModes::off()
                },
                ..self
            }
        } else {
            self
        }
    }

    /// After the mark that a command starts to run. It ends the echo of the
    /// command line. A mark of a command that nobody waits for may come from a
    /// shell that starts another one, so later prompts are looked for again.
    pub open spec fn started(self) -> ScreenView {
        match self.pending {
            Some(pending) => ScreenView {
                command_state: CommandState::Executing,
                pending: Some(PendingView { capture: CaptureView::nothing(), ..pending }),
                shell_integration: true,
                ..self
            },
            None => ScreenView { shell_integration: false, ..self },
        }
    }

    /// After the mark that a command has ended. With no command to wait for,
    /// there is no result.
    pub open spec fn ended(self, status: Seq<u8>) -> ScreenView {
        let marked = ScreenView { shell_integration: true, ..self };
        if self.pending is Some {
            marked.completed(
                exit_status(status),
                "shell_integration"@,
                self.capture().text(),
            )
        } else {
            marked
        }
    }

    /// After a mark of the shell: a prompt starts, a command starts to run, or
    /// it has ended.
    pub open spec fn marked(self, mark: Seq<u8>, status: Seq<u8>) -> ScreenView {
        if mark == encode_utf8("A"@) {
            ScreenView { command_state: CommandState::Idle, ..self }
        } else if mark == encode_utf8("C"@) {
            self.started()
        } else if mark == encode_utf8("D"@) {
            self.ended(status)
        } else {
            self
        }
    }

    /// After an operating system command: a notification, or a mark.
    pub open spec fn commanded(self, fields: Seq<Seq<u8>>) -> ScreenView {
        let code = field_at(fields, 0);
        if code == encode_utf8("9"@) && fields.len() > 1 {
            let notice = OscView::Notify {
                title: None,
                body: utf8_lossy(joined(fields.skip(1))),
            };
            ScreenView { osc_actions: self.osc_actions.push(notice), ..self }
        } else if code == encode_utf8("777"@) && field_at(fields, 1) == encode_utf8("notify"@)
            && fields.len() > 2 {
            let notice = OscView::Notify {
                title: Some(utf8_lossy(fields[2])),
                body: utf8_lossy(joined(fields.skip(3))),
            };
            ScreenView { osc_actions: self.osc_actions.push(notice), ..self }
        } else if code == encode_utf8("133"@) {
            self.marked(field_at(fields, 1), field_at(fields, 2))
        } else {
            self
        }
    }

    /// After one action.
    pub open spec fn performed(self, action: ActionView) -> ScreenView {
        match action {
            ActionView::Print(c) => self.printed(c),
            ActionView::Execute(byte) => self.executed(byte),
            ActionView::Csi { params, intermediates, ignore, action } => if ignore {
                self
            } else {
                self.controlled(params, intermediates, action)
            },
            ActionView::Esc { intermediates, ignore, byte } => if ignore || intermediates.len()
                > 0 {
                self
            } else {
                self.escaped(byte)
            },
            ActionView::Osc { fields, bell_terminated } => self.commanded(fields),
        }
    }

    /// After some actions, one after the other.
    pub open spec fn performed_all(self, actions: Seq<ActionView>) -> ScreenView
        decreases actions.len(),
    {
        if actions.len() == 0 {
            self
        } else {
            self.performed_all(actions.drop_last()).performed(actions.last())
        }
    }

    /// With the change of screens made that was asked for. A screen that is
    /// entered is empty; one that is left gives the cursor back.
    pub open spec fn settled(self) -> ScreenView {
        let done = ScreenView { pending_switch: None, ..self };
        if self.pending_switch == Some(true) && !self.using_alternate {
            ScreenView {
                saved_cursor: Some(self.primary.cursor),
                alternate: GridView::empty(self.cols, self.rows),
                using_alternate: true,
                ..done
            }
        } else if self.pending_switch == Some(false) && self.using_alternate {
            let primary = match self.saved_cursor {
                Some(cursor) => GridView { cursor, ..self.primary },
                None => self.primary,
            };
            ScreenView { primary, using_alternate: false, ..done }
        } else {
            done
        }
    }

    /// After one byte of output.
    pub open spec fn fed_byte(self, byte: u8) -> ScreenView {
        let parsed = ScreenView { input: self.input.push(byte), ..self };
        parsed.performed_all(vte_actions(self.input, byte)).settled()
    }

    /// After some output.
    pub open spec fn fed(self, data: Seq<u8>) -> ScreenView
        decreases data.len(),
    {
        if data.len() == 0 {
            self
        } else {
            self.fed(data.drop_last()).fed_byte(data.last())
        }
    }
}

impl VirtualScreen {
    /// Whether what is printed belongs to the running command.
    fn is_capturing(&self) -> (capturing: bool)
        ensures
            capturing == self@.capturing(),
    {
        self.pending_command.is_some() && self.command_state != CommandState::Idle
    }

    /// Adds a character to the text of the running command.
    fn capture_char(&mut self, c: char)
        requires
            old(self).wf(),
        ensures
            final(self).wf(),
            final(self)@ == old(self)@.with_capture(old(self)@.capture().captured(c)),
            final(self).last_output_time == old(self).last_output_time,
            final(self).command_results@ == old(self).command_results@,
    {
        if self.is_capturing() {
            if let Some(pending) = &mut self.pending_command {
                pending.capture_char(c);
            }
        }
    }

    /// Prints a character.
    fn print(&mut self, c: char)
        requires
            old(self).wf(),
        ensures
            final(self).wf(),
            final(self)@ == old(self)@.printed(c),
            final(self).last_output_time == old(self).last_output_time,
            final(self).command_results@ == old(self).command_results@,
    {
        if self.using_alternate {
            let mut gone: VecDeque<Vec<Cell>> = VecDeque::new();
            self.alternate.print(c, &mut gone);
        } else {
            self.primary.print(c, &mut self.scrollback);
        }
        self.capture_char(c);
    }

    /// Feeds a line, to column `col`.
    fn line_feed(&mut self, col: usize)
        requires
            old(self).wf(),
        ensures
            final(self).wf(),
            final(self)@ == old(self)@.line_fed(col as int),
            final(self).last_output_time == old(self).last_output_time,
            final(self).command_results@ == old(self).command_results@,
    {
        if self.using_alternate {
            let mut gone: VecDeque<Vec<Cell>> = VecDeque::new();
            self.alternate.line_feed(col, &mut gone);
        } else {
            self.primary.line_feed(col, &mut self.scrollback);
        }
    }

    /// Notes a bell.
    fn ring(&mut self)
        requires
            old(self).wf(),
        ensures
            final(self).wf(),
            final(self)@ == old(self)@.executed(BELL),
            final(self).last_output_time == old(self).last_output_time,
            final(self).command_results@ == old(self).command_results@,
    {
        let ghost before = self.osc_actions@;
        self.osc_actions.push(OscAction::Bell);
        assert(osc_views(self.osc_actions@) =~= osc_views(before).push(OscView::Bell));
    }

    /// Steps one column back.
    fn backspace(&mut self)
        requires
            old(self).wf(),
        ensures
            final(self).wf(),
            final(self)@ == old(self)@.executed(BACKSPACE),
            final(self).last_output_time == old(self).last_output_time,
            final(self).command_results@ == old(self).command_results@,
    {
        let none: Vec<Vec<u16>> = Vec::new();
        assert(inner(none@) =~= Seq::<Seq<u16>>::empty());
        self.active_control(&none, 'D');
        if self.is_capturing() {
            if let Some(pending) = &mut self.pending_command {
                pending.backspace();
            }
        }
    }

    /// Goes to the next tabulator stop.
    fn tab(&mut self)
        requires
            old(self).wf(),
        ensures
            final(self).wf(),
            final(self)@ == old(self)@.executed(TAB),
            final(self).last_output_time == old(self).last_output_time,
            final(self).command_results@ == old(self).command_results@,
    {
        if self.using_alternate {
            self.alternate.tab();
        } else {
            self.primary.tab();
        }
        self.capture_char('\t');
    }

    /// Goes to the start of the line.
    fn carriage_return(&mut self)
        requires
            old(self).wf(),
        ensures
            final(self).wf(),
            final(self)@ == old(self)@.executed(CARRIAGE_RETURN),
            final(self).last_output_time == old(self).last_output_time,
            final(self).command_results@ == old(self).command_results@,
    {
        if self.using_alternate {
            self.alternate.cursor.col = 0;
        } else {
            self.primary.cursor.col = 0;
        }
        if self.is_capturing() {
            if let Some(pending) = &mut self.pending_command {
                pending.carriage_return();
            }
        }
    }

    /// Executes a control character.
    fn execute(&mut self, byte: u8)
        requires
            old(self).wf(),
        ensures
            final(self).wf(),
            final(self)@ == old(self)@.executed(byte),
            final(self).last_output_time == old(self).last_output_time,
            final(self).command_results@ == old(self).command_results@,
    {
        if byte == BELL {
            self.ring();
        } else if byte == BACKSPACE {
            self.backspace();
        } else if byte == TAB {
            self.tab();
        } else if LINE_FEED <= byte && byte <= FORM_FEED {
            self.line_feed(self.cursor_position().1);
            self.capture_char('\n');
        } else if byte == CARRIAGE_RETURN {
            self.carriage_return();
        }
    }

    /// Obeys a control sequence that concerns the grid.
    fn active_control(&mut self, params: &Vec<Vec<u16>>, action: char)
        requires
            old(self).wf(),
        ensures
            final(self).wf(),
            final(self)@ == old(self)@.with_active(
                old(self)@.active().controlled(inner(params@), action),
            ),
            final(self).last_output_time == old(self).last_output_time,
            final(self).command_results@ == old(self).command_results@,
    {
        if self.using_alternate {
            self.alternate.control(params, action);
        } else {
            self.primary.control(params, action);
        }
    }

    /// Saves the cursor.
    fn save_cursor(&mut self)
        requires
            old(self).wf(),
        ensures
            final(self).wf(),
            final(self)@ == old(self)@.escaped(SAVE_CURSOR),
            final(self).last_output_time == old(self).last_output_time,
            final(self).command_results@ == old(self).command_results@,
    {
        self.saved_cursor = Some(
            if self.using_alternate {
                self.alternate.cursor
            } else {
                self.primary.cursor
            },
        );
    }

    /// Puts the cursor back where it was saved.
    fn restore_cursor(&mut self)
        requires
            old(self).wf(),
        ensures
            final(self).wf(),
            final(self)@ == old(self)@.escaped(RESTORE_CURSOR),
            final(self).last_output_time == old(self).last_output_time,
            final(self).command_results@ == old(self).command_results@,
    {
        if let Some(cursor) = self.saved_cursor {
            if self.using_alternate {
                self.alternate.cursor = cursor;
            } else {
                self.primary.cursor = cursor;
            }
        }
    }

    /// Feeds a line backwards.
    fn reverse_line_feed(&mut self)
        requires
            old(self).wf(),
        ensures
            final(self).wf(),
            final(self)@ == old(self)@.escaped(REVERSE_INDEX),
            final(self).last_output_time == old(self).last_output_time,
            final(self).command_results@ == old(self).command_results@,
    {
        if self.using_alternate {
            self.alternate.reverse_line_feed();
        } else {
            self.primary.reverse_line_feed();
        }
    }

    /// Obeys an escape sequence without intermediate bytes.
    fn escape(&mut self, byte: u8)
        requires
            old(self).wf(),
        ensures
            final(self).wf(),
            final(self)@ == old(self)@.escaped(byte),
            final(self).last_output_time == old(self).last_output_time,
            final(self).command_results@ == old(self).command_results@,
    {
        if byte == SAVE_CURSOR {
            self.save_cursor();
        } else if byte == RESTORE_CURSOR {
            self.restore_cursor();
        } else if byte == INDEX {
            self.line_feed(self.cursor_position().1);
        } else if byte == NEXT_LINE {
            self.line_feed(0);
        } else if byte == REVERSE_INDEX {
            self.reverse_line_feed();
        } else if byte == KEYPAD_ON {
            self.private_modes.keypad = true;
        } else if byte == KEYPAD_OFF {
            self.private_modes.keypad = false;
        }
    }

    /// Switches a private mode on or off.
    fn set_mode(&mut self, mode: u16, on: bool)
        requires
            old(self).wf(),
        ensures
            final(self).wf(),
            final(self)@ == old(self)@.with_mode(mode, on),
            final(self).last_output_time == old(self).last_output_time,
            final(self).command_results@ == old(self).command_results@,
    {
        if mode == 2026 {
            self.sync_events.push(
                if on {
                    SyncEvent::Start
                } else {
                    SyncEvent::Stop
                },
            );
        } else if mode == 47 || mode == 1047 || mode == 1049 {
            self.pending_switch = Some(on);
        } else {
            self.private_modes.set(mode, on);
        }
    }

    /// Switches private modes on or off.
    fn set_modes(&mut self, params: &Vec<Vec<u16>>, on: bool)
        requires
            old(self).wf(),
        ensures
            final(self).wf(),
            final(self)@ == old(self)@.with_modes(inner(params@), on),
            final(self).last_output_time == old(self).last_output_time,
            final(self).command_results@ == old(self).command_results@,
    {
        let ghost start = self@;
        let ghost all = inner(params@);
        let mut i: usize = 0;
        assert(all.take(0) =~= Seq::<Seq<u16>>::empty());
        while i < params.len()
            invariant
                i <= params.len(),
                all == inner(params@),
                self.wf(),
                self@ == start.with_modes(all.take(i as int), on),
                self.last_output_time == old(self).last_output_time,
                self.command_results@ == old(self).command_results@,
            decreases params.len() - i,
        {
            proof {
                let next = all.take(i + 1);
                assert(next.drop_last() =~= all.take(i as int));
                assert(next[i as int] == all[i as int]);
            }
            self.set_mode(read_number(params, i), on);
            i += 1;
        }
        assert(all.take(i as int) =~= all);
    }

    /// Obeys a control sequence.
    fn control(&mut self, params: &Vec<Vec<u16>>, intermediates: &Vec<u8>, action: char)
        requires
            old(self).wf(),
        ensures
            final(self).wf(),
            final(self)@ == old(self)@.controlled(inner(params@), intermediates@, action),
            final(self).last_output_time == old(self).last_output_time,
            final(self).command_results@ == old(self).command_results@,
    {
        if intermediates.is_empty() {
            self.active_control(params, action);
        } else if is_word(intermediates.as_slice(), "?") && action == 'h' {
            self.set_modes(params, true);
        } else if is_word(intermediates.as_slice(), "?") && action == 'l' {
            self.set_modes(params, false);
        } else if is_word(intermediates.as_slice(), "!") && action == 'p' {
            self.private_modes.soft_reset();
        }
    }

    /// Notes a request for attention.
    fn notify(&mut self, title: Option<String>, body: String)
        requires
            old(self).wf(),
        ensures
            final(self).wf(),
            final(self)@ == (ScreenView {
                osc_actions: old(self)@.osc_actions.push(
                    OscAction::Notify { title, body }@,
                ),
                ..old(self)@
            }),
            final(self).last_output_time == old(self).last_output_time,
            final(self).command_results@ == old(self).command_results@,
    {
        let ghost before = self.osc_actions@;
        self.osc_actions.push(OscAction::Notify { title, body });
        assert(osc_views(self.osc_actions@) =~= osc_views(before).push(
            self.osc_actions@.last()@,
        ));
    }

    /// Notes that a command starts to run.
    fn start_command(&mut self)
        requires
            old(self).wf(),
        ensures
            final(self).wf(),
            final(self)@ == old(self)@.started(),
            final(self).last_output_time == old(self).last_output_time,
            final(self).command_results@ == old(self).command_results@,
    {
        if let Some(pending) = &mut self.pending_command {
            pending.clear();
            self.command_state = CommandState::Executing;
            self.shell_integration = true;
        } else {
            self.shell_integration = false;
        }
    }

    /// Notes that a command has ended.
    fn end_command(&mut self, fields: &Vec<Vec<u8>>)
        requires
            old(self).wf(),
        ensures
            final(self).wf(),
            final(self)@ == old(self)@.ended(field_at(inner(fields@), 2)),
            final(self).last_output_time == old(self).last_output_time,
            queue_grown(
                old(self).command_results@,
                final(self).command_results@,
                old(self)@.pending,
            ),
    {
        self.shell_integration = true;
        if let Some(pending) = self.pending_command.take() {
            let completed = pending.complete(read_status(fields, 2), "shell_integration");
            proof {
                lemma_queue_pushed(self.command_results@, completed, old(self)@.pending);
            }
            self.command_results.push(completed);
            self.command_state = CommandState::Idle;
        } else {
            proof {
                lemma_queue_same(self.command_results@, old(self)@.pending);
            }
        }
    }

    /// Obeys a mark of the shell.
    fn mark(&mut self, fields: &Vec<Vec<u8>>)
        requires
            old(self).wf(),
        ensures
            final(self).wf(),
            final(self)@ == old(self)@.marked(
                field_at(inner(fields@), 1),
                field_at(inner(fields@), 2),
            ),
            final(self).last_output_time == old(self).last_output_time,
            queue_grown(
                old(self).command_results@,
                final(self).command_results@,
                old(self)@.pending,
            ),
    {
        proof {
            lemma_queue_same(self.command_results@, self@.pending);
        }
        if is_field(fields, 1, "A") {
            self.command_state = CommandState::Idle;
        } else if is_field(fields, 1, "C") {
            self.start_command();
        } else if is_field(fields, 1, "D") {
            self.end_command(fields);
        }
    }

    /// Obeys an operating system command.
    fn command(&mut self, fields: &Vec<Vec<u8>>)
        requires
            old(self).wf(),
        ensures
            final(self).wf(),
            final(self)@ == old(self)@.commanded(inner(fields@)),
            final(self).last_output_time == old(self).last_output_time,
            queue_grown(
                old(self).command_results@,
                final(self).command_results@,
                old(self)@.pending,
            ),
    {
        proof {
            lemma_queue_same(self.command_results@, self@.pending);
        }
        if is_field(fields, 0, "9") && fields.len() > 1 {
            let body = join_from(fields, 1);
            self.notify(None, decode_lossy(body.as_slice()));
        } else if is_field(fields, 0, "777") && is_field(fields, 1, "notify") && fields.len() > 2 {
            let title = decode_lossy(fields[2].as_slice());
            let body = join_from(fields, 3);
            self.notify(Some(title), decode_lossy(body.as_slice()));
        } else if is_field(fields, 0, "133") {
            self.mark(fields);
        }
    }

    /// Performs one action.
    pub fn perform(&mut self, action: &Action)
        requires
            old(self).wf(),
        ensures
            final(self).wf(),
            final(self)@ == old(self)@.performed(action@),
            final(self).last_output_time == old(self).last_output_time,
            queue_grown(
                old(self).command_results@,
                final(self).command_results@,
                old(self)@.pending,
            ),
    {
        proof {
            lemma_queue_same(self.command_results@, self@.pending);
        }
        match action {
            Action::Print(c) => self.print(*c),
            Action::Execute(byte) => self.execute(*byte),
            Action::Csi { params, intermediates, ignore, action } => if !*ignore {
                self.control(params, intermediates, *action);
            },
            Action::Esc { intermediates, ignore, byte } => if !*ignore && intermediates.is_empty() {
                self.escape(*byte);
            },
            Action::Osc { fields, bell_terminated: _ } => self.command(fields),
        }
    }

    /// Performs some actions, one after the other.
    pub fn perform_all(&mut self, actions: &Vec<Action>)
        requires
            old(self).wf(),
        ensures
            final(self).wf(),
            final(self)@ == old(self)@.performed_all(action_views(actions@)),
            final(self).last_output_time == old(self).last_output_time,
            queue_grown(
                old(self).command_results@,
                final(self).command_results@,
                old(self)@.pending,
            ),
    {
        let ghost start = self@;
        let ghost all = action_views(actions@);
        let mut i: usize = 0;
        proof {
            lemma_queue_same(self.command_results@, start.pending);
        }
        assert(all.take(0) =~= Seq::<ActionView>::empty());
        while i < actions.len()
            invariant
                i <= actions.len(),
                all == action_views(actions@),
                self.wf(),
                start == old(self)@,
                self@ == start.performed_all(all.take(i as int)),
                self.last_output_time == old(self).last_output_time,
                queue_grown(
                    old(self).command_results@,
                    self.command_results@,
                    old(self)@.pending,
                ),
            decreases actions.len() - i,
        {
            let ghost queue = self.command_results@;
            let ghost running = self@.pending;
            proof {
                lemma_actions_start(start, all.take(i as int));
                let next = all.take(i + 1);
                assert(next.drop_last() =~= all.take(i as int));
                assert(next.last() == actions@[i as int]@);
            }
            self.perform(&actions[i]);
            proof {
                lemma_queue_again(
                    old(self).command_results@,
                    queue,
                    self.command_results@,
                    start.pending,
                    running,
                );
            }
            i += 1;
        }
        assert(all.take(i as int) =~= all);
    }

    /// Makes the change of screens that was asked for.
    pub fn settle(&mut self)
        requires
            old(self).wf(),
        ensures
            final(self).wf(),
            final(self)@ == old(self)@.settled(),
            final(self).last_output_time == old(self).last_output_time,
            final(self).command_results@ == old(self).command_results@,
    {
        let asked = self.pending_switch;
        self.pending_switch = None;
        if let Some(enter) = asked {
            if enter && !self.using_alternate {
                self.saved_cursor = Some(self.primary.cursor);
                self.alternate = ScreenBuffer::new(self.cols, self.rows);
                self.using_alternate = true;
            } else if !enter && self.using_alternate {
                if let Some(cursor) = self.saved_cursor {
                    self.primary.cursor = cursor;
                }
                self.using_alternate = false;
            }
        }
    }

    /// Takes output of the terminal in.
    pub fn feed(&mut self, data: &[u8])
        requires
            old(self).wf(),
        ensures
            final(self).wf(),
            final(self)@ == old(self)@.fed(data@),
            final(self).last_output_time is Some,
            call_ensures(Instant::now, (), final(self).last_output_time->0),
            queue_extended(
                old(self).command_results@,
                final(self).command_results@,
                old(self)@.pending,
            ),
    {
        self.last_output_time = Some(Instant::now());
        let ghost start = self@;
        let mut i: usize = 0;
        proof {
            lemma_queue_same(self.command_results@, start.pending);
        }
        assert(data@.take(0) =~= Seq::<u8>::empty());
        while i < data.len()
            invariant
                i <= data.len(),
                self.wf(),
                start == old(self)@,
                self@ == start.fed(data@.take(i as int)),
                self.last_output_time is Some,
                call_ensures(Instant::now, (), self.last_output_time->0),
                queue_grown(
                    old(self).command_results@,
                    self.command_results@,
                    old(self)@.pending,
                ),
            decreases data.len() - i,
        {
            let ghost before = self@;
            let ghost queue = self.command_results@;
            let mut sink = ActionSink { actions: Vec::new() };
            assert(action_views(sink.actions@) =~= Seq::<ActionView>::empty());
            advance(&mut self.parser, &mut sink, data[i]);
            assert(action_views(sink.actions@) =~= vte_actions(before.input, data@[i as int]));
            self.perform_all(&sink.actions);
            self.settle();
            proof {
                lemma_output_start(start, data@.take(i as int));
                lemma_queue_again(
                    old(self).command_results@,
                    queue,
                    self.command_results@,
                    start.pending,
                    before.pending,
                );
                let next = data@.take(i + 1);
                assert(next.drop_last() =~= data@.take(i as int));
                assert(next.last() == data@[i as int]);
            }
            i += 1;
        }
        assert(data@.take(i as int) =~= data@);
        reveal(queue_grown);
    }
}

} // verus!
