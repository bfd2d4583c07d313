//! A virtual screen: what a terminal shows, and the command that runs in it.
use std::collections::VecDeque;
use std::time::Instant;
use tokio::sync::oneshot::{Receiver, Sender};
use vstd::prelude::*;

use crate::capture::{
    CaptureView, CommandResult, CommandState, CompletedCommand, CompletedView, PendingCommand,
};
use crate::clock::{lasted_since, millis_since, reads_since};
use crate::grid::{
    cells_wf, history_append, row_views, Cell, CursorState, CursorView, GridView, ScreenBuffer,
    SCROLLBACK_LIMIT,
};
use crate::laws::same_start;
use crate::modes::PrivateModes;
use crate::parser::{new_parser, parser_input};
use crate::prompt::{at_pattern, at_prompt, read_cursor_line, PromptPatterns};
use crate::waiter::{delivered, hand_over, new_waiter, oneshot_pair};

verus! {

/// A frame of synchronized output has started or stopped.
#[derive(Clone, Copy, Debug, PartialEq, Eq, Structural)]
pub enum SyncEvent {
    Start,
    Stop,
}

/// The terminal asks for attention.
#[derive(Clone, Debug, PartialEq, Eq)]
pub enum OscAction {
    Bell,
    Notify { title: Option<String>, body: String },
}

/// The plain values of an [`OscAction`].
pub enum OscView {
    Bell,
    Notify { title: Option<Seq<char>>, body: Seq<char> },
}

impl View for OscAction {
    type V = OscView;

    open spec fn view(&self) -> OscView {
        match *self {
            OscAction::Bell => OscView::Bell,
            OscAction::Notify { title, body } => OscView::Notify {
                title: match title {
                    Some(title) => Some(title@),
                    None => None,
                },
                body: body@,
            },
        }
    }
}

/// A screen with its history, its modes and the command that runs in it.
pub struct VirtualScreen {
    pub primary: ScreenBuffer,
    pub alternate: ScreenBuffer,
    pub using_alternate: bool,
    pub scrollback: VecDeque<Vec<Cell>>,
    pub parser: vte::Parser,
    pub cols: usize,
    pub rows: usize,
    pub saved_cursor: Option<CursorState>,
    /// A change of screens that was asked for and not made yet.
    pub pending_switch: Option<bool>,
    pub command_state: CommandState,
    pub pending_command: Option<PendingCommand>,
    pub command_results: Vec<CompletedCommand>,
    /// Whether marks of execution come from the shell. No caller sets this.
    pub shell_integration: bool,
    /// When output came last.
    pub last_output_time: Option<Instant>,
    pub sync_events: Vec<SyncEvent>,
    pub osc_actions: Vec<OscAction>,
    pub private_modes: PrivateModes,
    /// The patterns of prompts, once they were needed.
    pub prompt_patterns: Option<PromptPatterns>,
}

/// The plain values of a [`PendingCommand`].
#[verifier::ext_equal]
pub struct PendingView {
    pub start_time: Instant,
    pub capture: CaptureView,
    pub waiter: Option<Sender<CommandResult>>,
}

/// The plain values of a [`VirtualScreen`], but for the time of its last
/// output.
#[verifier::ext_equal]
pub struct ScreenView {
    pub primary: GridView,
    pub alternate: GridView,
    pub using_alternate: bool,
    pub scrollback: Seq<Seq<Cell>>,
    pub input: Seq<u8>,
    pub cols: int,
    pub rows: int,
    pub saved_cursor: Option<CursorView>,
    pub pending_switch: Option<bool>,
    pub command_state: CommandState,
    pub pending: Option<PendingView>,
    pub results: Seq<CompletedView>,
    pub shell_integration: bool,
    pub sync_events: Seq<SyncEvent>,
    pub osc_actions: Seq<OscView>,
    pub private_modes: PrivateModes,
}

impl View for PendingCommand {
    type V = PendingView;

    open spec fn view(&self) -> PendingView {
        PendingView { start_time: self.start_time, capture: self.capture(), waiter: self.waiter }
    }
}

/// The plain values of completed commands.
pub open spec fn completed_views(completed: Seq<CompletedCommand>) -> Seq<CompletedView> {
    Seq::new(completed.len(), |i: int| completed[i]@)
}

/// The plain values of requests for attention.
pub open spec fn osc_views(actions: Seq<OscAction>) -> Seq<OscView> {
    Seq::new(actions.len(), |i: int| actions[i]@)
}

/// Whether a queue of results is as it was but for results at its end, each of
/// the command that was running, with the time since that command was sent.
pub open spec fn queue_extended(
    before: Seq<CompletedCommand>,
    after: Seq<CompletedCommand>,
    pending: Option<PendingView>,
) -> bool {
    &&& before.len() <= after.len()
    &&& after.take(before.len() as int) == before
    &&& forall|i: int|
        before.len() <= i < after.len() ==> pending is Some && lasted_since(
            pending->0.start_time,
            (#[trigger] after[i]).result.duration_ms,
        )
}

/// The same, folded up.
#[verifier::opaque]
pub open spec fn queue_grown(
    before: Seq<CompletedCommand>,
    after: Seq<CompletedCommand>,
    pending: Option<PendingView>,
) -> bool {
    queue_extended(before, after, pending)
}

/// A queue that stays as it is has nothing at its end.
pub(crate) proof fn lemma_queue_same(queue: Seq<CompletedCommand>, pending: Option<PendingView>)
    ensures
        queue_grown(queue, queue, pending),
{
    reveal(queue_grown);
    assert(queue.take(queue.len() as int) =~= queue);
}

/// A queue that gets one result of the running command.
pub(crate) proof fn lemma_queue_pushed(
    queue: Seq<CompletedCommand>,
    completed: CompletedCommand,
    pending: Option<PendingView>,
)
    requires
        pending is Some,
        lasted_since(pending->0.start_time, completed.result.duration_ms),
    ensures
        queue_grown(queue, queue.push(completed), pending),
        completed_views(queue.push(completed)) == completed_views(queue).push(completed@),
{
    reveal(queue_grown);
    assert(queue.push(completed).take(queue.len() as int) =~= queue);
    assert(completed_views(queue.push(completed)) =~= completed_views(queue).push(completed@));
}

/// A queue that is extended twice, while no other command runs.
pub(crate) proof fn lemma_queue_again(
    first: Seq<CompletedCommand>,
    second: Seq<CompletedCommand>,
    third: Seq<CompletedCommand>,
    pending: Option<PendingView>,
    later: Option<PendingView>,
)
    requires
        queue_grown(first, second, pending),
        queue_grown(second, third, later),
        same_start(pending, later),
    ensures
        queue_grown(first, third, pending),
{
    reveal(queue_grown);
    assert(third.take(first.len() as int) =~= second.take(first.len() as int));
    assert forall|i: int| first.len() <= i < third.len() implies pending is Some && lasted_since(
        pending->0.start_time,
        (#[trigger] third[i]).result.duration_ms,
    ) by {
        if i < second.len() {
            assert(third.take(second.len() as int)[i] == second[i]);
        }
    }
}

impl View for VirtualScreen {
    type V = ScreenView;

    open spec fn view(&self) -> ScreenView {
        ScreenView {
            primary: self.primary@,
            alternate: self.alternate@,
            using_alternate: self.using_alternate,
            scrollback: row_views(self.scrollback@),
            input: parser_input(self.parser),
            cols: self.cols as int,
            rows: self.rows as int,
            saved_cursor: match self.saved_cursor {
                Some(cursor) => Some(cursor@),
                None => None,
            },
            pending_switch: self.pending_switch,
            command_state: self.command_state,
            pending: match self.pending_command {
                Some(pending) => Some(pending@),
                None => None,
            },
            results: completed_views(self.command_results@),
            shell_integration: self.shell_integration,
            sync_events: self.sync_events@,
            osc_actions: osc_views(self.osc_actions@),
            private_modes: self.private_modes,
        }
    }
}

/// For how many milliseconds no output must have come before a prompt counts.
pub const QUIET_MS: u128 = 100;

impl ScreenView {
    /// Both grids are well formed and of the size of the screen, and the
    /// history keeps to its limit.
    pub open spec fn wf(self) -> bool {
        &&& self.primary.wf()
        &&& self.alternate.wf()
        &&& self.primary.cols == self.cols
        &&& self.primary.rows == self.rows
        &&& self.alternate.cols == self.cols
        &&& self.alternate.rows == self.rows
        &&& cells_wf(self.scrollback)
        &&& self.scrollback.len() <= SCROLLBACK_LIMIT
    }

    /// A screen on which nothing has happened.
    pub open spec fn fresh(cols: int, rows: int) -> ScreenView {
        ScreenView {
            primary: GridView::empty(cols, rows),
            alternate: GridView::empty(cols, rows),
            using_alternate: false,
            scrollback: Seq::empty(),
            input: Seq::empty(),
            cols,
            rows,
            saved_cursor: None,
            pending_switch: None,
            command_state: CommandState::Idle,
            pending: None,
            results: Seq::empty(),
            shell_integration: false,
            sync_events: Seq::empty(),
            osc_actions: Seq::empty(),
            private_modes: PrivateModes::off(),
        }
    }

    /// The grid that is shown.
    pub open spec fn active(self) -> GridView {
        if self.using_alternate {
            self.alternate
        } else {
            self.primary
        }
    }

    /// With a command that has just been sent.
    pub open spec fn tracking(
        self,
        start_time: Instant,
        waiter: Option<Sender<CommandResult>>,
    ) -> ScreenView {
        ScreenView {
            command_state: CommandState::CommandStart,
            pending: Some(PendingView { start_time, capture: CaptureView::nothing(), waiter }),
            ..self
        }
    }

    /// With the running command given up.
    pub open spec fn abandoned(self) -> ScreenView {
        ScreenView { command_state: CommandState::Idle, pending: None, ..self }
    }

    /// With the running command ended, and its result in the queue.
    pub open spec fn completed(
        self,
        exit_code: int,
        method: Seq<char>,
        stdout: Seq<char>,
    ) -> ScreenView {
        ScreenView {
            command_state: CommandState::Idle,
            pending: None,
            results: self.results.push(
                CompletedView { exit_code, method, stdout, waiter: self.pending->0.waiter },
            ),
            ..self
        }
    }

    /// Whether a prompt would end the running command: it has printed
    /// something, and its shell sends no marks.
    pub open spec fn awaits_prompt(self) -> bool {
        &&& !self.shell_integration
        &&& self.pending is Some
        &&& self.pending->0.capture.text().len() > 0
    }

    /// With the running command ended by a prompt, which is no part of its
    /// text. At a marked prompt the text was complete before.
    pub open spec fn ended_by_prompt(self) -> ScreenView {
        let capture = self.pending->0.capture;
        self.completed(
            -1,
            "prompt_detection"@,
            if self.command_state != CommandState::Idle {
                capture.without_line().text()
            } else {
                capture.text()
            },
        )
    }

    /// In another size. Rows that leave the primary grid at the top go to the
    /// history.
    pub open spec fn resized(self, cols: int, rows: int) -> ScreenView {
        ScreenView {
            primary: self.primary.resized(cols, rows),
            alternate: self.alternate.resized(cols, rows),
            scrollback: history_append(
                self.scrollback,
                self.primary.cells.take(self.primary.shifted_rows(rows)),
            ),
            cols,
            rows,
            ..self
        }
    }
}

impl VirtualScreen {
    /// The screen and the running command are well formed.
    pub open spec fn wf(&self) -> bool {
        &&& self@.wf()
        &&& self.pending_command matches Some(pending) ==> pending.wf()
    }

    /// An empty screen.
    pub fn new(cols: usize, rows: usize) -> (screen: Self)
        requires
            rows > 0,
        ensures
            screen.wf(),
            screen@ == ScreenView::fresh(cols as int, rows as int),
            screen.last_output_time is None,
    {
        let screen = VirtualScreen {
            primary: ScreenBuffer::new(cols, rows),
            alternate: ScreenBuffer::new(cols, rows),
            using_alternate: false,
            scrollback: VecDeque::new(),
            parser: new_parser(),
            cols,
            rows,
            saved_cursor: None,
            pending_switch: None,
            command_state: CommandState::Idle,
            pending_command: None,
            command_results: Vec::new(),
            shell_integration: false,
            last_output_time: None,
            sync_events: Vec::new(),
            osc_actions: Vec::new(),
            private_modes: PrivateModes::default(),
            prompt_patterns: None,
        };
        assert(screen@ =~= ScreenView::fresh(cols as int, rows as int));
        screen
    }

    /// Starts tracking a command that was sent to the terminal.
    pub fn begin_command_tracking(&mut self)
        requires
            old(self).wf(),
        ensures
            final(self).wf(),
            final(self).pending_command is Some,
            final(self)@ == old(self)@.tracking(final(self).pending_command->0.start_time, None),
            call_ensures(Instant::now, (), final(self).pending_command->0.start_time),
            final(self).last_output_time is None,
            final(self).command_results@ == old(self).command_results@,
    {
        let mut pending = PendingCommand {
            start_time: Instant::now(),
            output_buf: Vec::new(),
            output_cursor: 0,
            waiter: None,
        };
        pending.clear();
        self.command_state = CommandState::CommandStart;
        self.pending_command = Some(pending);
        self.last_output_time = None;
    }

    /// Reserves the pane for one command, before its input is written. The
    /// pane stays reserved until that command has ended.
    ///
    /// # Errors
    /// Refuses while an earlier command has not ended.
    pub fn begin_execution(&mut self) -> (reserved: Result<Receiver<CommandResult>, String>)
        requires
            old(self).wf(),
        ensures
            final(self).wf(),
            match reserved {
                Ok(receiver) => {
                    &&& old(self)@.pending is None
                    &&& final(self).pending_command is Some
                    &&& final(self).pending_command->0.waiter is Some
                    &&& oneshot_pair(final(self).pending_command->0.waiter->0, receiver)
                    &&& final(self)@ == old(self)@.tracking(
                        final(self).pending_command->0.start_time,
                        final(self).pending_command->0.waiter,
                    )
                    &&& call_ensures(Instant::now, (), final(self).pending_command->0.start_time)
                    &&& final(self).last_output_time is None
                    &&& final(self).command_results@ == old(self).command_results@
                },
                Err(message) => {
                    &&& old(self)@.pending is Some
                    &&& message@ == "Pane is busy: the previous command has not completed"@
                    &&& *final(self) == *old(self)
                },
            },
    {
        if self.pending_command.is_some() {
            return Err("Pane is busy: the previous command has not completed".to_owned());
        }
        let (sender, receiver) = new_waiter();
        self.begin_command_tracking();
        if let Some(mut pending) = self.pending_command.take() {
            pending.waiter = Some(sender);
            self.pending_command = Some(pending);
        }
        Ok(receiver)
    }

    /// Gives the running command up. To be used only when its input was never
    /// delivered, or the terminal has closed.
    pub fn abandon_execution(&mut self)
        requires
            old(self).wf(),
        ensures
            final(self).wf(),
            final(self)@ == old(self)@.abandoned(),
            final(self).last_output_time == old(self).last_output_time,
            final(self).command_results@ == old(self).command_results@,
    {
        self.pending_command = None;
        self.command_state = CommandState::Idle;
    }

    /// The result of a command that has not ended `millis` milliseconds after
    /// it was sent. The command keeps its pane.
    pub fn command_timeout_after(&self, millis: u128) -> (result: CommandResult)
        requires
            self.wf(),
        ensures
            result.exit_code == -1,
            result.method@ == "timeout"@,
            result.stdout@ == match self@.pending {
                Some(pending) => pending.capture.text(),
                None => Seq::empty(),
            },
            result.duration_ms == if self@.pending is Some {
                millis as u64
            } else {
                0
            },
    {
        match &self.pending_command {
            Some(pending) => CommandResult {
                exit_code: -1,
                duration_ms: millis as u64,
                method: "timeout".to_owned(),
                stdout: pending.collected(),
            },
            None => CommandResult {
                exit_code: -1,
                duration_ms: 0,
                method: "timeout".to_owned(),
                stdout: String::new(),
            },
        }
    }

    /// The result of a command that has not ended in time. The command keeps
    /// its pane.
    pub fn command_timeout(&self) -> (result: CommandResult)
        requires
            self.wf(),
        ensures
            result.exit_code == -1,
            result.method@ == "timeout"@,
            result.stdout@ == match self@.pending {
                Some(pending) => pending.capture.text(),
                None => Seq::empty(),
            },
            match self@.pending {
                Some(pending) => lasted_since(pending.start_time, result.duration_ms),
                None => result.duration_ms == 0,
            },
    {
        let millis: u128 = match &self.pending_command {
            Some(pending) => millis_since(&pending.start_time),
            None => 0,
        };
        self.command_timeout_after(millis)
    }

    /// For how many milliseconds no output has come, if any has come.
    fn silence_ms(&self) -> (silence: Option<u128>)
        ensures
            match self.last_output_time {
                Some(time) => silence is Some && reads_since(time, silence->0),
                None => silence is None,
            },
    {
        match &self.last_output_time {
            Some(time) => Some(millis_since(time)),
            None => None,
        }
    }

    /// Whether it is time to look for a prompt, when no output has come for
    /// `silence_ms` milliseconds.
    pub fn should_check_after(&self, silence_ms: Option<u128>) -> (check: bool)
        requires
            self.wf(),
        ensures
            check == (silence_ms is Some && silence_ms->0 >= QUIET_MS && self@.awaits_prompt()),
            check == (silence_ms is Some && silence_ms->0 >= 100 && self@.awaits_prompt()),
    {
        let quiet = match silence_ms {
            Some(silence) => silence >= QUIET_MS,
            None => false,
        };
        let printed = match &self.pending_command {
            Some(pending) => {
                proof {
                    pending.lemma_text_empty();
                }
                !pending.output_buf.is_empty()
            },
            None => false,
        };
        quiet && !self.shell_integration && printed
    }

    /// Whether it is time to look for a prompt: the command has printed
    /// something, its shell sends no marks, and no output has come for a while.
    pub fn should_check_prompt(&self) -> (check: bool)
        requires
            self.wf(),
        ensures
            match self.last_output_time {
                Some(time) => exists|silence: u128| #[trigger]
                    reads_since(time, silence) && check == (silence >= QUIET_MS
                        && self@.awaits_prompt()),
                None => !check,
            },
    {
        let silence = self.silence_ms();
        self.should_check_after(silence)
    }

    /// Ends the running command, if there is one, because a prompt was seen.
    pub fn end_at_prompt(&mut self)
        requires
            old(self).wf(),
        ensures
            final(self).wf(),
            final(self)@ == if old(self)@.pending is Some {
                old(self)@.ended_by_prompt()
            } else {
                ScreenView { command_state: CommandState::Idle, ..old(self)@ }
            },
            final(self).last_output_time == old(self).last_output_time,
            queue_extended(
                old(self).command_results@,
                final(self).command_results@,
                old(self)@.pending,
            ),
    {
        if let Some(mut pending) = self.pending_command.take() {
            if self.command_state != CommandState::Idle {
                pending.drop_line();
            }
            let completed = pending.complete(-1, "prompt_detection");
            proof {
                lemma_queue_pushed(self.command_results@, completed, old(self)@.pending);
                reveal(queue_grown);
            }
            self.command_results.push(completed);
        } else {
            proof {
                lemma_queue_same(self.command_results@, old(self)@.pending);
                reveal(queue_grown);
            }
        }
        self.command_state = CommandState::Idle;
    }

    /// Ends the running command if a prompt tells that it is over, when no
    /// output has come for `silence_ms` milliseconds.
    pub fn detect_prompt_after(&mut self, silence_ms: Option<u128>) -> (found: bool)
        requires
            old(self).wf(),
        ensures
            final(self).wf(),
            found == (silence_ms is Some && silence_ms->0 >= QUIET_MS
                && old(self)@.awaits_prompt() && at_prompt(old(self)@.active())),
            found == (silence_ms is Some && silence_ms->0 >= 100 && old(self)@.awaits_prompt()
                && at_prompt(old(self)@.active())),
            found == (silence_ms is Some && silence_ms->0 >= 100 && old(self)@.awaits_prompt()
                && at_pattern(old(self)@.active())),
            final(self)@ == if found {
                old(self)@.ended_by_prompt()
            } else {
                old(self)@
            },
            final(self).last_output_time == old(self).last_output_time,
            queue_extended(
                old(self).command_results@,
                final(self).command_results@,
                old(self)@.pending,
            ),
            !found ==> final(self).command_results@ == old(self).command_results@,
    {
        proof {
            lemma_queue_same(self.command_results@, self@.pending);
            reveal(queue_grown);
        }
        if !self.should_check_after(silence_ms) {
            return false;
        }
        let patterns = match self.prompt_patterns.take() {
            Some(patterns) => patterns,
            None => PromptPatterns::new(),
        };
        let buf = if self.using_alternate {
            &self.alternate
        } else {
            &self.primary
        };
        let prompt = if buf.cursor.row >= buf.rows {
            false
        } else {
            let line = read_cursor_line(buf);
            patterns.matches_prompt(line.as_str())
        };
        self.prompt_patterns = Some(patterns);
        if !prompt {
            return false;
        }
        self.end_at_prompt();
        true
    }

    /// Ends the running command if a prompt tells that it is over. A shell
    /// that sends marks is left to them, and so is one that still prints.
    pub fn detect_prompt(&mut self) -> (found: bool)
        requires
            old(self).wf(),
        ensures
            final(self).wf(),
            match old(self).last_output_time {
                Some(time) => exists|silence: u128| #[trigger]
                    reads_since(time, silence) && found == (silence >= QUIET_MS
                        && old(self)@.awaits_prompt() && at_prompt(old(self)@.active())) && found
                        == (silence >= 100 && old(self)@.awaits_prompt() && at_pattern(
                        old(self)@.active(),
                    )),
                None => !found,
            },
            final(self)@ == if found {
                old(self)@.ended_by_prompt()
            } else {
                old(self)@
            },
            final(self).last_output_time == old(self).last_output_time,
            queue_extended(
                old(self).command_results@,
                final(self).command_results@,
                old(self)@.pending,
            ),
            !found ==> final(self).command_results@ == old(self).command_results@,
    {
        let silence = self.silence_ms();
        self.detect_prompt_after(silence)
    }

    /// Takes the frames of synchronized output that have started or stopped.
    pub fn drain_sync_events(&mut self) -> (events: Vec<SyncEvent>)
        requires
            old(self).wf(),
        ensures
            final(self).wf(),
            events@ == old(self)@.sync_events,
            final(self)@ == (ScreenView { sync_events: Seq::empty(), ..old(self)@ }),
            final(self).last_output_time == old(self).last_output_time,
            final(self).command_results@ == old(self).command_results@,
    {
        let mut events: Vec<SyncEvent> = Vec::new();
        std::mem::swap(&mut events, &mut self.sync_events);
        events
    }

    /// Takes the requests for attention.
    pub fn drain_osc_actions(&mut self) -> (actions: Vec<OscAction>)
        requires
            old(self).wf(),
        ensures
            final(self).wf(),
            osc_views(actions@) == old(self)@.osc_actions,
            final(self)@ == (ScreenView { osc_actions: Seq::empty(), ..old(self)@ }),
            final(self).last_output_time == old(self).last_output_time,
            final(self).command_results@ == old(self).command_results@,
    {
        let mut actions: Vec<OscAction> = Vec::new();
        std::mem::swap(&mut actions, &mut self.osc_actions);
        assert(osc_views(self.osc_actions@) =~= Seq::empty());
        actions
    }

    /// Delivers each result once: to the caller that waits for it, and to the
    /// caller of this function.
    pub fn drain_command_results(&mut self) -> (results: Vec<CommandResult>)
        requires
            old(self).wf(),
        ensures
            final(self).wf(),
            results@.len() == old(self).command_results@.len(),
            forall|i: int|
                #![trigger results@[i]]
                0 <= i < results@.len() ==> results@[i]@ == old(
                    self,
                ).command_results@[i].result@,
            forall|i: int|
                #![trigger results@[i]]
                0 <= i < results@.len() ==> delivered(
                    old(self).command_results@[i].waiter,
                    results@[i]@,
                ),
            final(self)@ == (ScreenView { results: Seq::empty(), ..old(self)@ }),
            final(self).last_output_time == old(self).last_output_time,
    {
        let ghost all = self.command_results@;
        let mut queue: Vec<CompletedCommand> = Vec::new();
        std::mem::swap(&mut queue, &mut self.command_results);
        assert(completed_views(self.command_results@) =~= Seq::empty());
        let mut results: Vec<CommandResult> = Vec::new();
        for completed in it: queue
            invariant
                it.seq() == all,
                results@.len() == it.index(),
                forall|i: int|
                    #![trigger results@[i]]
                    0 <= i < results@.len() ==> results@[i]@ == all[i].result@,
                forall|i: int|
                    #![trigger results@[i]]
                    0 <= i < results@.len() ==> delivered(all[i].waiter, results@[i]@),
        {
            if let Some(waiter) = completed.waiter {
                let _ = hand_over(waiter, completed.result.clone());
            }
            results.push(completed.result);
        }
        results
    }

    /// Changes the size of the screen.
    pub fn resize(&mut self, cols: usize, rows: usize)
        requires
            old(self).wf(),
            cols > 0,
            rows > 0,
        ensures
            final(self).wf(),
            final(self)@ == old(self)@.resized(cols as int, rows as int),
            final(self).last_output_time == old(self).last_output_time,
            final(self).command_results@ == old(self).command_results@,
    {
        self.cols = cols;
        self.rows = rows;
        self.primary.resize(cols, rows, Some(&mut self.scrollback));
        self.alternate.resize(cols, rows, None);
    }

    /// Whether the shell marks where commands start and end.
    pub fn has_shell_integration(&self) -> (integrated: bool)
        ensures
            integrated == self@.shell_integration,
    {
        self.shell_integration
    }

    /// How many rows the history holds.
    pub fn scrollback_len(&self) -> (len: usize)
        ensures
            len == self@.scrollback.len(),
    {
        self.scrollback.len()
    }

    /// Whether the alternate screen is shown.
    pub fn is_using_alternate(&self) -> (alternate: bool)
        ensures
            alternate == self@.using_alternate,
    {
        self.using_alternate
    }

    /// The width of the screen.
    pub fn cols(&self) -> (cols: usize)
        ensures
            cols == self@.cols,
    {
        self.cols
    }

    /// The height of the screen.
    pub fn rows(&self) -> (rows: usize)
        ensures
            rows == self@.rows,
    {
        self.rows
    }

    /// The row and the column of the cursor.
    pub fn cursor_position(&self) -> (place: (usize, usize))
        ensures
            place.0 == self@.active().cursor.row,
            place.1 == self@.active().cursor.col,
    {
        let buf = if self.using_alternate {
            &self.alternate
        } else {
            &self.primary
        };
        (buf.cursor.row, buf.cursor.col)
    }
}

} // verus!
