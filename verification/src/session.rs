//! Running commands in a pane, one at a time, and collecting their results.
use std::time::Instant;
use tokio::sync::oneshot::Receiver;
use vstd::prelude::*;
use vstd::utf8::*;

use crate::capture::{CommandResult, CompletedCommand, CompletedView, ResultView};
use crate::clock::lasted_since;
use crate::screen::{PendingView, ScreenView, VirtualScreen};
use crate::waiter::{delivered, found_in, handed_over, look_in, oneshot_pair, Reply};

verus! {

/// Why a command was not run, or did not end.
#[derive(Debug)]
pub enum ExecuteError {
    /// An earlier command still holds the pane, even if its caller has given
    /// up.
    Busy,
    /// The terminal closed before the command was sent or had ended.
    Closed,
    /// The input could not be written; a part of it may have reached the
    /// shell.
    Write(String),
}

impl ExecuteError {
    /// What the error says.
    pub open spec fn says(self) -> Seq<char> {
        match self {
            ExecuteError::Busy => "Pane is busy: the previous command has not completed"@,
            ExecuteError::Closed => "Terminal closed before command completion"@,
            ExecuteError::Write(error) => "Write failed: "@ + error@,
        }
    }

    /// What the error says.
    pub fn message(&self) -> (message: String)
        ensures
            message@ == self.says(),
    {
        match self {
            ExecuteError::Busy => "Pane is busy: the previous command has not completed".to_owned(),
            ExecuteError::Closed => "Terminal closed before command completion".to_owned(),
            ExecuteError::Write(error) => {
                let mut message = "Write failed: ".to_owned();
                message.push_str(error.as_str());
                message
            },
        }
    }
}

/// What runs the shell of a pane.
#[derive(Clone, Copy, Debug, PartialEq, Eq, Structural)]
pub enum SessionBackend {
    /// A process on this machine.
    Local,
    /// A channel to another machine.
    Ssh,
    /// Nothing any more.
    Exited,
}

/// A pane, but for its screen.
#[derive(Debug)]
pub struct Session {
    pub backend: SessionBackend,
    /// Whether the end of the shell was noticed.
    pub exited: bool,
    /// Copies of results for the listeners of the session.
    pub pending_results: Vec<CommandResult>,
}

/// A command that is to be sent.
#[derive(Debug)]
pub struct Execution {
    /// The bytes to write.
    pub input: Vec<u8>,
    /// Where the result will come.
    pub receiver: Receiver<CommandResult>,
}

/// The plain values of some results.
pub open spec fn result_views(results: Seq<CommandResult>) -> Seq<ResultView> {
    Seq::new(results.len(), |i: int| results[i]@)
}

/// Whether the result at `i` of a drained queue has the right duration: one
/// that was queued before keeps its own, and one of the command that was
/// running has the time since that command was sent.
pub open spec fn is_dated(
    result: CommandResult,
    i: int,
    queued: Seq<CompletedCommand>,
    running: Option<PendingView>,
) -> bool {
    if i < queued.len() {
        result@ == queued[i].result@
    } else {
        running is Some && lasted_since(running->0.start_time, result.duration_ms)
    }
}

/// Whether the result at `i` of a drained queue tells how a command ended and
/// how long it took, and went to the caller that waits for it.
pub open spec fn reports(
    result: CommandResult,
    completed: CompletedView,
    i: int,
    queued: Seq<CompletedCommand>,
    running: Option<PendingView>,
) -> bool {
    &&& result.exit_code == completed.exit_code
    &&& result.method@ == completed.method
    &&& result.stdout@ == completed.stdout
    &&& delivered(completed.waiter, result@)
    &&& is_dated(result, i, queued, running)
}

/// Whether a caller whose time ran out is answered as it should be where its
/// receiver held `reply`: with the result that has come, with the end of the
/// terminal, or with what its command has printed so far.
pub open spec fn answers(
    screen: VirtualScreen,
    reply: Reply,
    outcome: Result<CommandResult, ExecuteError>,
) -> bool {
    match reply {
        Reply::Result(result) => outcome == Ok::<CommandResult, ExecuteError>(result),
        Reply::Closed => outcome == Err::<CommandResult, ExecuteError>(ExecuteError::Closed),
        Reply::Empty => {
            &&& outcome is Ok
            &&& outcome->Ok_0.exit_code == -1
            &&& outcome->Ok_0.method@ == "timeout"@
            &&& outcome->Ok_0.stdout@ == match screen@.pending {
                Some(pending) => pending.capture.text(),
                None => Seq::empty(),
            }
            &&& match screen@.pending {
                Some(pending) => lasted_since(pending.start_time, outcome->Ok_0.duration_ms),
                None => outcome->Ok_0.duration_ms == 0,
            }
        },
    }
}

impl Session {
    /// A session whose shell has just been started.
    pub fn new(backend: SessionBackend) -> (session: Session)
        ensures
            session.backend == backend,
            !session.exited,
            session.pending_results@.len() == 0,
    {
        Session { backend, exited: false, pending_results: Vec::new() }
    }

    /// Whether the terminal has closed.
    pub open spec fn closed(&self) -> bool {
        self.backend == SessionBackend::Exited || self.exited
    }

    /// Reserves the pane for a command and says what is to be written. The
    /// receiver is there before any input is.
    ///
    /// # Errors
    /// Refuses closed panes, and panes whose last command has not ended.
    pub fn start_execution(
        &self,
        screen: &mut VirtualScreen,
        command: &str,
    ) -> (started: Result<Execution, ExecuteError>)
        requires
            old(screen).wf(),
        ensures
            final(screen).wf(),
            match started {
                Ok(execution) => {
                    &&& !self.closed()
                    &&& old(screen)@.pending is None
                    &&& execution.input@ == encode_utf8(command@.push('\n'))
                    &&& final(screen).pending_command is Some
                    &&& final(screen).pending_command->0.waiter is Some
                    &&& oneshot_pair(
                        final(screen).pending_command->0.waiter->0,
                        execution.receiver,
                    )
                    &&& final(screen)@ == old(screen)@.tracking(
                        final(screen).pending_command->0.start_time,
                        final(screen).pending_command->0.waiter,
                    )
                    &&& call_ensures(
                        Instant::now,
                        (),
                        final(screen).pending_command->0.start_time,
                    )
                    &&& final(screen).last_output_time is None
                    &&& final(screen).command_results@ == old(screen).command_results@
                },
                Err(ExecuteError::Closed) => self.closed() && *final(screen) == *old(screen),
                Err(ExecuteError::Busy) => {
                    &&& !self.closed()
                    &&& old(screen)@.pending is Some
                    &&& *final(screen) == *old(screen)
                },
                Err(ExecuteError::Write(_)) => false,
            },
    {
        if self.backend == SessionBackend::Exited || self.exited {
            return Err(ExecuteError::Closed);
        }
        match screen.begin_execution() {
            Ok(receiver) => {
                let mut text = command.to_owned();
                text.push('\n');
                let mut input: Vec<u8> = Vec::new();
                input.extend_from_slice(text.as_str().as_bytes());
                assert(input@ =~= encode_utf8(command@.push('\n')));
                Ok(Execution { input, receiver })
            },
            Err(_) => Err(ExecuteError::Busy),
        }
    }

    /// What came of writing to the queue of a remote shell; there may be no
    /// queue any more.
    pub fn queue_result(queued: Option<Result<(), String>>) -> (written: Result<(), String>)
        ensures
            match queued {
                Some(queued) => written == queued,
                None => written is Err && written->Err_0@ == "SSH channel closed"@,
            },
    {
        match queued {
            Some(queued) => queued,
            None => Err("SSH channel closed".to_owned()),
        }
    }

    /// Goes on after the input was written, or not. What a queue refused has
    /// not reached the shell, so the pane is free again. A part of what could
    /// not be written to a local shell may have reached it, so the pane stays
    /// reserved.
    ///
    /// # Errors
    /// Passes on that the input could not be written.
    pub fn input_written(
        &self,
        screen: &mut VirtualScreen,
        written: Result<(), String>,
    ) -> (sent: Result<(), ExecuteError>)
        requires
            old(screen).wf(),
        ensures
            final(screen).wf(),
            match written {
                Ok(()) => sent is Ok && *final(screen) == *old(screen),
                Err(error) => {
                    &&& sent == Err::<(), ExecuteError>(ExecuteError::Write(error))
                    &&& self.backend == SessionBackend::Ssh ==> final(screen)@ == old(
                        screen,
                    )@.abandoned() && final(screen).last_output_time == old(
                        screen,
                    ).last_output_time && final(screen).command_results@ == old(
                        screen,
                    ).command_results@
                    &&& self.backend != SessionBackend::Ssh ==> *final(screen) == *old(screen)
                },
            },
    {
        match written {
            Ok(()) => Ok(()),
            Err(error) => {
                if self.backend == SessionBackend::Ssh {
                    screen.abandon_execution();
                }
                Err(ExecuteError::Write(error))
            },
        }
    }

    /// The outcome of waiting, where it ended in time: with a result, or
    /// because none will come.
    ///
    /// # Errors
    /// The terminal has closed if no result will come.
    pub fn replied(reply: Option<CommandResult>) -> (outcome: Result<CommandResult, ExecuteError>)
        ensures
            outcome == match reply {
                Some(result) => Ok::<CommandResult, ExecuteError>(result),
                None => Err(ExecuteError::Closed),
            },
    {
        match reply {
            Some(result) => Ok(result),
            None => Err(ExecuteError::Closed),
        }
    }

    /// The outcome of waiting, where time ran out and the receiver held
    /// `reply`. A result that came in the meantime still counts.
    ///
    /// # Errors
    /// The terminal has closed if no result will come.
    pub fn timed_out_with(
        screen: &VirtualScreen,
        reply: Reply,
    ) -> (outcome: Result<CommandResult, ExecuteError>)
        requires
            screen.wf(),
        ensures
            answers(*screen, reply, outcome),
    {
        match reply {
            Reply::Result(result) => Ok(result),
            Reply::Closed => Err(ExecuteError::Closed),
            Reply::Empty => Ok(screen.command_timeout()),
        }
    }

    /// The outcome of waiting, where time ran out. The screen is locked, so
    /// no result is delivered while this looks for one.
    ///
    /// # Errors
    /// The terminal has closed if no result will come.
    pub fn timed_out(
        screen: &VirtualScreen,
        receiver: &mut Receiver<CommandResult>,
    ) -> (outcome: Result<CommandResult, ExecuteError>)
        requires
            screen.wf(),
        ensures
            exists|reply: Reply| #[trigger]
                found_in(*old(receiver), reply) && answers(*screen, reply, outcome) && (
                reply matches Reply::Result(result) ==> forall|sender| #[trigger]
                    oneshot_pair(sender, *old(receiver)) ==> handed_over(sender, result@, true)),
    {
        let reply = look_in(receiver);
        Self::timed_out_with(screen, reply)
    }

    /// Takes the results of commands that have ended: each goes to the caller
    /// that waits for it, and a copy to the listeners of the session. The
    /// screen is locked, so the pane is freed and the result delivered at
    /// once.
    pub fn collect_command_results(&mut self, screen: &mut VirtualScreen)
        requires
            old(screen).wf(),
        ensures
            final(screen).wf(),
            final(screen)@ == (ScreenView { results: Seq::empty(), ..old(screen)@ }),
            final(screen).last_output_time == old(screen).last_output_time,
            final(self).backend == old(self).backend,
            final(self).exited == old(self).exited,
            result_views(final(self).pending_results@) == result_views(
                old(self).pending_results@,
            ) + Seq::new(
                old(screen).command_results@.len(),
                |i: int| old(screen).command_results@[i].result@,
            ),
            forall|i: int|
                #![trigger old(screen).command_results@[i]]
                0 <= i < old(screen).command_results@.len() ==> delivered(
                    old(screen).command_results@[i].waiter,
                    old(screen).command_results@[i].result@,
                ),
    {
        let ghost queued = screen.command_results@;
        let mut results = screen.drain_command_results();
        proof {
            assert forall|i: int| #![trigger queued[i]] 0 <= i < queued.len() implies delivered(
                queued[i].waiter,
                queued[i].result@,
            ) by {
                assert(results@[i]@ == queued[i].result@);
            }
        }
        let ghost before = self.pending_results@;
        let ghost drained = results@;
        self.pending_results.append(&mut results);
        assert(result_views(self.pending_results@) =~= result_views(before) + Seq::new(
            queued.len(),
            |i: int| queued[i].result@,
        )) by {
            assert(self.pending_results@ == before + drained);
        }
    }

    /// Notes that the shell has ended. A caller that still waits learns it.
    pub fn mark_exited(&mut self, screen: &mut VirtualScreen)
        requires
            old(screen).wf(),
        ensures
            final(screen).wf(),
            final(screen)@ == old(screen)@.abandoned(),
            final(screen).last_output_time == old(screen).last_output_time,
            final(screen).command_results@ == old(screen).command_results@,
            final(self).exited,
            final(self).backend == old(self).backend,
            final(self).pending_results == old(self).pending_results,
    {
        self.exited = true;
        screen.abandon_execution();
    }
}

/// Takes output of the terminal in, and the results that it brings.
pub fn feed(session: &mut Session, screen: &mut VirtualScreen, bytes: &[u8])
    requires
        old(screen).wf(),
    ensures
        final(screen).wf(),
        final(screen)@ == (ScreenView { results: Seq::empty(), ..old(screen)@.fed(bytes@) }),
        final(screen).last_output_time is Some,
        call_ensures(Instant::now, (), final(screen).last_output_time->0),
        final(session).backend == old(session).backend,
        final(session).exited == old(session).exited,
        ({
            let ended = old(screen)@.fed(bytes@).results;
            let earlier = old(session).pending_results@.len();
            let listed = final(session).pending_results@;
            &&& listed.len() == earlier + ended.len()
            &&& result_views(listed).take(earlier as int) == result_views(
                old(session).pending_results@,
            )
            &&& forall|i: int|
                #![trigger ended[i]]
                0 <= i < ended.len() ==> reports(
                    listed[earlier + i],
                    ended[i],
                    i,
                    old(screen).command_results@,
                    old(screen)@.pending,
                )
        }),
{
    screen.feed(bytes);
    let ghost queued = screen.command_results@;
    let ghost ended = screen@.results;
    let ghost before = session.pending_results@;
    session.collect_command_results(screen);
    proof {
        let listed = session.pending_results@;
        let views = result_views(listed);
        assert(views.len() == before.len() + queued.len());
        assert(views.take(before.len() as int) =~= result_views(before));
        assert forall|i: int| #![trigger ended[i]] 0 <= i < ended.len() implies reports(
            listed[before.len() + i],
            ended[i],
            i,
            old(screen).command_results@,
            old(screen)@.pending,
        ) by {
            assert(ended[i] == queued[i]@);
            assert(views[before.len() + i] == queued[i].result@);
            assert(views[before.len() + i] == listed[before.len() + i]@);
            let earlier = old(screen).command_results@;
            if i < earlier.len() {
                assert(queued.take(earlier.len() as int)[i] == earlier[i]);
            }
        }
    }
}

} // verus!
