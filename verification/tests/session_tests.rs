//! Running a command in a pane, step by step, with the queue of a remote shell
//! as its input.
use dinotty::capture::CommandResult;
use dinotty::screen::VirtualScreen;
use dinotty::session::{feed, ExecuteError, Session, SessionBackend};
use dinotty::waiter::Reply;
use tokio::sync::mpsc::{unbounded_channel, UnboundedReceiver, UnboundedSender};
use tokio::sync::oneshot::Receiver;

/// A remote pane with its input queue.
fn ssh_session() -> (Session, VirtualScreen, UnboundedSender<Vec<u8>>, UnboundedReceiver<Vec<u8>>) {
    let (sender, receiver) = unbounded_channel();
    (Session::new(SessionBackend::Ssh), VirtualScreen::new(80, 24), sender, receiver)
}

/// Reserves the pane and puts the input into the queue.
fn send(
    session: &Session,
    screen: &mut VirtualScreen,
    queue: Option<&UnboundedSender<Vec<u8>>>,
    command: &str,
) -> Result<Receiver<CommandResult>, ExecuteError> {
    let execution = session.start_execution(screen, command)?;
    let queued =
        queue.map(|queue| queue.send(execution.input).map_err(|error| error.to_string()));
    session.input_written(screen, Session::queue_result(queued))?;
    Ok(execution.receiver)
}

/// The waiter is ready before input reaches SSH and cannot consume notification copies.
#[test]
fn ssh_input_and_completion_share_the_authoritative_result() {
    let (mut session, mut screen, queue, mut input) = ssh_session();
    let mut receiver = send(&session, &mut screen, Some(&queue), "printf hello").unwrap();
    assert_eq!(input.try_recv().unwrap(), b"printf hello\n");
    feed(&mut session, &mut screen, b"\x1b]133;C\x07hello\x1b]133;D;7\x07\x1b]133;A\x07");
    let result = Session::replied(receiver.try_recv().ok()).unwrap();
    assert_eq!(result.exit_code, 7);
    assert_eq!(result.stdout, "hello");
    assert_eq!(result.method, "shell_integration");
    let events = &session.pending_results;
    assert_eq!(events.len(), 1);
    assert_eq!(events[0].stdout, "hello");
    assert_eq!(events[0].exit_code, result.exit_code);
    assert_eq!(events[0].duration_ms, result.duration_ms);
}

/// Dropping a caller cannot free its pane or reassign its eventual completion.
#[test]
fn cancelled_waiter_keeps_ownership_until_completion() {
    let (mut session, mut screen, queue, mut input) = ssh_session();
    let first = send(&session, &mut screen, Some(&queue), "first").unwrap();
    assert!(input.try_recv().is_ok());
    drop(first);
    assert!(matches!(
        send(&session, &mut screen, Some(&queue), "second"),
        Err(ExecuteError::Busy)
    ));
    assert!(input.try_recv().is_err(), "busy requests must not write input");
    feed(&mut session, &mut screen, b"\x1b]133;C\x07old\x1b]133;D;7\x07\x1b]133;A\x07");
    let mut second = send(&session, &mut screen, Some(&queue), "second").unwrap();
    assert!(input.try_recv().is_ok());
    feed(&mut session, &mut screen, b"\x1b]133;C\x07new\x1b]133;D;0\x07");
    let second = Session::replied(second.try_recv().ok()).unwrap();
    assert_eq!(second.stdout, "new");
    assert_eq!(second.exit_code, 0);
    assert_eq!(session.pending_results.len(), 2);
}

/// Session closure wakes the waiter as an error instead of reporting a false timeout.
#[test]
fn closed_terminal_wakes_pending_execution() {
    let (mut session, mut screen, queue, mut input) = ssh_session();
    let mut receiver = send(&session, &mut screen, Some(&queue), "exit 7").unwrap();
    assert!(input.try_recv().is_ok());
    session.mark_exited(&mut screen);
    assert!(matches!(
        Session::timed_out(&screen, &mut receiver),
        Err(ExecuteError::Closed)
    ));
    assert!(matches!(
        send(&session, &mut screen, Some(&queue), "again"),
        Err(ExecuteError::Closed)
    ));
}

/// An SSH queue rejection is known to have delivered no input and must not strand ownership.
#[test]
fn closed_ssh_input_queue_does_not_leave_pane_busy() {
    let (session, mut screen, queue, input) = ssh_session();
    drop(input);
    assert!(matches!(
        send(&session, &mut screen, Some(&queue), "first"),
        Err(ExecuteError::Write(_))
    ));
    assert!(matches!(
        send(&session, &mut screen, Some(&queue), "second"),
        Err(ExecuteError::Write(_))
    ));
}

#[test]
fn missing_ssh_queue_says_so() {
    let (session, mut screen, _queue, _input) = ssh_session();
    let error = send(&session, &mut screen, None, "first").unwrap_err();
    assert_eq!(error.message(), "Write failed: SSH channel closed");
    assert!(screen.pending_command.is_none());
}

/// A part of a local write may have reached the shell.
#[test]
fn failed_local_write_keeps_the_pane_reserved() {
    let session = Session::new(SessionBackend::Local);
    let mut screen = VirtualScreen::new(80, 24);
    let execution = session.start_execution(&mut screen, "ls").unwrap();
    assert_eq!(execution.input, b"ls\n");
    let error = session.input_written(&mut screen, Err("broken pipe".to_string())).unwrap_err();
    assert_eq!(error.message(), "Write failed: broken pipe");
    let error = session.start_execution(&mut screen, "pwd").unwrap_err();
    assert_eq!(error.message(), "Pane is busy: the previous command has not completed");
}

#[test]
fn exited_backend_refuses_commands() {
    let session = Session::new(SessionBackend::Exited);
    let mut screen = VirtualScreen::new(80, 24);
    let error = session.start_execution(&mut screen, "ls").unwrap_err();
    assert_eq!(error.message(), "Terminal closed before command completion");
    assert!(screen.pending_command.is_none());
}

/// A timeout reports what came so far and leaves the pane reserved.
#[test]
fn timeout_without_a_reply_reports_the_text_so_far() {
    let (mut session, mut screen, queue, _input) = ssh_session();
    let mut receiver = send(&session, &mut screen, Some(&queue), "sleep 9").unwrap();
    feed(&mut session, &mut screen, b"\x1b]133;C\x07START\r\n");
    let result = Session::timed_out(&screen, &mut receiver).unwrap();
    assert_eq!(result.method, "timeout");
    assert_eq!(result.exit_code, -1);
    assert_eq!(result.stdout, "START\n");
    assert!(screen.pending_command.is_some());
}

/// A result that came just before the timeout was handled still counts.
#[test]
fn result_at_the_timeout_still_counts() {
    let (mut session, mut screen, queue, _input) = ssh_session();
    let mut receiver = send(&session, &mut screen, Some(&queue), "true").unwrap();
    feed(&mut session, &mut screen, b"\x1b]133;C\x07done\x1b]133;D;3\x07");
    let result = Session::timed_out(&screen, &mut receiver).unwrap();
    assert_eq!((result.exit_code, result.stdout.as_str()), (3, "done"));
    assert_eq!(result.method, "shell_integration");
}

#[test]
fn replies_at_a_timeout() {
    let screen = VirtualScreen::new(80, 24);
    let empty = Session::timed_out_with(&screen, Reply::Empty).unwrap();
    assert_eq!((empty.exit_code, empty.duration_ms), (-1, 0));
    assert_eq!((empty.method.as_str(), empty.stdout.as_str()), ("timeout", ""));
    assert!(matches!(
        Session::timed_out_with(&screen, Reply::Closed),
        Err(ExecuteError::Closed)
    ));
    assert!(matches!(Session::replied(None), Err(ExecuteError::Closed)));
}

/// Each result is listed once.
#[test]
fn collecting_twice_lists_a_result_once() {
    let (mut session, mut screen, queue, _input) = ssh_session();
    let _receiver = send(&session, &mut screen, Some(&queue), "true").unwrap();
    screen.feed(b"\x1b]133;D;0\x07");
    session.collect_command_results(&mut screen);
    session.collect_command_results(&mut screen);
    assert_eq!(session.pending_results.len(), 1);
    assert!(screen.pending_command.is_none());
}
