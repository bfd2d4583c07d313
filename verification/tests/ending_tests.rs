//! How the text of a command is collected, and how its end is told.
use dinotty::capture::{CommandState, PendingCommand, OUTPUT_LIMIT};
use dinotty::screen::VirtualScreen;
use std::time::Instant;

/// A command that has printed nothing.
fn pending() -> PendingCommand {
    PendingCommand {
        start_time: Instant::now(),
        output_buf: Vec::new(),
        output_cursor: 0,
        waiter: None,
    }
}

/// Prints some text, with backspaces and carriage returns.
fn printed(text: &str) -> PendingCommand {
    let mut command = pending();
    for c in text.chars() {
        match c {
            '\r' => command.carriage_return(),
            '\x08' => command.backspace(),
            c => command.capture_char(c),
        }
    }
    command
}

/// What has been collected of some text.
fn collected(text: &str) -> String {
    printed(text).complete(0, "test").result.stdout
}

#[test]
fn text_is_overprinted_in_its_line() {
    assert_eq!(collected("abc\rX"), "Xbc");
    assert_eq!(collected("ab\nabc\rXY\n"), "ab\nXYc\n");
    assert_eq!(collected("ab\n\x08\x08c"), "ab\nc");
    assert_eq!(collected("äöü\x08\x08ß"), "äßü");
    assert_eq!(collected("€\r好x"), "好x");
    assert_eq!(collected("abc\r\n"), "abc\n");
    assert_eq!(collected("ab\n   \r"), "ab\n");
    assert_eq!(collected("\x08\r"), "");
}

#[test]
fn long_text_loses_its_start() {
    let mut command = pending();
    for _ in 0..OUTPUT_LIMIT {
        command.capture_char('a');
    }
    assert_eq!(command.output_buf.len(), OUTPUT_LIMIT);
    command.capture_char('b');
    assert_eq!(command.output_buf.len(), OUTPUT_LIMIT / 2 + 1);
    let text = command.complete(0, "test").result.stdout;
    assert!(text.starts_with('a') && text.ends_with("ab"));
}

/// The cut falls between two characters.
#[test]
fn long_text_is_cut_between_characters() {
    let mut command = pending();
    command.capture_char('x');
    for _ in 0..OUTPUT_LIMIT / 2 {
        command.capture_char('é');
    }
    assert_eq!(command.output_buf.len(), OUTPUT_LIMIT / 2);
    let text = String::from_utf8(command.output_buf).unwrap();
    assert!(text.chars().all(|c| c == 'é'));
}

#[test]
fn completion_says_how() {
    let completed = printed("out").complete(5, "how");
    assert_eq!(completed.result.exit_code, 5);
    assert_eq!(completed.result.method, "how");
    assert_eq!(completed.result.stdout, "out");
    assert!(completed.result.duration_ms < 1000);
    assert!(completed.waiter.is_none());
}

#[test]
fn durations_are_whole_milliseconds() {
    assert_eq!(printed("").complete_after(0, "how", 1500).result.duration_ms, 1500);
    let mut screen = VirtualScreen::new(20, 2);
    assert_eq!(screen.command_timeout_after(70).duration_ms, 0);
    screen.begin_command_tracking();
    screen.feed(b"so far");
    let result = screen.command_timeout_after(70);
    assert_eq!((result.duration_ms, result.stdout.as_str()), (70, "so far"));
}

/// A result that is queued keeps its duration whatever follows.
#[test]
fn queued_results_keep_their_durations() {
    let mut screen = VirtualScreen::new(20, 2);
    screen.begin_command_tracking();
    screen.feed(b"\x1b]133;D;0\x07");
    screen.command_results[0].result.duration_ms = 4321;
    let _receiver = screen.begin_execution().unwrap();
    screen.feed(b"\x1b]133;C\x07out\r\n");
    screen.resize(10, 3);
    screen.abandon_execution();
    screen.begin_command_tracking();
    screen.feed(b"$ ");
    screen.end_at_prompt();
    let results = screen.drain_command_results();
    assert_eq!(results.len(), 2);
    assert_eq!(results[0].duration_ms, 4321);
    assert!(results[1].duration_ms < 1000);
}

/// The status of a command that ended with some mark.
fn status(mark: &str) -> i32 {
    let mut screen = VirtualScreen::new(20, 2);
    screen.begin_command_tracking();
    screen.feed(mark.as_bytes());
    screen.drain_command_results()[0].exit_code
}

#[test]
fn statuses_are_read() {
    assert_eq!(status("\x1b]133;D;0\x07"), 0);
    assert_eq!(status("\x1b]133;D;130\x07"), 130);
    assert_eq!(status("\x1b]133;D;2147483647\x07"), 2147483647);
    assert_eq!(status("\x1b]133;D;2147483648\x07"), -1);
    assert_eq!(status("\x1b]133;D;99999999999999999999\x07"), -1);
    assert_eq!(status("\x1b]133;D;7x\x07"), -1);
    assert_eq!(status("\x1b]133;D;\x07"), -1);
    assert_eq!(status("\x1b]133;D\x07"), -1);
}

/// Whether a line of output ends a command.
fn prompts(line: &str) -> bool {
    let mut screen = VirtualScreen::new(60, 4);
    screen.begin_command_tracking();
    screen.feed(b"\r\n");
    screen.feed(line.as_bytes());
    screen.detect_prompt_after(Some(100))
}

#[test]
fn prompts_are_told_from_output() {
    for line in [
        "$ ",
        "#",
        "% ",
        ">",
        "PS C:\\Users> ",
        "bash-5.2$ ",
        "bash#",
        "me@host:~/src$ ",
        "me@host~# ",
        "a.b-c@x/y$",
        "$ \u{3000}",
    ] {
        assert!(prompts(line), "{line}");
    }
    for line in ["$ ls", "done", "100%", "me@host:~", "PS C:\\", "bash-5.2", "a$"] {
        assert!(!prompts(line), "{line}");
    }
}

#[test]
fn silence_must_last() {
    let mut screen = VirtualScreen::new(20, 4);
    screen.begin_command_tracking();
    screen.feed(b"out\r\n$ ");
    assert!(!screen.should_check_after(None));
    assert!(!screen.should_check_after(Some(99)));
    assert!(screen.should_check_after(Some(100)));
    assert!(!screen.detect_prompt_after(Some(99)));
    assert!(screen.detect_prompt_after(Some(100)));
    assert!(!screen.detect_prompt_after(Some(100)));
    assert_eq!(screen.drain_command_results()[0].stdout, "out\n");
}

/// Without a newline the whole text is the line of the prompt.
#[test]
fn lone_prompt_is_no_output() {
    let mut screen = VirtualScreen::new(20, 4);
    screen.begin_command_tracking();
    screen.feed(b"$ ");
    assert!(screen.detect_prompt_after(Some(100)));
    assert_eq!(screen.drain_command_results()[0].stdout, "");
}

#[test]
fn prompt_without_a_command_ends_nothing() {
    let mut screen = VirtualScreen::new(20, 4);
    screen.end_at_prompt();
    assert!(screen.drain_command_results().is_empty());
    assert_eq!(screen.command_state, CommandState::Idle);
}

/// A mark of a command that nobody waits for hands the pane to what it starts.
#[test]
fn unsolicited_execution_mark_brings_the_fallback_back() {
    let mut screen = VirtualScreen::new(40, 4);
    screen.feed(b"\x1b]133;D;0\x07\x1b]133;A\x07$ bash\r\n\x1b]133;C\x07remote@fixture:~$ ");
    assert!(!screen.has_shell_integration());
    screen.begin_command_tracking();
    screen.feed(b"ls\r\nfile\r\nremote@fixture:~$ ");
    assert!(screen.detect_prompt_after(Some(150)));
    assert_eq!(screen.drain_command_results()[0].stdout, "ls\nfile\n");
}

#[test]
fn abandoned_pane_is_free() {
    let mut screen = VirtualScreen::new(20, 4);
    let mut receiver = screen.begin_execution().unwrap();
    screen.abandon_execution();
    assert!(receiver.try_recv().is_err());
    assert!(screen.drain_command_results().is_empty());
    assert!(screen.begin_execution().is_ok());
}

#[test]
fn timeout_without_a_command() {
    let result = VirtualScreen::new(20, 4).command_timeout();
    assert_eq!((result.exit_code, result.duration_ms), (-1, 0));
    assert_eq!((result.method.as_str(), result.stdout.as_str()), ("timeout", ""));
}

/// Tracking by a caller is no integration of the shell.
#[test]
fn tracking_is_no_integration() {
    let mut screen = VirtualScreen::new(20, 4);
    screen.begin_command_tracking();
    assert_eq!(screen.command_state, CommandState::CommandStart);
    assert!(!screen.has_shell_integration());
    screen.feed(b"\x1b]133;C\x07");
    assert_eq!(screen.command_state, CommandState::Executing);
    assert!(screen.has_shell_integration());
}
