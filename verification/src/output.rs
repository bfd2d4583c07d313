//! How the output of a command becomes its text.
use vstd::prelude::*;
use vstd::utf8::*;

use crate::capture::{leading_chars, CaptureView, CommandState};
use crate::screen::ScreenView;
use crate::text::line_start;

verus! {

/// Whether `line` is the last line of a text, and `head` all before it.
pub open spec fn is_last_line(text: Seq<char>, head: Seq<char>, line: Seq<char>) -> bool {
    &&& text == head + line
    &&& !line.contains('\n')
    &&& head.len() > 0 ==> head.last() == '\n'
}

/// Every text has a last line.
proof fn lemma_last_line(text: Seq<char>)
    ensures
        0 <= line_start(text) <= text.len(),
        is_last_line(text, text.take(line_start(text)), text.skip(line_start(text))),
    decreases text.len(),
{
    if text.len() == 0 || text.last() == '\n' {
        assert(text.take(line_start(text)) + text.skip(line_start(text)) =~= text);
    } else {
        let front = text.drop_last();
        lemma_last_line(front);
        let start = line_start(text);
        let line = text.skip(start);
        assert(text.take(start) + line =~= text);
        assert(text.take(start) =~= front.take(start));
        assert forall|i: int| 0 <= i < line.len() implies line[i] != '\n' by {
            if i < line.len() - 1 {
                assert(line[i] == front.skip(start)[i]);
                assert(front.skip(start).contains(front.skip(start)[i]));
            }
        }
    }
}

/// A text has one last line.
proof fn lemma_one_last_line(text: Seq<char>, head: Seq<char>, line: Seq<char>)
    requires
        is_last_line(text, head, line),
    ensures
        line_start(text) == head.len(),
        text.take(line_start(text)) == head,
        text.skip(line_start(text)) == line,
{
    lemma_last_line(text);
    let start = line_start(text);
    let n = head.len() as int;
    if start < n {
        assert(text[n - 1] == '\n');
        assert(text.skip(start)[n - 1 - start] == '\n');
        assert(text.skip(start).contains('\n'));
    } else if n < start {
        assert(text.take(start).last() == '\n');
        assert(line[start - 1 - n] == text[start - 1]);
        assert(line.contains('\n'));
    }
    assert(text.take(n) =~= head);
    assert(text.skip(n) =~= line);
}

/// A newline comes behind all of the text, wherever the next character would
/// have gone.
pub proof fn newline_ends_the_text(capture: CaptureView)
    ensures
        capture.overprint('\n').text() == capture.text().push('\n'),
        capture.overprint('\n').after.len() == 0,
{
    assert(capture.overprint('\n').text() =~= capture.text().push('\n'));
}

/// Any other character goes to its place: behind the text, or over the character
/// that stands there. The rest of the text stays, and the place moves on by one.
pub proof fn character_goes_to_its_place(capture: CaptureView, c: char)
    requires
        c != '\n',
    ensures
        capture.after.len() == 0 ==> capture.overprint(c).text() == capture.text().push(c),
        capture.after.len() > 0 ==> capture.overprint(c).text() == capture.text().update(
            capture.before.len() as int,
            c,
        ),
        capture.overprint(c).before.len() == capture.before.len() + 1,
{
    let after = capture.overprint(c);
    if capture.after.len() == 0 {
        assert(after.text() =~= capture.text().push(c));
    } else {
        assert(after.text() =~= capture.text().update(capture.before.len() as int, c));
    }
}

/// How many bytes leading characters take: enough, and not without the last of
/// them.
proof fn lemma_leading_bytes(text: Seq<char>, bytes: int)
    requires
        0 <= bytes <= encode_utf8(text).len(),
    ensures
        ({
            let n = leading_chars(text, bytes) as int;
            &&& n <= text.len()
            &&& encode_utf8(text.take(n)).len() >= bytes
            &&& n > 0 ==> encode_utf8(text.take(n - 1)).len() < bytes
        }),
    decreases text.len(),
{
    let n = leading_chars(text, bytes) as int;
    if bytes > 0 && text.len() > 0 {
        let rest = text.drop_first();
        let first = encode_scalar(text[0] as u32).len() as int;
        if bytes - first >= 0 {
            lemma_leading_bytes(rest, bytes - first);
        }
        assert(text.take(n)[0] == text[0]);
        assert(text.take(n).drop_first() =~= rest.take(n - 1));
        if n > 1 {
            assert(text.take(n - 1)[0] == text[0]);
            assert(text.take(n - 1).drop_first() =~= rest.take(n - 2));
        } else {
            assert(text.take(n - 1) =~= Seq::<char>::empty());
        }
    } else {
        assert(text.take(n) =~= Seq::<char>::empty());
    }
}

/// A text of up to one mebibyte is kept as it is. A longer one loses its first
/// half mebibyte, to the end of a character and not one character more, and
/// keeps all the rest; the next character still goes to the same place of it.
pub proof fn only_long_text_loses_its_start(capture: CaptureView)
    ensures
        encode_utf8(capture.text()).len() <= 1048576 ==> capture.bounded() == capture,
        encode_utf8(capture.text()).len() > 1048576 ==> {
            let kept = capture.bounded();
            let n = capture.text().len() - kept.text().len();
            &&& 0 < n <= capture.text().len()
            &&& kept.text() == capture.text().skip(n)
            &&& encode_utf8(capture.text().take(n)).len() >= 524288
            &&& encode_utf8(capture.text().take(n - 1)).len() < 524288
            &&& n <= capture.before.len() ==> kept.after == capture.after
            &&& n > capture.before.len() ==> kept.before.len() == 0
        },
{
    let text = capture.text();
    if encode_utf8(text).len() > 1048576 {
        lemma_leading_bytes(text, 524288);
        let n = leading_chars(text, 524288) as int;
        assert(capture.forget(n).text() =~= text.skip(n));
        assert(text.take(0) =~= Seq::<char>::empty());
    }
}

/// One more character is taken in, whatever it is. As long as there is room
/// nothing is lost by it; else only the start of the text is.
pub proof fn short_text_is_all_kept(capture: CaptureView, c: char)
    ensures
        ({
            let text = capture.overprint(c).text();
            let kept = capture.captured(c).text();
            &&& encode_utf8(text).len() <= 1048576 ==> capture.captured(c)
                == capture.overprint(c)
            &&& kept.len() <= text.len()
            &&& kept == text.skip(text.len() - kept.len())
            &&& encode_utf8(text).len() > 1048576 ==> {
                let n = text.len() - kept.len();
                &&& encode_utf8(text.take(n)).len() >= 524288
                &&& encode_utf8(text.take(n - 1)).len() < 524288
            }
        }),
{
    only_long_text_loses_its_start(capture.overprint(c));
    let text = capture.overprint(c).text();
    assert(text.skip(0) =~= text);
}

/// A carriage return goes to the start of the last line, and keeps that line
/// unless it holds nothing but spaces.
pub proof fn return_goes_to_the_line_start(
    capture: CaptureView,
    head: Seq<char>,
    line: Seq<char>,
)
    requires
        is_last_line(capture.text(), head, line),
    ensures
        capture.returned().before == head,
        (forall|i: int| 0 <= i < line.len() ==> #[trigger] line[i] == ' ')
            ==> capture.returned().after.len() == 0,
        (exists|i: int| 0 <= i < line.len() && #[trigger] line[i] != ' ')
            ==> capture.returned().after == line,
{
    lemma_one_last_line(capture.text(), head, line);
}

/// A line that ends in a carriage return and a newline is kept, unless it holds
/// nothing but spaces.
pub proof fn line_ends_keep_the_line(capture: CaptureView, head: Seq<char>, line: Seq<char>)
    requires
        is_last_line(capture.text(), head, line),
    ensures
        (exists|i: int| 0 <= i < line.len() && #[trigger] line[i] != ' ')
            ==> capture.returned().overprint('\n').text() == capture.text().push('\n'),
        (forall|i: int| 0 <= i < line.len() ==> #[trigger] line[i] == ' ')
            ==> capture.returned().overprint('\n').text() == head.push('\n'),
{
    return_goes_to_the_line_start(capture, head, line);
    newline_ends_the_text(capture.returned());
    if forall|i: int| 0 <= i < line.len() ==> #[trigger] line[i] == ' ' {
        assert(capture.returned().text() =~= head);
    }
}

/// A step back goes one character back, and stays at the start of a line. The
/// text stays as it is.
pub proof fn step_back_stays_in_the_line(capture: CaptureView)
    ensures
        capture.stepped_back().text() == capture.text(),
        capture.before.len() == 0 || capture.before.last() == '\n' ==> capture.stepped_back()
            == capture,
        capture.before.len() > 0 && capture.before.last() != '\n'
            ==> capture.stepped_back().before.len() == capture.before.len() - 1,
{
    assert(capture.stepped_back().text() =~= capture.text());
}

/// A step back and another character put that character over the last one.
pub proof fn step_back_and_overprint(capture: CaptureView, c: char)
    requires
        c != '\n',
        capture.before.len() > 0,
        capture.before.last() != '\n',
    ensures
        capture.stepped_back().overprint(c).text() == capture.text().update(
            capture.before.len() - 1,
            c,
        ),
        capture.stepped_back().overprint(c).after == capture.after,
{
    step_back_stays_in_the_line(capture);
    character_goes_to_its_place(capture.stepped_back(), c);
    assert(capture.stepped_back().overprint(c).after =~= capture.after);
}

/// Without its last line a text is what comes before that line.
pub proof fn dropping_a_line_keeps_the_others(
    capture: CaptureView,
    head: Seq<char>,
    line: Seq<char>,
)
    requires
        is_last_line(capture.text(), head, line),
    ensures
        capture.without_line().text() == head,
        capture.without_line().after.len() == 0,
{
    lemma_one_last_line(capture.text(), head, line);
    assert(capture.without_line().text() =~= head);
}

/// A command that a prompt ends has the text that was printed before the line of
/// the prompt, and a status of -1; one whose prompt was marked has all of the
/// text. The result is for the caller that sent the command, the pane is free,
/// and nothing else changes.
pub proof fn prompt_ends_a_command(screen: ScreenView, head: Seq<char>, line: Seq<char>)
    requires
        screen.pending is Some,
        is_last_line(screen.pending->0.capture.text(), head, line),
    ensures
        ({
            let after = screen.ended_by_prompt();
            let result = after.results.last();
            &&& after.results.len() == screen.results.len() + 1
            &&& after.results.drop_last() == screen.results
            &&& result.exit_code == -1
            &&& result.method == "prompt_detection"@
            &&& result.waiter == screen.pending->0.waiter
            &&& screen.command_state != CommandState::Idle ==> result.stdout == head
            &&& screen.command_state == CommandState::Idle ==> result.stdout == head + line
            &&& after == (ScreenView {
                results: after.results,
                pending: None,
                command_state: CommandState::Idle,
                ..screen
            })
        }),
{
    dropping_a_line_keeps_the_others(screen.pending->0.capture, head, line);
    let after = screen.ended_by_prompt();
    assert(after.results.drop_last() =~= screen.results);
}

/// A prompt is waited for exactly while a command runs that has printed
/// something, in a shell that has sent no marks of execution.
pub proof fn prompt_is_waited_for(screen: ScreenView)
    ensures
        screen.awaits_prompt() <==> !screen.shell_integration && screen.pending is Some && (
        screen.pending->0.capture.before.len() > 0 || screen.pending->0.capture.after.len() > 0),
{
}

} // verus!
