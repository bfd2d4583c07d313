//! The output of one command, as it is collected.
use std::time::Instant;
use tokio::sync::oneshot::Sender;
use vstd::prelude::*;
use vstd::utf8::*;

use crate::clock::{lasted_since, millis_since};
use crate::text::{
    decode_lossy, lemma_cut, lemma_cut_line, lemma_decode_concat, lemma_decode_last,
    lemma_decode_one, lemma_decode_repeated, lemma_short_runs, line_start, push_utf8,
};

verus! {

/// Where a pane stands between the marks of its shell.
#[derive(Clone, Copy, Debug, PartialEq, Eq, Structural)]
pub enum CommandState {
    /// At a prompt: what is printed belongs to no command.
    Idle,
    /// A command was sent; its execution has not been marked yet.
    CommandStart,
    /// The shell has marked the start of the output.
    Executing,
}

/// How a command ended.
#[derive(Debug)]
pub struct CommandResult {
    /// Status of the shell, or -1 when the end was inferred or timed out.
    pub exit_code: i32,
    /// Milliseconds since tracking began in this pane.
    pub duration_ms: u64,
    /// What told the end: the shell, its prompt, or a timeout.
    pub method: String,
    /// Text that belongs to the command, without control sequences.
    pub stdout: String,
}

/// The plain values of a [`CommandResult`].
pub struct ResultView {
    pub exit_code: int,
    pub duration_ms: int,
    pub method: Seq<char>,
    pub stdout: Seq<char>,
}

impl View for CommandResult {
    type V = ResultView;

    open spec fn view(&self) -> ResultView {
        ResultView {
            exit_code: self.exit_code as int,
            duration_ms: self.duration_ms as int,
            method: self.method@,
            stdout: self.stdout@,
        }
    }
}

impl Clone for CommandResult {
    fn clone(&self) -> (copy: Self)
        ensures
            copy@ == self@,
    {
        CommandResult {
            exit_code: self.exit_code,
            duration_ms: self.duration_ms,
            method: self.method.clone(),
            stdout: self.stdout.clone(),
        }
    }
}

/// The byte of a newline.
const NEWLINE: u8 = 0x0a;

/// The byte of a space.
const SPACE: u8 = 0x20;

/// The most bytes of output that are kept of one command.
pub const OUTPUT_LIMIT: usize = 1024 * 1024;

/// A command that has been sent and has not ended.
pub struct PendingCommand {
    /// When tracking began; kept across the marks of the shell.
    pub start_time: Instant,
    /// The text collected so far, in UTF-8.
    pub output_buf: Vec<u8>,
    /// Byte offset in `output_buf` at which the next character goes.
    pub output_cursor: usize,
    /// The caller that waits for the result, kept after it has timed out.
    pub waiter: Option<Sender<CommandResult>>,
}

/// Collected text, split at the place where the next character goes.
#[verifier::ext_equal]
pub struct CaptureView {
    pub before: Seq<char>,
    pub after: Seq<char>,
}

/// The fewest leading characters of `text` whose UTF-8 takes `bytes` bytes or
/// more; all of them, if the text is shorter.
pub open spec fn leading_chars(text: Seq<char>, bytes: int) -> nat
    decreases text.len(),
{
    if bytes <= 0 || text.len() == 0 {
        0
    } else {
        1 + leading_chars(text.drop_first(), bytes - encode_scalar(text[0] as u32).len())
    }
}

/// Whether `line` holds nothing but spaces.
pub open spec fn only_spaces(line: Seq<char>) -> bool {
    forall|i: int| 0 <= i < line.len() ==> line[i] == ' '
}

impl CaptureView {
    /// The whole text.
    pub open spec fn text(self) -> Seq<char> {
        self.before + self.after
    }

    /// The text without its first `n` characters.
    pub open spec fn forget(self, n: int) -> CaptureView {
        if n <= self.before.len() {
            CaptureView { before: self.before.skip(n), after: self.after }
        } else {
            CaptureView {
                before: Seq::empty(),
                after: self.after.skip(n - self.before.len()),
            }
        }
    }

    /// One more character: a newline ends the line behind all of its text,
    /// any other replaces the character at the cursor.
    pub open spec fn overprint(self, c: char) -> CaptureView {
        if c == '\n' {
            CaptureView { before: self.text().push(c), after: Seq::empty() }
        } else {
            CaptureView {
                before: self.before.push(c),
                after: if self.after.len() > 0 {
                    self.after.drop_first()
                } else {
                    self.after
                },
            }
        }
    }

    /// The text as it is kept: one that has outgrown the limit loses half a
    /// limit of bytes at its start, up to the end of a character.
    pub open spec fn bounded(self) -> CaptureView {
        if encode_utf8(self.text()).len() > OUTPUT_LIMIT {
            self.forget(leading_chars(self.text(), OUTPUT_LIMIT as int / 2) as int)
        } else {
            self
        }
    }

    /// The text after one more character.
    pub open spec fn captured(self, c: char) -> CaptureView {
        self.overprint(c).bounded()
    }

    /// The cursor at the start of the last line, which is dropped if it holds
    /// nothing but spaces.
    pub open spec fn returned(self) -> CaptureView {
        let start = line_start(self.text());
        let line = self.text().skip(start);
        CaptureView {
            before: self.text().take(start),
            after: if only_spaces(line) {
                Seq::empty()
            } else {
                line
            },
        }
    }

    /// The cursor one character back, but not behind a newline.
    pub open spec fn stepped_back(self) -> CaptureView {
        if self.before.len() == 0 || self.before.last() == '\n' {
            self
        } else {
            CaptureView {
                before: self.before.drop_last(),
                after: seq![self.before.last()] + self.after,
            }
        }
    }

    /// The text without its last line.
    pub open spec fn without_line(self) -> CaptureView {
        CaptureView { before: self.text().take(line_start(self.text())), after: Seq::empty() }
    }

    /// No text.
    pub open spec fn nothing() -> CaptureView {
        CaptureView { before: Seq::empty(), after: Seq::empty() }
    }
}

/// A command that has ended, until its result is delivered.
pub struct CompletedCommand {
    /// The result, which also goes to the listeners of the session.
    pub result: CommandResult,
    /// The caller that the command was sent for; no other gets the result.
    pub waiter: Option<Sender<CommandResult>>,
}

/// What a [`CompletedCommand`] holds, but for the time that it took.
pub struct CompletedView {
    pub exit_code: int,
    pub method: Seq<char>,
    pub stdout: Seq<char>,
    pub waiter: Option<Sender<CommandResult>>,
}

impl View for CompletedCommand {
    type V = CompletedView;

    open spec fn view(&self) -> CompletedView {
        CompletedView {
            exit_code: self.result.exit_code as int,
            method: self.result.method@,
            stdout: self.result.stdout@,
            waiter: self.waiter,
        }
    }
}

impl PendingCommand {
    /// The bytes before the cursor.
    pub open spec fn head(&self) -> Seq<u8> {
        self.output_buf@.subrange(0, self.output_cursor as int)
    }

    /// The bytes from the cursor on.
    pub open spec fn tail(&self) -> Seq<u8> {
        self.output_buf@.subrange(self.output_cursor as int, self.output_buf@.len() as int)
    }

    /// The collected text is at most the limit of valid UTF-8, and the cursor
    /// stands between two characters of its last line.
    pub open spec fn wf(&self) -> bool {
        &&& self.output_cursor <= self.output_buf@.len()
        &&& self.output_buf@.len() <= OUTPUT_LIMIT
        &&& valid_utf8(self.head())
        &&& valid_utf8(self.tail())
        &&& !decode_utf8(self.tail()).contains('\n')
    }

    /// The collected text.
    pub open spec fn capture(&self) -> CaptureView {
        CaptureView { before: decode_utf8(self.head()), after: decode_utf8(self.tail()) }
    }
}

impl PendingCommand {
    /// There is text exactly if there are bytes.
    pub proof fn lemma_text_empty(&self)
        requires
            self.wf(),
        ensures
            self.capture().text().len() == 0 <==> self.output_buf@.len() == 0,
    {
        assert(self.output_buf@ =~= self.head() + self.tail());
    }
}

/// Cutting at the first character that starts at byte `want` or later leaves
/// out `leading_chars` characters.
proof fn lemma_leading_chars(b: Seq<u8>, want: int, at: int)
    requires
        valid_utf8(b),
        want <= at,
        0 <= at <= b.len(),
        at < b.len() ==> !is_continuation_byte(b[at]),
        forall|i: int| 0 <= i < b.len() && want <= i < at ==> is_continuation_byte(#[trigger] b[i]),
    ensures
        decode_utf8(b.subrange(0, at)).len() == leading_chars(decode_utf8(b), want),
    decreases b.len(),
{
    lemma_cut(b, at);
    if want <= 0 {
        if at > 0 {
            assert(is_continuation_byte(b[0]));
            assert(valid_first_scalar(b));
        }
        assert(b.subrange(0, at) =~= Seq::<u8>::empty());
    } else {
        let len = length_of_first_scalar(b);
        let rest = pop_first_scalar(b);
        let text = decode_utf8(b);
        assert(at >= len);
        assert forall|i: int|
            0 <= i < rest.len() && want - len <= i < at - len implies is_continuation_byte(
            #[trigger] rest[i],
        ) by {
            assert(rest[i] == b[i + len]);
        }
        if at - len < rest.len() {
            assert(rest[at - len] == b[at]);
        }
        lemma_leading_chars(rest, want - len, at - len);
        lemma_cut(rest, at - len);
        let piece = b.subrange(0, at);
        assert(pop_first_scalar(piece) =~= rest.subrange(0, at - len));
        assert(text.drop_first() =~= decode_utf8(rest));
        decode_utf8_first_scalar(b);
        assert(encode_scalar(text[0] as u32).len() == len);
    }
}

/// Cutting the front of a text at byte `end` forgets the characters of that
/// front, wherever the cursor stands.
proof fn lemma_forget(full: Seq<u8>, cursor: int, end: int)
    requires
        0 <= cursor <= full.len(),
        0 <= end < full.len(),
        !is_continuation_byte(full[end]),
        valid_utf8(full.subrange(0, cursor)),
        valid_utf8(full.subrange(cursor, full.len() as int)),
        !decode_utf8(full.subrange(cursor, full.len() as int)).contains('\n'),
    ensures
        ({
            let view = CaptureView {
                before: decode_utf8(full.subrange(0, cursor)),
                after: decode_utf8(full.subrange(cursor, full.len() as int)),
            };
            let left = view.forget(decode_utf8(full.subrange(0, end)).len() as int);
            if cursor >= end {
                &&& valid_utf8(full.subrange(end, cursor))
                &&& left.before == decode_utf8(full.subrange(end, cursor))
                &&& left.after == view.after
            } else {
                &&& valid_utf8(full.subrange(end, full.len() as int))
                &&& left.before == decode_utf8(Seq::<u8>::empty())
                &&& left.after == decode_utf8(full.subrange(end, full.len() as int))
                &&& !left.after.contains('\n')
            }
        }),
{
    let before = full.subrange(0, cursor);
    let after = full.subrange(cursor, full.len() as int);
    if cursor >= end {
        if cursor > end {
            assert(before[end] == full[end]);
        }
        lemma_cut(before, end);
        assert(before.subrange(0, end) =~= full.subrange(0, end));
        assert(before.subrange(end, cursor) =~= full.subrange(end, cursor));
        assert(decode_utf8(full.subrange(end, cursor)) =~= decode_utf8(before).skip(
            decode_utf8(full.subrange(0, end)).len() as int,
        ));
    } else {
        let cut = end - cursor;
        assert(after[cut] == full[end]);
        lemma_cut(after, cut);
        let gone = after.subrange(0, cut);
        let kept = after.subrange(cut, after.len() as int);
        assert(full.subrange(0, end) =~= before + gone);
        assert(full.subrange(end, full.len() as int) =~= kept);
        lemma_decode_concat(before, gone);
        assert(gone.len() > 0);
        assert(decode_utf8(gone).len() > 0);
        assert(decode_utf8(kept) =~= decode_utf8(after).skip(decode_utf8(gone).len() as int));
        assert(decode_utf8(Seq::<u8>::empty()) =~= Seq::<char>::empty());
        if decode_utf8(kept).contains('\n') {
            let i = choose|i: int| 0 <= i < decode_utf8(kept).len() && decode_utf8(kept)[i] == '\n';
            assert(decode_utf8(after)[i + decode_utf8(gone).len()] == '\n');
        }
    }
}

impl PendingCommand {
    /// The byte offset behind the character at the cursor, if there is one.
    fn char_end(&self) -> (end: usize)
        requires
            self.wf(),
        ensures
            self.output_cursor <= end <= self.output_buf@.len(),
            ({
                let kept = self.tail().subrange(
                    end - self.output_cursor,
                    self.tail().len() as int,
                );
                let text = decode_utf8(self.tail());
                &&& valid_utf8(kept)
                &&& decode_utf8(kept) == if text.len() > 0 {
                    text.drop_first()
                } else {
                    text
                }
            }),
    {
        let ghost after = self.tail();
        let mut end: usize = self.output_cursor;
        if end < self.output_buf.len() {
            end += 1;
            while end < self.output_buf.len() && self.output_buf[end] & 0xc0 == 0x80
                invariant
                    self.output_cursor < end <= self.output_buf.len(),
                    forall|i: int|
                        self.output_cursor < i < end ==> is_continuation_byte(
                            #[trigger] self.output_buf@[i],
                        ),
                decreases self.output_buf.len() - end,
            {
                proof {
                    utf8_byte_ranges_bitwise(self.output_buf@[end as int]);
                }
                end += 1;
            }
            proof {
                if end < self.output_buf.len() {
                    utf8_byte_ranges_bitwise(self.output_buf@[end as int]);
                    assert(after[end - self.output_cursor] == self.output_buf@[end as int]);
                }
                lemma_cut(after, end - self.output_cursor);
                let over = after.subrange(0, end - self.output_cursor);
                assert forall|i: int| 1 <= i < over.len() implies is_continuation_byte(
                    #[trigger] over[i],
                ) by {
                    assert(over[i] == self.output_buf@[i + self.output_cursor]);
                }
                lemma_decode_one(over);
                let kept = after.subrange(end - self.output_cursor, after.len() as int);
                assert(decode_utf8(kept) =~= decode_utf8(after).drop_first());
            }
        } else {
            assert(after.subrange(0, 0) =~= after);
        }
        end
    }

    /// Puts one character at the cursor of the captured line.
    fn overprint(&mut self, c: char)
        requires
            old(self).wf(),
        ensures
            final(self).capture() == old(self).capture().overprint(c),
            final(self).start_time == old(self).start_time,
            final(self).waiter == old(self).waiter,
            final(self).output_cursor <= final(self).output_buf@.len(),
            final(self).output_buf@.len() <= OUTPUT_LIMIT + 4,
            valid_utf8(final(self).head()),
            valid_utf8(final(self).tail()),
            !decode_utf8(final(self).tail()).contains('\n'),
    {
        let ghost before = self.head();
        let ghost after = self.tail();
        proof {
            assert(self.output_buf@ =~= before + after);
            lemma_decode_concat(before, after);
            encode_utf8_valid_utf8(seq![c]);
            encode_utf8_decode_utf8(seq![c]);
            assert(seq![c].drop_first() =~= Seq::<char>::empty());
            reveal_with_fuel(encode_utf8, 2);
            assert(encode_utf8(seq![c]) =~= encode_scalar(c as u32));
        }
        if c == '\n' {
            push_utf8(&mut self.output_buf, c);
            self.output_cursor = self.output_buf.len();
            proof {
                lemma_decode_concat(before + after, encode_utf8(seq![c]));
                assert(self.head() =~= before + after + encode_utf8(seq![c]));
                assert(self.tail() =~= Seq::<u8>::empty());
                assert(decode_utf8(self.tail()) =~= Seq::<char>::empty());
                assert(self.capture().before =~= old(self).capture().text().push(c));
            }
        } else {
            let end = self.char_end();
            let ghost kept = after.subrange(end - self.output_cursor, after.len() as int);
            let mut rest = self.output_buf.split_off(end);
            self.output_buf.truncate(self.output_cursor);
            push_utf8(&mut self.output_buf, c);
            self.output_cursor = self.output_buf.len();
            self.output_buf.append(&mut rest);
            proof {
                lemma_decode_concat(before, encode_utf8(seq![c]));
                assert(self.head() =~= before + encode_utf8(seq![c]));
                assert(self.tail() =~= kept);
                assert(decode_utf8(before) + seq![c] =~= decode_utf8(before).push(c));
                if decode_utf8(kept).contains('\n') {
                    let i = choose|i: int|
                        0 <= i < decode_utf8(kept).len() && decode_utf8(kept)[i] == '\n';
                    assert(decode_utf8(after)[i + 1] == '\n');
                }
            }
        }
    }

    /// Applies one character to the captured line, and keeps the text within
    /// the limit.
    pub fn capture_char(&mut self, c: char)
        requires
            old(self).wf(),
        ensures
            final(self).wf(),
            final(self).capture() == old(self).capture().captured(c),
            final(self).start_time == old(self).start_time,
            final(self).waiter == old(self).waiter,
    {
        self.overprint(c);
        let ghost full = self.output_buf@;
        let ghost before = self.head();
        let ghost after = self.tail();
        proof {
            assert(full =~= before + after);
            lemma_decode_concat(before, after);
            decode_utf8_encode_utf8(full);
        }
        if self.output_buf.len() > OUTPUT_LIMIT {
            let mut end: usize = OUTPUT_LIMIT / 2;
            while self.output_buf[end] & 0xc0 == 0x80
                invariant
                    OUTPUT_LIMIT / 2 <= end <= OUTPUT_LIMIT / 2 + 3,
                    OUTPUT_LIMIT < self.output_buf.len(),
                    self.output_buf@ == full,
                    valid_utf8(full),
                    forall|i: int|
                        OUTPUT_LIMIT / 2 <= i < end ==> is_continuation_byte(#[trigger] full[i]),
                decreases OUTPUT_LIMIT - end,
            {
                proof {
                    utf8_byte_ranges_bitwise(full[end as int]);
                    if end == OUTPUT_LIMIT / 2 + 3 {
                        lemma_short_runs(full, OUTPUT_LIMIT as int / 2);
                    }
                }
                end += 1;
            }
            proof {
                utf8_byte_ranges_bitwise(full[end as int]);
                lemma_leading_chars(full, OUTPUT_LIMIT as int / 2, end as int);
                lemma_forget(full, self.output_cursor as int, end as int);
            }
            let ghost cursor = self.output_cursor;
            let rest = self.output_buf.split_off(end);
            self.output_buf = rest;
            self.output_cursor = self.output_cursor.saturating_sub(end);
            proof {
                if cursor >= end {
                    assert(self.head() =~= full.subrange(end as int, cursor as int));
                    assert(self.tail() =~= after);
                } else {
                    assert(self.head() =~= Seq::<u8>::empty());
                    assert(self.tail() =~= full.subrange(end as int, full.len() as int));
                }
            }
        }
    }

    /// The byte offset behind the last newline of the text.
    fn line_offset(&self) -> (start: usize)
        ensures
            start <= self.output_buf@.len(),
            start > 0 ==> self.output_buf@[start - 1] == 0x0a,
            forall|i: int| start <= i < self.output_buf@.len() ==> self.output_buf@[i] != 0x0a,
    {
        let mut start: usize = self.output_buf.len();
        while start > 0 && self.output_buf[start - 1] != NEWLINE
            invariant
                start <= self.output_buf@.len(),
                forall|i: int|
                    start <= i < self.output_buf@.len() ==> self.output_buf@[i] != 0x0a,
            decreases start,
        {
            start -= 1;
        }
        start
    }

    /// Moves the cursor to the start of the line, as overprinting does; a
    /// line of nothing but spaces was erased and is dropped.
    pub fn carriage_return(&mut self)
        requires
            old(self).wf(),
        ensures
            final(self).wf(),
            final(self).capture() == old(self).capture().returned(),
            final(self).start_time == old(self).start_time,
            final(self).waiter == old(self).waiter,
    {
        let ghost full = self.output_buf@;
        proof {
            assert(full =~= self.head() + self.tail());
            lemma_decode_concat(self.head(), self.tail());
        }
        self.output_cursor = self.line_offset();
        let ghost line = self.tail();
        proof {
            lemma_cut_line(full, self.output_cursor as int);
            lemma_decode_repeated(line, 0x20);
            let start = line_start(decode_utf8(full));
            assert(decode_utf8(full).take(start) =~= decode_utf8(self.head()));
            assert(decode_utf8(full).skip(start) =~= decode_utf8(line));
        }
        let mut i: usize = self.output_cursor;
        while i < self.output_buf.len() && self.output_buf[i] == SPACE
            invariant
                self.output_cursor <= i <= self.output_buf@.len(),
                forall|j: int| self.output_cursor <= j < i ==> self.output_buf@[j] == 0x20,
            decreases self.output_buf.len() - i,
        {
            i += 1;
        }
        if i == self.output_buf.len() {
            proof {
                assert forall|j: int| 0 <= j < line.len() implies line[j] == 0x20 by {
                    assert(line[j] == self.output_buf@[j + self.output_cursor]);
                }
            }
            self.output_buf.truncate(self.output_cursor);
            proof {
                assert(self.head() =~= full.subrange(0, self.output_cursor as int));
                assert(self.tail() =~= Seq::<u8>::empty());
                assert(decode_utf8(self.tail()) =~= Seq::<char>::empty());
            }
        } else {
            assert(line[i - self.output_cursor] != 0x20);
        }
    }

    /// Moves the cursor one character back within the line.
    pub fn backspace(&mut self)
        requires
            old(self).wf(),
        ensures
            final(self).wf(),
            final(self).capture() == old(self).capture().stepped_back(),
            final(self).start_time == old(self).start_time,
            final(self).waiter == old(self).waiter,
    {
        let ghost before = self.head();
        let ghost after = self.tail();
        let ghost cursor = self.output_cursor as int;
        proof {
            if before.len() > 0 {
                lemma_decode_last(before, 0x0a);
            }
        }
        if self.output_cursor == 0 || self.output_buf[self.output_cursor - 1] == NEWLINE {
            return;
        }
        self.output_cursor -= 1;
        while self.output_cursor > 0 && self.output_buf[self.output_cursor] & 0xc0 == 0x80
            invariant
                self.output_cursor < cursor <= self.output_buf@.len(),
                self.output_buf@ == old(self).output_buf@,
                self.start_time == old(self).start_time,
                self.waiter == old(self).waiter,
                forall|i: int|
                    self.output_cursor < i < cursor ==> is_continuation_byte(
                        #[trigger] self.output_buf@[i],
                    ),
            decreases self.output_cursor,
        {
            proof {
                utf8_byte_ranges_bitwise(self.output_buf@[self.output_cursor as int]);
            }
            self.output_cursor -= 1;
        }
        proof {
            let at = self.output_cursor as int;
            utf8_byte_ranges_bitwise(self.output_buf@[at]);
            assert(before[at] == self.output_buf@[at]);
            lemma_cut(before, at);
            let last = before.subrange(at, cursor);
            assert forall|i: int| 1 <= i < last.len() implies is_continuation_byte(
                #[trigger] last[i],
            ) by {
                assert(last[i] == self.output_buf@[i + at]);
            }
            lemma_decode_one(last);
            lemma_decode_concat(last, after);
            assert(self.head() =~= before.subrange(0, at));
            assert(self.tail() =~= last + after);
            let text = decode_utf8(before);
            assert(decode_utf8(self.head()) =~= text.drop_last());
            assert(decode_utf8(last) =~= seq![text.last()]);
            let tail = decode_utf8(self.tail());
            if tail.contains('\n') {
                let i = choose|i: int| 0 <= i < tail.len() && tail[i] == '\n';
                assert(i > 0);
                assert(decode_utf8(after)[i - 1] == '\n');
            }
        }
    }

    /// Drops the last line of the text.
    pub(crate) fn drop_line(&mut self)
        requires
            old(self).wf(),
        ensures
            final(self).wf(),
            final(self).capture() == old(self).capture().without_line(),
            final(self).start_time == old(self).start_time,
            final(self).waiter == old(self).waiter,
    {
        let ghost full = self.output_buf@;
        proof {
            assert(full =~= self.head() + self.tail());
            lemma_decode_concat(self.head(), self.tail());
        }
        self.output_cursor = self.line_offset();
        proof {
            lemma_cut_line(full, self.output_cursor as int);
            let start = line_start(decode_utf8(full));
            assert(decode_utf8(full).take(start) =~= decode_utf8(self.head()));
        }
        self.output_buf.truncate(self.output_cursor);
        proof {
            assert(self.head() =~= full.subrange(0, self.output_cursor as int));
            assert(self.tail() =~= Seq::<u8>::empty());
            assert(decode_utf8(self.tail()) =~= Seq::<char>::empty());
        }
    }

    /// Drops all of the text.
    pub(crate) fn clear(&mut self)
        ensures
            final(self).wf(),
            final(self).capture() == CaptureView::nothing(),
            final(self).start_time == old(self).start_time,
            final(self).waiter == old(self).waiter,
    {
        self.output_buf.clear();
        self.output_cursor = 0;
        proof {
            assert(self.head() =~= Seq::<u8>::empty());
            assert(self.tail() =~= Seq::<u8>::empty());
            assert(decode_utf8(self.head()) =~= Seq::<char>::empty());
        }
    }

    /// The collected text as a string.
    pub(crate) fn collected(&self) -> (text: String)
        requires
            self.wf(),
        ensures
            text@ == self.capture().text(),
    {
        proof {
            assert(self.output_buf@ =~= self.head() + self.tail());
            lemma_decode_concat(self.head(), self.tail());
        }
        decode_lossy(self.output_buf.as_slice())
    }

    /// Ends the command `millis` milliseconds after it was sent: its text and
    /// its caller go over together.
    pub fn complete_after(
        self,
        exit_code: i32,
        method: &str,
        millis: u128,
    ) -> (completed: CompletedCommand)
        requires
            self.wf(),
        ensures
            completed@ == (CompletedView {
                exit_code: exit_code as int,
                method: method@,
                stdout: self.capture().text(),
                waiter: self.waiter,
            }),
            completed.result.duration_ms == millis as u64,
    {
        CompletedCommand {
            result: CommandResult {
                exit_code,
                duration_ms: millis as u64,
                method: method.to_owned(),
                stdout: self.collected(),
            },
            waiter: self.waiter,
        }
    }

    /// Ends the command now: its text and its caller go over together.
    pub fn complete(self, exit_code: i32, method: &str) -> (completed: CompletedCommand)
        requires
            self.wf(),
        ensures
            completed@ == (CompletedView {
                exit_code: exit_code as int,
                method: method@,
                stdout: self.capture().text(),
                waiter: self.waiter,
            }),
            lasted_since(self.start_time, completed.result.duration_ms),
    {
        let millis = millis_since(&self.start_time);
        self.complete_after(exit_code, method, millis)
    }
}

} // verus!
