//! Telling a shell prompt from other text.
use regex::Regex;
use vstd::prelude::*;

use crate::grid::{min, GridView, ScreenBuffer};

verus! {

/// A compiled pattern, carried as an opaque value.
#[verifier::external_type_specification]
#[verifier::external_body]
pub struct ExRegex(regex::Regex);

/// Whether `Regex::new` accepts a pattern.
pub uninterp spec fn regex_compiles(pattern: Seq<char>) -> bool;

/// The characters of the pattern that `Regex::new` made a regex of.
pub uninterp spec fn regex_source(regex: Regex) -> Seq<char>;

/// Whether the regex of a pattern matches somewhere in a text, as
/// `Regex::is_match` has it.
pub uninterp spec fn regex_finds(pattern: Seq<char>, text: Seq<char>) -> bool;

/// Whether a character may stand in the name of a user or of a host.
pub open spec fn is_name_char(c: char) -> bool {
    ||| 'a' <= c <= 'z'
    ||| 'A' <= c <= 'Z'
    ||| '0' <= c <= '9'
    ||| c == '_' || c == '.' || c == '-'
}

/// Whether a text is a name.
pub open spec fn is_name(text: Seq<char>) -> bool {
    text.len() > 0 && forall|i: int| 0 <= i < text.len() ==> is_name_char(#[trigger] text[i])
}

/// Whether a text holds no newline.
pub open spec fn is_one_line(text: Seq<char>) -> bool {
    forall|i: int| 0 <= i < text.len() ==> #[trigger] text[i] != '\n'
}

/// Whether a text is made of digits, points and hyphens.
pub open spec fn is_version(text: Seq<char>) -> bool {
    forall|i: int|
        0 <= i < text.len() ==> '0' <= (#[trigger] text[i]) <= '9' || text[i] == '.' || text[i]
            == '-'
}

/// Whether a line is `front` and a mark, with or without a space behind them.
pub open spec fn is_marked_line(line: Seq<char>, front: Seq<char>, mark: char) -> bool {
    line == front.push(mark) || line == front.push(mark).push(' ')
}

/// Whether a line is a mark and nothing else.
pub open spec fn is_bare_mark(line: Seq<char>) -> bool {
    ||| is_marked_line(line, Seq::empty(), '#')
    ||| is_marked_line(line, Seq::empty(), '$')
    ||| is_marked_line(line, Seq::empty(), '%')
    ||| is_marked_line(line, Seq::empty(), '>')
}

/// The name of PowerShell, and a path.
pub open spec fn power_shell_at(path: Seq<char>) -> Seq<char> {
    seq!['P', 'S', ' '] + path
}

/// The name of bash, and a version.
pub open spec fn bash_of(version: Seq<char>) -> Seq<char> {
    seq!['b', 'a', 's', 'h'] + version
}

/// A user, and what comes behind.
pub open spec fn user_at(user: Seq<char>, rest: Seq<char>) -> Seq<char> {
    user + seq!['@'] + rest
}

/// Whether a line is a prompt of PowerShell: `PS`, a space, and a path.
pub open spec fn is_power_shell(line: Seq<char>) -> bool {
    exists|path: Seq<char>| #[trigger]
        is_marked_line(line, power_shell_at(path), '>') && is_one_line(path)
}

/// Whether a line is the prompt of bash without a profile: its name and its
/// version.
pub open spec fn is_bash(line: Seq<char>) -> bool {
    exists|version: Seq<char>, mark: char| #[trigger]
        is_marked_line(line, bash_of(version), mark) && is_version(version) && (
        mark == '$' || mark == '#')
}

/// A user at a host, and what comes behind.
pub open spec fn at_host(
    user: Seq<char>,
    host: Seq<char>,
    sign: char,
    path: Seq<char>,
) -> Seq<char> {
    user + seq!['@'] + host + seq![sign] + path
}

/// Whether a line is a prompt with a user, a host and a path.
pub open spec fn is_user_at_host(line: Seq<char>) -> bool {
    exists|user: Seq<char>, host: Seq<char>, sign: char, path: Seq<char>, mark: char| #[trigger]
        is_marked_line(line, at_host(user, host, sign, path), mark) && is_name(user) && is_name(
            host,
        ) && (sign == ':' || sign == '~') && is_one_line(path) && (mark == '$' || mark == '#')
}

/// Whether a line is a prompt with a user, and anything up to a dollar sign.
pub open spec fn is_user_at_any(line: Seq<char>) -> bool {
    exists|user: Seq<char>, rest: Seq<char>| #[trigger]
        is_marked_line(line, user_at(user, rest), '$') && is_name(user) && is_one_line(rest)
}

/// `Regex::new` compiles a pattern that it accepts. Which ones it accepts is
/// left to their name, but for the patterns of prompts: they keep to the syntax
/// of the crate, so they are accepted.
#[verifier::external_body]
fn compile(pattern: &str) -> (regex: Option<Regex>)
    ensures
        regex is Some <==> regex_compiles(pattern@),
        regex matches Some(made) ==> regex_source(made) == pattern@,
        pattern@ == "^[#$%>] ?$"@ ==> regex is Some,
        pattern@ == "^PS .*> ?$"@ ==> regex is Some,
        pattern@ == "^bash[-0-9.]*[$#] ?$"@ ==> regex is Some,
        pattern@ == "^[a-zA-Z0-9_.\\-]+@[a-zA-Z0-9_.\\-]+[:~].*[$#] ?$"@ ==> regex is Some,
        pattern@ == "^[a-zA-Z0-9_.\\-]+@.*\\$ ?$"@ ==> regex is Some,
{
    Regex::new(pattern).ok()
}

/// `Regex::is_match` says whether the regex matches somewhere in `text`. When
/// it does is left to its name: it depends on the pattern and on the text. Of
/// the patterns of prompts it is stated what they match, by the syntax of the
/// crate: `^` and `$` stand for the start and the end of the text, `.` for any
/// character but a newline, a class for one of its characters, and `*`, `+` and
/// `?` say how often the one before may come.
#[verifier::external_body]
fn finds(regex: &Regex, text: &str) -> (found: bool)
    ensures
        found == regex_finds(regex_source(*regex), text@),
        regex_source(*regex) == "^[#$%>] ?$"@ ==> found == is_bare_mark(text@),
        regex_source(*regex) == "^PS .*> ?$"@ ==> found == is_power_shell(text@),
        regex_source(*regex) == "^bash[-0-9.]*[$#] ?$"@ ==> found == is_bash(text@),
        regex_source(*regex) == "^[a-zA-Z0-9_.\\-]+@[a-zA-Z0-9_.\\-]+[:~].*[$#] ?$"@ ==> found
            == is_user_at_host(text@),
        regex_source(*regex) == "^[a-zA-Z0-9_.\\-]+@.*\\$ ?$"@ ==> found == is_user_at_any(text@),
{
    regex.is_match(text)
}

/// Whether a character is white space to Unicode.
pub open spec fn white_space(c: char) -> bool {
    ||| '\u{9}' <= c <= '\u{d}'
    ||| c == ' ' || c == '\u{85}' || c == '\u{a0}' || c == '\u{1680}'
    ||| '\u{2000}' <= c <= '\u{200a}'
    ||| c == '\u{2028}' || c == '\u{2029}' || c == '\u{202f}' || c == '\u{205f}' || c == '\u{3000}'
}

/// `char::is_whitespace` says whether a character has the property
/// `White_Space` of Unicode.
pub assume_specification[ char::is_whitespace ](c: char) -> (white: bool)
    ensures
        white == white_space(c),
;

/// How many patterns of prompts there are.
pub const PATTERN_COUNT: usize = 5;

/// The patterns of prompts: a bare mark, PowerShell, bash without a profile,
/// and a user at a host, with or without a path.
pub open spec fn prompt_pattern(i: int) -> Seq<char> {
    if i == 0 {
        "^[#$%>] ?$"@
    } else if i == 1 {
        "^PS .*> ?$"@
    } else if i == 2 {
        "^bash[-0-9.]*[$#] ?$"@
    } else if i == 3 {
        "^[a-zA-Z0-9_.\\-]+@[a-zA-Z0-9_.\\-]+[:~].*[$#] ?$"@
    } else {
        "^[a-zA-Z0-9_.\\-]+@.*\\$ ?$"@
    }
}

/// Those of the first `n` patterns that compile, in their order.
pub open spec fn compiled_patterns(n: int) -> Seq<Seq<char>>
    decreases n,
{
    if n <= 0 {
        Seq::empty()
    } else if regex_compiles(prompt_pattern(n - 1)) {
        compiled_patterns(n - 1).push(prompt_pattern(n - 1))
    } else {
        compiled_patterns(n - 1)
    }
}

/// The patterns that some regexes were made of.
pub open spec fn sources(regexes: Seq<Regex>) -> Seq<Seq<char>> {
    Seq::new(regexes.len(), |j: int| regex_source(regexes[j]))
}

/// A compiled pattern is one of the first `n`.
proof fn lemma_compiled_from(n: int, j: int)
    requires
        0 <= j < compiled_patterns(n).len(),
    ensures
        exists|i: int|
            0 <= i < n && regex_compiles(#[trigger] prompt_pattern(i)) && prompt_pattern(i)
                == compiled_patterns(n)[j],
    decreases n,
{
    if n > 0 && j < compiled_patterns(n - 1).len() {
        lemma_compiled_from(n - 1, j);
        let i = choose|i: int|
            0 <= i < n - 1 && regex_compiles(#[trigger] prompt_pattern(i)) && prompt_pattern(i)
                == compiled_patterns(n - 1)[j];
        assert(regex_compiles(prompt_pattern(i)));
    } else {
        assert(regex_compiles(prompt_pattern(n - 1)));
    }
}

/// Each of the first `n` patterns that compiles is there.
proof fn lemma_compiled_holds(n: int, i: int) -> (j: int)
    requires
        0 <= i < n,
        regex_compiles(prompt_pattern(i)),
    ensures
        0 <= j < compiled_patterns(n).len(),
        compiled_patterns(n)[j] == prompt_pattern(i),
    decreases n,
{
    if i == n - 1 {
        compiled_patterns(n).len() - 1
    } else {
        lemma_compiled_holds(n - 1, i)
    }
}

/// Whether one of the patterns is found in a line.
pub open spec fn is_found(line: Seq<char>) -> bool {
    exists|i: int|
        0 <= i < PATTERN_COUNT && regex_compiles(#[trigger] prompt_pattern(i)) && regex_finds(
            prompt_pattern(i),
            line,
        )
}

/// Whether a line looks like a prompt: a bare mark, PowerShell, bash without a
/// profile, and a user at a host, with or without a path.
pub open spec fn is_prompt(line: Seq<char>) -> bool {
    ||| is_bare_mark(line)
    ||| is_power_shell(line)
    ||| is_bash(line)
    ||| is_user_at_host(line)
    ||| is_user_at_any(line)
}

/// Whether every pattern compiles.
spec fn all_compile(n: int) -> bool {
    forall|i: int| 0 <= i < n ==> regex_compiles(#[trigger] prompt_pattern(i))
}

/// Where every pattern compiles, all of them are there in their order.
proof fn lemma_all_there(n: int, j: int)
    requires
        all_compile(n),
        0 <= j < n,
    ensures
        compiled_patterns(n).len() == n,
        compiled_patterns(n)[j] == prompt_pattern(j),
    decreases n,
{
    assert(regex_compiles(prompt_pattern(n - 1)));
    if n > 1 {
        assert(all_compile(n - 1)) by {
            assert forall|i: int| 0 <= i < n - 1 implies regex_compiles(
                #[trigger] prompt_pattern(i),
            ) by {}
        }
        let k = if j < n - 1 {
            j
        } else {
            0
        };
        lemma_all_there(n - 1, k);
    } else {
        assert(compiled_patterns(0) =~= Seq::<Seq<char>>::empty());
    }
}

/// What the pattern at `i` matches.
spec fn is_shape(i: int, line: Seq<char>) -> bool {
    if i == 0 {
        is_bare_mark(line)
    } else if i == 1 {
        is_power_shell(line)
    } else if i == 2 {
        is_bash(line)
    } else if i == 3 {
        is_user_at_host(line)
    } else {
        is_user_at_any(line)
    }
}

/// The text without the white space at its end.
pub open spec fn trimmed(text: Seq<char>) -> Seq<char>
    decreases text.len(),
{
    if text.len() > 0 && white_space(text.last()) {
        trimmed(text.drop_last())
    } else {
        text
    }
}

/// The line of the cursor, up to the cell under it, without the white space
/// at its end.
pub open spec fn cursor_line(grid: GridView) -> Seq<char> {
    let row = grid.cells[grid.cursor.row];
    trimmed(
        Seq::new(
            min(row.len() as int, grid.cursor.col + 1) as nat,
            |j: int|
                if row[j].ch == '\0' {
                    ' '
                } else {
                    row[j].ch
                },
        ),
    )
}

/// Whether the cursor stands in a line that looks like a prompt.
pub open spec fn at_prompt(grid: GridView) -> bool {
    grid.cursor.row < grid.rows && is_prompt(cursor_line(grid))
}

/// Whether the cursor stands in a line in which one of the patterns is found.
pub open spec fn at_pattern(grid: GridView) -> bool {
    grid.cursor.row < grid.rows && is_found(cursor_line(grid))
}

/// The compiled patterns of prompts.
pub struct PromptPatterns {
    patterns: Vec<Regex>,
}

impl View for PromptPatterns {
    type V = Seq<Seq<char>>;

    closed spec fn view(&self) -> Seq<Seq<char>> {
        sources(self.patterns@)
    }
}

impl PromptPatterns {
    /// Every pattern that compiles is there, and no other.
    #[verifier::type_invariant]
    spec fn wf(self) -> bool {
        &&& sources(self.patterns@) == compiled_patterns(PATTERN_COUNT as int)
        &&& all_compile(PATTERN_COUNT as int)
    }

    /// Compiles the patterns, and leaves those out that do not compile.
    pub(crate) fn new() -> (made: Self)
        ensures
            made@ == compiled_patterns(PATTERN_COUNT as int),
    {
        let mut patterns: Vec<Regex> = Vec::new();
        let mut i: usize = 0;
        assert(sources(patterns@) =~= compiled_patterns(0));
        while i < PATTERN_COUNT
            invariant
                i <= PATTERN_COUNT,
                sources(patterns@) == compiled_patterns(i as int),
                all_compile(i as int),
            decreases PATTERN_COUNT - i,
        {
            let ghost before = patterns@;
            let compiled = if i == 0 {
                compile("^[#$%>] ?$")
            } else if i == 1 {
                compile("^PS .*> ?$")
            } else if i == 2 {
                compile("^bash[-0-9.]*[$#] ?$")
            } else if i == 3 {
                compile("^[a-zA-Z0-9_.\\-]+@[a-zA-Z0-9_.\\-]+[:~].*[$#] ?$")
            } else {
                compile("^[a-zA-Z0-9_.\\-]+@.*\\$ ?$")
            };
            if let Some(regex) = compiled {
                patterns.push(regex);
                assert(sources(patterns@) =~= sources(before).push(prompt_pattern(i as int)));
            }
            i += 1;
        }
        PromptPatterns { patterns }
    }

    /// Whether a line looks like a prompt.
    pub fn matches_prompt(&self, line: &str) -> (prompt: bool)
        ensures
            prompt == is_prompt(line@),
            prompt == is_found(line@),
    {
        proof {
            use_type_invariant(self);
            lemma_all_there(PATTERN_COUNT as int, 0);
        }
        let ghost all = compiled_patterns(PATTERN_COUNT as int);
        let mut j: usize = 0;
        while j < self.patterns.len()
            invariant
                j <= self.patterns.len(),
                all == compiled_patterns(PATTERN_COUNT as int),
                sources(self.patterns@) == all,
                all_compile(PATTERN_COUNT as int),
                all.len() == PATTERN_COUNT,
                forall|k: int| 0 <= k < j ==> !regex_finds(#[trigger] all[k], line@),
                forall|k: int| 0 <= k < j ==> !#[trigger] is_shape(k, line@),
            decreases self.patterns.len() - j,
        {
            assert(all[j as int] == regex_source(self.patterns@[j as int]));
            proof {
                lemma_all_there(PATTERN_COUNT as int, j as int);
            }
            if finds(&self.patterns[j], line) {
                proof {
                    lemma_compiled_from(PATTERN_COUNT as int, j as int);
                    assert(is_shape(j as int, line@));
                }
                return true;
            }
            j += 1;
        }
        proof {
            assert(!is_shape(0, line@) && !is_shape(1, line@) && !is_shape(2, line@) && !is_shape(
                3,
                line@,
            ) && !is_shape(4, line@));
            if is_found(line@) {
                let i = choose|i: int|
                    0 <= i < PATTERN_COUNT && regex_compiles(#[trigger] prompt_pattern(i))
                        && regex_finds(prompt_pattern(i), line@);
                let k = lemma_compiled_holds(PATTERN_COUNT as int, i);
                assert(!regex_finds(all[k], line@));
            }
        }
        false
    }
}

/// The line of the cursor, up to the cell under it, without the white space
/// at its end.
pub(crate) fn read_cursor_line(buf: &ScreenBuffer) -> (line: String)
    requires
        buf.wf(),
        buf.cursor.row < buf.rows,
    ensures
        line@ == cursor_line(buf@),
{
    let row = &buf.cells[buf.cursor.row];
    let ghost cells = buf@.cells[buf.cursor.row as int];
    let ghost all = Seq::new(
        min(cells.len() as int, buf.cursor.col + 1) as nat,
        |j: int|
            if cells[j].ch == '\0' {
                ' '
            } else {
                cells[j].ch
            },
    );
    assert(row@ == cells);
    let mut text: Vec<char> = Vec::new();
    while text.len() < row.len() && text.len() <= buf.cursor.col
        invariant
            text.len() <= all.len(),
            row@ == cells,
            all.len() == min(cells.len() as int, buf.cursor.col + 1),
            forall|j: int| 0 <= j < all.len() ==> #[trigger] all[j] == (if cells[j].ch == '\0' {
                ' '
            } else {
                cells[j].ch
            }),
            forall|j: int| 0 <= j < text.len() ==> text@[j] == #[trigger] all[j],
        decreases row.len() - text.len(),
    {
        let ch = row[text.len()].ch;
        if ch == '\0' {
            text.push(' ');
        } else {
            text.push(ch);
        }
    }
    assert(text@ =~= all);
    while text.len() > 0 && text[text.len() - 1].is_whitespace()
        invariant
            trimmed(text@) == trimmed(all),
        decreases text.len(),
    {
        let ghost before = text@;
        let _ = text.pop();
        assert(text@ =~= before.drop_last());
    }
    let mut line = String::new();
    let mut j: usize = 0;
    while j < text.len()
        invariant
            j <= text.len(),
            line@ == text@.take(j as int),
        decreases text.len() - j,
    {
        line.push(text[j]);
        j += 1;
        assert(line@ =~= text@.take(j as int));
    }
    assert(line@ =~= text@);
    line
}

/// A mark alone is a prompt.
pub proof fn mark_is_a_prompt(mark: char)
    requires
        mark == '#' || mark == '$' || mark == '%' || mark == '>',
    ensures
        is_prompt(seq![mark]),
        is_prompt(seq![mark, ' ']),
{
    assert(seq![mark] =~= Seq::<char>::empty().push(mark));
    assert(seq![mark, ' '] =~= Seq::<char>::empty().push(mark).push(' '));
}

/// `PS`, a space, any path in one line, and an angle bracket are a prompt.
pub proof fn power_shell_is_a_prompt(path: Seq<char>)
    requires
        !path.contains('\n'),
    ensures
        is_prompt(seq!['P', 'S', ' '] + path + seq!['>']),
        is_prompt(seq!['P', 'S', ' '] + path + seq!['>', ' ']),
{
    let front = power_shell_at(path);
    let line = seq!['P', 'S', ' '] + path + seq!['>'];
    let spaced = seq!['P', 'S', ' '] + path + seq!['>', ' '];
    assert(line =~= front.push('>'));
    assert(spaced =~= front.push('>').push(' '));
    assert(is_marked_line(line, front, '>'));
    assert(is_marked_line(spaced, front, '>'));
}

/// `bash`, any version, and a mark of bash are a prompt.
pub proof fn bash_is_a_prompt(version: Seq<char>, mark: char)
    requires
        forall|i: int|
            0 <= i < version.len() ==> '0' <= (#[trigger] version[i]) <= '9' || version[i] == '.'
                || version[i] == '-',
        mark == '$' || mark == '#',
    ensures
        is_prompt(seq!['b', 'a', 's', 'h'] + version + seq![mark]),
        is_prompt(seq!['b', 'a', 's', 'h'] + version + seq![mark, ' ']),
{
    let front = bash_of(version);
    let line = seq!['b', 'a', 's', 'h'] + version + seq![mark];
    let spaced = seq!['b', 'a', 's', 'h'] + version + seq![mark, ' '];
    assert(line =~= front.push(mark));
    assert(spaced =~= front.push(mark).push(' '));
    assert(is_marked_line(line, front, mark));
    assert(is_marked_line(spaced, front, mark));
}

/// Whether a text is made of letters, digits, underscores, points and hyphens,
/// and is not empty.
pub open spec fn is_word(text: Seq<char>) -> bool {
    &&& text.len() > 0
    &&& forall|i: int|
        0 <= i < text.len() ==> {
            let c = #[trigger] text[i];
            ('a' <= c && c <= 'z') || ('A' <= c && c <= 'Z') || ('0' <= c && c <= '9') || c == '_'
                || c == '.' || c == '-'
        }
}

/// A user, an at sign, a host, a colon or a tilde, anything in one line, and a
/// mark are a prompt, of a user or of root.
pub proof fn user_at_host_is_a_prompt(
    user: Seq<char>,
    host: Seq<char>,
    sign: char,
    path: Seq<char>,
    mark: char,
)
    requires
        is_word(user),
        is_word(host),
        sign == ':' || sign == '~',
        !path.contains('\n'),
        mark == '$' || mark == '#',
    ensures
        is_prompt(user + seq!['@'] + host + seq![sign] + path + seq![mark]),
        is_prompt(user + seq!['@'] + host + seq![sign] + path + seq![mark, ' ']),
{
    let front = at_host(user, host, sign, path);
    let line = user + seq!['@'] + host + seq![sign] + path + seq![mark];
    let spaced = user + seq!['@'] + host + seq![sign] + path + seq![mark, ' '];
    assert(line =~= front.push(mark));
    assert(spaced =~= front.push(mark).push(' '));
    assert(is_marked_line(line, front, mark));
    assert(is_marked_line(spaced, front, mark));
}

/// A user, an at sign, anything in one line, and a dollar sign are a prompt.
pub proof fn user_at_any_is_a_prompt(user: Seq<char>, rest: Seq<char>)
    requires
        is_word(user),
        !rest.contains('\n'),
    ensures
        is_prompt(user + seq!['@'] + rest + seq!['$']),
        is_prompt(user + seq!['@'] + rest + seq!['$', ' ']),
{
    let front = user_at(user, rest);
    let line = user + seq!['@'] + rest + seq!['$'];
    let spaced = user + seq!['@'] + rest + seq!['$', ' '];
    assert(line =~= front.push('$'));
    assert(spaced =~= front.push('$').push(' '));
    assert(is_marked_line(line, front, '$'));
    assert(is_marked_line(spaced, front, '$'));
}

/// A line that looks like a prompt is one line and ends in a mark, with or
/// without a space behind it. Before the mark stands nothing; or `PS`, a space
/// and a path, before an angle bracket; or `bash` and a version, before a mark
/// of bash; or the name of a user and an at sign, before a mark of bash, which
/// is no number sign unless the name of a host and a colon or a tilde come too.
pub proof fn prompts_have_a_mark(line: Seq<char>)
    requires
        is_prompt(line),
    ensures
        !line.contains('\n'),
        exists|front: Seq<char>, mark: char|
            {
                &&& line == #[trigger] front.push(mark) || line == front.push(mark).push(' ')
                &&& mark == '#' || mark == '$' || mark == '%' || mark == '>'
                &&& {
                    ||| front.len() == 0
                    ||| mark == '>' && front.len() >= 3 && front.take(3) == seq!['P', 'S', ' ']
                    ||| (mark == '$' || mark == '#') && front.len() >= 4 && front.take(4)
                        == seq!['b', 'a', 's', 'h'] && forall|i: int|
                        4 <= i < front.len() ==> '0' <= (#[trigger] front[i]) <= '9' || front[i]
                            == '.' || front[i] == '-'
                    ||| mark == '$' && exists|i: int|
                        0 < i < front.len() && #[trigger] front[i] == '@' && is_word(front.take(i))
                    ||| mark == '#' && exists|i: int, j: int|
                        0 < i && i + 1 < j < front.len() && #[trigger] front[i] == '@' && (
                        #[trigger] front[j] == ':' || front[j] == '~') && is_word(front.take(i))
                            && is_word(front.subrange(i + 1, j))
                }
            },
{
    if is_bare_mark(line) {
        let none = Seq::<char>::empty();
        let mark = line[0];
        assert(line == none.push(mark) || line == none.push(mark).push(' '));
    } else if is_power_shell(line) {
        let path = choose|path: Seq<char>| #[trigger]
            is_marked_line(line, power_shell_at(path), '>') && is_one_line(path);
        let front = power_shell_at(path);
        assert(front.take(3) =~= seq!['P', 'S', ' ']);
        assert(line == front.push('>') || line == front.push('>').push(' '));
        assert(forall|i: int| 3 <= i < front.len() ==> front[i] == path[i - 3]);
    } else if is_bash(line) {
        let (version, mark) = choose|version: Seq<char>, mark: char| #[trigger]
            is_marked_line(line, bash_of(version), mark) && is_version(version) && (mark == '$'
                || mark == '#');
        let front = bash_of(version);
        assert(front.take(4) =~= seq!['b', 'a', 's', 'h']);
        assert(forall|i: int| 4 <= i < front.len() ==> front[i] == version[i - 4]);
        assert(line == front.push(mark) || line == front.push(mark).push(' '));
    } else if is_user_at_host(line) {
        let (user, host, sign, path, mark) = choose|
            user: Seq<char>,
            host: Seq<char>,
            sign: char,
            path: Seq<char>,
            mark: char,
        | #[trigger]
            is_marked_line(line, at_host(user, host, sign, path), mark) && is_name(user)
                && is_name(host) && (sign == ':' || sign == '~') && is_one_line(path) && (mark
                == '$' || mark == '#');
        let front = at_host(user, host, sign, path);
        let i = user.len() as int;
        let j = i + 1 + host.len();
        assert(front[i] == '@');
        assert(front[j] == sign);
        assert(front.take(i) =~= user);
        assert(front.subrange(i + 1, j) =~= host);
        assert forall|k: int| 0 <= k < front.len() implies front[k] != '\n' by {
            if k < i {
                assert(front[k] == user[k]);
                assert(is_name_char(user[k]));
            } else if i < k < j {
                assert(front[k] == host[k - i - 1]);
                assert(is_name_char(host[k - i - 1]));
            } else if j < k {
                assert(front[k] == path[k - j - 1]);
            }
        }
        assert(line == front.push(mark) || line == front.push(mark).push(' '));
    } else {
        let (user, rest) = choose|user: Seq<char>, rest: Seq<char>| #[trigger]
            is_marked_line(line, user_at(user, rest), '$') && is_name(user) && is_one_line(rest);
        let front = user_at(user, rest);
        let i = user.len() as int;
        assert(front[i] == '@');
        assert(front.take(i) =~= user);
        assert forall|k: int| 0 <= k < front.len() implies front[k] != '\n' by {
            if k < i {
                assert(front[k] == user[k]);
                assert(is_name_char(user[k]));
            } else if i < k {
                assert(front[k] == rest[k - i - 1]);
            }
        }
        assert(line == front.push('$') || line == front.push('$').push(' '));
    }
}

/// White space at the end of a text goes, and nothing else.
proof fn lemma_trimmed(text: Seq<char>)
    ensures
        trimmed(text).len() <= text.len(),
        trimmed(text) == text.take(trimmed(text).len() as int),
        trimmed(text).len() > 0 ==> !white_space(trimmed(text).last()),
        forall|i: int| trimmed(text).len() <= i < text.len() ==> white_space(#[trigger] text[i]),
    decreases text.len(),
{
    if text.len() > 0 && white_space(text.last()) {
        let front = text.drop_last();
        lemma_trimmed(front);
        assert(text.take(trimmed(text).len() as int) =~= front.take(trimmed(text).len() as int));
        assert forall|i: int| trimmed(text).len() <= i < text.len() implies white_space(
            #[trigger] text[i],
        ) by {
            if i < front.len() {
                assert(front[i] == text[i]);
            }
        }
    } else {
        assert(text.take(text.len() as int) =~= text);
    }
}

/// What is looked at for a prompt is the row of the cursor from its start to
/// the cell under the cursor, whatever the look of the cells: a null character
/// is read as a space, any other as it is, and only white space at the end is
/// left out.
pub proof fn cursor_line_reads_the_row(grid: GridView)
    requires
        0 <= grid.cursor.row < grid.cells.len(),
        grid.cursor.col >= 0,
    ensures
        ({
            let row = grid.cells[grid.cursor.row];
            let line = cursor_line(grid);
            &&& line.len() <= row.len()
            &&& line.len() <= grid.cursor.col + 1
            &&& forall|j: int|
                0 <= j < line.len() ==> #[trigger] line[j] == row[j].ch || (row[j].ch == '\0'
                    && line[j] == ' ')
            &&& forall|j: int| 0 <= j < line.len() ==> #[trigger] line[j] != '\0'
            &&& line.len() > 0 ==> !white_space(line.last())
            &&& forall|j: int|
                line.len() <= j < row.len() && j <= grid.cursor.col ==> white_space(
                    (#[trigger] row[j]).ch,
                ) || row[j].ch == '\0'
        }),
{
    let row = grid.cells[grid.cursor.row];
    let all = Seq::new(
        min(row.len() as int, grid.cursor.col + 1) as nat,
        |j: int|
            if row[j].ch == '\0' {
                ' '
            } else {
                row[j].ch
            },
    );
    lemma_trimmed(all);
    let line = cursor_line(grid);
    assert(forall|j: int| 0 <= j < line.len() ==> #[trigger] line[j] == all[j]);
    assert forall|j: int| line.len() <= j < row.len() && j <= grid.cursor.col implies white_space(
        (#[trigger] row[j]).ch,
    ) || row[j].ch == '\0' by {
        assert(white_space(all[j]));
    }
}

/// A prompt on the screen is seen: where the row of the cursor starts with a
/// text that looks like a prompt and holds nothing but spaces from there to the
/// cursor, the cursor stands at a prompt.
pub proof fn prompt_on_the_screen_is_seen(grid: GridView, text: Seq<char>)
    requires
        0 <= grid.cursor.row < grid.rows,
        grid.rows == grid.cells.len(),
        0 < text.len() <= grid.cursor.col + 1,
        text.len() <= grid.cells[grid.cursor.row].len(),
        !white_space(text.last()),
        forall|j: int|
            0 <= j < text.len() ==> (#[trigger] grid.cells[grid.cursor.row][j]).ch == text[j]
                && text[j] != '\0',
        forall|j: int|
            text.len() <= j < grid.cells[grid.cursor.row].len() && j <= grid.cursor.col ==> (
            #[trigger] grid.cells[grid.cursor.row][j]).ch == ' ',
    ensures
        cursor_line(grid) == text,
        at_prompt(grid) == is_prompt(text),
{
    let row = grid.cells[grid.cursor.row];
    let line = cursor_line(grid);
    cursor_line_reads_the_row(grid);
    let n = text.len() - 1;
    assert(row[n].ch == text[n]);
    if line.len() > text.len() {
        assert(row[line.len() - 1].ch == ' ');
        assert(line[line.len() - 1] == ' ');
    }
    assert(line =~= text);
}

/// A cursor that stands below the grid is at no prompt.
pub proof fn no_prompt_below_the_grid(grid: GridView)
    requires
        grid.cursor.row >= grid.rows,
    ensures
        !at_prompt(grid),
{
}

} // verus!
