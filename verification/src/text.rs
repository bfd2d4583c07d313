//! Strings, decimal numbers and UTF-8.
use vstd::prelude::*;
use vstd::utf8::*;

verus! {

/// `String::push` appends one character.
pub assume_specification[ String::push ](s: &mut String, c: char)
    ensures
        final(s)@ == old(s)@.push(c),
;

/// `String::push_str` appends the characters of a string slice.
pub assume_specification[ String::push_str ](s: &mut String, other: &str)
    ensures
        final(s)@ == old(s)@ + other@,
;

/// Appending two pieces appends their concatenation.
pub(crate) proof fn lemma_append<T>(out: Seq<T>, a: Seq<T>, b: Seq<T>)
    ensures
        (out + a) + b == out + (a + b),
{
    assert((out + a) + b =~= out + (a + b));
}

/// Appends `piece` where `on` holds.
pub(crate) fn push_when(out: &mut String, on: bool, piece: &str)
    ensures
        final(out)@ == old(out)@ + (if on {
            piece@
        } else {
            Seq::empty()
        }),
{
    if on {
        out.push_str(piece);
    } else {
        assert(out@ =~= out@ + Seq::empty());
    }
}

/// The character of a decimal digit.
pub open spec fn digit(d: int) -> char {
    (0x30 + d) as char
}

/// The decimal notation of `n`.
pub open spec fn decimal(n: int) -> Seq<char>
    decreases n,
{
    if n < 10 {
        seq![digit(n)]
    } else {
        decimal(n / 10).push(digit(n % 10))
    }
}

/// Appends a number in decimal notation.
pub(crate) fn push_decimal(out: &mut String, n: u128)
    ensures
        final(out)@ == old(out)@ + decimal(n as int),
    decreases n,
{
    if n >= 10 {
        push_decimal(out, n / 10);
    }
    let d: u8 = (n % 10) as u8;
    out.push((0x30 + d) as char);
    assert(out@ =~= old(out)@ + decimal(n as int));
}

/// What `String::from_utf8_lossy` makes of `bytes`.
pub uninterp spec fn utf8_lossy(bytes: Seq<u8>) -> Seq<char>;

/// `String::from_utf8_lossy` decodes `bytes`. Of valid UTF-8 it keeps every
/// character; how it replaces invalid sequences is left to its name.
#[verifier::external_body]
pub(crate) fn decode_lossy(bytes: &[u8]) -> (decoded: String)
    ensures
        decoded@ == utf8_lossy(bytes@),
        valid_utf8(bytes@) ==> decoded@ == decode_utf8(bytes@),
{
    String::from_utf8_lossy(bytes).into_owned()
}

/// Appends the UTF-8 encoding of one character.
pub(crate) fn push_utf8(out: &mut Vec<u8>, c: char)
    ensures
        final(out)@ == old(out)@ + encode_utf8(seq![c]),
{
    let mut one = String::new();
    one.push(c);
    proof {
        assert(one@ =~= seq![c]);
    }
    out.extend_from_slice(one.as_str().as_bytes());
    assert(out@ =~= old(out)@ + encode_utf8(seq![c]));
}

/// Decoding two valid pieces one after the other decodes their concatenation.
pub proof fn lemma_decode_concat(a: Seq<u8>, b: Seq<u8>)
    requires
        valid_utf8(a),
        valid_utf8(b),
    ensures
        valid_utf8(a + b),
        decode_utf8(a + b) == decode_utf8(a) + decode_utf8(b),
    decreases a.len(),
{
    valid_utf8_concat(a, b);
    if a.len() == 0 {
        assert(a + b =~= b);
        assert(decode_utf8(a) + decode_utf8(b) =~= decode_utf8(b));
    } else {
        let rest = pop_first_scalar(a);
        assert(pop_first_scalar(a + b) =~= rest + b);
        lemma_decode_concat(rest, b);
        assert(decode_utf8(a + b) =~= decode_utf8(a) + decode_utf8(b));
    }
}

/// A valid piece whose bytes after the first all continue a character holds
/// exactly one character.
pub proof fn lemma_decode_one(b: Seq<u8>)
    requires
        valid_utf8(b),
        b.len() > 0,
        forall|i: int| 1 <= i < b.len() ==> is_continuation_byte(#[trigger] b[i]),
    ensures
        decode_utf8(b).len() == 1,
{
    let rest = pop_first_scalar(b);
    assert(valid_utf8(rest));
    if rest.len() > 0 {
        assert(rest[0] == b[length_of_first_scalar(b)]);
        assert(valid_first_scalar(rest));
        assert(false);
    }
    assert(decode_utf8(rest) =~= Seq::<char>::empty());
}

/// Cutting valid UTF-8 where a character starts, or at its end, leaves two
/// valid pieces.
pub proof fn lemma_cut(b: Seq<u8>, at: int)
    requires
        valid_utf8(b),
        0 <= at <= b.len(),
        at < b.len() ==> !is_continuation_byte(b[at]),
    ensures
        valid_utf8(b.subrange(0, at)),
        valid_utf8(b.subrange(at, b.len() as int)),
        decode_utf8(b) == decode_utf8(b.subrange(0, at)) + decode_utf8(
            b.subrange(at, b.len() as int),
        ),
{
    if at == b.len() {
        is_char_boundary_start_end_of_seq(b);
    } else {
        is_char_boundary_iff_not_is_continuation_byte(b, at);
    }
    valid_utf8_split(b, at);
    assert(b =~= b.subrange(0, at) + b.subrange(at, b.len() as int));
    lemma_decode_concat(b.subrange(0, at), b.subrange(at, b.len() as int));
}

/// An ASCII byte stands in valid UTF-8 exactly where its character stands in
/// the text.
pub proof fn lemma_decode_ascii(b: Seq<u8>, byte: u8)
    requires
        valid_utf8(b),
        byte < 0x80,
    ensures
        b.contains(byte) <==> decode_utf8(b).contains(byte as char),
    decreases b.len(),
{
    if b.len() > 0 {
        let rest = pop_first_scalar(b);
        let first = decode_first_scalar(b) as char;
        lemma_decode_ascii(rest, byte);
        let text = decode_utf8(b);
        assert(text =~= seq![first] + decode_utf8(rest));
        assert(first == byte as char <==> take_first_scalar(b).contains(byte)) by {
            lemma_first_ascii(b, byte);
        }
        assert(b =~= take_first_scalar(b) + rest);
        if b.contains(byte) {
            if rest.contains(byte) {
                let i = choose|i: int|
                    0 <= i < decode_utf8(rest).len() && decode_utf8(rest)[i] == byte as char;
                assert(text[i + 1] == byte as char);
            } else {
                let i = choose|i: int| 0 <= i < b.len() && b[i] == byte;
                if i >= take_first_scalar(b).len() {
                    assert(rest[i - take_first_scalar(b).len()] == byte);
                }
                assert(take_first_scalar(b)[i] == byte);
                assert(text[0] == byte as char);
            }
        }
        if text.contains(byte as char) {
            let i = choose|i: int| 0 <= i < text.len() && text[i] == byte as char;
            if i > 0 {
                assert(decode_utf8(rest)[i - 1] == byte as char);
                let j = choose|j: int| 0 <= j < rest.len() && rest[j] == byte;
                assert(b[j + take_first_scalar(b).len()] == byte);
            } else {
                let j = choose|j: int|
                    0 <= j < take_first_scalar(b).len() && take_first_scalar(b)[j] == byte;
                assert(b[j] == byte);
            }
        }
    }
}

/// Valid UTF-8 repeats an ASCII byte throughout exactly if its text repeats
/// that character throughout.
pub proof fn lemma_decode_repeated(b: Seq<u8>, byte: u8)
    requires
        valid_utf8(b),
        byte < 0x80,
    ensures
        (forall|i: int| 0 <= i < b.len() ==> b[i] == byte) <==> (forall|i: int|
            0 <= i < decode_utf8(b).len() ==> decode_utf8(b)[i] == byte as char),
    decreases b.len(),
{
    if b.len() > 0 {
        let rest = pop_first_scalar(b);
        let first = take_first_scalar(b);
        let text = decode_utf8(b);
        lemma_decode_repeated(rest, byte);
        lemma_first_ascii(b, byte);
        assert(text =~= seq![decode_first_scalar(b) as char] + decode_utf8(rest));
        assert(b =~= first + rest);
        if forall|i: int| 0 <= i < b.len() ==> b[i] == byte {
            assert(first[0] == byte);
            assert forall|i: int| 0 <= i < rest.len() implies rest[i] == byte by {
                assert(rest[i] == b[i + first.len()]);
            }
            assert forall|i: int| 0 <= i < text.len() implies text[i] == byte as char by {
                if i > 0 {
                    assert(text[i] == decode_utf8(rest)[i - 1]);
                }
            }
        }
        if forall|i: int| 0 <= i < text.len() ==> text[i] == byte as char {
            assert(text[0] == byte as char);
            assert forall|i: int| 0 <= i < decode_utf8(rest).len() implies decode_utf8(rest)[i]
                == byte as char by {
                assert(decode_utf8(rest)[i] == text[i + 1]);
            }
            assert(first.contains(byte));
            assert(first[0] == byte);
            assert forall|i: int| 0 <= i < b.len() implies b[i] == byte by {
                if i > 0 {
                    assert(b[i] == rest[i - 1]);
                }
            }
        }
    }
}

/// Valid UTF-8 ends in an ASCII byte exactly if its text ends in that
/// character.
pub proof fn lemma_decode_last(b: Seq<u8>, byte: u8)
    requires
        valid_utf8(b),
        b.len() > 0,
        byte < 0x80,
    ensures
        decode_utf8(b).len() > 0,
        b.last() == byte <==> decode_utf8(b).last() == byte as char,
    decreases b.len(),
{
    let rest = pop_first_scalar(b);
    let text = decode_utf8(b);
    lemma_first_ascii(b, byte);
    assert(text =~= seq![decode_first_scalar(b) as char] + decode_utf8(rest));
    if rest.len() == 0 {
        assert(take_first_scalar(b) =~= b);
        assert(b[b.len() - 1] == b.last());
    } else {
        lemma_decode_last(rest, byte);
        assert(rest.last() == b.last());
        assert(text.last() == decode_utf8(rest).last());
    }
}

/// The bytes of a character hold an ASCII byte only if they are that byte.
proof fn lemma_first_ascii(b: Seq<u8>, byte: u8)
    requires
        valid_utf8(b),
        b.len() > 0,
        byte < 0x80,
    ensures
        decode_first_scalar(b) as char == byte as char <==> take_first_scalar(b).contains(byte),
        take_first_scalar(b).contains(byte) ==> take_first_scalar(b) == seq![byte],
{
    let first = take_first_scalar(b);
    if is_leading_byte_width_1(b[0]) {
        let b0 = b[0];
        assert(codepoint_width_1(b0) == b0) by (bit_vector)
            requires b0 <= 0x7f;
        assert(first =~= seq![b0]);
        if b0 == byte {
            assert(first[0] == byte);
        }
    } else {
        assert(forall|i: int| 0 <= i < first.len() ==> first[i] >= 0x80);
        assert(!first.contains(byte));
        decode_utf8_first_scalar(b);
        assert(has_width_1_encoding(byte as u32));
        assert((byte as char) as u32 == byte as u32);
        assert(encode_scalar(byte as u32).len() == 1);
        assert(first.len() >= 2);
    }
}

/// The index behind the last newline of `text`, or 0 if it has none.
pub open spec fn line_start(text: Seq<char>) -> int
    decreases text.len(),
{
    if text.len() == 0 {
        0
    } else if text.last() == '\n' {
        text.len() as int
    } else {
        line_start(text.drop_last())
    }
}

/// The last line starts behind the part that ends in a newline.
pub proof fn lemma_line_start(done: Seq<char>, line: Seq<char>)
    requires
        done.len() == 0 || done.last() == '\n',
        !line.contains('\n'),
    ensures
        line_start(done + line) == done.len(),
    decreases line.len(),
{
    let text = done + line;
    if line.len() == 0 {
        assert(text =~= done);
    } else {
        assert(line[line.len() - 1] == text.last());
        assert(text.drop_last() =~= done + line.drop_last());
        if line.drop_last().contains('\n') {
            let i = choose|i: int| 0 <= i < line.drop_last().len() && line.drop_last()[i] == '\n';
            assert(line[i] == '\n');
        }
        lemma_line_start(done, line.drop_last());
    }
}

/// Cutting valid UTF-8 behind its last newline byte cuts the text before its
/// last line.
pub proof fn lemma_cut_line(b: Seq<u8>, at: int)
    requires
        valid_utf8(b),
        0 <= at <= b.len(),
        at > 0 ==> b[at - 1] == 0x0a,
        forall|i: int| at <= i < b.len() ==> b[i] != 0x0a,
    ensures
        valid_utf8(b.subrange(0, at)),
        valid_utf8(b.subrange(at, b.len() as int)),
        decode_utf8(b) == decode_utf8(b.subrange(0, at)) + decode_utf8(
            b.subrange(at, b.len() as int),
        ),
        line_start(decode_utf8(b)) == decode_utf8(b.subrange(0, at)).len(),
        !decode_utf8(b.subrange(at, b.len() as int)).contains('\n'),
{
    let head = b.subrange(0, at);
    let tail = b.subrange(at, b.len() as int);
    if at > 0 {
        lemma_cut(b, at - 1);
        let last = b.subrange(at - 1, b.len() as int);
        lemma_first_ascii(last, 0x0a);
        assert(pop_first_scalar(last) =~= tail);
        assert(take_first_scalar(last)[0] == 0x0a);
        let newline = seq![0x0au8];
        reveal_with_fuel(valid_utf8, 2);
        reveal_with_fuel(decode_utf8, 2);
        assert(take_first_scalar(last) == newline);
        assert(pop_first_scalar(newline) =~= Seq::<u8>::empty());
        lemma_first_ascii(newline, 0x0a);
        assert(take_first_scalar(newline)[0] == 0x0a);
        assert(decode_utf8(newline) =~= seq!['\n']);
        lemma_decode_concat(b.subrange(0, at - 1), newline);
        assert(head =~= b.subrange(0, at - 1) + newline);
    } else {
        assert(tail =~= b);
        assert(head =~= Seq::<u8>::empty());
    }
    lemma_decode_concat(head, tail);
    assert(b =~= head + tail);
    lemma_decode_ascii(tail, 0x0a);
    lemma_line_start(decode_utf8(head), decode_utf8(tail));
}

/// Of four bytes in a row of valid UTF-8, one starts a character.
pub proof fn lemma_short_runs(b: Seq<u8>, i: int)
    requires
        valid_utf8(b),
        0 <= i,
        i + 3 < b.len(),
    ensures
        exists|j: int| i <= j <= i + 3 && !is_continuation_byte(#[trigger] b[j]),
    decreases b.len(),
{
    let len = length_of_first_scalar(b);
    let rest = pop_first_scalar(b);
    assert(valid_utf8(rest));
    if i == 0 {
        assert(!is_continuation_byte(b[0]));
    } else if i < len {
        assert(rest.len() > 0);
        assert(rest[0] == b[len]);
        assert(!is_continuation_byte(b[len]));
    } else {
        lemma_short_runs(rest, i - len);
        let j = choose|j: int|
            i - len <= j <= i - len + 3 && !is_continuation_byte(#[trigger] rest[j]);
        assert(rest[j] == b[j + len]);
    }
}

} // verus!
