//! The fields of operating system commands.
use vstd::prelude::*;
use vstd::utf8::*;

use crate::sgr::inner;

verus! {

/// What stands between two fields.
pub const SEPARATOR: u8 = 0x3b;

/// The field at `i`, empty where there is none.
pub open spec fn field_at(fields: Seq<Seq<u8>>, i: int) -> Seq<u8> {
    if 0 <= i < fields.len() {
        fields[i]
    } else {
        Seq::empty()
    }
}

/// Fields written one after the other, with a separator between two.
pub open spec fn joined(fields: Seq<Seq<u8>>) -> Seq<u8>
    decreases fields.len(),
{
    if fields.len() == 0 {
        Seq::empty()
    } else if fields.len() == 1 {
        fields[0]
    } else {
        joined(fields.drop_last()).push(SEPARATOR) + fields.last()
    }
}

/// Whether a byte is a decimal digit.
pub open spec fn is_digit(byte: u8) -> bool {
    0x30 <= byte <= 0x39
}

/// Whether bytes are the decimal notation of a number.
pub open spec fn is_number(bytes: Seq<u8>) -> bool {
    bytes.len() > 0 && forall|i: int| 0 <= i < bytes.len() ==> is_digit(#[trigger] bytes[i])
}

/// The number that digits stand for.
pub open spec fn number(digits: Seq<u8>) -> int
    decreases digits.len(),
{
    if digits.len() == 0 {
        0
    } else {
        number(digits.drop_last()) * 10 + (digits.last() - 0x30)
    }
}

/// The exit status that a field gives, -1 where it gives none.
pub open spec fn exit_status(field: Seq<u8>) -> int {
    if is_number(field) && number(field) <= i32::MAX {
        number(field)
    } else {
        -1
    }
}

/// Numbers of digits never fall when a digit is appended.
proof fn lemma_number_grows(digits: Seq<u8>, n: int)
    requires
        is_number(digits),
        0 <= n <= digits.len(),
    ensures
        0 <= number(digits.take(n)) <= number(digits),
    decreases digits.len() - n,
{
    if n == digits.len() {
        assert(digits.take(n) =~= digits);
        lemma_number_sign(digits);
    } else {
        let next = digits.take(n + 1);
        assert(next.drop_last() =~= digits.take(n));
        assert(is_digit(digits[n]));
        lemma_number_sign(digits.take(n));
        lemma_number_grows(digits, n + 1);
    }
}

/// Digits stand for no negative number.
proof fn lemma_number_sign(digits: Seq<u8>)
    requires
        forall|i: int| 0 <= i < digits.len() ==> is_digit(#[trigger] digits[i]),
    ensures
        number(digits) >= 0,
    decreases digits.len(),
{
    if digits.len() > 0 {
        lemma_number_sign(digits.drop_last());
        assert(is_digit(digits.last()));
    }
}

/// Whether a field is the given word.
pub(crate) fn is_word(field: &[u8], word: &str) -> (same: bool)
    ensures
        same == (field@ == encode_utf8(word@)),
{
    let bytes = word.as_bytes();
    if field.len() != bytes.len() {
        return false;
    }
    let mut i: usize = 0;
    while i < field.len()
        invariant
            i <= field.len(),
            field@.len() == bytes@.len(),
            bytes@ == encode_utf8(word@),
            forall|k: int| 0 <= k < i ==> field@[k] == bytes@[k],
        decreases field.len() - i,
    {
        if field[i] != bytes[i] {
            assert(field@[i as int] != bytes@[i as int]);
            return false;
        }
        i += 1;
    }
    assert(field@ =~= bytes@);
    true
}

/// Whether the field at `i` is the given word.
pub(crate) fn is_field(fields: &Vec<Vec<u8>>, i: usize, word: &str) -> (same: bool)
    ensures
        same == (field_at(inner(fields@), i as int) == encode_utf8(word@)),
{
    if i < fields.len() {
        is_word(fields[i].as_slice(), word)
    } else {
        let bytes = word.as_bytes();
        assert(bytes@.len() == 0 ==> bytes@ =~= Seq::<u8>::empty());
        bytes.len() == 0
    }
}

/// The fields from `from` on, with a separator between two.
pub(crate) fn join_from(fields: &Vec<Vec<u8>>, from: usize) -> (bytes: Vec<u8>)
    requires
        from <= fields.len(),
    ensures
        bytes@ == joined(inner(fields@).skip(from as int)),
{
    let ghost all = inner(fields@).skip(from as int);
    let mut bytes: Vec<u8> = Vec::new();
    let mut i: usize = from;
    assert(all.take(0) =~= Seq::<Seq<u8>>::empty());
    while i < fields.len()
        invariant
            from <= i <= fields.len(),
            all == inner(fields@).skip(from as int),
            bytes@ == joined(all.take(i - from)),
        decreases fields.len() - i,
    {
        let ghost before = bytes@;
        if i > from {
            bytes.push(SEPARATOR);
        }
        bytes.extend_from_slice(fields[i].as_slice());
        proof {
            let next = all.take(i - from + 1);
            assert(next.drop_last() =~= all.take(i - from));
            assert(next.last() == fields@[i as int]@);
            if i == from {
                assert(bytes@ =~= next[0]);
            } else {
                assert(bytes@ =~= before.push(SEPARATOR) + next.last());
            }
        }
        i += 1;
    }
    assert(all.take(i - from) =~= all);
    bytes
}

/// The exit status that a field gives, -1 where it gives none.
fn parse_status(field: &[u8]) -> (status: i32)
    ensures
        status == exit_status(field@),
{
    if field.len() == 0 {
        return -1;
    }
    let mut status: i64 = 0;
    let mut i: usize = 0;
    assert(field@.take(0) =~= Seq::<u8>::empty());
    while i < field.len()
        invariant
            0 < field.len(),
            i <= field.len(),
            0 <= status <= i32::MAX,
            status == number(field@.take(i as int)),
            forall|k: int| 0 <= k < i ==> is_digit(#[trigger] field@[k]),
        decreases field.len() - i,
    {
        let byte = field[i];
        if byte < 0x30 || byte > 0x39 {
            assert(!is_digit(field@[i as int]));
            return -1;
        }
        status = status * 10 + (byte - 0x30) as i64;
        proof {
            let next = field@.take(i + 1);
            assert(next.drop_last() =~= field@.take(i as int));
            if status > i32::MAX && is_number(field@) {
                lemma_number_grows(field@, i + 1);
            }
        }
        if status > i32::MAX as i64 {
            return -1;
        }
        i += 1;
    }
    assert(field@.take(i as int) =~= field@);
    status as i32
}

/// The exit status that the field at `i` gives, -1 where it gives none.
pub(crate) fn read_status(fields: &Vec<Vec<u8>>, i: usize) -> (status: i32)
    ensures
        status == exit_status(field_at(inner(fields@), i as int)),
{
    if i < fields.len() {
        parse_status(fields[i].as_slice())
    } else {
        -1
    }
}

} // verus!
