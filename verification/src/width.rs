//! How many columns a character takes.
use vstd::prelude::*;

verus! {

/// Whether a character is drawn over the one before it: the blocks of combining
/// marks, variation selectors, and the spaces and joiners of no width.
pub open spec fn is_mark(c: char) -> bool {
    ||| '\u{300}' <= c <= '\u{36f}'
    ||| '\u{1ab0}' <= c <= '\u{1aff}'
    ||| '\u{1dc0}' <= c <= '\u{1dff}'
    ||| '\u{200b}' <= c <= '\u{200f}'
    ||| '\u{20d0}' <= c <= '\u{20ff}'
    ||| '\u{302a}' <= c <= '\u{302d}'
    ||| '\u{3099}' <= c <= '\u{309a}'
    ||| '\u{fe00}' <= c <= '\u{fe0f}'
    ||| '\u{fe20}' <= c <= '\u{fe2f}'
}

/// Whether a character takes two columns: the blocks of East Asian writing, of
/// full width forms, and of emoji.
pub open spec fn is_wide(c: char) -> bool {
    &&& !is_mark(c)
    &&& c != '\u{303f}'
    &&& {
        ||| '\u{1100}' <= c <= '\u{115f}'
        ||| '\u{2e80}' <= c <= '\u{a4cf}'
        ||| '\u{ac00}' <= c <= '\u{d7a3}'
        ||| '\u{f900}' <= c <= '\u{faff}'
        ||| '\u{fe30}' <= c <= '\u{fe6f}'
        ||| '\u{ff00}' <= c <= '\u{ff60}'
        ||| '\u{ffe0}' <= c <= '\u{ffe6}'
        ||| '\u{1f300}' <= c <= '\u{1f64f}'
        ||| '\u{1f680}' <= c <= '\u{1f6ff}'
        ||| '\u{1f900}' <= c <= '\u{1f9ff}'
        ||| '\u{20000}' <= c <= '\u{3fffd}'
    }
}

/// Whether a character is drawn over the one before it.
pub fn takes_no_column(c: char) -> (mark: bool)
    ensures
        mark == is_mark(c),
{
    ('\u{300}' <= c && c <= '\u{36f}') || ('\u{1ab0}' <= c && c <= '\u{1aff}') || ('\u{1dc0}' <= c
        && c <= '\u{1dff}') || ('\u{200b}' <= c && c <= '\u{200f}') || ('\u{20d0}' <= c && c
        <= '\u{20ff}') || ('\u{302a}' <= c && c <= '\u{302d}') || ('\u{3099}' <= c && c
        <= '\u{309a}') || ('\u{fe00}' <= c && c <= '\u{fe0f}') || ('\u{fe20}' <= c && c
        <= '\u{fe2f}')
}

/// Whether a character takes two columns.
pub fn takes_two_columns(c: char) -> (wide: bool)
    ensures
        wide == is_wide(c),
{
    !takes_no_column(c) && c != '\u{303f}' && (('\u{1100}' <= c && c <= '\u{115f}') || (
    '\u{2e80}' <= c && c <= '\u{a4cf}') || ('\u{ac00}' <= c && c <= '\u{d7a3}') || ('\u{f900}' <= c
        && c <= '\u{faff}') || ('\u{fe30}' <= c && c <= '\u{fe6f}') || ('\u{ff00}' <= c && c
        <= '\u{ff60}') || ('\u{ffe0}' <= c && c <= '\u{ffe6}') || ('\u{1f300}' <= c && c
        <= '\u{1f64f}') || ('\u{1f680}' <= c && c <= '\u{1f6ff}') || ('\u{1f900}' <= c && c
        <= '\u{1f9ff}') || ('\u{20000}' <= c && c <= '\u{3fffd}'))
}

} // verus!
