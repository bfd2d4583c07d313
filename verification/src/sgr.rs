//! The look of cells as the parameters of a "select graphic rendition".
use vstd::prelude::*;

use crate::grid::{CellAttrs, Color};
use crate::text::{decimal, lemma_append, push_decimal};

verus! {

/// The parameters that ask for a colour: `base` is 30 for the foreground and
/// 40 for the background.
pub open spec fn color_codes(color: Option<Color>, base: u16) -> Seq<u16> {
    match color {
        None => Seq::empty(),
        Some(Color::Indexed(n)) => if n < 8 {
            seq![(base + n) as u16]
        } else if n < 16 {
            seq![(base + 52 + n) as u16]
        } else {
            seq![(base + 8) as u16, 5u16, n as u16]
        },
        Some(Color::Rgb(r, g, b)) => seq![(base + 8) as u16, 2u16, r as u16, g as u16, b as u16],
    }
}

/// `code` where `on` holds.
pub open spec fn code_when(on: bool, code: u16) -> Seq<u16> {
    if on {
        seq![code]
    } else {
        Seq::empty()
    }
}

/// The parameters that ask for a look, whatever the look before.
pub open spec fn sgr_codes(attrs: CellAttrs) -> Seq<u16> {
    seq![0u16] + code_when(attrs.bold, 1) + code_when(attrs.dim, 2) + code_when(attrs.italic, 3)
        + code_when(attrs.underline, 4) + code_when(attrs.inverse, 7) + code_when(
        attrs.strikethrough,
        9,
    ) + color_codes(attrs.fg, 30) + color_codes(attrs.bg, 40)
}

/// Numbers in decimal notation, with a semicolon between two.
pub open spec fn joined(codes: Seq<u16>) -> Seq<char>
    decreases codes.len(),
{
    if codes.len() == 0 {
        Seq::empty()
    } else if codes.len() == 1 {
        decimal(codes[0] as int)
    } else {
        joined(codes.drop_last()) + ";"@ + decimal(codes.last() as int)
    }
}

/// The sequence that asks for a look, whatever the look before.
pub open spec fn sgr(attrs: CellAttrs) -> Seq<char> {
    "\x1b["@ + joined(sgr_codes(attrs)) + "m"@
}

/// Appends the parameters that ask for a colour.
fn push_color(codes: &mut Vec<u16>, color: Option<Color>, base: u16)
    requires
        base <= 40,
    ensures
        final(codes)@ == old(codes)@ + color_codes(color, base),
{
    match color {
        None => {},
        Some(Color::Indexed(n)) => {
            if n < 8 {
                codes.push(base + n as u16);
            } else if n < 16 {
                codes.push(base + 52 + n as u16);
            } else {
                codes.push(base + 8);
                codes.push(5);
                codes.push(n as u16);
            }
        },
        Some(Color::Rgb(r, g, b)) => {
            codes.push(base + 8);
            codes.push(2);
            codes.push(r as u16);
            codes.push(g as u16);
            codes.push(b as u16);
        },
    }
    assert(codes@ =~= old(codes)@ + color_codes(color, base));
}

/// Appends `code` where `on` holds.
fn push_code(codes: &mut Vec<u16>, on: bool, code: u16)
    ensures
        final(codes)@ == old(codes)@ + code_when(on, code),
{
    if on {
        codes.push(code);
    }
    assert(codes@ =~= old(codes)@ + code_when(on, code));
}

/// The sequence that asks for a look, whatever the look before.
pub fn encode_sgr(attrs: &CellAttrs) -> (sequence: String)
    ensures
        sequence@ == sgr(*attrs),
{
    let mut codes: Vec<u16> = Vec::new();
    codes.push(0);
    assert(codes@ =~= seq![0u16]);
    push_code(&mut codes, attrs.bold, 1);
    push_code(&mut codes, attrs.dim, 2);
    push_code(&mut codes, attrs.italic, 3);
    push_code(&mut codes, attrs.underline, 4);
    push_code(&mut codes, attrs.inverse, 7);
    push_code(&mut codes, attrs.strikethrough, 9);
    push_color(&mut codes, attrs.fg, 30);
    push_color(&mut codes, attrs.bg, 40);
    let ghost all = sgr_codes(*attrs);
    let mut out = String::new();
    out.push_str("\x1b[");
    let ghost start = out@;
    assert(start =~= "\x1b["@);
    let mut i: usize = 0;
    assert(start + joined(all.take(0)) =~= start);
    while i < codes.len()
        invariant
            i <= codes.len(),
            codes@ == all,
            out@ == start + joined(all.take(i as int)),
        decreases codes.len() - i,
    {
        let ghost before = joined(all.take(i as int));
        if i > 0 {
            out.push_str(";");
        }
        push_decimal(&mut out, codes[i] as u128);
        proof {
            let next = all.take(i + 1);
            assert(next.drop_last() =~= all.take(i as int));
            assert(next.last() == all[i as int]);
            if i > 0 {
                lemma_append(start, before, ";"@);
                lemma_append(start, before + ";"@, decimal(all[i as int] as int));
            } else {
                assert(all.take(0) =~= Seq::<u16>::empty());
                assert(start + joined(all.take(0)) =~= start);
            }
        }
        i += 1;
    }
    assert(all.take(i as int) =~= all);
    out.push_str("m");
    out
}

/// The sequences inside a sequence of vectors.
pub open spec fn inner<T>(v: Seq<Vec<T>>) -> Seq<Seq<T>> {
    Seq::new(v.len(), |i: int| v[i]@)
}

/// The look after a parameter that stands for itself; a parameter without
/// meaning leaves it as it is.
pub open spec fn with_code(attrs: CellAttrs, code: u16) -> CellAttrs {
    if code == 0 {
        CellAttrs::plain()
    } else if code == 1 {
        CellAttrs { bold: true, ..attrs }
    } else if code == 2 {
        CellAttrs { dim: true, ..attrs }
    } else if code == 3 {
        CellAttrs { italic: true, ..attrs }
    } else if code == 4 {
        CellAttrs { underline: true, ..attrs }
    } else if code == 7 {
        CellAttrs { inverse: true, ..attrs }
    } else if code == 9 {
        CellAttrs { strikethrough: true, ..attrs }
    } else if code == 22 {
        CellAttrs { bold: false, dim: false, ..attrs }
    } else if code == 23 {
        CellAttrs { italic: false, ..attrs }
    } else if code == 24 {
        CellAttrs { underline: false, ..attrs }
    } else if code == 27 {
        CellAttrs { inverse: false, ..attrs }
    } else if code == 29 {
        CellAttrs { strikethrough: false, ..attrs }
    } else if 30 <= code <= 37 {
        CellAttrs { fg: Some(Color::Indexed((code - 30) as u8)), ..attrs }
    } else if code == 39 {
        CellAttrs { fg: None, ..attrs }
    } else if 40 <= code <= 47 {
        CellAttrs { bg: Some(Color::Indexed((code - 40) as u8)), ..attrs }
    } else if code == 49 {
        CellAttrs { bg: None, ..attrs }
    } else if 90 <= code <= 97 {
        CellAttrs { fg: Some(Color::Indexed((code - 82) as u8)), ..attrs }
    } else if 100 <= code <= 107 {
        CellAttrs { bg: Some(Color::Indexed((code - 92) as u8)), ..attrs }
    } else {
        attrs
    }
}

/// The colour that the arguments of an extended colour name.
pub open spec fn asked_color(args: Seq<u16>) -> Option<Color> {
    if args.len() >= 2 && args[0] == 5 && args[1] <= 255 {
        Some(Color::Indexed(args[1] as u8))
    } else if args.len() == 4 && args[0] == 2 && args[1] <= 255 && args[2] <= 255 && args[3]
        <= 255 {
        Some(Color::Rgb(args[1] as u8, args[2] as u8, args[3] as u8))
    } else if args.len() > 4 && args[0] == 2 && args[2] <= 255 && args[3] <= 255 && args[4]
        <= 255 {
        Some(Color::Rgb(args[2] as u8, args[3] as u8, args[4] as u8))
    } else {
        None
    }
}

/// The look with another colour, if one is named: of the background where
/// `code` is 48, else of the foreground.
pub open spec fn with_color(attrs: CellAttrs, code: u16, color: Option<Color>) -> CellAttrs {
    match color {
        None => attrs,
        Some(_) => if code == 48 {
            CellAttrs { bg: color, ..attrs }
        } else {
            CellAttrs { fg: color, ..attrs }
        },
    }
}

/// The first numbers of up to four parameters.
pub open spec fn heads(params: Seq<Seq<u16>>) -> Seq<u16> {
    Seq::new(
        if params.len() < 4 {
            params.len()
        } else {
            4
        },
        |i: int|
            if params[i].len() > 0 {
                params[i][0]
            } else {
                0
            },
    )
}

/// How many parameters an extended colour takes, itself included.
pub open spec fn color_span(args: Seq<u16>) -> int {
    if args.len() > 0 && args[0] == 5 {
        3
    } else if args.len() > 0 && args[0] == 2 {
        5
    } else {
        1
    }
}

/// The parameters from the `n`-th on, if there are that many.
pub open spec fn rest_from(params: Seq<Seq<u16>>, n: int) -> Seq<Seq<u16>> {
    if n <= params.len() {
        params.skip(n)
    } else {
        Seq::empty()
    }
}

/// The look after all of the parameters. The arguments of an extended colour
/// stand in the same parameter, or in those that follow.
pub open spec fn with_params(attrs: CellAttrs, params: Seq<Seq<u16>>) -> CellAttrs
    decreases params.len(),
{
    if params.len() == 0 {
        attrs
    } else {
        let first = params[0];
        let rest = params.skip(1);
        if first.len() == 0 {
            with_params(attrs, rest)
        } else if first[0] != 38 && first[0] != 48 {
            with_params(with_code(attrs, first[0]), rest)
        } else if first.len() > 1 {
            with_params(with_color(attrs, first[0], asked_color(first.skip(1))), rest)
        } else {
            with_params(
                with_color(attrs, first[0], asked_color(heads(rest))),
                rest_from(params, color_span(heads(rest))),
            )
        }
    }
}

/// Applies a parameter that stands for itself.
fn apply_code(attrs: &mut CellAttrs, code: u16)
    ensures
        *final(attrs) == with_code(*old(attrs), code),
{
    if code == 0 {
        *attrs = CellAttrs::default();
    } else if code == 1 {
        attrs.bold = true;
    } else if code == 2 {
        attrs.dim = true;
    } else if code == 3 {
        attrs.italic = true;
    } else if code == 4 {
        attrs.underline = true;
    } else if code == 7 {
        attrs.inverse = true;
    } else if code == 9 {
        attrs.strikethrough = true;
    } else if code == 22 {
        attrs.bold = false;
        attrs.dim = false;
    } else if code == 23 {
        attrs.italic = false;
    } else if code == 24 {
        attrs.underline = false;
    } else if code == 27 {
        attrs.inverse = false;
    } else if code == 29 {
        attrs.strikethrough = false;
    } else if 30 <= code && code <= 37 {
        attrs.fg = Some(Color::Indexed((code - 30) as u8));
    } else if code == 39 {
        attrs.fg = None;
    } else if 40 <= code && code <= 47 {
        attrs.bg = Some(Color::Indexed((code - 40) as u8));
    } else if code == 49 {
        attrs.bg = None;
    } else if 90 <= code && code <= 97 {
        attrs.fg = Some(Color::Indexed((code - 82) as u8));
    } else if 100 <= code && code <= 107 {
        attrs.bg = Some(Color::Indexed((code - 92) as u8));
    }
}

/// The colour that the arguments of an extended colour name.
fn read_color(args: &Vec<u16>) -> (color: Option<Color>)
    ensures
        color == asked_color(args@),
{
    if args.len() >= 2 && args[0] == 5 && args[1] <= 255 {
        Some(Color::Indexed(args[1] as u8))
    } else if args.len() == 4 && args[0] == 2 && args[1] <= 255 && args[2] <= 255 && args[3]
        <= 255 {
        Some(Color::Rgb(args[1] as u8, args[2] as u8, args[3] as u8))
    } else if args.len() > 4 && args[0] == 2 && args[2] <= 255 && args[3] <= 255 && args[4]
        <= 255 {
        Some(Color::Rgb(args[2] as u8, args[3] as u8, args[4] as u8))
    } else {
        None
    }
}

/// Sets a colour, if one is named.
fn apply_color(attrs: &mut CellAttrs, code: u16, color: Option<Color>)
    ensures
        *final(attrs) == with_color(*old(attrs), code, color),
{
    if color.is_some() {
        if code == 48 {
            attrs.bg = color;
        } else {
            attrs.fg = color;
        }
    }
}

/// Applies the parameters of a "select graphic rendition".
pub fn apply_sgr(attrs: &mut CellAttrs, params: &Vec<Vec<u16>>)
    ensures
        *final(attrs) == with_params(*old(attrs), inner(params@)),
{
    let ghost all = inner(params@);
    let ghost start = *attrs;
    let mut i: usize = 0;
    assert(all.skip(0) =~= all);
    while i < params.len()
        invariant
            i <= params.len(),
            all == inner(params@),
            with_params(start, all) == with_params(*attrs, all.skip(i as int)),
        decreases params.len() - i,
    {
        let ghost left = all.skip(i as int);
        let first = &params[i];
        assert(left[0] == first@);
        assert(left.skip(1) =~= all.skip(i + 1));
        if first.len() == 0 {
            i += 1;
        } else if first[0] != 38 && first[0] != 48 {
            apply_code(attrs, first[0]);
            i += 1;
        } else {
            let mut args: Vec<u16> = Vec::new();
            if first.len() > 1 {
                let mut k: usize = 1;
                while k < first.len()
                    invariant
                        1 <= k <= first.len(),
                        args@ == first@.subrange(1, k as int),
                    decreases first.len() - k,
                {
                    args.push(first[k]);
                    k += 1;
                    assert(args@ =~= first@.subrange(1, k as int));
                }
                assert(args@ =~= first@.skip(1));
                apply_color(attrs, first[0], read_color(&args));
                i += 1;
            } else {
                let ghost next = all.skip(i + 1);
                while args.len() < 4 && i + 1 + args.len() < params.len()
                    invariant
                        i < params.len(),
                        args.len() <= 4,
                        i + 1 + args.len() <= params.len(),
                        all == inner(params@),
                        next == all.skip(i + 1),
                        forall|k: int|
                            0 <= k < args.len() ==> args@[k] == #[trigger] heads(next)[k],
                    decreases 4 - args.len(),
                {
                    let param = &params[i + 1 + args.len()];
                    assert(param@ == next[args@.len() as int]);
                    if param.len() > 0 {
                        args.push(param[0]);
                    } else {
                        args.push(0);
                    }
                }
                assert(args@ =~= heads(next));
                apply_color(attrs, first[0], read_color(&args));
                let span: usize = if args.len() > 0 && args[0] == 5 {
                    3
                } else if args.len() > 0 && args[0] == 2 {
                    5
                } else {
                    1
                };
                if span <= params.len() - i {
                    assert(left.skip(span as int) =~= all.skip(i + span));
                    i += span;
                } else {
                    i = params.len();
                    assert(all.skip(i as int) =~= Seq::<Seq<u16>>::empty());
                }
            }
        }
    }
    assert(all.skip(i as int) =~= Seq::<Seq<u16>>::empty());
}

/// Numbers as parameters of one number each.
pub open spec fn singles(codes: Seq<u16>) -> Seq<Seq<u16>> {
    Seq::new(codes.len(), |i: int| seq![codes[i]])
}

/// A parameter that stands for itself is applied on its own.
proof fn lemma_apply_code(attrs: CellAttrs, on: bool, code: u16, rest: Seq<u16>)
    requires
        code != 38,
        code != 48,
    ensures
        with_params(attrs, singles(code_when(on, code) + rest)) == with_params(
            if on {
                with_code(attrs, code)
            } else {
                attrs
            },
            singles(rest),
        ),
{
    let params = singles(code_when(on, code) + rest);
    if on {
        assert(params[0] =~= seq![code]);
        assert(params.skip(1) =~= singles(rest));
    } else {
        assert(code_when(on, code) + rest =~= rest);
    }
}

/// The parameters of a colour set that colour, and nothing else.
proof fn lemma_apply_color(attrs: CellAttrs, color: Option<Color>, base: u16, rest: Seq<u16>)
    requires
        base == 30 || base == 40,
    ensures
        with_params(attrs, singles(color_codes(color, base) + rest)) == with_params(
            with_color(
                attrs,
                if base == 40 {
                    48
                } else {
                    38
                },
                color,
            ),
            singles(rest),
        ),
{
    let codes = color_codes(color, base);
    let params = singles(codes + rest);
    match color {
        None => {
            assert(codes + rest =~= rest);
        },
        Some(Color::Indexed(n)) if n < 16 => {
            assert(params[0] =~= codes);
            assert(params.skip(1) =~= singles(rest));
        },
        Some(Color::Indexed(n)) => {
            let args = heads(params.skip(1));
            assert(params[0] =~= seq![codes[0]]);
            assert(params[1] =~= seq![codes[1]]);
            assert(params[2] =~= seq![codes[2]]);
            assert(args[0] == 5);
            assert(args[1] == n);
            assert(params.skip(3) =~= singles(rest));
        },
        Some(Color::Rgb(r, g, b)) => {
            let args = heads(params.skip(1));
            assert(params[0] =~= seq![codes[0]]);
            assert(params[1] =~= seq![codes[1]]);
            assert(params[2] =~= seq![codes[2]]);
            assert(params[3] =~= seq![codes[3]]);
            assert(params[4] =~= seq![codes[4]]);
            assert(args.len() == 4);
            assert(args[0] == 2 && args[1] == r && args[2] == g && args[3] == b);
            assert(params.skip(5) =~= singles(rest));
        },
    }
}

/// The parameters that [`encode_sgr`] writes for a look bring that look back,
/// whatever the look before.
pub proof fn sgr_round_trip(before: CellAttrs, attrs: CellAttrs)
    ensures
        with_params(before, singles(sgr_codes(attrs))) == attrs,
{
    let none = Seq::<u16>::empty();
    let bg = color_codes(attrs.bg, 40) + none;
    let fg = color_codes(attrs.fg, 30) + bg;
    let strike = code_when(attrs.strikethrough, 9) + fg;
    let inverse = code_when(attrs.inverse, 7) + strike;
    let underline = code_when(attrs.underline, 4) + inverse;
    let italic = code_when(attrs.italic, 3) + underline;
    let dim = code_when(attrs.dim, 2) + italic;
    let bold = code_when(attrs.bold, 1) + dim;
    assert(sgr_codes(attrs) == code_when(true, 0) + bold) by {
        assert(bg =~= color_codes(attrs.bg, 40));
        let s0 = seq![0u16];
        let s1 = s0 + code_when(attrs.bold, 1);
        let s2 = s1 + code_when(attrs.dim, 2);
        let s3 = s2 + code_when(attrs.italic, 3);
        let s4 = s3 + code_when(attrs.underline, 4);
        let s5 = s4 + code_when(attrs.inverse, 7);
        let s6 = s5 + code_when(attrs.strikethrough, 9);
        lemma_append(s6, color_codes(attrs.fg, 30), bg);
        lemma_append(s5, code_when(attrs.strikethrough, 9), fg);
        lemma_append(s4, code_when(attrs.inverse, 7), strike);
        lemma_append(s3, code_when(attrs.underline, 4), inverse);
        lemma_append(s2, code_when(attrs.italic, 3), underline);
        lemma_append(s1, code_when(attrs.dim, 2), italic);
        lemma_append(s0, code_when(attrs.bold, 1), dim);
    }
    let a0 = CellAttrs::plain();
    lemma_apply_code(before, true, 0, bold);
    let a1 = CellAttrs { bold: attrs.bold, ..a0 };
    lemma_apply_code(a0, attrs.bold, 1, dim);
    let a2 = CellAttrs { dim: attrs.dim, ..a1 };
    lemma_apply_code(a1, attrs.dim, 2, italic);
    let a3 = CellAttrs { italic: attrs.italic, ..a2 };
    lemma_apply_code(a2, attrs.italic, 3, underline);
    let a4 = CellAttrs { underline: attrs.underline, ..a3 };
    lemma_apply_code(a3, attrs.underline, 4, inverse);
    let a5 = CellAttrs { inverse: attrs.inverse, ..a4 };
    lemma_apply_code(a4, attrs.inverse, 7, strike);
    let a6 = CellAttrs { strikethrough: attrs.strikethrough, ..a5 };
    lemma_apply_code(a5, attrs.strikethrough, 9, fg);
    let a7 = CellAttrs { fg: attrs.fg, ..a6 };
    lemma_apply_color(a6, attrs.fg, 30, bg);
    lemma_apply_color(a7, attrs.bg, 40, none);
    assert(singles(none) =~= Seq::<Seq<u16>>::empty());
}

} // verus!
