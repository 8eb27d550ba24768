//! Text assembly helpers: padding, decimal formatting of legend percentages,
//! and colour styling of fill glyphs through the terminal styling crate.

use vstd::prelude::*;
use vstd::arithmetic::div_mod::lemma_div_is_ordered;
use vstd::arithmetic::div_mod::lemma_div_multiples_vanish_fancy;
use crate::Color;

verus! {

/// Appends one character to a string. Relies on `String::push` of std, which
/// appends the given character to the end of the string.
pub assume_specification[ String::push ](s: &mut String, c: char)
    ensures
        final (s)@ == old(s)@.push(c),
;

/// A run of `n` spaces.
pub open spec fn spaces_seq(n: int) -> Seq<char> {
    Seq::new(n as nat, |i: int| ' ')
}

/// Appends `n` spaces to `out`.
pub fn push_spaces(out: &mut String, n: usize)
    ensures
        final (out)@ == old(out)@ + spaces_seq(n as int),
{
    let mut i: usize = 0;
    proof {
        assert(out@ + spaces_seq(0) =~= out@);
    }
    while i < n
        invariant
            i <= n,
            out@ == old(out)@ + spaces_seq(i as int),
        decreases n - i,
    {
        out.push(' ');
        proof {
            assert(old(out)@ + spaces_seq(i as int) + seq![' ']
                =~= old(out)@ + spaces_seq(i + 1));
        }
        i = i + 1;
    }
}

/// The digit character for a value below ten.
pub open spec fn digit_char(d: int) -> char {
    if d == 0 {
        '0'
    } else if d == 1 {
        '1'
    } else if d == 2 {
        '2'
    } else if d == 3 {
        '3'
    } else if d == 4 {
        '4'
    } else if d == 5 {
        '5'
    } else if d == 6 {
        '6'
    } else if d == 7 {
        '7'
    } else if d == 8 {
        '8'
    } else {
        '9'
    }
}

/// The decimal representation of a non-negative number, most significant
/// digit first.
pub open spec fn dec_digits(n: int) -> Seq<char>
    decreases n,
{
    if n < 10 {
        seq![digit_char(n)]
    } else {
        dec_digits(n / 10).push(digit_char(n % 10))
    }
}

/// Computes `digit_char(d)`.
fn digit_char_exec(d: u128) -> (c: char)
    requires
        d < 10,
    ensures
        c == digit_char(d as int),
{
    if d == 0 {
        '0'
    } else if d == 1 {
        '1'
    } else if d == 2 {
        '2'
    } else if d == 3 {
        '3'
    } else if d == 4 {
        '4'
    } else if d == 5 {
        '5'
    } else if d == 6 {
        '6'
    } else if d == 7 {
        '7'
    } else if d == 8 {
        '8'
    } else {
        '9'
    }
}

/// Appends the decimal representation of `n` to `out`.
pub fn push_decimal(out: &mut String, n: u128)
    ensures
        final (out)@ == old(out)@ + dec_digits(n as int),
    decreases n,
{
    if n >= 10 {
        push_decimal(out, n / 10);
    }
    out.push(digit_char_exec(n % 10));
    proof {
        if n < 10 {
            assert(old(out)@ + dec_digits(n as int) =~= old(out)@.push(digit_char(n as int)));
        }
    }
}

/// The share of `v` in `total`, in hundredths of a percent, correctly
/// rounded: `round(10000 * v / total)`.
pub open spec fn percent_hundredths(v: int, total: int) -> int {
    (20000 * v + total) / (2 * total)
}

/// The legend percentage text for value `v` out of `total`: the percentage
/// with exactly two digits after the decimal point.
pub open spec fn percent_seq(v: int, total: int) -> Seq<char> {
    let h = percent_hundredths(v, total);
    dec_digits(h / 100) + seq!['.', digit_char((h % 100) / 10), digit_char(h % 10)]
}

/// Appends the legend percentage text for `v` out of `total`.
pub fn push_percent(out: &mut String, v: u32, total: u128)
    requires
        0 < total,
        v as int <= total as int,
        total < 0x1_0000_0000_0000_0000_0000_0000,
    ensures
        final (out)@ == old(out)@ + percent_seq(v as int, total as int),
{
    proof {
        lemma_div_is_ordered(
            20000 * (v as int) + total as int,
            20000 * (total as int) + total as int,
            2 * (total as int),
        );
        assert(20000 * (total as int) + (total as int) == (2 * (total as int)) * 10000
            + (total as int)) by (nonlinear_arith);
        lemma_div_multiples_vanish_fancy(10000, total as int, 2 * (total as int));
        assert(20000 * (v as int) <= 20000 * (total as int)) by (nonlinear_arith)
            requires
                0 <= v as int <= total as int,
        ;
    }
    let h: u128 = (20000 * (v as u128) + total) / (2 * total);
    push_decimal(out, h / 100);
    out.push('.');
    out.push(digit_char_exec((h % 100) / 10));
    out.push(digit_char_exec(h % 10));
    proof {
        assert(old(out)@ + percent_seq(v as int, total as int) =~= out@);
    }
}

/// A one-character string.
pub fn char_string(c: char) -> (s: String)
    ensures
        s@ == seq![c],
{
    let mut s = String::new();
    s.push(c);
    proof {
        assert(s@ =~= seq![c]);
    }
    s
}

/// The spec-level code of a colour: its ANSI foreground colour number.
pub open spec fn color_code(c: Color) -> int {
    match c {
        Color::Black => 30,
        Color::Red => 31,
        Color::Green => 32,
        Color::Yellow => 33,
        Color::Blue => 34,
        Color::Purple => 35,
        Color::Cyan => 36,
        Color::White => 37,
    }
}

/// The text wrapped in the escape sequences of the colour with the given
/// code; a pure function of the code and the text.
pub uninterp spec fn styled_of(code: int, text: Seq<char>) -> Seq<char>;

/// Relies on `ansi_term::Colour::paint`: it wraps the text in the colour's
/// ANSI escape prefix and the reset suffix, a deterministic function of the
/// colour and the text alone.
#[verifier::external_body]
pub fn paint_text(color: &Color, text: &str) -> (r: String)
    ensures
        r@ == styled_of(color_code(*color), text@),
{
    let c = match color {
        Color::Black => ansi_term::Colour::Black,
        Color::Red => ansi_term::Colour::Red,
        Color::Green => ansi_term::Colour::Green,
        Color::Yellow => ansi_term::Colour::Yellow,
        Color::Blue => ansi_term::Colour::Blue,
        Color::Purple => ansi_term::Colour::Purple,
        Color::Cyan => ansi_term::Colour::Cyan,
        Color::White => ansi_term::Colour::White,
    };
    c.paint(text).to_string()
}

} // verus!
