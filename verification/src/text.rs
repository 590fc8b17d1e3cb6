use vstd::prelude::*;
use crate::pixel::{EscapeStyle, Pixel};

verus! {

/// `String::push` of std appends one character to the end of the string.
pub assume_specification[ String::push ](s: &mut String, c: char)
    ensures
        final(s)@ == old(s)@.push(c),
;

/// The control character that opens an ANSI sequence.
pub open spec fn esc_char() -> char {
    '\x1b'
}

/// The glyph whose foreground fills the upper half of its cell.
pub open spec fn upper_half() -> char {
    '\u{2580}'
}

/// The glyph whose foreground fills the lower half of its cell.
pub open spec fn lower_half() -> char {
    '\u{2584}'
}

/// The decimal digit for a value below ten.
pub open spec fn digit_char(d: nat) -> char {
    if d == 0 {
        '0'
    } else if d == 1 {
        '1'
    } else if d == 2 {
        '2'
    } else if d == 3 {
        '3'
    } else if d == 4 {
        '4'
    } else if d == 5 {
        '5'
    } else if d == 6 {
        '6'
    } else if d == 7 {
        '7'
    } else if d == 8 {
        '8'
    } else {
        '9'
    }
}

/// Decimal notation without leading zeros.
pub open spec fn decimal(n: nat) -> Seq<char>
    decreases n,
{
    if n < 10 {
        seq![digit_char(n)]
    } else {
        decimal(n / 10).push(digit_char(n % 10))
    }
}

/// The opening of a sequence in the given style.
pub open spec fn intro(style: EscapeStyle) -> Seq<char> {
    match style {
        EscapeStyle::Literal => seq![esc_char()],
        EscapeStyle::Escaped => seq!['\\', 'x', '1', 'b'],
    }
}

/// The three channels of a colour, separated by semicolons.
pub open spec fn channels(p: Pixel) -> Seq<char> {
    decimal(p.red as nat) + seq![';'] + decimal(p.green as nat) + seq![';'] + decimal(
        p.blue as nat,
    )
}

/// The parameters that select `p` as foreground colour.
pub open spec fn foreground(p: Pixel) -> Seq<char> {
    seq!['3', '8', ';', '2', ';'] + channels(p)
}

/// The parameters that select `p` as background colour.
pub open spec fn background(p: Pixel) -> Seq<char> {
    seq!['4', '8', ';', '2', ';'] + channels(p)
}

/// A complete colour sequence with the given parameters.
pub open spec fn select(style: EscapeStyle, params: Seq<char>) -> Seq<char> {
    intro(style) + seq!['['] + params + seq!['m']
}

/// The sequence that restores the terminal's default colours.
pub open spec fn reset(style: EscapeStyle) -> Seq<char> {
    intro(style) + seq!['[', '0', 'm']
}

/// A glyph painted with the given parameters, followed by a reset.
pub open spec fn painted(style: EscapeStyle, params: Seq<char>, glyph: char) -> Seq<char> {
    select(style, params) + seq![glyph] + reset(style)
}

/// The text of one cell, from the pixel of its upper half and that of its lower half.
pub open spec fn cell_text(top: Pixel, bottom: Pixel, threshold: u8, style: EscapeStyle) -> Seq<
    char,
> {
    if !top.visible(threshold) && !bottom.visible(threshold) {
        seq![' ']
    } else if !top.visible(threshold) {
        painted(style, foreground(bottom), lower_half())
    } else if !bottom.visible(threshold) {
        painted(style, foreground(top), upper_half())
    } else {
        painted(style, foreground(bottom) + seq![';'] + background(top), lower_half())
    }
}

fn digit_of(d: u8) -> (c: char)
    requires
        d < 10,
    ensures
        c == digit_char(d as nat),
{
    if d == 0 {
        '0'
    } else if d == 1 {
        '1'
    } else if d == 2 {
        '2'
    } else if d == 3 {
        '3'
    } else if d == 4 {
        '4'
    } else if d == 5 {
        '5'
    } else if d == 6 {
        '6'
    } else if d == 7 {
        '7'
    } else if d == 8 {
        '8'
    } else {
        '9'
    }
}

/// Appends the decimal notation of `v`.
pub fn push_decimal(out: &mut String, v: u8)
    ensures
        final(out)@ == old(out)@ + decimal(v as nat),
{
    proof {
        reveal_with_fuel(decimal, 3);
    }
    if v >= 100 {
        out.push(digit_of(v / 100));
    }
    if v >= 10 {
        out.push(digit_of((v / 10) % 10));
    }
    out.push(digit_of(v % 10));
    assert(final(out)@ =~= old(out)@ + decimal(v as nat));
}

/// Appends the opening of a sequence.
pub fn push_intro(out: &mut String, style: EscapeStyle)
    ensures
        final(out)@ == old(out)@ + intro(style),
{
    match style {
        EscapeStyle::Literal => {
            out.push('\x1b');
        },
        EscapeStyle::Escaped => {
            out.push('\\');
            out.push('x');
            out.push('1');
            out.push('b');
        },
    }
    assert(final(out)@ =~= old(out)@ + intro(style));
}

fn push_channels(out: &mut String, p: Pixel)
    ensures
        final(out)@ == old(out)@ + channels(p),
{
    push_decimal(out, p.red);
    out.push(';');
    push_decimal(out, p.green);
    out.push(';');
    push_decimal(out, p.blue);
    assert(final(out)@ =~= old(out)@ + channels(p));
}

fn push_foreground(out: &mut String, p: Pixel)
    ensures
        final(out)@ == old(out)@ + foreground(p),
{
    out.push('3');
    out.push('8');
    out.push(';');
    out.push('2');
    out.push(';');
    push_channels(out, p);
    assert(final(out)@ =~= old(out)@ + foreground(p));
}

fn push_background(out: &mut String, p: Pixel)
    ensures
        final(out)@ == old(out)@ + background(p),
{
    out.push('4');
    out.push('8');
    out.push(';');
    out.push('2');
    out.push(';');
    push_channels(out, p);
    assert(final(out)@ =~= old(out)@ + background(p));
}

fn push_reset(out: &mut String, style: EscapeStyle)
    ensures
        final(out)@ == old(out)@ + reset(style),
{
    push_intro(out, style);
    out.push('[');
    out.push('0');
    out.push('m');
    assert(final(out)@ =~= old(out)@ + reset(style));
}

/// Appends the text of one cell.
pub fn push_cell(out: &mut String, top: Pixel, bottom: Pixel, threshold: u8, style: EscapeStyle)
    ensures
        final(out)@ == old(out)@ + cell_text(top, bottom, threshold, style),
{
    let top_shown = top.is_visible(threshold);
    let bottom_shown = bottom.is_visible(threshold);
    if !top_shown && !bottom_shown {
        out.push(' ');
    } else if !top_shown {
        push_intro(out, style);
        out.push('[');
        push_foreground(out, bottom);
        out.push('m');
        out.push('\u{2584}');
        push_reset(out, style);
    } else if !bottom_shown {
        push_intro(out, style);
        out.push('[');
        push_foreground(out, top);
        out.push('m');
        out.push('\u{2580}');
        push_reset(out, style);
    } else {
        push_intro(out, style);
        out.push('[');
        push_foreground(out, bottom);
        out.push(';');
        push_background(out, top);
        out.push('m');
        out.push('\u{2584}');
        push_reset(out, style);
    }
    assert(final(out)@ =~= old(out)@ + cell_text(top, bottom, threshold, style));
}

/// The text of a single cell as a string of its own.
pub fn cell_string(top: Pixel, bottom: Pixel, threshold: u8, style: EscapeStyle) -> (s: String)
    ensures
        s@ == cell_text(top, bottom, threshold, style),
{
    let mut s = String::new();
    push_cell(&mut s, top, bottom, threshold, style);
    assert(s@ =~= cell_text(top, bottom, threshold, style));
    s
}

} // verus!
