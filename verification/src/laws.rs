use vstd::prelude::*;
use crate::grid::rectangular;
use crate::pixel::{EscapeStyle, Pixel};
use crate::render::{cells_text, line_count, line_text, lines_text, pixel_at, render_text};
use crate::text::{
    background, cell_text, channels, decimal, esc_char, foreground, intro, lower_half, painted,
    reset, select, upper_half,
};

verus! {

/// The characters that the parameters of a colour sequence are made of.
pub open spec fn param_char(c: char) -> bool {
    c == ';' || c == '0' || c == '1' || c == '2' || c == '3' || c == '4' || c == '5' || c == '6'
        || c == '7' || c == '8' || c == '9'
}

/// A text made of digits and semicolons only.
pub open spec fn only_params(s: Seq<char>) -> bool {
    forall|i: int| 0 <= i < s.len() ==> param_char(#[trigger] s[i])
}

/// A text in which `c` does not occur.
pub open spec fn avoids(s: Seq<char>, c: char) -> bool {
    forall|i: int| 0 <= i < s.len() ==> #[trigger] s[i] != c
}

/// How often `c` occurs in `s`.
pub open spec fn count_of(s: Seq<char>, c: char) -> nat
    decreases s.len(),
{
    if s.len() == 0 {
        0
    } else {
        count_of(s.drop_last(), c) + if s.last() == c {
            1nat
        } else {
            0nat
        }
    }
}

/// Whether `s` begins with the printable form of the escape character.
pub open spec fn starts_with_marker(s: Seq<char>) -> bool {
    s.len() >= 4 && s[0] == '\\' && s[1] == 'x' && s[2] == '1' && s[3] == 'b'
}

/// `s` with every printable form of the escape character, read from the
/// left, replaced by the escape character itself.
pub open spec fn unescape(s: Seq<char>) -> Seq<char>
    decreases s.len(),
{
    if s.len() == 0 {
        Seq::empty()
    } else if starts_with_marker(s) {
        seq![esc_char()] + unescape(s.skip(4))
    } else {
        seq![s[0]] + unescape(s.skip(1))
    }
}

proof fn count_of_concat(a: Seq<char>, b: Seq<char>, c: char)
    ensures
        count_of(a + b, c) == count_of(a, c) + count_of(b, c),
    decreases b.len(),
{
    if b.len() == 0 {
        assert(a + b =~= a);
    } else {
        assert((a + b).drop_last() =~= a + b.drop_last());
        count_of_concat(a, b.drop_last(), c);
    }
}

proof fn count_of_absent(s: Seq<char>, c: char)
    requires
        avoids(s, c),
    ensures
        count_of(s, c) == 0,
    decreases s.len(),
{
    if s.len() > 0 {
        assert(s.last() == s[s.len() - 1]);
        assert forall|i: int| 0 <= i < s.drop_last().len() implies #[trigger] s.drop_last()[i]
            != c by {
            assert(s.drop_last()[i] == s[i]);
        }
        count_of_absent(s.drop_last(), c);
    }
}

proof fn decimal_only_params(n: nat)
    ensures
        only_params(decimal(n)),
        decimal(n).len() > 0,
    decreases n,
{
    if n >= 10 {
        decimal_only_params(n / 10);
    }
}

proof fn only_params_concat(a: Seq<char>, b: Seq<char>)
    requires
        only_params(a),
        only_params(b),
    ensures
        only_params(a + b),
{
}

proof fn channels_only_params(p: Pixel)
    ensures
        only_params(channels(p)),
{
    decimal_only_params(p.red as nat);
    decimal_only_params(p.green as nat);
    decimal_only_params(p.blue as nat);
    let sep = seq![';'];
    only_params_concat(decimal(p.red as nat), sep);
    only_params_concat(decimal(p.red as nat) + sep, decimal(p.green as nat));
    only_params_concat(decimal(p.red as nat) + sep + decimal(p.green as nat), sep);
    only_params_concat(
        decimal(p.red as nat) + sep + decimal(p.green as nat) + sep,
        decimal(p.blue as nat),
    );
}

proof fn colours_only_params(top: Pixel, bottom: Pixel)
    ensures
        only_params(foreground(top)),
        only_params(foreground(bottom)),
        only_params(foreground(bottom) + seq![';'] + background(top)),
{
    channels_only_params(top);
    channels_only_params(bottom);
    only_params_concat(seq!['3', '8', ';', '2', ';'], channels(top));
    only_params_concat(seq!['3', '8', ';', '2', ';'], channels(bottom));
    only_params_concat(seq!['4', '8', ';', '2', ';'], channels(top));
    only_params_concat(foreground(bottom), seq![';']);
    only_params_concat(foreground(bottom) + seq![';'], background(top));
}

proof fn avoids_concat(a: Seq<char>, b: Seq<char>, c: char)
    requires
        avoids(a, c),
        avoids(b, c),
    ensures
        avoids(a + b, c),
{
}

proof fn painted_avoids(style: EscapeStyle, params: Seq<char>, glyph: char, c: char)
    requires
        only_params(params),
        glyph == upper_half() || glyph == lower_half(),
        c == '\n' || c == ' ',
    ensures
        avoids(painted(style, params, glyph), c),
{
    assert(avoids(intro(style), c));
    assert(avoids(params, c));
    avoids_concat(intro(style), seq!['['], c);
    avoids_concat(intro(style) + seq!['['], params, c);
    avoids_concat(intro(style) + seq!['['] + params, seq!['m'], c);
    avoids_concat(select(style, params), seq![glyph], c);
    avoids_concat(intro(style), seq!['[', '0', 'm'], c);
    avoids_concat(select(style, params) + seq![glyph], reset(style), c);
}

proof fn cell_has_no_newline(top: Pixel, bottom: Pixel, threshold: u8, style: EscapeStyle)
    ensures
        count_of(cell_text(top, bottom, threshold, style), '\n') == 0,
{
    colours_only_params(top, bottom);
    painted_avoids(style, foreground(bottom), lower_half(), '\n');
    painted_avoids(style, foreground(top), upper_half(), '\n');
    painted_avoids(style, foreground(bottom) + seq![';'] + background(top), lower_half(), '\n');
    count_of_absent(cell_text(top, bottom, threshold, style), '\n');
}

proof fn cells_have_no_newline(
    rows: Seq<Seq<Pixel>>,
    line: int,
    n: nat,
    threshold: u8,
    style: EscapeStyle,
)
    ensures
        count_of(cells_text(rows, line, n, threshold, style), '\n') == 0,
    decreases n,
{
    if n > 0 {
        let cell = cell_text(
            pixel_at(rows, n - 1, 2 * line),
            pixel_at(rows, n - 1, 2 * line + 1),
            threshold,
            style,
        );
        cells_have_no_newline(rows, line, (n - 1) as nat, threshold, style);
        cell_has_no_newline(
            pixel_at(rows, n - 1, 2 * line),
            pixel_at(rows, n - 1, 2 * line + 1),
            threshold,
            style,
        );
        count_of_concat(cells_text(rows, line, (n - 1) as nat, threshold, style), cell, '\n');
    }
}

proof fn lines_hold_one_newline_each(
    rows: Seq<Seq<Pixel>>,
    width: nat,
    n: nat,
    threshold: u8,
    style: EscapeStyle,
)
    ensures
        count_of(lines_text(rows, width, n, threshold, style), '\n') == n,
        n > 0 ==> lines_text(rows, width, n, threshold, style).len() > 0 && lines_text(
            rows,
            width,
            n,
            threshold,
            style,
        ).last() == '\n',
        n == 0 ==> lines_text(rows, width, n, threshold, style).len() == 0,
    decreases n,
{
    if n > 0 {
        let cells = cells_text(rows, n - 1, width, threshold, style);
        let before = lines_text(rows, width, (n - 1) as nat, threshold, style);
        lines_hold_one_newline_each(rows, width, (n - 1) as nat, threshold, style);
        cells_have_no_newline(rows, n - 1, width, threshold, style);
        count_of_concat(cells, seq!['\n'], '\n');
        assert(count_of(seq!['\n'], '\n') == 1) by {
            assert(seq!['\n'].drop_last() =~= Seq::<char>::empty());
            reveal_with_fuel(count_of, 2);
        }
        count_of_concat(before, line_text(rows, width, n - 1, threshold, style), '\n');
    }
}

/// The text of a grid holds as many newlines as half the grid's height,
/// rounded up, and ends with a newline unless it is empty: it is made of
/// that many lines, each closed by its newline.
pub proof fn law_line_count(rows: Seq<Seq<Pixel>>, width: nat, threshold: u8, style: EscapeStyle)
    ensures
        count_of(render_text(rows, width, threshold, style), '\n') == line_count(rows.len()),
        rows.len() > 0 ==> render_text(rows, width, threshold, style).len() > 0 && render_text(
            rows,
            width,
            threshold,
            style,
        ).last() == '\n',
        rows.len() == 0 ==> render_text(rows, width, threshold, style).len() == 0,
{
    lines_hold_one_newline_each(rows, width, line_count(rows.len()), threshold, style);
}

/// A grid in which every pixel has alpha zero.
pub open spec fn all_transparent(rows: Seq<Seq<Pixel>>) -> bool {
    forall|y: int, x: int|
        0 <= y < rows.len() && 0 <= x < rows[y].len() ==> (#[trigger] rows[y][x]).alpha == 0
}

/// A text made of spaces and newlines only.
pub open spec fn blank(s: Seq<char>) -> bool {
    forall|i: int| 0 <= i < s.len() ==> #[trigger] s[i] == ' ' || s[i] == '\n'
}

proof fn transparent_cells_are_blank(
    rows: Seq<Seq<Pixel>>,
    width: nat,
    line: int,
    n: nat,
    threshold: u8,
    style: EscapeStyle,
)
    requires
        rectangular(rows, width),
        all_transparent(rows),
        threshold > 0,
        0 <= line,
        2 * line < rows.len(),
        n <= width,
    ensures
        blank(cells_text(rows, line, n, threshold, style)),
    decreases n,
{
    if n > 0 {
        transparent_cells_are_blank(rows, width, line, (n - 1) as nat, threshold, style);
        let top = pixel_at(rows, n - 1, 2 * line);
        let bottom = pixel_at(rows, n - 1, 2 * line + 1);
        assert(rows[2 * line].len() == width);
        assert(top == rows[2 * line][n - 1]);
        assert(top.alpha == 0);
        if 2 * line + 1 < rows.len() {
            assert(rows[2 * line + 1].len() == width);
            assert(bottom == rows[2 * line + 1][n - 1]);
        }
        assert(bottom.alpha == 0);
        assert(cell_text(top, bottom, threshold, style) == seq![' ']);
    }
}

proof fn transparent_lines_are_blank(
    rows: Seq<Seq<Pixel>>,
    width: nat,
    n: nat,
    threshold: u8,
    style: EscapeStyle,
)
    requires
        rectangular(rows, width),
        all_transparent(rows),
        threshold > 0,
        n <= line_count(rows.len()),
    ensures
        blank(lines_text(rows, width, n, threshold, style)),
    decreases n,
{
    if n > 0 {
        transparent_lines_are_blank(rows, width, (n - 1) as nat, threshold, style);
        transparent_cells_are_blank(rows, width, n - 1, width, threshold, style);
        assert(blank(line_text(rows, width, n - 1, threshold, style)));
    }
}

/// Where every pixel has alpha zero and the threshold is not zero, the text
/// holds spaces and newlines only: no colour sequence at all.
pub proof fn law_full_transparency(
    rows: Seq<Seq<Pixel>>,
    width: nat,
    threshold: u8,
    style: EscapeStyle,
)
    requires
        rectangular(rows, width),
        all_transparent(rows),
        threshold > 0,
    ensures
        blank(render_text(rows, width, threshold, style)),
{
    transparent_lines_are_blank(rows, width, line_count(rows.len()), threshold, style);
}

/// With threshold zero every pixel is painted, the one that stands in below
/// the last row too: whatever its two pixels are, a cell is the lower half
/// block with both colours set, between a colour sequence and a reset.
pub proof fn law_zero_threshold(top: Pixel, bottom: Pixel, style: EscapeStyle)
    ensures
        top.visible(0),
        bottom.visible(0),
        cell_text(top, bottom, 0, style) == painted(
            style,
            foreground(bottom) + seq![';'] + background(top),
            lower_half(),
        ),
{
}

proof fn zero_threshold_cells_hold_no_space(
    rows: Seq<Seq<Pixel>>,
    line: int,
    n: nat,
    style: EscapeStyle,
)
    ensures
        avoids(cells_text(rows, line, n, 0, style), ' '),
    decreases n,
{
    if n > 0 {
        let top = pixel_at(rows, n - 1, 2 * line);
        let bottom = pixel_at(rows, n - 1, 2 * line + 1);
        zero_threshold_cells_hold_no_space(rows, line, (n - 1) as nat, style);
        colours_only_params(top, bottom);
        painted_avoids(style, foreground(bottom) + seq![';'] + background(top), lower_half(), ' ');
        avoids_concat(
            cells_text(rows, line, (n - 1) as nat, 0, style),
            cell_text(top, bottom, 0, style),
            ' ',
        );
    }
}

proof fn zero_threshold_lines_hold_no_space(
    rows: Seq<Seq<Pixel>>,
    width: nat,
    n: nat,
    style: EscapeStyle,
)
    ensures
        avoids(lines_text(rows, width, n, 0, style), ' '),
    decreases n,
{
    if n > 0 {
        zero_threshold_lines_hold_no_space(rows, width, (n - 1) as nat, style);
        zero_threshold_cells_hold_no_space(rows, n - 1, width, style);
        avoids_concat(cells_text(rows, n - 1, width, 0, style), seq!['\n'], ' ');
        avoids_concat(
            lines_text(rows, width, (n - 1) as nat, 0, style),
            line_text(rows, width, n - 1, 0, style),
            ' ',
        );
    }
}

/// With threshold zero no cell of the text is the plain space of an
/// unpainted cell: the text holds no space at all.
pub proof fn law_zero_threshold_paints_all(rows: Seq<Seq<Pixel>>, width: nat, style: EscapeStyle)
    ensures
        avoids(render_text(rows, width, 0, style), ' '),
{
    zero_threshold_lines_hold_no_space(rows, width, line_count(rows.len()), style);
}

/// Where both pixels of a cell are painted, the sequence sets the
/// foreground to the colour of the lower pixel and the background to the
/// colour of the upper one, in this order.
pub proof fn law_both_visible(top: Pixel, bottom: Pixel, threshold: u8, style: EscapeStyle)
    requires
        top.alpha >= threshold,
        bottom.alpha >= threshold,
    ensures
        cell_text(top, bottom, threshold, style) == intro(style) + seq!['['] + (seq![
            '3',
            '8',
            ';',
            '2',
            ';',
        ] + channels(bottom) + seq![';', '4', '8', ';', '2', ';'] + channels(top)) + seq!['m']
            + seq!['\u{2584}'] + intro(style) + seq!['[', '0', 'm'],
{
    let fore = seq!['3', '8', ';', '2', ';'] + channels(bottom);
    let params = fore + seq![';', '4', '8', ';', '2', ';'] + channels(top);
    assert(seq![';'] + seq!['4', '8', ';', '2', ';'] =~= seq![';', '4', '8', ';', '2', ';']);
    assert(params =~= foreground(bottom) + seq![';'] + background(top)) by {
        assert(fore + seq![';'] + (seq!['4', '8', ';', '2', ';'] + channels(top)) =~= fore + (seq![
            ';',
        ] + seq!['4', '8', ';', '2', ';']) + channels(top));
    }
    let head = intro(style) + seq!['['] + params + seq!['m'] + seq!['\u{2584}'];
    assert(head + intro(style) + seq!['[', '0', 'm'] =~= head + (intro(style) + seq![
        '[',
        '0',
        'm',
    ]));
}

/// The row of transparent black pixels that a grid of odd height lacks.
pub open spec fn clear_row(width: nat) -> Seq<Pixel> {
    Seq::new(width, |x: int| Pixel::clear())
}

proof fn padded_cells_agree(
    rows: Seq<Seq<Pixel>>,
    width: nat,
    line: int,
    n: nat,
    threshold: u8,
    style: EscapeStyle,
)
    requires
        0 <= line,
        2 * line < rows.len(),
        n <= width,
    ensures
        cells_text(rows, line, n, threshold, style) == cells_text(
            rows.push(clear_row(width)),
            line,
            n,
            threshold,
            style,
        ),
    decreases n,
{
    if n > 0 {
        padded_cells_agree(rows, width, line, (n - 1) as nat, threshold, style);
        let padded = rows.push(clear_row(width));
        assert(pixel_at(padded, n - 1, 2 * line) == pixel_at(rows, n - 1, 2 * line));
        assert(pixel_at(padded, n - 1, 2 * line + 1) == pixel_at(rows, n - 1, 2 * line + 1));
    }
}

proof fn padded_lines_agree(
    rows: Seq<Seq<Pixel>>,
    width: nat,
    n: nat,
    threshold: u8,
    style: EscapeStyle,
)
    requires
        n <= line_count(rows.len()),
    ensures
        lines_text(rows, width, n, threshold, style) == lines_text(
            rows.push(clear_row(width)),
            width,
            n,
            threshold,
            style,
        ),
    decreases n,
{
    if n > 0 {
        padded_lines_agree(rows, width, (n - 1) as nat, threshold, style);
        padded_cells_agree(rows, width, n - 1, width, threshold, style);
    }
}

/// A grid of odd height is rendered as if a row of transparent black pixels
/// lay below its last row.
pub proof fn law_odd_height(rows: Seq<Seq<Pixel>>, width: nat, threshold: u8, style: EscapeStyle)
    requires
        rectangular(rows, width),
        rows.len() % 2 == 1,
    ensures
        rectangular(rows.push(clear_row(width)), width),
        render_text(rows, width, threshold, style) == render_text(
            rows.push(clear_row(width)),
            width,
            threshold,
            style,
        ),
{
    padded_lines_agree(rows, width, line_count(rows.len()), threshold, style);
}

proof fn unescape_plain(a: Seq<char>, rest: Seq<char>)
    requires
        avoids(a, '\\'),
    ensures
        unescape(a + rest) == a + unescape(rest),
    decreases a.len(),
{
    if a.len() == 0 {
        assert(a + rest =~= rest);
        assert(a + unescape(rest) =~= unescape(rest));
    } else {
        assert((a + rest)[0] == a[0]);
        assert(!starts_with_marker(a + rest));
        assert((a + rest).skip(1) =~= a.skip(1) + rest);
        assert forall|i: int| 0 <= i < a.skip(1).len() implies #[trigger] a.skip(1)[i] != '\\' by {
            assert(a.skip(1)[i] == a[i + 1]);
        }
        unescape_plain(a.skip(1), rest);
        assert(seq![a[0]] + (a.skip(1) + unescape(rest)) =~= a + unescape(rest));
    }
}

proof fn unescape_intro(rest: Seq<char>)
    ensures
        unescape(intro(EscapeStyle::Escaped) + rest) == intro(EscapeStyle::Literal) + unescape(rest),
{
    let whole = intro(EscapeStyle::Escaped) + rest;
    assert(starts_with_marker(whole));
    assert(whole.skip(4) =~= rest);
}

proof fn unescape_painted(params: Seq<char>, glyph: char, rest: Seq<char>)
    requires
        only_params(params),
        glyph == upper_half() || glyph == lower_half(),
    ensures
        unescape(painted(EscapeStyle::Escaped, params, glyph) + rest) == painted(
            EscapeStyle::Literal,
            params,
            glyph,
        ) + unescape(rest),
{
    let marker = intro(EscapeStyle::Escaped);
    let esc = intro(EscapeStyle::Literal);
    let middle = seq!['['] + params + seq!['m'] + seq![glyph];
    let tail = seq!['[', '0', 'm'];
    assert(avoids(middle, '\\')) by {
        avoids_concat(seq!['['], params, '\\');
        avoids_concat(seq!['['] + params, seq!['m'], '\\');
        avoids_concat(seq!['['] + params + seq!['m'], seq![glyph], '\\');
    }
    assert(avoids(tail, '\\'));
    assert(painted(EscapeStyle::Escaped, params, glyph) + rest =~= marker + (middle + (marker + (
        tail + rest))));
    unescape_intro(middle + (marker + (tail + rest)));
    unescape_plain(middle, marker + (tail + rest));
    unescape_intro(tail + rest);
    unescape_plain(tail, rest);
    assert(esc + (middle + (esc + (tail + unescape(rest)))) =~= painted(
        EscapeStyle::Literal,
        params,
        glyph,
    ) + unescape(rest));
}

proof fn unescape_cell(top: Pixel, bottom: Pixel, threshold: u8, rest: Seq<char>)
    ensures
        unescape(cell_text(top, bottom, threshold, EscapeStyle::Escaped) + rest) == cell_text(
            top,
            bottom,
            threshold,
            EscapeStyle::Literal,
        ) + unescape(rest),
{
    colours_only_params(top, bottom);
    if !top.visible(threshold) && !bottom.visible(threshold) {
        assert(avoids(seq![' '], '\\'));
        unescape_plain(seq![' '], rest);
    } else if !top.visible(threshold) {
        unescape_painted(foreground(bottom), lower_half(), rest);
    } else if !bottom.visible(threshold) {
        unescape_painted(foreground(top), upper_half(), rest);
    } else {
        unescape_painted(foreground(bottom) + seq![';'] + background(top), lower_half(), rest);
    }
}

proof fn unescape_cells(
    rows: Seq<Seq<Pixel>>,
    line: int,
    n: nat,
    threshold: u8,
    rest: Seq<char>,
)
    ensures
        unescape(cells_text(rows, line, n, threshold, EscapeStyle::Escaped) + rest) == cells_text(
            rows,
            line,
            n,
            threshold,
            EscapeStyle::Literal,
        ) + unescape(rest),
    decreases n,
{
    if n == 0 {
        assert(Seq::<char>::empty() + rest =~= rest);
        assert(Seq::<char>::empty() + unescape(rest) =~= unescape(rest));
    } else {
        let top = pixel_at(rows, n - 1, 2 * line);
        let bottom = pixel_at(rows, n - 1, 2 * line + 1);
        let before = cells_text(rows, line, (n - 1) as nat, threshold, EscapeStyle::Escaped);
        let before_literal = cells_text(rows, line, (n - 1) as nat, threshold, EscapeStyle::Literal);
        let cell = cell_text(top, bottom, threshold, EscapeStyle::Escaped);
        let cell_literal = cell_text(top, bottom, threshold, EscapeStyle::Literal);
        assert(before + cell + rest =~= before + (cell + rest));
        unescape_cells(rows, line, (n - 1) as nat, threshold, cell + rest);
        unescape_cell(top, bottom, threshold, rest);
        assert(before_literal + (cell_literal + unescape(rest)) =~= before_literal + cell_literal
            + unescape(rest));
    }
}

proof fn unescape_lines(
    rows: Seq<Seq<Pixel>>,
    width: nat,
    n: nat,
    threshold: u8,
    rest: Seq<char>,
)
    ensures
        unescape(lines_text(rows, width, n, threshold, EscapeStyle::Escaped) + rest) == lines_text(
            rows,
            width,
            n,
            threshold,
            EscapeStyle::Literal,
        ) + unescape(rest),
    decreases n,
{
    if n == 0 {
        assert(Seq::<char>::empty() + rest =~= rest);
        assert(Seq::<char>::empty() + unescape(rest) =~= unescape(rest));
    } else {
        let before = lines_text(rows, width, (n - 1) as nat, threshold, EscapeStyle::Escaped);
        let before_literal = lines_text(rows, width, (n - 1) as nat, threshold, EscapeStyle::Literal);
        let cells = cells_text(rows, n - 1, width, threshold, EscapeStyle::Escaped);
        let cells_literal = cells_text(rows, n - 1, width, threshold, EscapeStyle::Literal);
        let newline = seq!['\n'];
        assert(before + (cells + newline) + rest =~= before + (cells + (newline + rest)));
        unescape_lines(rows, width, (n - 1) as nat, threshold, cells + (newline + rest));
        unescape_cells(rows, n - 1, width, threshold, newline + rest);
        assert(avoids(newline, '\\'));
        unescape_plain(newline, rest);
        assert(before_literal + (cells_literal + (newline + unescape(rest))) =~= before_literal + (
            cells_literal + newline) + unescape(rest));
    }
}

/// Replacing, in the text of the escaped style, each printable form of the
/// escape character by the escape character itself gives the text of the
/// literal style.
pub proof fn law_escape_round_trip(rows: Seq<Seq<Pixel>>, width: nat, threshold: u8)
    ensures
        unescape(render_text(rows, width, threshold, EscapeStyle::Escaped)) == render_text(
            rows,
            width,
            threshold,
            EscapeStyle::Literal,
        ),
{
    let escaped = render_text(rows, width, threshold, EscapeStyle::Escaped);
    let literal = render_text(rows, width, threshold, EscapeStyle::Literal);
    let nothing = Seq::<char>::empty();
    unescape_lines(rows, width, line_count(rows.len()), threshold, nothing);
    assert(escaped + nothing =~= escaped);
    assert(literal + unescape(nothing) =~= literal);
}

/// How many cells a text holds: its spaces and its half blocks.
pub open spec fn cell_count(s: Seq<char>) -> nat {
    count_of(s, ' ') + count_of(s, upper_half()) + count_of(s, lower_half())
}

proof fn cell_count_concat(a: Seq<char>, b: Seq<char>)
    ensures
        cell_count(a + b) == cell_count(a) + cell_count(b),
{
    count_of_concat(a, b, ' ');
    count_of_concat(a, b, upper_half());
    count_of_concat(a, b, lower_half());
}

proof fn count_of_single(held: char, c: char)
    ensures
        count_of(seq![held], c) == (if held == c {
            1nat
        } else {
            0nat
        }),
{
    assert(seq![held].drop_last() =~= Seq::<char>::empty());
    reveal_with_fuel(count_of, 2);
}

proof fn painted_is_one_cell(style: EscapeStyle, params: Seq<char>, glyph: char)
    requires
        only_params(params),
        glyph == upper_half() || glyph == lower_half(),
    ensures
        cell_count(painted(style, params, glyph)) == 1,
{
    let opening = select(style, params);
    let closing = reset(style);
    assert forall|c: char| c == ' ' || c == upper_half() || c == lower_half() implies avoids(
        opening,
        c,
    ) && avoids(closing, c) by {
        assert(avoids(intro(style), c));
        assert(avoids(params, c));
        avoids_concat(intro(style), seq!['['], c);
        avoids_concat(intro(style) + seq!['['], params, c);
        avoids_concat(intro(style) + seq!['['] + params, seq!['m'], c);
        avoids_concat(intro(style), seq!['[', '0', 'm'], c);
    }
    count_of_absent(opening, ' ');
    count_of_absent(opening, upper_half());
    count_of_absent(opening, lower_half());
    count_of_absent(closing, ' ');
    count_of_absent(closing, upper_half());
    count_of_absent(closing, lower_half());
    count_of_single(glyph, ' ');
    count_of_single(glyph, upper_half());
    count_of_single(glyph, lower_half());
    cell_count_concat(opening, seq![glyph]);
    cell_count_concat(opening + seq![glyph], closing);
}

proof fn cell_is_one_cell(top: Pixel, bottom: Pixel, threshold: u8, style: EscapeStyle)
    ensures
        cell_count(cell_text(top, bottom, threshold, style)) == 1,
{
    colours_only_params(top, bottom);
    if !top.visible(threshold) && !bottom.visible(threshold) {
        count_of_single(' ', ' ');
        count_of_single(' ', upper_half());
        count_of_single(' ', lower_half());
    } else if !top.visible(threshold) {
        painted_is_one_cell(style, foreground(bottom), lower_half());
    } else if !bottom.visible(threshold) {
        painted_is_one_cell(style, foreground(top), upper_half());
    } else {
        painted_is_one_cell(style, foreground(bottom) + seq![';'] + background(top), lower_half());
    }
}

proof fn cells_are_counted(
    rows: Seq<Seq<Pixel>>,
    line: int,
    n: nat,
    threshold: u8,
    style: EscapeStyle,
)
    ensures
        cell_count(cells_text(rows, line, n, threshold, style)) == n,
    decreases n,
{
    if n == 0 {
        assert(cell_count(Seq::<char>::empty()) == 0);
    } else {
        let top = pixel_at(rows, n - 1, 2 * line);
        let bottom = pixel_at(rows, n - 1, 2 * line + 1);
        cells_are_counted(rows, line, (n - 1) as nat, threshold, style);
        cell_is_one_cell(top, bottom, threshold, style);
        cell_count_concat(
            cells_text(rows, line, (n - 1) as nat, threshold, style),
            cell_text(top, bottom, threshold, style),
        );
    }
}

/// Every line of text holds as many cells as the grid has columns, and its
/// one newline stands at its end.
pub proof fn law_cells_per_line(
    rows: Seq<Seq<Pixel>>,
    width: nat,
    line: int,
    threshold: u8,
    style: EscapeStyle,
)
    ensures
        cell_count(line_text(rows, width, line, threshold, style)) == width,
        count_of(cells_text(rows, line, width, threshold, style), '\n') == 0,
        line_text(rows, width, line, threshold, style).last() == '\n',
{
    cells_are_counted(rows, line, width, threshold, style);
    cells_have_no_newline(rows, line, width, threshold, style);
    count_of_single('\n', ' ');
    count_of_single('\n', upper_half());
    count_of_single('\n', lower_half());
    cell_count_concat(cells_text(rows, line, width, threshold, style), seq!['\n']);
}

proof fn lines_are_counted(
    rows: Seq<Seq<Pixel>>,
    width: nat,
    n: nat,
    threshold: u8,
    style: EscapeStyle,
)
    ensures
        cell_count(lines_text(rows, width, n, threshold, style)) == n * width,
    decreases n,
{
    if n == 0 {
        assert(cell_count(Seq::<char>::empty()) == 0);
    } else {
        lines_are_counted(rows, width, (n - 1) as nat, threshold, style);
        law_cells_per_line(rows, width, n - 1, threshold, style);
        cell_count_concat(
            lines_text(rows, width, (n - 1) as nat, threshold, style),
            line_text(rows, width, n - 1, threshold, style),
        );
        assert(n * width == (n - 1) * width + width) by (nonlinear_arith);
    }
}

/// The text of a grid holds one cell for every column of every line.
pub proof fn law_cell_total(rows: Seq<Seq<Pixel>>, width: nat, threshold: u8, style: EscapeStyle)
    ensures
        cell_count(render_text(rows, width, threshold, style)) == line_count(rows.len()) * width,
{
    lines_are_counted(rows, width, line_count(rows.len()), threshold, style);
}

/// `n` spaces.
pub open spec fn spaces(n: nat) -> Seq<char> {
    Seq::new(n, |i: int| ' ')
}

/// `n` lines of `width` spaces each.
pub open spec fn blank_lines(width: nat, n: nat) -> Seq<char>
    decreases n,
{
    if n == 0 {
        Seq::empty()
    } else {
        blank_lines(width, (n - 1) as nat) + (spaces(width) + seq!['\n'])
    }
}

proof fn transparent_cells_are_spaces(
    rows: Seq<Seq<Pixel>>,
    width: nat,
    line: int,
    n: nat,
    threshold: u8,
    style: EscapeStyle,
)
    requires
        rectangular(rows, width),
        all_transparent(rows),
        threshold > 0,
        0 <= line,
        2 * line < rows.len(),
        n <= width,
    ensures
        cells_text(rows, line, n, threshold, style) == spaces(n),
    decreases n,
{
    if n == 0 {
        assert(cells_text(rows, line, n, threshold, style) =~= spaces(n));
    } else {
        transparent_cells_are_spaces(rows, width, line, (n - 1) as nat, threshold, style);
        let top = pixel_at(rows, n - 1, 2 * line);
        let bottom = pixel_at(rows, n - 1, 2 * line + 1);
        assert(rows[2 * line].len() == width);
        assert(top == rows[2 * line][n - 1]);
        if 2 * line + 1 < rows.len() {
            assert(rows[2 * line + 1].len() == width);
            assert(bottom == rows[2 * line + 1][n - 1]);
        }
        assert(cell_text(top, bottom, threshold, style) == seq![' ']);
        assert(spaces((n - 1) as nat) + seq![' '] =~= spaces(n));
    }
}

proof fn transparent_lines_are_blank_lines(
    rows: Seq<Seq<Pixel>>,
    width: nat,
    n: nat,
    threshold: u8,
    style: EscapeStyle,
)
    requires
        rectangular(rows, width),
        all_transparent(rows),
        threshold > 0,
        n <= line_count(rows.len()),
    ensures
        lines_text(rows, width, n, threshold, style) == blank_lines(width, n),
    decreases n,
{
    if n > 0 {
        transparent_lines_are_blank_lines(rows, width, (n - 1) as nat, threshold, style);
        transparent_cells_are_spaces(rows, width, n - 1, width, threshold, style);
    }
}

/// Where every pixel has alpha zero and the threshold is not zero, the text
/// is one line of spaces for every two rows, each as long as the grid is
/// wide.
pub proof fn law_transparent_text(
    rows: Seq<Seq<Pixel>>,
    width: nat,
    threshold: u8,
    style: EscapeStyle,
)
    requires
        rectangular(rows, width),
        all_transparent(rows),
        threshold > 0,
    ensures
        render_text(rows, width, threshold, style) == blank_lines(width, line_count(rows.len())),
{
    transparent_lines_are_blank_lines(rows, width, line_count(rows.len()), threshold, style);
}

/// `s` with every escape character replaced by its printable form.
pub open spec fn escape(s: Seq<char>) -> Seq<char>
    decreases s.len(),
{
    if s.len() == 0 {
        Seq::empty()
    } else {
        escape(s.drop_last()) + (if s.last() == esc_char() {
            intro(EscapeStyle::Escaped)
        } else {
            seq![s.last()]
        })
    }
}

proof fn escape_concat(a: Seq<char>, b: Seq<char>)
    ensures
        escape(a + b) == escape(a) + escape(b),
    decreases b.len(),
{
    if b.len() == 0 {
        assert(a + b =~= a);
        assert(escape(a) + escape(b) =~= escape(a));
    } else {
        let piece = if b.last() == esc_char() {
            intro(EscapeStyle::Escaped)
        } else {
            seq![b.last()]
        };
        assert((a + b).drop_last() =~= a + b.drop_last());
        assert((a + b).last() == b.last());
        escape_concat(a, b.drop_last());
        assert(escape(a) + escape(b.drop_last()) + piece =~= escape(a) + (escape(b.drop_last())
            + piece));
    }
}

proof fn escape_plain(s: Seq<char>)
    requires
        avoids(s, esc_char()),
    ensures
        escape(s) == s,
    decreases s.len(),
{
    if s.len() == 0 {
        assert(escape(s) =~= s);
    } else {
        assert(s.last() == s[s.len() - 1]);
        assert forall|i: int| 0 <= i < s.drop_last().len() implies #[trigger] s.drop_last()[i]
            != esc_char() by {
            assert(s.drop_last()[i] == s[i]);
        }
        escape_plain(s.drop_last());
        assert(s.drop_last() + seq![s.last()] =~= s);
    }
}

proof fn escape_intro()
    ensures
        escape(intro(EscapeStyle::Literal)) == intro(EscapeStyle::Escaped),
{
    let one = intro(EscapeStyle::Literal);
    assert(one.drop_last() =~= Seq::<char>::empty());
    reveal_with_fuel(escape, 2);
    assert(Seq::<char>::empty() + intro(EscapeStyle::Escaped) =~= intro(EscapeStyle::Escaped));
}

proof fn escape_painted(params: Seq<char>, glyph: char)
    requires
        only_params(params),
        glyph == upper_half() || glyph == lower_half(),
    ensures
        escape(painted(EscapeStyle::Literal, params, glyph)) == painted(
            EscapeStyle::Escaped,
            params,
            glyph,
        ),
{
    let esc = intro(EscapeStyle::Literal);
    let marker = intro(EscapeStyle::Escaped);
    let middle = seq!['['] + params + seq!['m'] + seq![glyph];
    let tail = seq!['[', '0', 'm'];
    assert(avoids(middle, esc_char())) by {
        avoids_concat(seq!['['], params, esc_char());
        avoids_concat(seq!['['] + params, seq!['m'], esc_char());
        avoids_concat(seq!['['] + params + seq!['m'], seq![glyph], esc_char());
    }
    assert(avoids(tail, esc_char()));
    assert(painted(EscapeStyle::Literal, params, glyph) =~= esc + middle + esc + tail);
    escape_intro();
    escape_plain(middle);
    escape_plain(tail);
    escape_concat(esc, middle);
    escape_concat(esc + middle, esc);
    escape_concat(esc + middle + esc, tail);
    assert(painted(EscapeStyle::Escaped, params, glyph) =~= marker + middle + marker + tail);
}

proof fn escape_cell(top: Pixel, bottom: Pixel, threshold: u8)
    ensures
        escape(cell_text(top, bottom, threshold, EscapeStyle::Literal)) == cell_text(
            top,
            bottom,
            threshold,
            EscapeStyle::Escaped,
        ),
{
    colours_only_params(top, bottom);
    if !top.visible(threshold) && !bottom.visible(threshold) {
        assert(avoids(seq![' '], esc_char()));
        escape_plain(seq![' ']);
    } else if !top.visible(threshold) {
        escape_painted(foreground(bottom), lower_half());
    } else if !bottom.visible(threshold) {
        escape_painted(foreground(top), upper_half());
    } else {
        escape_painted(foreground(bottom) + seq![';'] + background(top), lower_half());
    }
}

proof fn escape_cells(rows: Seq<Seq<Pixel>>, line: int, n: nat, threshold: u8)
    ensures
        escape(cells_text(rows, line, n, threshold, EscapeStyle::Literal)) == cells_text(
            rows,
            line,
            n,
            threshold,
            EscapeStyle::Escaped,
        ),
    decreases n,
{
    if n > 0 {
        let top = pixel_at(rows, n - 1, 2 * line);
        let bottom = pixel_at(rows, n - 1, 2 * line + 1);
        escape_cells(rows, line, (n - 1) as nat, threshold);
        escape_cell(top, bottom, threshold);
        escape_concat(
            cells_text(rows, line, (n - 1) as nat, threshold, EscapeStyle::Literal),
            cell_text(top, bottom, threshold, EscapeStyle::Literal),
        );
    }
}

proof fn escape_lines(rows: Seq<Seq<Pixel>>, width: nat, n: nat, threshold: u8)
    ensures
        escape(lines_text(rows, width, n, threshold, EscapeStyle::Literal)) == lines_text(
            rows,
            width,
            n,
            threshold,
            EscapeStyle::Escaped,
        ),
    decreases n,
{
    if n > 0 {
        escape_lines(rows, width, (n - 1) as nat, threshold);
        escape_cells(rows, n - 1, width, threshold);
        assert(avoids(seq!['\n'], esc_char()));
        escape_plain(seq!['\n']);
        escape_concat(
            cells_text(rows, n - 1, width, threshold, EscapeStyle::Literal),
            seq!['\n'],
        );
        escape_concat(
            lines_text(rows, width, (n - 1) as nat, threshold, EscapeStyle::Literal),
            line_text(rows, width, n - 1, threshold, EscapeStyle::Literal),
        );
    }
}

/// Replacing, in the text of the literal style, each escape character by
/// its printable form gives the text of the escaped style.
pub proof fn law_escape_literal(rows: Seq<Seq<Pixel>>, width: nat, threshold: u8)
    ensures
        escape(render_text(rows, width, threshold, EscapeStyle::Literal)) == render_text(
            rows,
            width,
            threshold,
            EscapeStyle::Escaped,
        ),
{
    escape_lines(rows, width, line_count(rows.len()), threshold);
}

} // verus!
