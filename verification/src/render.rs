use vstd::prelude::*;
use crate::grid::{rectangular, PixelGrid};
use crate::pixel::{EscapeStyle, Pixel};
use crate::text::{cell_text, push_cell};

verus! {

/// The number of text lines for a grid of `height` rows: half of it, rounded up.
pub open spec fn line_count(height: nat) -> nat {
    (height + 1) / 2
}

/// The pixel in column `x` of row `y`; below the last row, transparent black.
pub open spec fn pixel_at(rows: Seq<Seq<Pixel>>, x: int, y: int) -> Pixel {
    if y < rows.len() {
        rows[y][x]
    } else {
        Pixel::clear()
    }
}

/// The first `n` cells of text line `line`, which pairs the rows `2 * line`
/// and `2 * line + 1`.
pub open spec fn cells_text(
    rows: Seq<Seq<Pixel>>,
    line: int,
    n: nat,
    threshold: u8,
    style: EscapeStyle,
) -> Seq<char>
    decreases n,
{
    if n == 0 {
        Seq::empty()
    } else {
        cells_text(rows, line, (n - 1) as nat, threshold, style) + cell_text(
            pixel_at(rows, n - 1, 2 * line),
            pixel_at(rows, n - 1, 2 * line + 1),
            threshold,
            style,
        )
    }
}

/// Text line `line` of a grid with `width` columns, with its newline.
pub open spec fn line_text(
    rows: Seq<Seq<Pixel>>,
    width: nat,
    line: int,
    threshold: u8,
    style: EscapeStyle,
) -> Seq<char> {
    cells_text(rows, line, width, threshold, style) + seq!['\n']
}

/// The first `n` text lines of a grid with `width` columns.
pub open spec fn lines_text(
    rows: Seq<Seq<Pixel>>,
    width: nat,
    n: nat,
    threshold: u8,
    style: EscapeStyle,
) -> Seq<char>
    decreases n,
{
    if n == 0 {
        Seq::empty()
    } else {
        lines_text(rows, width, (n - 1) as nat, threshold, style) + line_text(
            rows,
            width,
            n - 1,
            threshold,
            style,
        )
    }
}

/// The whole text of a grid with `width` columns.
pub open spec fn render_text(
    rows: Seq<Seq<Pixel>>,
    width: nat,
    threshold: u8,
    style: EscapeStyle,
) -> Seq<char> {
    lines_text(rows, width, line_count(rows.len()), threshold, style)
}

/// Renders the grid: one text line for every two rows, one cell for every
/// column, each line closed by a newline.
pub fn render(grid: &PixelGrid, threshold: u8, style: EscapeStyle) -> (out: String)
    requires
        grid.wf(),
    ensures
        out@ == render_text(grid@, grid.cols(), threshold, style),
{
    let width = grid.width();
    let height = grid.height();
    let lines: usize = height / 2 + height % 2;
    let mut out = String::new();
    let mut line: usize = 0;
    while line < lines
        invariant
            grid.wf(),
            width == grid.cols(),
            height == grid@.len(),
            lines == line_count(height as nat),
            line <= lines,
            out@ == lines_text(grid@, width as nat, line as nat, threshold, style),
        decreases lines - line,
    {
        let ghost before = out@;
        let top_row: usize = 2 * line;
        let mut x: usize = 0;
        while x < width
            invariant
                grid.wf(),
                width == grid.cols(),
                height == grid@.len(),
                top_row == 2 * line,
                top_row < height,
                x <= width,
                out@ == before + cells_text(grid@, line as int, x as nat, threshold, style),
            decreases width - x,
        {
            let top = grid.pixel(x, top_row);
            let bottom = if top_row + 1 < height {
                grid.pixel(x, top_row + 1)
            } else {
                Pixel::transparent()
            };
            push_cell(&mut out, top, bottom, threshold, style);
            x += 1;
            assert(out@ =~= before + cells_text(grid@, line as int, x as nat, threshold, style));
        }
        out.push('\n');
        line += 1;
        assert(out@ =~= lines_text(grid@, width as nat, line as nat, threshold, style));
    }
    out
}

} // verus!
