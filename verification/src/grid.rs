use vstd::prelude::*;
use crate::pixel::Pixel;

verus! {

/// Whether `rows` form a rectangle of the given width. A grid with rows has
/// at least one column: rows without pixels are not accepted.
pub open spec fn rectangular(rows: Seq<Seq<Pixel>>, width: nat) -> bool {
    &&& rows.len() == 0 ==> width == 0
    &&& rows.len() > 0 ==> width > 0
    &&& forall|y: int| 0 <= y < rows.len() ==> (#[trigger] rows[y]).len() == width
}

/// Whether `rows` can be held by a grid at all.
pub open spec fn acceptable(rows: Seq<Seq<Pixel>>) -> bool {
    rows.len() == 0 || rectangular(rows, rows[0].len())
}

/// The rows that a vector of vectors holds, as sequences.
pub open spec fn rows_of(rows: Vec<Vec<Pixel>>) -> Seq<Seq<Pixel>> {
    Seq::new(rows@.len(), |y: int| rows@[y]@)
}

/// A rectangle of pixels, stored row by row from the top.
pub struct PixelGrid {
    width: usize,
    rows: Vec<Vec<Pixel>>,
}

impl PixelGrid {
    /// The rows of the grid, each a sequence of pixels from left to right.
    pub closed spec fn view(&self) -> Seq<Seq<Pixel>> {
        rows_of(self.rows)
    }

    /// The number of columns.
    pub closed spec fn cols(&self) -> nat {
        self.width as nat
    }

    /// Every grid that the constructors hand out is rectangular.
    pub open spec fn wf(&self) -> bool {
        rectangular(self@, self.cols())
    }

    /// The grid without pixels.
    pub fn empty() -> (g: PixelGrid)
        ensures
            g.wf(),
            g@ == Seq::<Seq<Pixel>>::empty(),
            g.cols() == 0,
    {
        PixelGrid::from_rectangle(0, Vec::new())
    }

    /// Builds a grid from rows that are known to form a rectangle.
    pub(crate) fn from_rectangle(width: usize, rows: Vec<Vec<Pixel>>) -> (g: PixelGrid)
        requires
            rectangular(rows_of(rows), width as nat),
        ensures
            g.wf(),
            g@ == rows_of(rows),
            g.cols() == width,
    {
        PixelGrid { width, rows }
    }

    /// Builds a grid from its rows. The rows must all have the length of the
    /// first one, and that length must not be zero: rows without pixels are
    /// refused, as rows of unequal length are. The one grid without area is
    /// the grid without rows.
    pub fn from_rows(rows: Vec<Vec<Pixel>>) -> (g: Option<PixelGrid>)
        ensures
            g.is_some() == acceptable(rows_of(rows)),
            g.is_some() ==> {
                let grid = g.unwrap();
                &&& grid.wf()
                &&& grid@ == rows_of(rows)
                &&& rows.len() > 0 ==> grid.cols() == rows[0].len()
            },
    {
        let ghost model = rows_of(rows);
        let height = rows.len();
        if height == 0 {
            return Some(PixelGrid::from_rectangle(0, rows));
        }
        let width = rows[0].len();
        if width == 0 {
            return None;
        }
        let mut y: usize = 1;
        while y < height
            invariant
                1 <= y <= height,
                height == rows@.len(),
                width == rows@[0]@.len(),
                model == rows_of(rows),
                forall|k: int| 0 <= k < y ==> (#[trigger] model[k]).len() == width,
            decreases height - y,
        {
            if rows[y].len() != width {
                assert(model[y as int].len() != width);
                return None;
            }
            y += 1;
        }
        Some(PixelGrid::from_rectangle(width, rows))
    }

    /// The number of columns.
    pub fn width(&self) -> (w: usize)
        ensures
            w == self.cols(),
    {
        self.width
    }

    /// The number of rows.
    pub fn height(&self) -> (h: usize)
        ensures
            h == self@.len(),
    {
        self.rows.len()
    }

    /// The pixel in column `x` of row `y`.
    pub fn pixel(&self, x: usize, y: usize) -> (p: Pixel)
        requires
            self.wf(),
            y < self@.len(),
            x < self.cols(),
        ensures
            p == self@[y as int][x as int],
    {
        assert(self@[y as int].len() == self.cols());
        self.rows[y][x]
    }

    /// The pixel in column `x` of row `y`, if the grid has one there.
    pub fn get(&self, x: usize, y: usize) -> (p: Option<Pixel>)
        requires
            self.wf(),
        ensures
            p == (if y < self@.len() && x < self.cols() {
                Some(self@[y as int][x as int])
            } else {
                None
            }),
    {
        if y < self.rows.len() && x < self.width {
            Some(self.pixel(x, y))
        } else {
            None
        }
    }
}

} // verus!
