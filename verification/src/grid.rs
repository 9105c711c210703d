//! The coordinate space of the grid: world bounds, dense indices, the border
//! ring, and the square neighbourhood of a cell.

use vstd::prelude::*;

verus! {

/// The cells `(x, y_lo), .., (x, y_hi)`.
pub open spec fn column_cells(x: int, y_lo: int, y_hi: int) -> Seq<(usize, usize)> {
    if y_hi < y_lo {
        Seq::empty()
    } else {
        Seq::new((y_hi + 1 - y_lo) as nat, |k: int| (x as usize, (y_lo + k) as usize))
    }
}

/// The cells of the box `[x_lo, x_hi] x [y_lo, y_hi]`, column after column,
/// each column from `y_lo` up.
pub open spec fn box_cells(x_lo: int, x_hi: int, y_lo: int, y_hi: int) -> Seq<(usize, usize)>
    decreases x_hi + 1 - x_lo,
{
    if x_hi < x_lo {
        Seq::empty()
    } else {
        box_cells(x_lo, x_hi - 1, y_lo, y_hi) + column_cells(x_hi, y_lo, y_hi)
    }
}

/// A box of cells holds exactly the cells within its bounds.
pub proof fn lemma_box_cells_members(x_lo: int, x_hi: int, y_lo: int, y_hi: int, c: (usize, usize))
    requires
        0 <= x_lo,
        0 <= y_lo,
        x_hi <= usize::MAX,
        y_hi <= usize::MAX,
    ensures
        box_cells(x_lo, x_hi, y_lo, y_hi).contains(c) <==> (x_lo <= c.0 <= x_hi && y_lo <= c.1
            <= y_hi),
    decreases x_hi + 1 - x_lo,
{
    if x_hi >= x_lo {
        let rest = box_cells(x_lo, x_hi - 1, y_lo, y_hi);
        let col = column_cells(x_hi, y_lo, y_hi);
        lemma_box_cells_members(x_lo, x_hi - 1, y_lo, y_hi, c);
        if rest.contains(c) {
            let k = choose|k: int| 0 <= k < rest.len() && rest[k] == c;
            assert((rest + col)[k] == c);
        }
        if c.0 == x_hi && y_lo <= c.1 <= y_hi {
            let k = c.1 - y_lo;
            assert(col[k] == c);
            assert((rest + col)[rest.len() + k] == c);
        }
        if (rest + col).contains(c) {
            let k = choose|k: int| 0 <= k < (rest + col).len() && (rest + col)[k] == c;
            if k < rest.len() {
                assert(rest[k] == c);
            } else {
                assert(col[k - rest.len()] == c);
            }
        }
    }
}

/// The inclusive world bounds of the grid on both axes.
#[derive(Clone, Copy, Debug, PartialEq, Eq, Structural)]
pub struct Grid {
    pub x_min: i32,
    pub x_max: i32,
    pub y_min: i32,
    pub y_max: i32,
}

impl Grid {
    /// Each range holds its lower bound strictly below its upper bound, and
    /// the number of cells on an axis fits an `i32`.
    pub open spec fn wf(self) -> bool {
        &&& self.x_min < self.x_max
        &&& self.y_min < self.y_max
        &&& self.x_max - self.x_min < i32::MAX
        &&& self.y_max - self.y_min < i32::MAX
    }

    /// The largest index on the x axis.
    pub open spec fn x_span(self) -> int {
        self.x_max - self.x_min
    }

    /// The largest index on the y axis.
    pub open spec fn y_span(self) -> int {
        self.y_max - self.y_min
    }

    /// Whether a world coordinate lies within the bounds.
    pub open spec fn holds(self, x: i32, y: i32) -> bool {
        self.x_min <= x <= self.x_max && self.y_min <= y <= self.y_max
    }

    /// Whether an index pair names a cell that is not on the border ring.
    pub open spec fn interior(self, c: (usize, usize)) -> bool {
        0 < c.0 < self.x_span() && 0 < c.1 < self.y_span()
    }

    /// The cells within `radius` of `point` on both axes, cut at the bounds.
    pub open spec fn neighborhood(self, point: (usize, usize), radius: usize) -> Seq<
        (usize, usize),
    > {
        let x_lo = if point.0 - radius < 0 { 0 } else { point.0 - radius };
        let y_lo = if point.1 - radius < 0 { 0 } else { point.1 - radius };
        let x_hi = if point.0 + radius > self.x_span() { self.x_span() } else { point.0 + radius };
        let y_hi = if point.1 + radius > self.y_span() { self.y_span() } else { point.1 + radius };
        box_cells(x_lo, x_hi, y_lo, y_hi)
    }

    /// The neighbourhood of `point` holds exactly the cells of the grid that
    /// lie within `radius` of it on both axes.
    pub proof fn lemma_neighborhood_members(
        self,
        point: (usize, usize),
        radius: usize,
        c: (usize, usize),
    )
        requires
            self.wf(),
        ensures
            self.neighborhood(point, radius).contains(c) <==> (c.0 <= self.x_span() && c.1
                <= self.y_span() && point.0 - radius <= c.0 <= point.0 + radius && point.1
                - radius <= c.1 <= point.1 + radius),
    {
        let x_lo = if point.0 - radius < 0 { 0 } else { point.0 - radius };
        let y_lo = if point.1 - radius < 0 { 0 } else { point.1 - radius };
        let x_hi = if point.0 + radius > self.x_span() { self.x_span() } else { point.0 + radius };
        let y_hi = if point.1 + radius > self.y_span() { self.y_span() } else { point.1 + radius };
        lemma_box_cells_members(x_lo, x_hi, y_lo, y_hi, c);
    }

    /// The grid with the given bounds, if they are in order.
    pub fn new(x_min: i32, x_max: i32, y_min: i32, y_max: i32) -> (g: Option<Grid>)
        ensures
            g == if (Grid { x_min, x_max, y_min, y_max }).wf() {
                Some(Grid { x_min, x_max, y_min, y_max })
            } else {
                None
            },
    {
        if x_min < x_max && y_min < y_max && x_max as i64 - (x_min as i64) < 0x7fff_ffff
            && y_max as i64 - (y_min as i64) < 0x7fff_ffff {
            Some(Grid { x_min, x_max, y_min, y_max })
        } else {
            None
        }
    }

    /// The largest index on the x axis.
    pub fn x_range(&self) -> (r: usize)
        requires
            self.wf(),
        ensures
            r == self.x_span(),
    {
        (self.x_max as i64 - self.x_min as i64) as usize
    }

    /// The largest index on the y axis.
    pub fn y_range(&self) -> (r: usize)
        requires
            self.wf(),
        ensures
            r == self.y_span(),
    {
        (self.y_max as i64 - self.y_min as i64) as usize
    }

    /// The index pair of a world coordinate: its offset from the lower
    /// bounds, for a coordinate within the bounds.
    pub fn to_index(&self, x: i32, y: i32) -> (r: Option<(usize, usize)>)
        requires
            self.wf(),
        ensures
            self.holds(x, y) ==> r == Some(((x - self.x_min) as usize, (y - self.y_min) as usize)),
            !self.holds(x, y) ==> r.is_none(),
    {
        if self.x_min <= x && x <= self.x_max && self.y_min <= y && y <= self.y_max {
            Some(((x as i64 - self.x_min as i64) as usize, (y as i64 - self.y_min as i64) as usize))
        } else {
            None
        }
    }

    /// The world coordinate of an index pair within the grid.
    pub fn to_world(&self, c: (usize, usize)) -> (r: (i32, i32))
        requires
            self.wf(),
            c.0 <= self.x_span(),
            c.1 <= self.y_span(),
        ensures
            r.0 == self.x_min + c.0,
            r.1 == self.y_min + c.1,
    {
        ((self.x_min as i64 + c.0 as i64) as i32, (self.y_min as i64 + c.1 as i64) as i32)
    }

    /// Whether an index pair names a cell of the grid.
    pub fn in_bounds(&self, c: (usize, usize)) -> (r: bool)
        requires
            self.wf(),
        ensures
            r == (c.0 <= self.x_span() && c.1 <= self.y_span()),
    {
        c.0 <= self.x_range() && c.1 <= self.y_range()
    }

    /// Whether a world coordinate lies on one of the four bounds.
    pub fn is_border(&self, x: i32, y: i32) -> (r: bool)
        ensures
            r == (x == self.x_min || x == self.x_max || y == self.y_min || y == self.y_max),
    {
        y == self.y_min || y == self.y_max || x == self.x_min || x == self.x_max
    }

    /// The cells within `radius` of `point` on both axes. Cells beyond the
    /// bounds are left out.
    pub fn get_nbhd(&self, point: (usize, usize), radius: usize) -> (cells: Vec<(usize, usize)>)
        requires
            self.wf(),
        ensures
            cells@ == self.neighborhood(point, radius),
    {
        let x_range = self.x_range();
        let y_range = self.y_range();
        let x_lo: usize = if radius >= point.0 { 0 } else { point.0 - radius };
        let y_lo: usize = if radius >= point.1 { 0 } else { point.1 - radius };
        let x_hi: usize = if point.0 >= x_range || radius >= x_range - point.0 {
            x_range
        } else {
            point.0 + radius
        };
        let y_hi: usize = if point.1 >= y_range || radius >= y_range - point.1 {
            y_range
        } else {
            point.1 + radius
        };
        let mut cells: Vec<(usize, usize)> = Vec::new();
        if x_lo > x_hi || y_lo > y_hi {
            proof {
                lemma_box_cells_empty(x_lo as int, x_hi as int, y_lo as int, y_hi as int);
            }
            return cells;
        }
        let mut x: usize = x_lo;
        while x <= x_hi
            invariant
                x_lo <= x <= x_hi + 1,
                y_lo <= y_hi,
                x_hi < 0x7fff_ffff,
                y_hi < 0x7fff_ffff,
                cells@ == box_cells(x_lo as int, x - 1, y_lo as int, y_hi as int),
            decreases x_hi + 1 - x,
        {
            let ghost before = cells@;
            let mut y: usize = y_lo;
            while y <= y_hi
                invariant
                    y_lo <= y <= y_hi + 1,
                    y_hi < 0x7fff_ffff,
                    cells@ == before + column_cells(x as int, y_lo as int, y - 1),
                decreases y_hi + 1 - y,
            {
                cells.push((x, y));
                proof {
                    assert(column_cells(x as int, y_lo as int, y - 1).push((x, y))
                        =~= column_cells(x as int, y_lo as int, y as int));
                    assert(cells@ =~= before + column_cells(x as int, y_lo as int, y as int));
                }
                y = y + 1;
            }
            x = x + 1;
        }
        cells
    }
}

/// A box with an empty range on either axis holds no cell.
pub proof fn lemma_box_cells_empty(x_lo: int, x_hi: int, y_lo: int, y_hi: int)
    requires
        x_hi < x_lo || y_hi < y_lo,
    ensures
        box_cells(x_lo, x_hi, y_lo, y_hi) =~= Seq::empty(),
    decreases x_hi + 1 - x_lo,
{
    if x_hi >= x_lo {
        lemma_box_cells_empty(x_lo, x_hi - 1, y_lo, y_hi);
    }
}

} // verus!
