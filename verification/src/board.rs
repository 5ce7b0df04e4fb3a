//! The cell grid: a fixed-size board of live/dead cells in row-major order,
//! together with the two ways of seeding one (a coordinate list and a
//! thresholded raster image).

use vstd::prelude::*;
use vstd::arithmetic::div_mod::lemma_fundamental_div_mod_converse;
use crate::color::Color;
use crate::color::black;

verus! {

/// Row-major indices of cells inside a `w`-by-`h` grid stay below `w * h`.
pub proof fn lemma_cell_index_bound(w: int, h: int, x: int, y: int)
    by (nonlinear_arith)
    requires
        0 <= x < w,
        0 <= y < h,
    ensures
        0 <= y * w + x < w * h,
{
}

/// A row-major index determines its coordinates: dividing by the width
/// recovers the row, taking the remainder recovers the column.
pub proof fn lemma_cell_index_coords(w: int, x: int, y: int)
    requires
        0 <= x < w,
        0 <= y,
    ensures
        (y * w + x) / w == y,
        (y * w + x) % w == x,
{
    lemma_fundamental_div_mod_converse(y * w + x, w, y, x);
}

/// A grid of live (`true`) and dead (`false`) cells with fixed dimensions,
/// stored row by row in a single dense vector.
pub struct Board {
    pub width: usize,
    pub height: usize,
    pub cells: Vec<bool>,
}

impl Board {
    /// The board is well formed: its dimensions are positive and it holds
    /// exactly one cell per grid position.
    pub open spec fn wf(&self) -> bool {
        &&& self.width > 0
        &&& self.height > 0
        &&& self.cells@.len() == self.width * self.height
    }

    /// The cell states in row-major order.
    pub open spec fn grid(&self) -> Seq<bool> {
        self.cells@
    }

    /// Whether the cell at column `x`, row `y` is alive.
    pub open spec fn alive(&self, x: int, y: int) -> bool {
        self.grid()[y * self.width + x]
    }

    /// A board of the given dimensions with every cell dead.
    pub fn new(width: usize, height: usize) -> (b: Board)
        requires
            width > 0,
            height > 0,
            width * height <= usize::MAX,
        ensures
            b.wf(),
            b.width == width,
            b.height == height,
            forall|i: int| 0 <= i < width * height ==> !b.grid()[i],
    {
        let n = width * height;
        let mut cells: Vec<bool> = Vec::new();
        let mut i: usize = 0;
        while i < n
            invariant
                i <= n,
                cells@.len() == i,
                forall|j: int| 0 <= j < i ==> !cells@[j],
            decreases n - i,
        {
            cells.push(false);
            i = i + 1;
        }
        Board { width, height, cells }
    }

    /// The state of the cell at column `x`, row `y`.
    pub fn cell(&self, x: usize, y: usize) -> (v: bool)
        requires
            self.wf(),
            x < self.width,
            y < self.height,
        ensures
            v == self.alive(x as int, y as int),
    {
        let _len = self.cells.len();
        proof {
            lemma_cell_index_bound(self.width as int, self.height as int, x as int, y as int);
        }
        self.cells[y * self.width + x]
    }

    /// Sets the cell at column `x`, row `y`, leaving every other cell alone.
    pub fn set(&mut self, x: usize, y: usize, v: bool)
        requires
            old(self).wf(),
            x < old(self).width,
            y < old(self).height,
        ensures
            final(self).wf(),
            final(self).width == old(self).width,
            final(self).height == old(self).height,
            final(self).cells@ == old(self).cells@.update(
                y * old(self).width + x,
                v,
            ),
    {
        let _len = self.cells.len();
        proof {
            lemma_cell_index_bound(self.width as int, self.height as int, x as int, y as int);
        }
        let i = y * self.width + x;
        self.cells[i] = v;
    }

    /// A board seeded from a list of `(row, column)` coordinates: exactly
    /// the listed cells are alive, every other cell is dead.
    pub fn from_coords(width: usize, height: usize, coords: &Vec<(usize, usize)>) -> (b: Board)
        requires
            width > 0,
            height > 0,
            width * height <= usize::MAX,
            forall|i: int|
                0 <= i < coords@.len() ==> coords@[i].0 < height && coords@[i].1 < width,
        ensures
            b.wf(),
            b.width == width,
            b.height == height,
            forall|x: int, y: int|
                0 <= x < width && 0 <= y < height
                    ==> (b.alive(x, y) <==> coords@.contains((y as usize, x as usize))),
    {
        let mut b = Board::new(width, height);
        proof {
            assert forall|x: int, y: int| 0 <= x < width && 0 <= y < height implies !b.alive(
                x,
                y,
            ) by {
                lemma_cell_index_bound(width as int, height as int, x, y);
            }
        }
        let mut i: usize = 0;
        while i < coords.len()
            invariant
                i <= coords@.len(),
                b.wf(),
                b.width == width,
                b.height == height,
                forall|j: int|
                    0 <= j < coords@.len() ==> coords@[j].0 < height && coords@[j].1 < width,
                forall|x: int, y: int|
                    0 <= x < width && 0 <= y < height
                        ==> (b.alive(x, y) <==> exists|j: int|
                            0 <= j < i && coords@[j] == ((y as usize, x as usize))),
            decreases coords@.len() - i,
        {
            let (row, col) = coords[i];
            let ghost prev = b;
            b.set(col, row, true);
            proof {
                lemma_cell_index_bound(width as int, height as int, col as int, row as int);
                assert forall|x: int, y: int| 0 <= x < width && 0 <= y < height implies (b.alive(
                    x,
                    y,
                ) <==> exists|j: int|
                    0 <= j < i + 1 && coords@[j] == ((y as usize, x as usize))) by {
                    lemma_cell_index_bound(width as int, height as int, x, y);
                    if y * width + x == (row as int) * width + col {
                        lemma_cell_index_coords(width as int, x, y);
                        lemma_cell_index_coords(width as int, col as int, row as int);
                        assert(x == col && y == row);
                        assert(coords@[i as int] == ((y as usize, x as usize)));
                    } else {
                        assert(b.alive(x, y) == prev.alive(x, y));
                    }
                }
            }
            i = i + 1;
        }
        proof {
            assert forall|x: int, y: int|
                0 <= x < width && 0 <= y < height implies (b.alive(x, y)
                <==> coords@.contains((y as usize, x as usize))) by {
                if coords@.contains((y as usize, x as usize)) {
                    let j = choose|j: int|
                        0 <= j < coords@.len() && coords@[j] == ((y as usize, x as usize));
                    assert(0 <= j < i && coords@[j] == ((y as usize, x as usize)));
                }
            }
        }
        b
    }

    /// A board seeded from the pixels of a raster image of the same
    /// dimensions, in row-major order: a pure black pixel yields a dead
    /// cell, any other pixel yields a live cell.
    pub fn from_pixels(width: usize, height: usize, pixels: &Vec<Color>) -> (b: Board)
        requires
            width > 0,
            height > 0,
            pixels@.len() == width * height,
        ensures
            b.wf(),
            b.width == width,
            b.height == height,
            forall|i: int| 0 <= i < width * height ==> (b.grid()[i] <==> pixels@[i] != black()),
    {
        let mut cells: Vec<bool> = Vec::new();
        let n = pixels.len();
        let mut i: usize = 0;
        while i < n
            invariant
                i <= n,
                n == pixels@.len(),
                cells@.len() == i,
                forall|j: int| 0 <= j < i ==> (cells@[j] <==> pixels@[j] != black()),
            decreases n - i,
        {
            let p = pixels[i];
            cells.push(!(p.r == 0 && p.g == 0 && p.b == 0));
            i = i + 1;
        }
        Board { width, height, cells }
    }
}

} // verus!
