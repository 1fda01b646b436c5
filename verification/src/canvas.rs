//! The canvas: a square pixel grid, width = height = number of samples,
//! addressed by (x, y) coordinates, zero-initialized, stored row-major.

use vstd::prelude::*;

use crate::color::ColorSample;

verus! {

/// Flat row-major position of the cell at coordinates (x, y) on a canvas of
/// side `n`.
pub open spec fn cell(n: int, x: int, y: int) -> int {
    x * n + y
}

/// Every in-range coordinate pair maps to an in-range flat position.
pub proof fn lemma_cell_in_range(n: int, x: int, y: int)
    requires
        0 <= x < n,
        0 <= y < n,
    ensures
        0 <= cell(n, x, y) < n * n,
{
    assert(0 <= x * n + y < n * n) by (nonlinear_arith)
        requires
            0 <= x < n,
            0 <= y < n,
    ;
}

/// Distinct in-range coordinate pairs map to distinct flat positions.
pub proof fn lemma_cell_injective(n: int, x1: int, y1: int, x2: int, y2: int)
    requires
        0 <= x1 < n,
        0 <= y1 < n,
        0 <= x2 < n,
        0 <= y2 < n,
        cell(n, x1, y1) == cell(n, x2, y2),
    ensures
        x1 == x2,
        y1 == y2,
{
    assert(x1 == x2 && y1 == y2) by (nonlinear_arith)
        requires
            0 <= x1 < n,
            0 <= y1 < n,
            0 <= x2 < n,
            0 <= y2 < n,
            x1 * n + y1 == x2 * n + y2,
    ;
}

/// The all-black contents of a freshly created canvas of side `n`.
pub open spec fn blank(n: nat) -> Seq<ColorSample> {
    Seq::new(n * n, |k: int| ColorSample::spec_zero())
}

/// An n-by-n grid of pixel colors. Created all-zero, overwritten by exactly
/// one filler invocation, only read afterward; never resized after creation.
pub struct Canvas {
    side: usize,
    cells: Vec<ColorSample>,
}

impl View for Canvas {
    type V = Seq<ColorSample>;

    closed spec fn view(&self) -> Seq<ColorSample> {
        self.cells@
    }
}

impl Canvas {
    /// The side length, as a ghost value.
    pub closed spec fn spec_size(&self) -> nat {
        self.side as nat
    }

    /// Well-formedness: the backing store holds exactly side * side cells.
    pub closed spec fn wf(&self) -> bool {
        &&& self.cells@.len() == self.side * self.side
        &&& self.side * self.side <= usize::MAX
    }

    /// A well-formed canvas holds exactly size * size cells.
    pub proof fn lemma_area(&self)
        requires
            self.wf(),
        ensures
            self@.len() == self.spec_size() * self.spec_size(),
    {
    }

    /// The side length of the square grid.
    pub fn size(&self) -> (n: usize)
        ensures
            n == self.spec_size(),
    {
        self.side
    }

    /// A zero-initialized size-by-size grid.
    pub fn create(size: usize) -> (c: Canvas)
        requires
            size * size <= usize::MAX,
        ensures
            c.wf(),
            c.spec_size() == size,
            c@ == blank(size as nat),
    {
        let area = size * size;
        let mut cells: Vec<ColorSample> = Vec::new();
        while cells.len() < area
            invariant
                area == size * size,
                cells@.len() <= area,
                forall|k: int| 0 <= k < cells@.len() ==> cells@[k] == ColorSample::spec_zero(),
            decreases area - cells@.len(),
        {
            cells.push(ColorSample::zero());
        }
        let c = Canvas { side: size, cells };
        proof {
            assert(c@ =~= blank(size as nat));
        }
        c
    }

    /// The pixel at (x, y); coordinates outside `[0, size)` are a contract
    /// violation.
    pub fn get(&self, x: usize, y: usize) -> (p: ColorSample)
        requires
            self.wf(),
            x < self.spec_size(),
            y < self.spec_size(),
        ensures
            p == self@[cell(self.spec_size() as int, x as int, y as int)],
    {
        proof {
            lemma_cell_in_range(self.side as int, x as int, y as int);
        }
        self.cells[x * self.side + y]
    }

    /// Overwrite the pixel at (x, y); every other cell keeps its color.
    /// Coordinates outside `[0, size)` are a contract violation.
    pub fn set(&mut self, x: usize, y: usize, color: ColorSample)
        requires
            old(self).wf(),
            x < old(self).spec_size(),
            y < old(self).spec_size(),
        ensures
            final(self).wf(),
            final(self).spec_size() == old(self).spec_size(),
            final(self)@ == old(self)@.update(
                cell(old(self).spec_size() as int, x as int, y as int),
                color,
            ),
    {
        proof {
            lemma_cell_in_range(self.side as int, x as int, y as int);
        }
        let k = x * self.side + y;
        self.cells[k] = color;
    }
}

} // verus!
