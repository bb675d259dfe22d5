//! A single animation frame: a fixed 44 x 11 grid of on/off cells.
//!
//! The grid is stored row-major as a flat vector of booleans; the cell in
//! column `x` of row `y` sits at index `y * 44 + x`. The mathematical model
//! of a frame is the sequence of its 484 cells.

use vstd::prelude::*;

verus! {

/// Number of cell columns in a frame.
pub const GRID_WIDTH: usize = 44;

/// Number of cell rows in a frame.
pub const GRID_HEIGHT: usize = 11;

/// Total number of cells in a frame, `GRID_WIDTH * GRID_HEIGHT`.
pub const GRID_CELLS: usize = 484;

/// The model of a frame whose every cell is off.
pub open spec fn blank_grid() -> Seq<bool> {
    Seq::new(484, |i: int| false)
}

/// The flat index of the cell in column `x` of row `y`.
pub open spec fn cell_index(x: int, y: int) -> int {
    y * 44 + x
}

/// The model of a frame with every cell flipped.
pub open spec fn invert_grid(g: Seq<bool>) -> Seq<bool> {
    Seq::new(g.len(), |i: int| !g[i])
}

/// Flipping every cell twice restores the original grid.
pub proof fn lemma_invert_involution(g: Seq<bool>)
    ensures
        invert_grid(invert_grid(g)) == g,
{
    assert(invert_grid(invert_grid(g)) =~= g);
}

/// One monochrome pixel grid of 44 x 11 cells.
pub struct Frame {
    cells: Vec<bool>,
}

impl View for Frame {
    type V = Seq<bool>;

    closed spec fn view(&self) -> Seq<bool> {
        self.cells@
    }
}

impl Frame {
    /// A frame holds exactly one boolean per cell of the 44 x 11 grid.
    pub open spec fn wf(&self) -> bool {
        self@.len() == 484
    }

    /// The modelled value of the cell in column `x` of row `y`.
    pub open spec fn spec_cell(&self, x: int, y: int) -> bool {
        self@[cell_index(x, y)]
    }

    /// A frame whose every cell is off.
    pub fn blank() -> (f: Frame)
        ensures
            f.wf(),
            f@ == blank_grid(),
    {
        let cells: Vec<bool> = vec![false; 484];
        let f = Frame { cells };
        assert(f@ =~= blank_grid());
        f
    }

    /// Reads the cell in column `x` of row `y`.
    pub fn get(&self, x: usize, y: usize) -> (b: bool)
        requires
            self.wf(),
            x < 44,
            y < 11,
        ensures
            b == self.spec_cell(x as int, y as int),
    {
        self.cells[y * 44 + x]
    }

    /// Sets the cell in column `x` of row `y` to `value`.
    pub fn set(&mut self, x: usize, y: usize, value: bool)
        requires
            old(self).wf(),
            x < 44,
            y < 11,
        ensures
            final(self).wf(),
            final(self)@ == old(self)@.update(cell_index(x as int, y as int), value),
    {
        self.cells[y * 44 + x] = value;
    }

    /// Flips the cell in column `x` of row `y`.
    pub fn toggle(&mut self, x: usize, y: usize)
        requires
            old(self).wf(),
            x < 44,
            y < 11,
        ensures
            final(self).wf(),
            final(self)@ == old(self)@.update(
                cell_index(x as int, y as int),
                !old(self).spec_cell(x as int, y as int),
            ),
    {
        let v = self.get(x, y);
        self.set(x, y, !v);
    }

    /// Flips every cell of the frame.
    pub fn invert(&mut self)
        requires
            old(self).wf(),
        ensures
            final(self).wf(),
            final(self)@ == invert_grid(old(self)@),
    {
        let mut i: usize = 0;
        while i < 484
            invariant
                old(self).wf(),
                self.wf(),
                i <= 484,
                forall|j: int| 0 <= j < i ==> self@[j] == !old(self)@[j],
                forall|j: int| i <= j < 484 ==> self@[j] == old(self)@[j],
            decreases 484 - i,
        {
            let v = self.cells[i];
            self.cells[i] = !v;
            i = i + 1;
        }
        assert(self@ =~= invert_grid(old(self)@));
    }

    /// Turns every cell of the frame off.
    pub fn clear(&mut self)
        requires
            old(self).wf(),
        ensures
            final(self).wf(),
            final(self)@ == blank_grid(),
    {
        let mut i: usize = 0;
        while i < 484
            invariant
                old(self).wf(),
                self.wf(),
                i <= 484,
                forall|j: int| 0 <= j < i ==> self@[j] == false,
            decreases 484 - i,
        {
            self.cells[i] = false;
            i = i + 1;
        }
        assert(self@ =~= blank_grid());
    }
}

impl Clone for Frame {
    /// A cloned frame has the same cells as the original.
    fn clone(&self) -> (r: Frame)
        ensures
            r@ == self@,
    {
        let r = Frame { cells: self.cells.clone() };
        assert(r@ =~= self@);
        r
    }
}

} // verus!
