//! The frame buffer: a fixed grid of display cells, and the capability of
//! painting into it.

use vstd::prelude::*;

verus! {

/// Number of rows of the playfield.
pub const NUM_ROWS: usize = 20;

/// Number of columns of the playfield.
pub const NUM_COLS: usize = 40;

/// Number of cells of the playfield.
pub const NUM_CELLS: usize = 800;

/// What one cell of the grid shows.
#[derive(Clone, Copy, Debug, PartialEq, Eq, Structural)]
pub enum Cell {
    Empty,
    Glyph(char),
}

/// The grid with every cell empty.
pub open spec fn blank_grid() -> Seq<Cell> {
    Seq::new(NUM_CELLS as nat, |i: int| Cell::Empty)
}

/// Whether `(col, row)` names a cell of the grid.
pub open spec fn in_bounds(col: int, row: int) -> bool {
    0 <= col < NUM_COLS && 0 <= row < NUM_ROWS
}

/// Row-major position of the cell `(col, row)`.
pub open spec fn cell_index(col: int, row: int) -> int {
    row * NUM_COLS + col
}

/// The grid after `cell` is painted at `(col, row)`; painting outside the
/// grid changes nothing.
pub open spec fn paint(grid: Seq<Cell>, col: int, row: int, cell: Cell) -> Seq<Cell> {
    if in_bounds(col, row) {
        grid.update(cell_index(col, row), cell)
    } else {
        grid
    }
}

/// A grid of `NUM_COLS` by `NUM_ROWS` cells, stored row by row.
#[derive(Debug)]
pub struct Frame {
    cells: Vec<Cell>,
}

impl View for Frame {
    type V = Seq<Cell>;

    closed spec fn view(&self) -> Seq<Cell> {
        self.cells@
    }
}

impl Frame {
    /// A frame always has exactly `NUM_CELLS` cells.
    pub open spec fn wf(&self) -> bool {
        self@.len() == NUM_CELLS
    }

    /// The cell at `(col, row)`, or `Empty` outside the grid.
    pub fn get(&self, col: usize, row: usize) -> (cell: Cell)
        requires
            self.wf(),
        ensures
            cell == (if in_bounds(col as int, row as int) {
                self@[cell_index(col as int, row as int)]
            } else {
                Cell::Empty
            }),
    {
        if col < NUM_COLS && row < NUM_ROWS {
            self.cells[row * NUM_COLS + col]
        } else {
            Cell::Empty
        }
    }

    /// Paints `cell` at `(col, row)`; a position outside the grid is ignored.
    pub fn set(&mut self, col: usize, row: usize, cell: Cell)
        requires
            old(self).wf(),
        ensures
            final(self).wf(),
            final(self)@ == paint(old(self)@, col as int, row as int, cell),
    {
        if col < NUM_COLS && row < NUM_ROWS {
            self.cells.set(row * NUM_COLS + col, cell);
        }
    }

    /// A copy of this frame.
    pub fn duplicate(&self) -> (copy: Frame)
        requires
            self.wf(),
        ensures
            copy.wf(),
            copy@ == self@,
    {
        let mut cells: Vec<Cell> = Vec::new();
        let mut i: usize = 0;
        while i < NUM_CELLS
            invariant
                self.wf(),
                i <= NUM_CELLS,
                cells@ == self.cells@.subrange(0, i as int),
            decreases NUM_CELLS - i,
        {
            cells.push(self.cells[i]);
            i += 1;
        }
        Frame { cells }
    }
}

/// A frame with every cell empty.
pub fn new_frame() -> (frame: Frame)
    ensures
        frame.wf(),
        frame@ == blank_grid(),
{
    let mut cells: Vec<Cell> = Vec::new();
    let mut i: usize = 0;
    while i < NUM_CELLS
        invariant
            i <= NUM_CELLS,
            cells@.len() == i,
            forall|j: int| 0 <= j < i ==> cells@[j] == Cell::Empty,
        decreases NUM_CELLS - i,
    {
        cells.push(Cell::Empty);
        i += 1;
    }
    let frame = Frame { cells };
    assert(frame@ =~= blank_grid());
    frame
}

/// Anything that can paint itself into a frame.
pub trait Drawable {
    /// The grid `base` with this entity painted over it.
    spec fn painted(&self, base: Seq<Cell>) -> Seq<Cell>;

    /// Paints this entity into `frame`, over whatever was drawn before.
    fn draw(&self, frame: &mut Frame)
        requires
            old(frame).wf(),
        ensures
            final(frame).wf(),
            final(frame)@ == self.painted(old(frame)@),
    ;
}

} // verus!
