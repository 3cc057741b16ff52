use vstd::prelude::*;

verus! {

/// Result of a bounds-checked cell query: a cell is either empty or a wall,
/// and a query past the grid edges reports so instead of failing.
#[derive(Clone, Copy, Debug, PartialEq, Eq, Structural)]
pub enum Cell {
    Empty,
    Wall,
    OutOfBounds,
}

/// The built-in layout: a ring of walls around the border with a few wall
/// blocks scattered in the interior.
pub open spec fn spec_default_cell(col: int, row: int) -> u8 {
    if row == 0 || row == 7 || col == 0 || col == 7 {
        1
    } else if (row == 2 && (col == 2 || col == 5)) || (row == 4 && col == 3) || (row == 5
        && col == 5) || (row == 6 && col == 2) {
        1
    } else {
        0
    }
}

fn default_cell(col: usize, row: usize) -> (v: u8)
    ensures
        v == spec_default_cell(col as int, row as int),
{
    if row == 0 || row == 7 || col == 0 || col == 7 {
        1
    } else if (row == 2 && (col == 2 || col == 5)) || (row == 4 && col == 3) || (row == 5
        && col == 5) || (row == 6 && col == 2) {
        1
    } else {
        0
    }
}

/// A square grid of cells, row by row, together with the size in world
/// units of one cell edge. A map is constructed whole, by the loader or by
/// `default`, and is only ever replaced wholesale, never mutated cell by
/// cell.
pub struct TileMap {
    width: usize,
    height: usize,
    cell_size: u32,
    cells: Vec<Vec<u8>>,
}

impl TileMap {
    /// The grid is square and positive and every row has exactly `width`
    /// cells.
    #[verifier::type_invariant]
    spec fn inv(self) -> bool {
        &&& 1 <= self.width
        &&& self.height == self.width
        &&& 1 <= self.cell_size
        &&& self.cells@.len() == self.height
        &&& forall|r: int| 0 <= r < self.cells@.len() ==> self.cells@[r]@.len() == self.width
    }

    pub closed spec fn spec_width(&self) -> int {
        self.width as int
    }

    pub closed spec fn spec_height(&self) -> int {
        self.height as int
    }

    pub closed spec fn spec_cell_size(&self) -> int {
        self.cell_size as int
    }

    /// The raw stored value of a cell; meaningful for in-bounds positions.
    pub closed spec fn spec_cell_value(&self, col: int, row: int) -> u8 {
        self.cells@[row]@[col]
    }

    pub open spec fn in_bounds(&self, col: int, row: int) -> bool {
        0 <= col < self.spec_width() && 0 <= row < self.spec_height()
    }

    pub open spec fn spec_cell_at(&self, col: int, row: int) -> Cell {
        if !self.in_bounds(col, row) {
            Cell::OutOfBounds
        } else if self.spec_cell_value(col, row) == 1 {
            Cell::Wall
        } else {
            Cell::Empty
        }
    }

    /// However a map was built, its grid is square and its sizes positive:
    /// each accessor also reports the piece of that fact about its result.
    pub fn width(&self) -> (w: usize)
        ensures
            w == self.spec_width(),
            1 <= w,
            self.spec_height() == self.spec_width(),
    {
        proof {
            use_type_invariant(self);
        }
        self.width
    }

    pub fn height(&self) -> (h: usize)
        ensures
            h == self.spec_height(),
            1 <= h,
            self.spec_height() == self.spec_width(),
    {
        proof {
            use_type_invariant(self);
        }
        self.height
    }

    pub fn cell_size(&self) -> (s: u32)
        ensures
            s == self.spec_cell_size(),
            1 <= s,
    {
        proof {
            use_type_invariant(self);
        }
        self.cell_size
    }

    /// Bounds-checked cell lookup: `Wall` or `Empty` inside the grid, the
    /// distinguished `OutOfBounds` result past its edges, never a failure.
    pub fn cell_at(&self, col: usize, row: usize) -> (c: Cell)
        ensures
            c == self.spec_cell_at(col as int, row as int),
    {
        proof {
            use_type_invariant(self);
        }
        if col >= self.width || row >= self.height {
            Cell::OutOfBounds
        } else {
            let row_cells = &self.cells[row];
            // the stored value 1 counts as a wall; every other value acts as empty
            if row_cells[col] == 1 {
                Cell::Wall
            } else {
                Cell::Empty
            }
        }
    }

    /// The stop test of the ray marcher: a ray halts on the first position
    /// whose cell is a wall or lies outside the map.
    pub fn blocks_ray(&self, col: usize, row: usize) -> (b: bool)
        ensures
            b == (self.spec_cell_at(col as int, row as int) != Cell::Empty),
    {
        match self.cell_at(col, row) {
            Cell::Empty => false,
            _ => true,
        }
    }

    /// Builds a map from loader output: `rows` holds one inner vector of
    /// exactly `n` cells per grid row.
    pub(crate) fn from_parts(n: usize, cell_size: u32, rows: Vec<Vec<u8>>) -> (m: TileMap)
        requires
            1 <= n,
            1 <= cell_size,
            rows@.len() == n,
            forall|r: int| 0 <= r < n ==> rows@[r]@.len() == n,
        ensures
            m.spec_width() == n,
            m.spec_height() == n,
            m.spec_cell_size() == cell_size,
            forall|col: int, row: int|
                0 <= col < n && 0 <= row < n ==> #[trigger] m.spec_cell_value(col, row) == rows@[row]@[col],
    {
        TileMap { width: n, height: n, cell_size, cells: rows }
    }
}

impl Default for TileMap {
    /// The engine's built-in 8 by 8 map, used until a map file is loaded:
    /// cell size 64 (the side length squared) and the built-in layout.
    fn default() -> (m: TileMap)
        ensures
            m.spec_width() == 8,
            m.spec_height() == 8,
            m.spec_cell_size() == 64,
            forall|col: int, row: int|
                0 <= col < 8 && 0 <= row < 8 ==> #[trigger] m.spec_cell_value(col, row)
                    == spec_default_cell(col, row),
    {
        let mut cells: Vec<Vec<u8>> = Vec::new();
        let mut row: usize = 0;
        while row < 8
            invariant
                row <= 8,
                cells@.len() == row,
                forall|r: int| 0 <= r < row ==> cells@[r]@.len() == 8,
                forall|c: int, r: int|
                    0 <= c < 8 && 0 <= r < row ==> cells@[r]@[c] == spec_default_cell(c, r),
            decreases 8 - row,
        {
            let mut row_cells: Vec<u8> = Vec::new();
            let mut col: usize = 0;
            while col < 8
                invariant
                    row < 8,
                    col <= 8,
                    row_cells@.len() == col,
                    forall|c: int|
                        0 <= c < col ==> row_cells@[c] == spec_default_cell(c, row as int),
                decreases 8 - col,
            {
                row_cells.push(default_cell(col, row));
                col = col + 1;
            }
            cells.push(row_cells);
            row = row + 1;
        }
        TileMap { width: 8, height: 8, cell_size: 64, cells }
    }
}

} // verus!
