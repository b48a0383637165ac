//! The four traversal families, as functions from grid shape to cells.

use vstd::prelude::*;
use crate::grid::width;

verus! {

/// One of the four ways of cutting a grid into lines.
#[derive(Clone, Copy, Debug, PartialEq, Eq)]
pub enum Family {
    /// One line per row, top to bottom; each runs left to right.
    Rows,
    /// One line per column, left to right; each runs top to bottom.
    Columns,
    /// Diagonals that step one row down and one column right. The first is
    /// the bottom-left corner alone, the last the top-right corner alone.
    Rising,
    /// Diagonals that step one row down and one column left. The first is
    /// the top-left corner alone, the last the bottom-right corner alone.
    Falling,
}

impl Family {
    /// The number of lines that the family cuts a `rows` by `cols` grid into.
    pub open spec fn line_count(self, rows: nat, cols: nat) -> nat {
        match self {
            Family::Rows => rows,
            Family::Columns => cols,
            Family::Rising | Family::Falling => if rows > 0 && cols > 0 {
                (rows + cols - 1) as nat
            } else {
                0
            },
        }
    }

    /// The cell (row, column) at which line number `line` begins. Every
    /// line begins on the border of the grid: rising diagonals climb the
    /// left column and then run along the top row; falling diagonals run
    /// along the top row and then descend the right column.
    pub open spec fn start(self, rows: nat, cols: nat, line: int) -> (int, int) {
        match self {
            Family::Rows => (line, 0),
            Family::Columns => (0, line),
            Family::Rising => if line < rows {
                (rows - 1 - line, 0)
            } else {
                (0, line - (rows - 1))
            },
            Family::Falling => if line < cols {
                (0, line)
            } else {
                (line - (cols - 1), cols - 1)
            },
        }
    }

    /// The number of cells on line number `line`: as many steps as stay
    /// inside the grid.
    pub open spec fn line_len(self, rows: nat, cols: nat, line: int) -> nat {
        let (x, y) = self.start(rows, cols, line);
        match self {
            Family::Rows => cols,
            Family::Columns => rows,
            Family::Rising => vstd::math::min(rows - x, cols - y) as nat,
            Family::Falling => vstd::math::min(rows - x, y + 1) as nat,
        }
    }

    /// The cell (row, column) at position `k` of line number `line`: `k`
    /// steps from the line's start. A step goes one column right in a row,
    /// one row down in a column, one row down and one column right on a
    /// rising diagonal, one row down and one column left on a falling one.
    pub open spec fn cell(self, rows: nat, cols: nat, line: int, k: int) -> (int, int) {
        let (x, y) = self.start(rows, cols, line);
        match self {
            Family::Rows => (x, y + k),
            Family::Columns => (x + k, y),
            Family::Rising => (x + k, y + k),
            Family::Falling => (x + k, y - k),
        }
    }

    /// The number of the line on which the cell `c` lies.
    pub open spec fn line_of(self, rows: nat, cols: nat, c: (int, int)) -> int {
        match self {
            Family::Rows => c.0,
            Family::Columns => c.1,
            Family::Rising => rows - 1 - (c.0 - c.1),
            Family::Falling => c.0 + c.1,
        }
    }

    /// The position of the cell `c` on its line: the number of steps from
    /// the line's start to `c`.
    pub open spec fn position_of(self, rows: nat, cols: nat, c: (int, int)) -> int {
        let (x, y) = self.start(rows, cols, self.line_of(rows, cols, c));
        match self {
            Family::Rows => c.1 - y,
            Family::Columns | Family::Rising | Family::Falling => c.0 - x,
        }
    }

    /// The cells of line number `line`, in the order in which they are
    /// visited.
    pub open spec fn line_cells(self, rows: nat, cols: nat, line: int) -> Seq<(int, int)> {
        Seq::new(self.line_len(rows, cols, line), |k: int| self.cell(rows, cols, line, k))
    }

    /// All lines of the family on a `rows` by `cols` grid, as cells.
    pub open spec fn cells(self, rows: nat, cols: nat) -> Seq<Seq<(int, int)>> {
        Seq::new(self.line_count(rows, cols), |line: int| self.line_cells(rows, cols, line))
    }

    /// All lines of the family on `grid`, as elements: the grid read at the
    /// family's cells. The number of columns is taken from the first row.
    pub open spec fn lines<T>(self, grid: Seq<Seq<T>>) -> Seq<Seq<T>> {
        read(grid, self.cells(grid.len(), width(grid)))
    }
}

/// The cell `c` lies inside a `rows` by `cols` grid.
pub open spec fn in_grid(rows: nat, cols: nat, c: (int, int)) -> bool {
    0 <= c.0 < rows && 0 <= c.1 < cols
}

/// The elements of `grid` at the cells of one line.
pub open spec fn read_line<T>(grid: Seq<Seq<T>>, line: Seq<(int, int)>) -> Seq<T> {
    Seq::new(line.len(), |k: int| grid[line[k].0][line[k].1])
}

/// The elements of `grid` at the given cells, line by line.
pub open spec fn read<T>(grid: Seq<Seq<T>>, cells: Seq<Seq<(int, int)>>) -> Seq<Seq<T>> {
    Seq::new(cells.len(), |i: int| read_line(grid, cells[i]))
}

} // verus!
