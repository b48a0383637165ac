//! The four traversals.

use vstd::prelude::*;
use crate::family::Family;
use crate::grid::{grid_of, line_values, rectangular, values_of, width, Indexable};

verus! {

/// Returns the rows of `matrix`, top to bottom, each from left to right.
///
/// A grid without rows gives no lines; a grid whose rows are empty gives one
/// empty line per row.
pub fn straight_x<'a, M: Indexable<Row> + 'a, Row: Indexable<T> + 'a, T>(matrix: &'a M) -> (lines:
    Vec<Vec<&'a T>>)
    requires
        rectangular(grid_of(matrix)),
    ensures
        values_of(lines) == Family::Rows.lines(grid_of(matrix)),
{
    let ghost grid = grid_of(matrix);
    let mut lines: Vec<Vec<&'a T>> = Vec::new();
    let rows = matrix.size();
    if rows == 0 {
        assert(values_of(lines) =~= Family::Rows.lines(grid));
        return lines;
    }
    let cols = matrix.item(0).size();
    let mut x: usize = 0;
    while x < rows
        invariant
            x <= rows,
            rows == grid.len(),
            cols == width(grid),
            grid == grid_of(matrix),
            rectangular(grid),
            lines@.len() == x,
            values_of(lines) == Family::Rows.lines(grid).take(x as int),
        decreases rows - x,
    {
        let mut line: Vec<&'a T> = Vec::new();
        let mut y: usize = 0;
        while y < cols
            invariant
                x < rows,
                y <= cols,
                rows == grid.len(),
                cols == grid[x as int].len(),
                grid == grid_of(matrix),
                line@.len() == y,
                forall|k: int| 0 <= k < y ==> *(#[trigger] line@[k]) == grid[x as int][k],
            decreases cols - y,
        {
            line.push(matrix.item(x).item(y));
            y += 1;
        }
        assert(line_values(line) =~= Family::Rows.lines(grid)[x as int]);
        let ghost before = lines;
        lines.push(line);
        x += 1;
        proof {
            lemma_line_added(before, line, lines, Family::Rows.lines(grid));
        }
    }
    lines
}

/// Returns the columns of `matrix`, left to right, each from top to bottom.
///
/// The number of columns is that of the first row, so a grid without rows
/// gives no lines.
pub fn straight_y<'a, M: Indexable<Row> + 'a, Row: Indexable<T> + 'a, T>(matrix: &'a M) -> (lines:
    Vec<Vec<&'a T>>)
    requires
        rectangular(grid_of(matrix)),
    ensures
        values_of(lines) == Family::Columns.lines(grid_of(matrix)),
{
    let ghost grid = grid_of(matrix);
    let mut lines: Vec<Vec<&'a T>> = Vec::new();
    let rows = matrix.size();
    if rows == 0 {
        assert(values_of(lines) =~= Family::Columns.lines(grid));
        return lines;
    }
    let cols = matrix.item(0).size();
    let mut y: usize = 0;
    while y < cols
        invariant
            y <= cols,
            rows == grid.len(),
            cols == width(grid),
            grid == grid_of(matrix),
            rectangular(grid),
            lines@.len() == y,
            values_of(lines) == Family::Columns.lines(grid).take(y as int),
        decreases cols - y,
    {
        let mut line: Vec<&'a T> = Vec::new();
        let mut x: usize = 0;
        while x < rows
            invariant
                x <= rows,
                y < cols,
                rows == grid.len(),
                cols == width(grid),
                grid == grid_of(matrix),
                rectangular(grid),
                line@.len() == x,
                forall|k: int| 0 <= k < x ==> *(#[trigger] line@[k]) == grid[k][y as int],
            decreases rows - x,
        {
            assert(grid[x as int].len() == cols);
            line.push(matrix.item(x).item(y));
            x += 1;
        }
        assert(line_values(line) =~= Family::Columns.lines(grid)[y as int]);
        let ghost before = lines;
        lines.push(line);
        y += 1;
        proof {
            lemma_line_added(before, line, lines, Family::Columns.lines(grid));
        }
    }
    lines
}

/// Returns the diagonals of `matrix` that step one row down and one column
/// right, each from its upper-left end to its lower-right end.
///
/// The first line is the bottom-left corner alone. The following lines begin
/// one row higher each until the top-left corner is reached, and from there
/// one column further right each; the last line is the top-right corner alone.
/// A grid without rows or without columns gives no lines.
pub fn diagonal_pos_pos<'a, M: Indexable<Row> + 'a, Row: Indexable<T> + 'a, T>(
    matrix: &'a M,
) -> (lines: Vec<Vec<&'a T>>)
    requires
        rectangular(grid_of(matrix)),
    ensures
        values_of(lines) == Family::Rising.lines(grid_of(matrix)),
{
    let ghost grid = grid_of(matrix);
    let mut lines: Vec<Vec<&'a T>> = Vec::new();
    let rows = matrix.size();
    if rows == 0 {
        assert(values_of(lines) =~= Family::Rising.lines(grid));
        return lines;
    }
    let cols = matrix.item(0).size();
    if cols == 0 {
        assert(values_of(lines) =~= Family::Rising.lines(grid));
        return lines;
    }
    // The starts climb the left column ...
    let mut x0: usize = rows;
    while x0 > 0
        invariant
            x0 <= rows,
            0 < cols,
            rows == grid.len(),
            cols == width(grid),
            grid == grid_of(matrix),
            rectangular(grid),
            lines@.len() == rows - x0,
            values_of(lines) == Family::Rising.lines(grid).take(rows - x0),
        decreases x0,
    {
        x0 -= 1;
        let line = rising_from(matrix, x0, 0);
        assert(line_values(line) =~= Family::Rising.lines(grid)[rows - 1 - x0]);
        let ghost before = lines;
        lines.push(line);
        proof {
            lemma_line_added(before, line, lines, Family::Rising.lines(grid));
        }
    }
    // ... and then run along the top row.
    let mut y0: usize = 1;
    while y0 < cols
        invariant
            1 <= y0 <= cols,
            0 < rows,
            rows == grid.len(),
            cols == width(grid),
            grid == grid_of(matrix),
            rectangular(grid),
            lines@.len() == rows - 1 + y0,
            values_of(lines) == Family::Rising.lines(grid).take(rows - 1 + y0),
        decreases cols - y0,
    {
        let line = rising_from(matrix, 0, y0);
        assert(line_values(line) =~= Family::Rising.lines(grid)[rows - 1 + y0]);
        let ghost before = lines;
        lines.push(line);
        y0 += 1;
        proof {
            lemma_line_added(before, line, lines, Family::Rising.lines(grid));
        }
    }
    lines
}

/// Returns the diagonals of `matrix` that step one row down and one column
/// left, each from its upper-right end to its lower-left end.
///
/// The first line is the top-left corner alone. The following lines begin one
/// column further right each until the top-right corner is reached, and from
/// there one row lower each; the last line is the bottom-right corner alone.
/// A grid without rows or without columns gives no lines.
pub fn diagonal_pos_neg<'a, M: Indexable<Row> + 'a, Row: Indexable<T> + 'a, T>(
    matrix: &'a M,
) -> (lines: Vec<Vec<&'a T>>)
    requires
        rectangular(grid_of(matrix)),
    ensures
        values_of(lines) == Family::Falling.lines(grid_of(matrix)),
{
    let ghost grid = grid_of(matrix);
    let mut lines: Vec<Vec<&'a T>> = Vec::new();
    let rows = matrix.size();
    if rows == 0 {
        assert(values_of(lines) =~= Family::Falling.lines(grid));
        return lines;
    }
    let cols = matrix.item(0).size();
    if cols == 0 {
        assert(values_of(lines) =~= Family::Falling.lines(grid));
        return lines;
    }
    // The starts run along the top row ...
    let mut y0: usize = 0;
    while y0 < cols
        invariant
            y0 <= cols,
            0 < rows,
            rows == grid.len(),
            cols == width(grid),
            grid == grid_of(matrix),
            rectangular(grid),
            lines@.len() == y0,
            values_of(lines) == Family::Falling.lines(grid).take(y0 as int),
        decreases cols - y0,
    {
        let line = falling_from(matrix, 0, y0);
        assert(line_values(line) =~= Family::Falling.lines(grid)[y0 as int]);
        let ghost before = lines;
        lines.push(line);
        y0 += 1;
        proof {
            lemma_line_added(before, line, lines, Family::Falling.lines(grid));
        }
    }
    // ... and then descend the right column.
    let mut x0: usize = 1;
    while x0 < rows
        invariant
            1 <= x0 <= rows,
            0 < cols,
            rows == grid.len(),
            cols == width(grid),
            grid == grid_of(matrix),
            rectangular(grid),
            lines@.len() == cols - 1 + x0,
            values_of(lines) == Family::Falling.lines(grid).take(cols - 1 + x0),
        decreases rows - x0,
    {
        let line = falling_from(matrix, x0, cols - 1);
        assert(line_values(line) =~= Family::Falling.lines(grid)[cols - 1 + x0]);
        let ghost before = lines;
        lines.push(line);
        x0 += 1;
        proof {
            lemma_line_added(before, line, lines, Family::Falling.lines(grid));
        }
    }
    lines
}

/// A result that holds the first lines of `target`, extended by the line of
/// `target` that comes next, holds one more of them.
proof fn lemma_line_added<T>(
    before: Vec<Vec<&T>>,
    line: Vec<&T>,
    after: Vec<Vec<&T>>,
    target: Seq<Seq<T>>,
)
    requires
        before@.len() < target.len(),
        values_of(before) == target.take(before@.len() as int),
        line_values(line) == target[before@.len() as int],
        after@ == before@.push(line),
    ensures
        values_of(after) == target.take(after@.len() as int),
{
    let d = before@.len() as int;
    assert forall|i: int| 0 <= i < d + 1 implies values_of(after)[i] == target[i] by {
        if i < d {
            assert(values_of(before)[i] == line_values(before@[i]));
            assert(target.take(d)[i] == target[i]);
        }
    }
    assert(values_of(after) =~= target.take(d + 1));
}

/// Walks from the cell (`x0`, `y0`) one row down and one column right at a
/// time, as far as the grid reaches.
fn rising_from<'a, M: Indexable<Row> + 'a, Row: Indexable<T> + 'a, T>(
    matrix: &'a M,
    x0: usize,
    y0: usize,
) -> (line: Vec<&'a T>)
    requires
        rectangular(grid_of(matrix)),
        x0 < grid_of(matrix).len(),
        y0 < width(grid_of(matrix)),
    ensures
        line_values(line) == Seq::new(
            vstd::math::min(grid_of(matrix).len() - x0, width(grid_of(matrix)) - y0) as nat,
            |k: int| grid_of(matrix)[x0 + k][y0 + k],
        ),
{
    let ghost grid = grid_of(matrix);
    let rows = matrix.size();
    let cols = matrix.item(0).size();
    let n = if rows - x0 < cols - y0 {
        rows - x0
    } else {
        cols - y0
    };
    let mut line: Vec<&'a T> = Vec::new();
    let mut k: usize = 0;
    while k < n
        invariant
            k <= n,
            n <= rows - x0,
            n <= cols - y0,
            rows == grid.len(),
            cols == width(grid),
            grid == grid_of(matrix),
            rectangular(grid),
            line@.len() == k,
            forall|j: int| 0 <= j < k ==> *(#[trigger] line@[j]) == grid[x0 + j][y0 + j],
        decreases n - k,
    {
        assert(grid[x0 + k].len() == cols);
        line.push(matrix.item(x0 + k).item(y0 + k));
        k += 1;
    }
    assert(line_values(line) =~= Seq::new(n as nat, |k: int| grid[x0 + k][y0 + k]));
    line
}

/// Walks from the cell (`x0`, `y0`) one row down and one column left at a
/// time, as far as the grid reaches.
fn falling_from<'a, M: Indexable<Row> + 'a, Row: Indexable<T> + 'a, T>(
    matrix: &'a M,
    x0: usize,
    y0: usize,
) -> (line: Vec<&'a T>)
    requires
        rectangular(grid_of(matrix)),
        x0 < grid_of(matrix).len(),
        y0 < width(grid_of(matrix)),
    ensures
        line_values(line) == Seq::new(
            vstd::math::min(grid_of(matrix).len() - x0, y0 + 1) as nat,
            |k: int| grid_of(matrix)[x0 + k][y0 - k],
        ),
{
    let ghost grid = grid_of(matrix);
    let rows = matrix.size();
    let n = if rows - x0 <= y0 {
        rows - x0
    } else {
        y0 + 1
    };
    let mut line: Vec<&'a T> = Vec::new();
    let mut k: usize = 0;
    while k < n
        invariant
            k <= n,
            n <= rows - x0,
            n <= y0 + 1,
            y0 < width(grid),
            rows == grid.len(),
            grid == grid_of(matrix),
            rectangular(grid),
            line@.len() == k,
            forall|j: int| 0 <= j < k ==> *(#[trigger] line@[j]) == grid[x0 + j][y0 - j],
        decreases n - k,
    {
        assert(grid[x0 + k].len() == width(grid));
        line.push(matrix.item(x0 + k).item(y0 - k));
        k += 1;
    }
    assert(line_values(line) =~= Seq::new(n as nat, |k: int| grid[x0 + k][y0 - k]));
    line
}

} // verus!
