//! What holds of every traversal, on every grid.

use vstd::prelude::*;
use vstd::seq_lib::to_multiset_len;
use crate::family::{in_grid, read, read_line, Family};
use crate::flat::{
    all_distinct, lemma_flatten_contains, lemma_flatten_last, lemma_flatten_no_duplicates,
    lemma_flatten_uniform, lemma_map_rearranged, lemma_same_elements, occurs_at,
};
use crate::grid::{rectangular, values_of, width};

verus! {

/// Every family visits every cell of the grid exactly once: each place on
/// each line is a cell of the grid, found again by `line_of` and
/// `position_of`, and each cell of the grid stands at the place that these
/// two give for it.
pub proof fn law_every_cell_once(family: Family, rows: nat, cols: nat)
    ensures
        forall|line: int, k: int|
            0 <= line < family.line_count(rows, cols) && 0 <= k < family.line_len(rows, cols, line)
                ==> {
                let c = #[trigger] family.cell(rows, cols, line, k);
                &&& in_grid(rows, cols, c)
                &&& family.line_of(rows, cols, c) == line
                &&& family.position_of(rows, cols, c) == k
            },
        forall|c: (int, int)|
            in_grid(rows, cols, c) ==> {
                let line = #[trigger] family.line_of(rows, cols, c);
                let k = family.position_of(rows, cols, c);
                &&& 0 <= line < family.line_count(rows, cols)
                &&& 0 <= k < family.line_len(rows, cols, line)
                &&& family.cell(rows, cols, line, k) == c
            },
{
}

/// Which cells a line holds, and in what order. Row `line` holds the cells
/// of that row, from the left. Column `line` holds the cells of that column,
/// from the top. On a rising diagonal the row exceeds the column by the same
/// amount in every cell, and this amount falls by one from line to line,
/// from `rows - 1` on the first. On a falling diagonal row and column have
/// the same sum in every cell, the number of the line. Along every diagonal
/// the row grows by one from cell to cell.
pub proof fn law_order(family: Family, rows: nat, cols: nat)
    ensures
        forall|line: int, k: int|
            0 <= line < family.line_count(rows, cols) && 0 <= k < family.line_len(rows, cols, line)
                ==> {
                let c = #[trigger] family.cell(rows, cols, line, k);
                let first = family.cell(rows, cols, line, 0);
                match family {
                    Family::Rows => c == (line, k),
                    Family::Columns => c == (k, line),
                    Family::Rising => c.0 - c.1 == rows - 1 - line && c.0 == first.0 + k,
                    Family::Falling => c.0 + c.1 == line && c.0 == first.0 + k,
                }
            },
{
}

/// No line stops short: the cell one step before its first and the cell one
/// step after its last lie outside the grid. So every diagonal begins and
/// ends on the border of the grid.
pub proof fn law_lines_are_whole(family: Family, rows: nat, cols: nat)
    ensures
        forall|line: int|
            0 <= line < family.line_count(rows, cols) ==> {
                let len = #[trigger] family.line_len(rows, cols, line);
                &&& !in_grid(rows, cols, family.cell(rows, cols, line, -1))
                &&& !in_grid(rows, cols, family.cell(rows, cols, line, len as int))
            },
{
}

/// Laid end to end, the lines of a family hold every cell of the grid, no
/// cell twice and nothing else; they hold `rows * cols` cells in all.
pub proof fn law_cells_cover(family: Family, rows: nat, cols: nat)
    ensures
        family.cells(rows, cols).flatten().no_duplicates(),
        forall|c: (int, int)| #[trigger]
            family.cells(rows, cols).flatten().contains(c) <==> in_grid(rows, cols, c),
        family.cells(rows, cols).flatten().len() == rows * cols,
{
    lemma_cells_cover(family, rows, cols);
    lemma_cells_rearranged(family, rows, cols);
    to_multiset_len(family.cells(rows, cols).flatten());
    to_multiset_len(Family::Rows.cells(rows, cols).flatten());
    lemma_flatten_uniform(Family::Rows.cells(rows, cols), cols);
}

proof fn lemma_cells_cover(family: Family, rows: nat, cols: nat)
    ensures
        family.cells(rows, cols).flatten().no_duplicates(),
        forall|c: (int, int)| #[trigger]
            family.cells(rows, cols).flatten().contains(c) <==> in_grid(rows, cols, c),
{
    let cells = family.cells(rows, cols);
    law_every_cell_once(family, rows, cols);
    assert(all_distinct(cells)) by {
        assert forall|i: int, k: int, j: int, l: int|
            0 <= i < cells.len() && 0 <= k < cells[i].len() && 0 <= j < cells.len() && 0 <= l
                < cells[j].len() && (i != j || k != l) implies #[trigger] cells[i][k]
            != #[trigger] cells[j][l] by {
            assert(cells[i][k] == family.cell(rows, cols, i, k));
            assert(cells[j][l] == family.cell(rows, cols, j, l));
        }
    }
    lemma_flatten_no_duplicates(cells);
    assert forall|c: (int, int)| #[trigger]
        cells.flatten().contains(c) <==> in_grid(rows, cols, c) by {
        lemma_flatten_contains(cells, c);
        if in_grid(rows, cols, c) {
            let i = family.line_of(rows, cols, c);
            let k = family.position_of(rows, cols, c);
            assert(occurs_at(cells, i, k, c));
        }
        if exists|i: int, k: int| occurs_at(cells, i, k, c) {
            let (i, k) = choose|i: int, k: int| occurs_at(cells, i, k, c);
            assert(cells[i][k] == family.cell(rows, cols, i, k));
        }
    }
}

/// Laid end to end, the cells of any family are the cells of the rows in
/// another order.
proof fn lemma_cells_rearranged(family: Family, rows: nat, cols: nat)
    ensures
        family.cells(rows, cols).flatten().to_multiset() == Family::Rows.cells(
            rows,
            cols,
        ).flatten().to_multiset(),
{
    let flat = family.cells(rows, cols).flatten();
    let by_rows = Family::Rows.cells(rows, cols).flatten();
    lemma_cells_cover(family, rows, cols);
    lemma_cells_cover(Family::Rows, rows, cols);
    assert forall|c: (int, int)| flat.contains(c) <==> by_rows.contains(c) by {
        assert(flat.contains(c) <==> in_grid(rows, cols, c));
        assert(by_rows.contains(c) <==> in_grid(rows, cols, c));
    }
    lemma_same_elements(flat, by_rows);
}

/// Reading a grid line by line and laying the results end to end gives what
/// reading it at the cells laid end to end gives.
proof fn lemma_flatten_read<T>(grid: Seq<Seq<T>>, cells: Seq<Seq<(int, int)>>)
    ensures
        read(grid, cells).flatten() == read_line(grid, cells.flatten()),
    decreases cells.len(),
{
    if cells.len() == 0 {
        assert(cells.flatten() =~= Seq::<(int, int)>::empty());
        assert(read(grid, cells).flatten() =~= Seq::<T>::empty());
        assert(read_line(grid, cells.flatten()) =~= Seq::<T>::empty());
    } else {
        let front = cells.drop_last();
        lemma_flatten_last(cells);
        lemma_flatten_last(read(grid, cells));
        assert(read(grid, cells).drop_last() =~= read(grid, front));
        lemma_flatten_read(grid, front);
        assert(read_line(grid, front.flatten()) + read_line(grid, cells.last()) =~= read_line(
            grid,
            front.flatten() + cells.last(),
        ));
    }
}

/// The rows of a rectangular grid, as a traversal, are the grid itself.
pub proof fn law_rows_are_the_grid<T>(grid: Seq<Seq<T>>)
    requires
        rectangular(grid),
    ensures
        Family::Rows.lines(grid) == grid,
{
    assert(Family::Rows.lines(grid) =~~= grid);
}

/// The elements on the lines of a family are the elements of the grid: the
/// same multiset, so none is left out and none comes twice.
pub proof fn law_coverage<T>(family: Family, grid: Seq<Seq<T>>)
    requires
        rectangular(grid),
    ensures
        family.lines(grid).flatten().to_multiset() == grid.flatten().to_multiset(),
{
    let rows = grid.len();
    let cols = width(grid);
    let flat = family.cells(rows, cols).flatten();
    let by_rows = Family::Rows.cells(rows, cols).flatten();
    let at = |c: (int, int)| grid[c.0][c.1];
    lemma_cells_rearranged(family, rows, cols);
    lemma_map_rearranged(flat, by_rows, at);
    lemma_flatten_read(grid, family.cells(rows, cols));
    lemma_flatten_read(grid, Family::Rows.cells(rows, cols));
    assert(read_line(grid, flat) =~= flat.map_values(at));
    assert(read_line(grid, by_rows) =~= by_rows.map_values(at));
    law_rows_are_the_grid(grid);
}

/// The lines of a family hold the elements of the grid at the family's
/// cells, place by place.
pub proof fn law_lines_read_the_cells<T>(family: Family, grid: Seq<Seq<T>>)
    ensures
        forall|line: int, k: int|
            0 <= line < family.lines(grid).len() && 0 <= k < family.lines(grid)[line].len() ==> {
                let c = family.cell(grid.len(), width(grid), line, k);
                #[trigger] family.lines(grid)[line][k] == grid[c.0][c.1]
            },
{
}

/// The length of line number `line` among the diagonals of a `rows` by
/// `cols` grid: the lengths climb from one by one, stay at the smaller of
/// `rows` and `cols`, and fall by one to one.
pub open spec fn diagonal_len(rows: nat, cols: nat, line: int) -> int {
    vstd::math::min(
        vstd::math::min(line + 1, rows + cols - 1 - line),
        vstd::math::min(rows as int, cols as int),
    )
}

/// How many lines each family yields, and how long they are. Rows: as many
/// lines as rows, each as long as the grid is wide. Columns: as many lines as
/// columns, each as long as the grid is high. Diagonals of a grid with at
/// least one cell: one line fewer than rows and columns together, of lengths
/// `diagonal_len`; a line has the greatest length, the smaller of the two
/// sides, exactly from line number `min - 1` to line number `max - 1`, which
/// makes the difference of the sides plus one such lines. In every family
/// the lengths add up to the number of cells.
pub proof fn law_count<T>(family: Family, grid: Seq<Seq<T>>)
    ensures
        family.lines(grid).len() == family.line_count(grid.len(), width(grid)),
        forall|line: int|
            0 <= line < family.lines(grid).len() ==> (#[trigger] family.lines(grid)[line]).len()
                == family.line_len(grid.len(), width(grid), line),
        family == Family::Rows ==> family.lines(grid).len() == grid.len() && forall|line: int|
            0 <= line < grid.len() ==> (#[trigger] family.lines(grid)[line]).len() == width(grid),
        family == Family::Columns ==> family.lines(grid).len() == width(grid) && forall|line: int|
            0 <= line < width(grid) ==> (#[trigger] family.lines(grid)[line]).len() == grid.len(),
        (family == Family::Rising || family == Family::Falling) && grid.len() > 0 && width(grid)
            > 0 ==> {
            let rows = grid.len();
            let cols = width(grid);
            let least = vstd::math::min(rows as int, cols as int);
            let most = vstd::math::max(rows as int, cols as int);
            &&& family.lines(grid).len() == rows + cols - 1
            &&& forall|line: int|
                0 <= line < rows + cols - 1 ==> (#[trigger] family.lines(grid)[line]).len()
                    == diagonal_len(rows, cols, line)
            &&& forall|line: int|
                0 <= line < rows + cols - 1 ==> ((#[trigger] family.lines(grid)[line]).len()
                    == least <==> least - 1 <= line <= most - 1)
        },
        family.lines(grid).flatten().len() == grid.len() * width(grid),
{
    let rows = grid.len();
    let cols = width(grid);
    law_cells_cover(family, rows, cols);
    lemma_flatten_read(grid, family.cells(rows, cols));
}

/// A grid without rows has no lines, in any family.
pub proof fn law_empty<T>(family: Family, grid: Seq<Seq<T>>)
    requires
        grid.len() == 0,
    ensures
        family.lines(grid) == Seq::<Seq<T>>::empty(),
{
    assert(family.lines(grid) =~= Seq::<Seq<T>>::empty());
}

/// A grid whose rows are empty has one empty line per row, and no columns
/// and no diagonals.
pub proof fn law_without_columns<T>(family: Family, grid: Seq<Seq<T>>)
    requires
        width(grid) == 0,
    ensures
        family == Family::Rows ==> family.lines(grid) == Seq::new(
            grid.len(),
            |line: int| Seq::<T>::empty(),
        ),
        family != Family::Rows ==> family.lines(grid) == Seq::<Seq<T>>::empty(),
{
    if family == Family::Rows {
        assert(family.lines(grid) =~~= Seq::new(grid.len(), |line: int| Seq::<T>::empty()));
    } else {
        assert(family.lines(grid) =~= Seq::<Seq<T>>::empty());
    }
}

/// A grid of one cell has one line, which holds that cell, in every family.
pub proof fn law_single_cell<T>(family: Family, grid: Seq<Seq<T>>)
    requires
        grid.len() == 1,
        grid[0].len() == 1,
    ensures
        family.lines(grid) == seq![seq![grid[0][0]]],
{
    assert(family.lines(grid) =~~= seq![seq![grid[0][0]]]);
}

/// Two results of one traversal of one grid agree: as many lines, each as
/// long, and equal elements at every place.
pub proof fn law_results_agree<T>(
    family: Family,
    grid: Seq<Seq<T>>,
    first: Vec<Vec<&T>>,
    second: Vec<Vec<&T>>,
)
    requires
        values_of(first) == family.lines(grid),
        values_of(second) == family.lines(grid),
    ensures
        values_of(first) == values_of(second),
        first@.len() == second@.len(),
        forall|i: int| 0 <= i < first@.len() ==> (#[trigger] first@[i])@.len() == second@[i]@.len(),
        forall|i: int, k: int|
            0 <= i < first@.len() && 0 <= k < first@[i]@.len() ==> *(#[trigger] first@[i]@[k])
                == *second@[i]@[k],
{
    assert(first@.len() == values_of(first).len());
    assert(second@.len() == values_of(second).len());
    assert forall|i: int| 0 <= i < first@.len() implies (#[trigger] first@[i])@.len()
        == second@[i]@.len() by {
        assert(values_of(first)[i].len() == first@[i]@.len());
        assert(values_of(second)[i].len() == second@[i]@.len());
    }
    assert forall|i: int, k: int|
        0 <= i < first@.len() && 0 <= k < first@[i]@.len() implies *(#[trigger] first@[i]@[k])
        == *second@[i]@[k] by {
        assert(values_of(first)[i][k] == *first@[i]@[k]);
        assert(values_of(second)[i][k] == *second@[i]@[k]);
    }
}

} // verus!
