//! Grids and the containers that can hold them.

use vstd::prelude::*;

verus! {

/// A collection of fixed length whose elements are read by position.
///
/// A grid is an `Indexable` of rows, each row an `Indexable` of elements.
/// Vectors, arrays and slices are `Indexable`.
pub trait Indexable<T> {
    /// The elements, in order.
    spec fn items(&self) -> Seq<T>;

    /// The number of elements.
    fn size(&self) -> (n: usize)
        ensures
            n == self.items().len(),
    ;

    /// The element at position `i`.
    fn item(&self, i: usize) -> (e: &T)
        requires
            i < self.items().len(),
        ensures
            *e == self.items()[i as int],
    ;
}

impl<T> Indexable<T> for Vec<T> {
    open spec fn items(&self) -> Seq<T> {
        self@
    }

    fn size(&self) -> (n: usize) {
        self.len()
    }

    fn item(&self, i: usize) -> (e: &T) {
        &self[i]
    }
}

impl<T, const N: usize> Indexable<T> for [T; N] {
    open spec fn items(&self) -> Seq<T> {
        self@
    }

    fn size(&self) -> (n: usize) {
        N
    }

    fn item(&self, i: usize) -> (e: &T) {
        &self[i]
    }
}

impl<'a, T> Indexable<T> for &'a [T] {
    open spec fn items(&self) -> Seq<T> {
        self@
    }

    fn size(&self) -> (n: usize) {
        self.len()
    }

    fn item(&self, i: usize) -> (e: &T) {
        &self[i]
    }
}

/// The grid that a container of rows holds: one sequence of elements per row.
pub open spec fn grid_of<M: Indexable<Row>, Row: Indexable<T>, T>(matrix: &M) -> Seq<Seq<T>> {
    matrix.items().map_values(|row: Row| row.items())
}

/// The number of columns of a grid: the length of its first row, and zero
/// for a grid without rows.
pub open spec fn width<T>(grid: Seq<Seq<T>>) -> nat {
    if grid.len() == 0 {
        0
    } else {
        grid[0].len()
    }
}

/// Every row of the grid has the same length.
pub open spec fn rectangular<T>(grid: Seq<Seq<T>>) -> bool {
    forall|i: int| 0 <= i < grid.len() ==> (#[trigger] grid[i]).len() == width(grid)
}

/// The elements that one line of references refers to.
pub open spec fn line_values<T>(line: Vec<&T>) -> Seq<T> {
    line@.map_values(|e: &T| *e)
}

/// The elements that a traversal's result refers to, line by line.
pub open spec fn values_of<T>(lines: Vec<Vec<&T>>) -> Seq<Seq<T>> {
    lines@.map_values(|line: Vec<&T>| line_values(line))
}

/// Tells whether every row of `matrix` has the same length.
pub fn is_rectangular<M: Indexable<Row>, Row: Indexable<T>, T>(matrix: &M) -> (b: bool)
    ensures
        b == rectangular(grid_of(matrix)),
{
    let rows = matrix.size();
    if rows == 0 {
        return true;
    }
    let cols = matrix.item(0).size();
    let mut x: usize = 1;
    while x < rows
        invariant
            1 <= x <= rows,
            rows == matrix.items().len(),
            cols == width(grid_of(matrix)),
            forall|i: int| 0 <= i < x ==> (#[trigger] grid_of(matrix)[i]).len() == cols,
        decreases rows - x,
    {
        if matrix.item(x).size() != cols {
            assert(grid_of(matrix)[x as int].len() != cols);
            return false;
        }
        x += 1;
    }
    true
}

} // verus!
