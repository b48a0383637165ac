//! Line traversals of a rectangular grid.
//!
//! A grid is any container of rows whose rows are containers of elements.
//! Four traversals are offered, each returning its lines as vectors of
//! references into the grid:
//!
//! * [`straight_x`]: every row, top to bottom;
//! * [`straight_y`]: every column, left to right;
//! * [`diagonal_pos_pos`]: the diagonals that step one row down and one
//!   column right, from the bottom-left corner to the top-right corner;
//! * [`diagonal_pos_neg`]: the diagonals that step one row down and one
//!   column left, from the top-left corner to the bottom-right corner.
//!
//! All four expect every row to have the same length; [`is_rectangular`]
//! tells whether a grid does.
//!
//! The module [`family`] says, cell by cell, what each traversal yields;
//! [`laws`] proves what holds of all of them, with the help of the facts
//! about sequences of lines in [`flat`].

pub mod grid;
pub mod family;
pub mod traverse;
pub mod flat;
pub mod laws;

pub use family::Family;
pub use grid::{is_rectangular, Indexable};
pub use traverse::{diagonal_pos_neg, diagonal_pos_pos, straight_x, straight_y};
