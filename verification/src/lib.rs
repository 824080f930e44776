//! A Game of Life simulation on a fixed rectangular grid with a one-cell
//! sentinel border.  Neighbor counts are not recomputed each generation:
//! every cell caches the number of its live neighbors, and a cell that
//! changes state pushes a +1/-1 delta to each of its eight neighbor
//! relations.  Cells live in a flat, row-major arena owned by the board,
//! and a neighbor relation is the flat index of the neighboring cell.

pub mod types;
pub mod grid;
pub mod cell;
pub mod board;
