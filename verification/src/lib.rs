//! Automatic placement of falling tetrominoes by the Dellacherie heuristic,
//! over six encodings of the playfield that suggest the same placements.
//!
//! [`grid`] holds the mathematics: the playfield as a set of cells, the
//! removal of complete rows, the features and the score. [`search`] holds the
//! model of the search, and [`engine`] the two traits that every encoding
//! implements, with the search itself. [`theorems`] states what holds of
//! them all, and [`stack`] what holds of the stack that a game builds.

pub mod bits;
pub mod bits16;
pub mod cells;
pub mod column_bits;
pub mod column_bits_pext;
pub mod common;
pub mod engine;
pub mod grid;
pub mod naive;
pub mod naive_col_heights;
pub mod packed;
pub mod render;
pub mod row_bits;
pub mod row_bits_col_heights;
pub mod rows;
pub mod search;
pub mod stack;
pub mod sums;
pub mod theorems;

pub use column_bits::ColBits;
pub use column_bits_pext::ColBitsPext;
pub use engine::{BoardImpl, Implementation};
pub use naive::Naive;
pub use naive_col_heights::NaiveColHeights;
pub use row_bits::RowBits;
pub use row_bits_col_heights::RowBitsColHeights;
