//! A generic, fixed-size two-dimensional container indexed by integer
//! coordinates, stored contiguously in row-major order, with verified
//! bounds-checked access, whole-grid transforms, and traversal.

pub mod grid;
pub mod vector;

pub use crate::grid::Grid;
pub use crate::grid::GridView;
pub use crate::vector::Vector;
