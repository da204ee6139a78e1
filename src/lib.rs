//! Conway's Game of Life on a toroidal, bit-packed grid.

pub mod bits;
pub mod grid;
pub mod shapes;
pub mod universe;

pub use grid::GridView;
pub use shapes::{DrawObject, Shape};
pub use universe::{CreationStrategy, Universe};
