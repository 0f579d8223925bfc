//! Drawing tools for a grid of character cells.
//!
//! A pointer gesture (press, drag, release) is turned into writes to a
//! row-major buffer of cells: the cell under the pointer is found by integer
//! division and clamped to the grid, the segment from the cell where the
//! gesture began to the cell under the pointer is rasterized, and the active
//! tool writes its marker into every cell of that segment.
//!
//! - [`grid`]: cell coordinates, the cell under a pointer, the row-major index.
//! - [`raster`]: the cells of a segment, and what holds of them.
//! - [`canvas`]: painting a stroke into the buffer.
//! - [`tools`]: the line tool, the eraser, and the manager that selects one.

pub mod canvas;
pub mod grid;
pub mod raster;
pub mod tools;
