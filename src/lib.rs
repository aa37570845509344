//! A toroidal Game of Life board seeded from a DNA sequence, together with
//! the fixed-point grid geometry used to draw it and to hit-test clicks.

pub mod geometry;
pub mod input;
pub mod simulation;
pub mod universe;

pub use geometry::{create_grid_vertices, GridVertex, GRID_ORIGIN, UNITS_PER_VIEWPORT};
pub use input::resolve_click;
pub use simulation::{Simulation, TICK_INTERVAL_MS};
pub use universe::{BoardError, Universe, CYTOSINE, GUANINE};
