//! Direction-aware light transport on a two-dimensional lattice, in fixed-point
//! arithmetic.
//!
//! Every cell of the lattice holds a distribution of flux over direction bins,
//! grouped into four faces. A step gathers flux from neighbouring cells through
//! a table of transmission weights and then applies the cell's wall rule.
//! All quantities are integers counted in millionths, so that every contract
//! is exact.

pub mod fixed;
pub mod geometry;
pub mod layout;
pub mod light;
pub mod interval;
pub mod wall;
pub mod lattice;
pub mod transport;
pub mod grid;
pub mod sums;
pub mod laws;
pub mod energy;
pub mod editor;
