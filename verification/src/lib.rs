//! Core of a 2D particle physics sandbox: circular bodies advance under
//! gravity with position-based Verlet integration, collide through a spatial
//! hash grid with circle-circle overlap correction, and are confined to a
//! rectangular domain.
//!
//! All quantities are fixed-point: an `i64` counts sub-units of `1/SCALE` of a
//! world unit, so every contract is an exact statement about integers.  The
//! host converts to and from its own floating-point world at the boundary.

pub mod collision;
pub mod color;
pub mod fixed;
pub mod grid;
pub mod laws;
pub mod particle;
pub mod solver;
