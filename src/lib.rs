//! Velocity-level contact resolution against ground: a projected Gauss-Seidel
//! impulse solver for one dynamic body touching an immovable body.
//!
//! Each contact point carries a normal part (non-penetration, impulse kept
//! non-negative) and a tangent part (Coulomb friction, impulse kept inside the
//! friction cone). [`dim2`] and [`dim3`] hold the two dimensional variants;
//! in two dimensions friction is clamped to a box, in three to a disk.
//!
//! Scalars are signed fixed-point numbers (see [`fixed`]); every arithmetic
//! step saturates, so each operation is total.
pub mod fixed;
pub mod math;
pub mod dim2;
pub mod dim3;
