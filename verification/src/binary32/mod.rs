//! Single precision arithmetic on bit patterns.
//!
//! Positions, angles and speeds are IEEE 754 binary32 numbers. Verus gives no
//! meaning to the built-in floating point operators, so a number is carried as
//! its 32 bits, and every operation is defined by the exact value it denotes
//! and proved to return what the standard prescribes under round to nearest,
//! ties to even.

pub mod arith;
pub mod convert;
pub mod divide;
pub mod exact;
pub mod laws;
pub mod monotone;
pub mod number;
pub mod order;
pub mod rounding;

pub use number::Binary32;
