//! Rotation corrections for previewed photographs.
//!
//! The crate resolves pointer drags into a rotation angle and carries that
//! angle into the `[Rotation]` section of a sidecar parameter file. Every
//! quantity is a [`fixed::Fixed`]: a decimal number with six fractional
//! digits, so that all arithmetic is exact and provable.

pub mod fixed;
pub mod angle;
pub mod command;
pub mod decimal;
pub mod gesture;
pub mod listing;
pub mod session;
pub mod sidecar;
pub mod text;
