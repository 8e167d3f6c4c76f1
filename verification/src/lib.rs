//! Procedural growth of a branching tree in fixed-point arithmetic.
//!
//! Every scalar (an angle in radians, a time in seconds, a length) is an `i64`
//! counted in millionths of its unit, so that all of the growth rules are exact
//! integer computations.

pub mod units;
pub mod angles;
pub mod expo;
pub mod log;
pub mod trig;
pub mod mesh;
pub mod random;
pub mod branch;
pub mod tree;
