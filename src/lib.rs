//! Easing curves over a decimal fixed-point progress value.
//!
//! A progress value is a [`Fixed`]: an `i64` count of units of 10^-12. Each
//! curve is a unit struct implementing [`EasingFunction`], whose provided
//! `value` clamps its input to the unit interval before the curve's own formula
//! is applied, so that every curve yields exactly zero at or below zero and
//! exactly one at or above one.
use vstd::prelude::*;

pub mod curves;
pub mod fixed;
pub mod shape;

pub use fixed::{ConversionError, Fixed, SCALE};

pub use curves::{
    Back, Bounce, Circ, Cubec, EasingFunction, Liner, Quad, Quart, Quint, boundary_value,
};
