//! A 2D polyline ("linestring") toolkit over exact rational arithmetic.
//!
//! A path is an ordered sequence of measured segments; the library offers
//! length computation, fractional cutting, point interpolation, direction
//! sampling and a naive parallel-offset operation with classified corner
//! joins.  All coordinates and lengths are exact rationals built on
//! arbitrary-precision integers, so every operation carries an exact
//! contract; Euclidean lengths are the documented deterministic
//! fixed-precision square-root approximation (exact on perfect squares).

pub mod bigint;
pub mod rational;
pub mod vector2;
pub mod line_segment_measured;
pub mod line_string_measured;
pub mod linestring;
pub mod pairable;
