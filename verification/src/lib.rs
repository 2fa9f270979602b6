//! Coordinate ingestion, conversion, and viewport derivation.
//!
//! The crate extracts numeric pairs from free-form text, decides whether they
//! are projected (UTM) or geographic coordinates, converts between the two
//! representations, derives a map viewport framing the points, and renders
//! coordinate lists into delimited-text and placemark-markup exports.
//!
//! Coordinate components are held in micro-units: the decimal value
//! multiplied by one million, as a 64-bit signed integer.
pub mod convert;
pub mod export;
pub mod extract;
pub mod fmt;
pub mod num;
pub mod session;
pub mod viewport;

use vstd::prelude::*;

verus! {

/// One coordinate pair, both components in micro-units.
///
/// For a raw extracted pair, `x` and `y` are the first and second number.
/// For a geographic pair, `x` is the longitude and `y` the latitude, in
/// micro-degrees.  For a projected pair, `x` is the easting and `y` the
/// northing, in micro-meters.
#[derive(Clone, Copy, Debug, PartialEq, Eq, Structural)]
pub struct Pair {
    pub x: i64,
    pub y: i64,
}

} // verus!
