//! An in-memory search index over a catalog of aircraft.

pub mod aircraft;
pub mod scan;
pub mod text;
pub mod utils;
