//! Address resolution: decoding a bulk address extract into a store of
//! records, and choosing the record nearest to a coordinate.
//!
//! Coordinates are whole numbers of a fixed fraction of a degree, and the
//! distance of a record from a query point is an integer that the caller
//! supplies. The library decides; it reads no file and asks no database.

pub mod address;
pub mod coordinate;
pub mod fields;
pub mod ingest;
pub mod line;
pub mod nearest;
pub mod search;
pub mod store;
