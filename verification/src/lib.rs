//! Monitoring of a government gazette archive for notices that declare a
//! designated area: listing discovery, content-hash based de-duplication,
//! classification of notices, enrichment of flagged notices and the
//! geometric clean-up that turns geocoded points into a displayable shape.
//!
//! Coordinates are held in fixed point (units of 1e-7 degree) and distances
//! in whole metres, so that every geometric decision is exact.

pub mod db;
pub mod error;
pub mod geocoder;
pub mod image_service;
pub mod location_parser;
pub mod utils;
