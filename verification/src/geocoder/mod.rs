//! The capability that finds the position of a described location.

pub mod azure;
pub mod google;
pub mod mock;
pub mod service;

pub use crate::geocoder::service::GeocoderProvider;
pub use crate::geocoder::service::GeocoderRequest;
