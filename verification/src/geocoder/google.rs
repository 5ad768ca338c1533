//! The choice among the results of the Google geocoder.

use vstd::prelude::*;
use crate::error::PipelineError;
use crate::utils::gazette::joined;
use crate::utils::maptypes::GeoPosition;

verus! {

/// The address of the geocoder, up to the key.
pub const GOOGLE_ADDRESS: &'static str = "https://maps.googleapis.com/maps/api/geocode/json?key=";

/// The settings of the geocoder, behind the key and up to the query.
pub const GOOGLE_SETTINGS: &'static str = "&api-version=1.0&language=en-AU&region=AU&address=";

/// The geocoder that asks Google.
#[derive(Clone, Copy, Debug)]
pub struct GoogleGeocoderProvider;

/// A position as the geocoder gives it.
#[derive(Clone, Copy, Debug)]
pub struct GoogleGeocoderPosition {
    pub lat: i32,
    pub lng: i32,
}

impl GoogleGeocoderPosition {
    /// The position in the terms of this library.
    pub fn to_position(&self) -> (r: GeoPosition)
        ensures
            r == (GeoPosition { latitude: self.lat, longitude: self.lng }),
    {
        GeoPosition { latitude: self.lat, longitude: self.lng }
    }
}

impl GoogleGeocoderProvider {
    /// The position chosen among the results of the geocoder: the first.
    /// It fails with `ExtractionNotFound` where there is no result.
    pub fn select_position(results: &Vec<GoogleGeocoderPosition>) -> (r: Result<GeoPosition, PipelineError>)
        ensures
            r == if results@.len() > 0 {
                Ok::<GeoPosition, PipelineError>(
                    GeoPosition { latitude: results@[0].lat, longitude: results@[0].lng },
                )
            } else {
                Err::<GeoPosition, PipelineError>(PipelineError::ExtractionNotFound)
            },
    {
        if results.len() > 0 {
            Ok(results[0].to_position())
        } else {
            Err(PipelineError::ExtractionNotFound)
        }
    }

    /// The address at which `query` is asked with the key `api_key`.
    pub fn request_address(api_key: &str, query: &str) -> (r: String)
        ensures
            r@ == GOOGLE_ADDRESS@ + api_key@ + GOOGLE_SETTINGS@ + query@,
    {
        let first = joined(GOOGLE_ADDRESS, api_key);
        let second = joined(first.as_str(), GOOGLE_SETTINGS);
        joined(second.as_str(), query)
    }
}

} // verus!
