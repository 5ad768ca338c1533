//! The choice among the results of the Azure address search.

use vstd::prelude::*;
use crate::error::PipelineError;
use crate::utils::gazette::joined;
use crate::utils::maptypes::GeoPosition;

verus! {

/// The kind of result that is preferred: the crossing of two streets.
pub const CROSS_STREET: &'static str = "Cross Street";

/// The address of the search, up to the key.
pub const AZURE_ADDRESS: &'static str =
    "https://atlas.microsoft.com/search/address/json?&subscription-key=";

/// The settings of the search, behind the key and up to the query.
pub const AZURE_SETTINGS: &'static str = "&api-version=1.0&language=en-AU&countrySet=AU&query=";

/// The geocoder that asks the Azure address search.
#[derive(Clone, Copy, Debug)]
pub struct AzureGeocoderProvider;

/// A position as the search gives it.
#[derive(Clone, Copy, Debug)]
pub struct AzureGeocoderPosition {
    pub lat: i32,
    pub lon: i32,
}

/// One result of the search: its kind and its position.
#[derive(Debug)]
pub struct AzureGeocoderResult {
    pub kind: String,
    pub position: AzureGeocoderPosition,
}

impl AzureGeocoderPosition {
    /// The position in the terms of this library.
    pub fn to_position(&self) -> (r: GeoPosition)
        ensures
            r == (GeoPosition { latitude: self.lat, longitude: self.lon }),
    {
        GeoPosition { latitude: self.lat, longitude: self.lon }
    }
}

/// The first of the results from `from` on that is the crossing of two
/// streets.
pub open spec fn first_crossing(results: Seq<AzureGeocoderResult>, from: int) -> Option<int>
    decreases results.len() - from,
{
    if from < 0 || from >= results.len() {
        None
    } else if results[from].kind@ == CROSS_STREET@ {
        Some(from)
    } else {
        first_crossing(results, from + 1)
    }
}

/// The position chosen among `results`: that of the first crossing of two
/// streets, else that of the first result.
pub open spec fn chosen_position(results: Seq<AzureGeocoderResult>) -> Result<
    GeoPosition,
    PipelineError,
> {
    match first_crossing(results, 0) {
        Some(i) => Ok(
            GeoPosition { latitude: results[i].position.lat, longitude: results[i].position.lon },
        ),
        None => if results.len() > 0 {
            Ok(
                GeoPosition {
                    latitude: results[0].position.lat,
                    longitude: results[0].position.lon,
                },
            )
        } else {
            Err(PipelineError::ExtractionNotFound)
        },
    }
}

impl AzureGeocoderProvider {
    /// The position chosen among the results of a search. It fails with
    /// `ExtractionNotFound` where there is no result.
    pub fn select_position(results: &Vec<AzureGeocoderResult>) -> (r: Result<GeoPosition, PipelineError>)
        ensures
            r == chosen_position(results@),
    {
        let wanted = CROSS_STREET.to_owned();
        let mut i: usize = 0;
        while i < results.len()
            invariant
                i <= results@.len(),
                wanted@ == CROSS_STREET@,
                first_crossing(results@, 0) == first_crossing(results@, i as int),
            decreases results@.len() - i,
        {
            if results[i].kind == wanted {
                return Ok(results[i].position.to_position());
            }
            i = i + 1;
        }
        if results.len() > 0 {
            Ok(results[0].position.to_position())
        } else {
            Err(PipelineError::ExtractionNotFound)
        }
    }

    /// The address at which `query` is asked with the key `api_key`.
    pub fn request_address(api_key: &str, query: &str) -> (r: String)
        ensures
            r@ == AZURE_ADDRESS@ + api_key@ + AZURE_SETTINGS@ + query@,
    {
        let first = joined(AZURE_ADDRESS, api_key);
        let second = joined(first.as_str(), AZURE_SETTINGS);
        joined(second.as_str(), query)
    }
}

} // verus!
