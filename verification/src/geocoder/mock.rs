//! A geocoder that knows three cities, for test harnesses.

use vstd::prelude::*;
use crate::error::PipelineError;
use crate::geocoder::service::GeocoderProvider;
use crate::utils::maptypes::GeoPosition;

verus! {

/// A geocoder that knows New York, London and Tokyo and puts every other
/// location at the origin.
#[derive(Clone, Copy, Debug)]
pub struct MockGeocoderProvider;

/// The position that the mock gives for `input`.
pub open spec fn mock_position(input: Seq<char>) -> GeoPosition {
    if input == "New York"@ {
        GeoPosition { latitude: 407128000, longitude: (-740060000i32) }
    } else if input == "London"@ {
        GeoPosition { latitude: 515074000, longitude: (-1278000i32) }
    } else if input == "Tokyo"@ {
        GeoPosition { latitude: 356762000, longitude: 1396503000 }
    } else {
        GeoPosition { latitude: 0, longitude: 0 }
    }
}

fn same_text(a: &str, b: &str) -> (r: bool)
    ensures
        r == (a@ == b@),
{
    let first = a.to_owned();
    let second = b.to_owned();
    first == second
}

impl GeocoderProvider for MockGeocoderProvider {
    open spec fn may_answer(
        &self,
        input: Seq<char>,
        area: Seq<char>,
        answer: Result<GeoPosition, PipelineError>,
    ) -> bool {
        answer == Ok::<GeoPosition, PipelineError>(mock_position(input))
    }

    fn geocode(&self, input: &str, area: &str) -> (r: Result<GeoPosition, PipelineError>) {
        if same_text(input, "New York") {
            Ok(GeoPosition { latitude: 407128000, longitude: -740060000 })
        } else if same_text(input, "London") {
            Ok(GeoPosition { latitude: 515074000, longitude: -1278000 })
        } else if same_text(input, "Tokyo") {
            Ok(GeoPosition { latitude: 356762000, longitude: 1396503000 })
        } else {
            Ok(GeoPosition { latitude: 0, longitude: 0 })
        }
    }
}

} // verus!
