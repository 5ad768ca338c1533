//! What a geocoder is asked and what it may answer.

use vstd::prelude::*;
use crate::error::PipelineError;
use crate::utils::gazette::joined;
use crate::utils::maptypes::GeoPosition;

verus! {

/// What follows the location and the area in every query.
pub const QUERY_REGION: &'static str = ", VICTORIA, AUSTRALIA";

/// What stands between the parts of a query.
pub const QUERY_SEPARATOR: &'static str = ", ";

/// A service that finds the position of a described location, within an
/// area that is given as a hint.
pub trait GeocoderProvider {
    /// Whether the service may give `answer` when it is asked for the
    /// position of `input` in `area`. A service that says nothing of
    /// itself may give any answer.
    open spec fn may_answer(
        &self,
        input: Seq<char>,
        area: Seq<char>,
        answer: Result<GeoPosition, PipelineError>,
    ) -> bool {
        true
    }

    /// The position of `input` in `area`.
    fn geocode(&self, input: &str, area: &str) -> (r: Result<GeoPosition, PipelineError>)
        ensures
            self.may_answer(input@, area@, r),
    ;
}

/// A described location together with the service that is asked for its
/// position.
#[derive(Debug)]
pub struct GeocoderRequest<T> where T: GeocoderProvider {
    pub input: String,
    pub area: String,
    pub service: T,
}

impl<T> GeocoderRequest<T> where T: GeocoderProvider {
    /// Asks the service for the position: the service gets the location and
    /// the area as they stand, and its answer comes back as it is.
    pub fn geocode(&self) -> (r: Result<GeoPosition, PipelineError>)
        ensures
            self.service.may_answer(self.input@, self.area@, r),
    {
        self.service.geocode(self.input.as_str(), self.area.as_str())
    }

    /// The position to go on with: the answer of the service, or the
    /// origin where it fails.
    pub fn geocode_or_default(&self) -> (r: GeoPosition)
        ensures
            exists|answer: Result<GeoPosition, PipelineError>|
                #[trigger] self.service.may_answer(self.input@, self.area@, answer) && r
                    == match answer {
                    Ok(position) => position,
                    Err(_) => GeoPosition { latitude: 0, longitude: 0 },
                },
    {
        let answer = self.service.geocode(self.input.as_str(), self.area.as_str());
        match answer {
            Ok(position) => position,
            Err(_) => GeoPosition::default(),
        }
    }
}

/// The query for the location `input` in `area`.
pub open spec fn query_of(input: Seq<char>, area: Seq<char>) -> Seq<char> {
    input + QUERY_SEPARATOR@ + area + QUERY_REGION@
}

/// The query that is sent for the location `input` in `area`: the location,
/// the area and the region, with commas between them.
pub fn query(input: &str, area: &str) -> (r: String)
    ensures
        r@ == query_of(input@, area@),
{
    let first = joined(input, QUERY_SEPARATOR);
    let second = joined(first.as_str(), area);
    joined(second.as_str(), QUERY_REGION)
}

} // verus!
