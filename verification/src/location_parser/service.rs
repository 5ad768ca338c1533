//! What a location parser is asked and what it may answer.

use vstd::prelude::*;
use crate::error::PipelineError;
use crate::utils::text::texts_of;

verus! {

/// The answer of a location parser as plain values.
pub open spec fn locations_view(answer: Result<Vec<String>, PipelineError>) -> Result<
    Seq<Seq<char>>,
    PipelineError,
> {
    match answer {
        Ok(locations) => Ok(texts_of(locations@)),
        Err(e) => Err(e),
    }
}

/// A service that finds, in a text, the descriptions of the locations it
/// names: in the order of the text and each one once.
pub trait LocationParserService {
    /// Whether the service may give `answer` when it is asked for the
    /// locations in `text`. A service that says nothing of itself may give
    /// any answer.
    open spec fn may_answer(
        &self,
        text: Seq<char>,
        answer: Result<Seq<Seq<char>>, PipelineError>,
    ) -> bool {
        true
    }

    /// The locations named in `locations`.
    fn parse_locations(&self, locations: String) -> (r: Result<Vec<String>, PipelineError>)
        ensures
            self.may_answer(locations@, locations_view(r)),
    ;
}

/// A text together with the service that is asked for its locations.
pub struct LocationParser<T> where T: LocationParserService {
    pub provider: T,
    pub locations: String,
}

impl<T> LocationParser<T> where T: LocationParserService {
    /// Asks the service for the locations in the text: the service gets
    /// the text as it stands, and its answer comes back as it is.
    pub fn parse_locations(&self) -> (r: Result<Vec<String>, PipelineError>)
        ensures
            self.provider.may_answer(self.locations@, locations_view(r)),
    {
        self.provider.parse_locations(self.locations.clone())
    }
}

} // verus!
