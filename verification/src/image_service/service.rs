//! What an image service is asked and what it may answer.

use vstd::prelude::*;
use crate::error::PipelineError;

verus! {

/// The answer of an image service as plain values.
pub open spec fn upload_view(answer: Result<Option<String>, PipelineError>) -> Result<
    Option<Seq<char>>,
    PipelineError,
> {
    match answer {
        Ok(Some(reference)) => Ok(Some(reference@)),
        Ok(None) => Ok(None),
        Err(e) => Err(e),
    }
}

/// A service that stores an image under a file name and answers with the
/// reference under which it can be had.
pub trait ImageService {
    /// Whether the service, as it is, may give `answer` when it is asked to
    /// store `data` under `filename`. A service that says nothing of itself
    /// may give any answer.
    open spec fn may_answer(
        &self,
        filename: Seq<char>,
        data: Seq<u8>,
        answer: Result<Option<Seq<char>>, PipelineError>,
    ) -> bool {
        true
    }

    /// Stores `data` under `filename`.
    fn upload(&mut self, filename: String, data: Vec<u8>) -> (r: Result<
        Option<String>,
        PipelineError,
    >)
        ensures
            old(self).may_answer(filename@, data@, upload_view(r)),
    ;
}

/// An image together with the service that is to store it.
pub struct Image<T> where T: ImageService {
    pub filename: String,
    pub data: Vec<u8>,
    pub service: T,
}

impl<T> Image<T> where T: ImageService {
    /// Hands the image to the service: the service gets the file name and
    /// the data as they stand, and its answer comes back as it is.
    pub fn upload(&mut self) -> (r: Result<Option<String>, PipelineError>)
        ensures
            old(self).service.may_answer(old(self).filename@, old(self).data@, upload_view(r)),
            final(self).filename@ == old(self).filename@,
            final(self).data@ == old(self).data@,
    {
        let filename = self.filename.clone();
        let data = self.data.clone();
        self.service.upload(filename, data)
    }
}

/// The service that stores nothing: every upload fails.
impl ImageService for () {
    open spec fn may_answer(
        &self,
        filename: Seq<char>,
        data: Seq<u8>,
        answer: Result<Option<Seq<char>>, PipelineError>,
    ) -> bool {
        answer == Err::<Option<Seq<char>>, PipelineError>(PipelineError::Provider)
    }

    fn upload(&mut self, filename: String, data: Vec<u8>) -> (r: Result<
        Option<String>,
        PipelineError,
    >) {
        Err(PipelineError::Provider)
    }
}

} // verus!
