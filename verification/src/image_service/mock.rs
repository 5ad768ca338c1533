//! An image service that stores nothing and counts what it is asked, for
//! test harnesses.

use vstd::prelude::*;
use crate::error::PipelineError;
use crate::image_service::service::ImageService;
use crate::utils::gazette::joined;

verus! {

/// Where the mock pretends to have stored an image.
pub const MOCK_LOCATION: &'static str = "mock_url/";

/// An image service that succeeds or fails as it was told when it was
/// made, and counts the uploads it was asked for.
#[derive(Clone, Copy, Debug)]
pub struct MockImageService {
    should_succeed: bool,
    uploads: usize,
}

impl MockImageService {
    /// Whether every upload succeeds.
    pub closed spec fn succeeds(&self) -> bool {
        self.should_succeed
    }

    /// The number of uploads asked for so far; it stops at the largest
    /// number that can be held.
    pub closed spec fn count(&self) -> nat {
        self.uploads as nat
    }

    /// A mock of which nothing was asked yet.
    pub fn new(should_succeed: bool) -> (r: Self)
        ensures
            r.succeeds() == should_succeed,
            r.count() == 0,
    {
        MockImageService { should_succeed, uploads: 0 }
    }

    /// The number of uploads asked for so far.
    pub fn upload_count(&self) -> (n: usize)
        ensures
            n == self.count(),
    {
        self.uploads
    }
}

impl ImageService for MockImageService {
    open spec fn may_answer(
        &self,
        filename: Seq<char>,
        data: Seq<u8>,
        answer: Result<Option<Seq<char>>, PipelineError>,
    ) -> bool {
        if self.succeeds() {
            answer == Ok::<Option<Seq<char>>, PipelineError>(Some(MOCK_LOCATION@ + filename))
        } else {
            answer == Err::<Option<Seq<char>>, PipelineError>(PipelineError::Provider)
        }
    }

    fn upload(&mut self, filename: String, data: Vec<u8>) -> (r: Result<
        Option<String>,
        PipelineError,
    >)
        ensures
            final(self).succeeds() == old(self).succeeds(),
            final(self).count() == if old(self).count() < usize::MAX {
                old(self).count() + 1
            } else {
                old(self).count()
            },
    {
        if self.uploads < usize::MAX {
            self.uploads = self.uploads + 1;
        }
        if self.should_succeed {
            Ok(Some(joined(MOCK_LOCATION, filename.as_str())))
        } else {
            Err(PipelineError::Provider)
        }
    }
}

} // verus!
