//! The reply of the language model that is asked for locations.

use vstd::prelude::*;
use crate::error::PipelineError;
use crate::utils::text::split;
use crate::utils::text::split_at_char;
use crate::utils::text::texts_of;

verus! {

/// The location parser that asks a language model.
#[derive(Clone, Copy, Debug)]
pub struct OpenAI;

/// The locations in the replies `choices`: the lines of the first reply.
/// It is a failure of the provider to send no reply.
pub open spec fn locations_in_choices(choices: Seq<Seq<char>>) -> Result<
    Seq<Seq<char>>,
    PipelineError,
> {
    if choices.len() == 0 {
        Err(PipelineError::Provider)
    } else {
        Ok(split_at_char(choices[0], '\n'))
    }
}

impl OpenAI {
    /// The locations in the reply `content`: one for each of its lines.
    pub fn locations_in_reply(content: &str) -> (r: Vec<String>)
        ensures
            texts_of(r@) == split_at_char(content@, '\n'),
    {
        split(content, '\n')
    }

    /// The locations in the replies `choices` of the model.
    pub fn locations_in_choices(choices: &Vec<String>) -> (r: Result<Vec<String>, PipelineError>)
        ensures
            match r {
                Ok(locations) => locations_in_choices(texts_of(choices@)) == Ok::<
                    Seq<Seq<char>>,
                    PipelineError,
                >(texts_of(locations@)),
                Err(e) => locations_in_choices(texts_of(choices@)) == Err::<
                    Seq<Seq<char>>,
                    PipelineError,
                >(e),
            },
    {
        if choices.len() == 0 {
            Err(PipelineError::Provider)
        } else {
            Ok(OpenAI::locations_in_reply(choices[0].as_str()))
        }
    }
}

} // verus!
