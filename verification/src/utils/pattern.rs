//! Matching of regular expressions, which the crate `regex` does.

use vstd::prelude::*;
use crate::error::PipelineError;

verus! {

#[verifier::external_type_specification]
#[verifier::external_body]
pub struct ExRegex(regex::Regex);

#[verifier::external_type_specification]
#[verifier::external_body]
pub struct ExRegexError(regex::Error);

/// The regular expression that `pattern` writes down; nothing where it
/// writes down none.
pub uninterp spec fn compiled(pattern: Seq<char>) -> Option<regex::Regex>;

/// What the matches of `expression` in `text` capture in the group
/// `group`: for each match in turn, from left to right and without overlap,
/// the text of the group, or nothing where the group took no part in the
/// match.
pub uninterp spec fn captured_texts(expression: regex::Regex, text: Seq<char>, group: int) -> Seq<
    Option<Seq<char>>,
>;

/// The texts of `found`.
pub open spec fn texts_view(found: Seq<Option<String>>) -> Seq<Option<Seq<char>>> {
    Seq::new(
        found.len(),
        |i: int|
            match found[i] {
                Some(text) => Some(text@),
                None => None,
            },
    )
}

/// `Regex::new` of the crate `regex`: the regular expression that the
/// pattern writes down, or the error with which compiling it ends.
#[verifier::external_body]
pub(crate) fn compile(pattern: &str) -> (r: Result<regex::Regex, regex::Error>)
    ensures
        match r {
            Ok(expression) => compiled(pattern@) == Some(expression),
            Err(_) => compiled(pattern@) is None,
        },
{
    regex::Regex::new(pattern)
}

/// `Regex::captures_iter` of the crate `regex`, with `Captures::get` on
/// each match: the text of the group `group` in each match, in their order.
#[verifier::external_body]
pub(crate) fn captures(expression: &regex::Regex, text: &str, group: usize) -> (r: Vec<
    Option<String>,
>)
    ensures
        texts_view(r@) == captured_texts(*expression, text@, group as int),
{
    expression.captures_iter(text).map(
        |found| found.get(group).map(|part| part.as_str().to_string()),
    ).collect()
}

/// What the matches of the pattern `pattern` in `text` capture in the
/// group `group`; nothing where `pattern` writes down no regular
/// expression.
pub open spec fn pattern_captures(pattern: Seq<char>, text: Seq<char>, group: int) -> Option<
    Seq<Option<Seq<char>>>,
> {
    match compiled(pattern) {
        Some(expression) => Some(captured_texts(expression, text, group)),
        None => None,
    }
}

/// What the matches of the pattern `pattern` in `text` capture in the
/// group `group`. It fails with `Parse` where `pattern` writes down no
/// regular expression.
pub fn find_captures(pattern: &str, text: &str, group: usize) -> (r: Result<
    Vec<Option<String>>,
    PipelineError,
>)
    ensures
        match r {
            Ok(found) => pattern_captures(pattern@, text@, group as int) == Some(
                texts_view(found@),
            ),
            Err(e) => e == PipelineError::Parse && pattern_captures(pattern@, text@, group as int)
                is None,
        },
{
    match compile(pattern) {
        Ok(expression) => Ok(captures(&expression, text, group)),
        Err(_) => Err(PipelineError::Parse),
    }
}

/// The first text among `found`.
pub open spec fn first_text(found: Seq<Option<Seq<char>>>) -> Option<Seq<char>>
    decreases found.len(),
{
    if found.len() == 0 {
        None
    } else {
        match found.first() {
            Some(text) => Some(text),
            None => first_text(found.drop_first()),
        }
    }
}

/// The first text among `found`.
pub fn first_found(found: &Vec<Option<String>>) -> (r: Option<String>)
    ensures
        match r {
            Some(text) => first_text(texts_view(found@)) == Some(text@),
            None => first_text(texts_view(found@)) is None,
        },
{
    let mut i: usize = 0;
    proof {
        assert(texts_view(found@).skip(0) =~= texts_view(found@));
    }
    while i < found.len()
        invariant
            i <= found@.len(),
            first_text(texts_view(found@)) == first_text(texts_view(found@).skip(i as int)),
        decreases found@.len() - i,
    {
        let ghost rest = texts_view(found@).skip(i as int);
        proof {
            assert(rest.first() == texts_view(found@)[i as int]);
            assert(rest.drop_first() == texts_view(found@).skip(i + 1));
        }
        match &found[i] {
            Some(text) => {
                return Some(text.clone());
            },
            None => {},
        }
        i = i + 1;
    }
    None
}

} // verus!
