//! A location parser that answers from a table, for test harnesses.

use vstd::prelude::*;
use crate::error::PipelineError;
use crate::location_parser::service::LocationParserService;
use crate::utils::text::copy_texts;
use crate::utils::text::texts_of;

verus! {

/// A location parser that knows the answers to some texts beforehand and
/// finds no location in any other.
#[derive(Debug)]
pub struct MockLocationParser {
    predefined_responses: Vec<(String, Vec<String>)>,
}

/// The table that `entries` make: a later entry for a text takes the place
/// of an earlier one.
pub open spec fn table_of(entries: Seq<(String, Vec<String>)>) -> Map<Seq<char>, Seq<Seq<char>>>
    decreases entries.len(),
{
    if entries.len() == 0 {
        Map::empty()
    } else {
        table_of(entries.drop_last()).insert(entries.last().0@, texts_of(entries.last().1@))
    }
}

/// The answer that `table` holds for `text`: no location where it holds
/// none.
pub open spec fn answer_in(table: Map<Seq<char>, Seq<Seq<char>>>, text: Seq<char>) -> Seq<
    Seq<char>,
> {
    if table.contains_key(text) {
        table[text]
    } else {
        Seq::empty()
    }
}

/// The answers that a new mock knows.
pub open spec fn initial_table() -> Map<Seq<char>, Seq<Seq<char>>> {
    Map::<Seq<char>, Seq<Seq<char>>>::empty().insert(
        "Southern Cross area"@,
        seq![
            "Southern Cross Railway Station"@,
            "Corner of Collins Street and Spencer Street"@,
            "Southern Cross Bridge"@,
            "Corner of Lonsdale Street and Spencer Street"@,
            "Corner of La Trobe Street and Wurundjeri Way"@,
        ],
    ).insert(
        "CBD locations"@,
        seq![
            "Corner of Flinders Street and Swanston Street"@,
            "Flinders Street Railway Station"@,
            "Melbourne CBD"@,
        ],
    )
}

impl View for MockLocationParser {
    type V = Map<Seq<char>, Seq<Seq<char>>>;

    closed spec fn view(&self) -> Map<Seq<char>, Seq<Seq<char>>> {
        table_of(self.predefined_responses@)
    }
}

fn owned(text: &str) -> (r: String)
    ensures
        r@ == text@,
{
    text.to_owned()
}

impl MockLocationParser {
    /// A mock that knows the locations of two texts.
    pub fn new() -> (r: Self)
        ensures
            r@ == initial_table(),
    {
        let mut responses: Vec<(String, Vec<String>)> = Vec::new();
        let mut first: Vec<String> = Vec::new();
        first.push(owned("Southern Cross Railway Station"));
        first.push(owned("Corner of Collins Street and Spencer Street"));
        first.push(owned("Southern Cross Bridge"));
        first.push(owned("Corner of Lonsdale Street and Spencer Street"));
        first.push(owned("Corner of La Trobe Street and Wurundjeri Way"));
        proof {
            assert(texts_of(first@) =~= seq![
                "Southern Cross Railway Station"@,
                "Corner of Collins Street and Spencer Street"@,
                "Southern Cross Bridge"@,
                "Corner of Lonsdale Street and Spencer Street"@,
                "Corner of La Trobe Street and Wurundjeri Way"@,
            ]);
        }
        let ghost first_texts = texts_of(first@);
        responses.push((owned("Southern Cross area"), first));
        assert(texts_of(responses@[0].1@) == first_texts);
        let mut second: Vec<String> = Vec::new();
        second.push(owned("Corner of Flinders Street and Swanston Street"));
        second.push(owned("Flinders Street Railway Station"));
        second.push(owned("Melbourne CBD"));
        proof {
            assert(texts_of(second@) =~= seq![
                "Corner of Flinders Street and Swanston Street"@,
                "Flinders Street Railway Station"@,
                "Melbourne CBD"@,
            ]);
        }
        let ghost second_texts = texts_of(second@);
        responses.push((owned("CBD locations"), second));
        assert(texts_of(responses@[1].1@) == second_texts);
        assert(texts_of(responses@[0].1@) == first_texts);
        proof {
            let entries = responses@;
            let front = entries.drop_last();
            assert(front.drop_last() =~= Seq::empty());
            assert(front.last() == entries[0]);
            assert(entries.last() == entries[1]);
            assert(table_of(front.drop_last()) == Map::<Seq<char>, Seq<Seq<char>>>::empty());
            assert(table_of(front) == Map::<Seq<char>, Seq<Seq<char>>>::empty().insert(
                entries[0].0@,
                texts_of(entries[0].1@),
            ));
            assert(table_of(entries) == table_of(front).insert(
                entries[1].0@,
                texts_of(entries[1].1@),
            ));
        }
        MockLocationParser { predefined_responses: responses }
    }

    /// The mock with `response` as its answer to `input`, in place of any
    /// answer to `input` that it knew.
    pub fn with_response(self, input: &str, response: Vec<String>) -> (r: Self)
        ensures
            r@ == self@.insert(input@, texts_of(response@)),
    {
        let mut responses = self.predefined_responses;
        let ghost before = responses@;
        responses.push((owned(input), response));
        proof {
            assert(responses@.drop_last() == before);
        }
        MockLocationParser { predefined_responses: responses }
    }

    /// The answer of the mock to `locations`.
    pub fn answer(&self, locations: &String) -> (r: Vec<String>)
        ensures
            texts_of(r@) == answer_in(self@, locations@),
    {
        let mut i: usize = self.predefined_responses.len();
        proof {
            assert(self.predefined_responses@.take(i as int) == self.predefined_responses@);
        }
        while i > 0
            invariant
                i <= self.predefined_responses@.len(),
                answer_in(self@, locations@) == answer_in(
                    table_of(self.predefined_responses@.take(i as int)),
                    locations@,
                ),
            decreases i,
        {
            proof {
                let upto = self.predefined_responses@.take(i as int);
                assert(upto.drop_last() == self.predefined_responses@.take(i - 1));
                assert(upto.last() == self.predefined_responses@[i - 1]);
            }
            if self.predefined_responses[i - 1].0 == *locations {
                return copy_texts(&self.predefined_responses[i - 1].1);
            }
            i = i - 1;
        }
        proof {
            assert(texts_of(Seq::<String>::empty()) =~= Seq::<Seq<char>>::empty());
        }
        Vec::new()
    }
}

impl LocationParserService for MockLocationParser {
    open spec fn may_answer(
        &self,
        text: Seq<char>,
        answer: Result<Seq<Seq<char>>, PipelineError>,
    ) -> bool {
        answer == Ok::<Seq<Seq<char>>, PipelineError>(answer_in(self@, text))
    }

    fn parse_locations(&self, locations: String) -> (r: Result<Vec<String>, PipelineError>) {
        Ok(self.answer(&locations))
    }
}

} // verus!
