//! One run over the archive: the listing, the classification of the
//! documents and the course that each entry of the listing takes.

use vstd::prelude::*;
use crate::db::service::DatabaseProvider;
use crate::error::PipelineError;
use crate::geocoder::service::GeocoderProvider;
use crate::image_service::service::ImageService;
use crate::location_parser::service::LocationParserService;
use crate::utils::gazette::joined;
use crate::utils::hash::hash_text;
use crate::utils::hash::make_hash;
use crate::utils::pdf::load_document;
use crate::utils::pdf::page_text;
use crate::utils::pdf::text_on_page;
use crate::utils::text::chars_of;
use crate::utils::text::contains_text;
use crate::utils::text::find_from;

verus! {

/// The page of a document that is inspected.
pub const FIRST_PAGE: u32 = 1;

/// The words that make a notice one that declares a designated area.
pub const TARGET_TEXT: &'static str = "Control of Weapons Act 1990";

/// The name of the elements of the index that hold the links.
pub const LINK_ELEMENT: &'static str = "a";

/// The name of the attribute that holds the target of a link.
pub const LINK_TARGET: &'static str = "href";

/// The providers that a run works with.
#[derive(Debug)]
pub struct ServiceConfig<T, U, V, W> where
    T: DatabaseProvider,
    U: ImageService,
    V: LocationParserService,
    W: GeocoderProvider,
 {
    pub database_provider: T,
    pub image_service: U,
    pub location_parser: V,
    pub geocoder: W,
}

/// A run over the archive whose index is at `uri`; the links of the index
/// are resolved against `base_uri`.
#[derive(Debug)]
pub struct Updater<T, U, V, W> where
    T: DatabaseProvider,
    U: ImageService,
    V: LocationParserService,
    W: GeocoderProvider,
 {
    pub uri: String,
    pub base_uri: String,
    pub config: ServiceConfig<T, U, V, W>,
}

/// One entry of the listing: the title of a document and its address.
#[derive(Debug)]
pub struct ListingEntry {
    pub title: String,
    pub uri: String,
}

impl View for ListingEntry {
    type V = (Seq<char>, Seq<char>);

    open spec fn view(&self) -> (Seq<char>, Seq<char>) {
        (self.title@, self.uri@)
    }
}

impl Clone for ListingEntry {
    fn clone(&self) -> (r: Self)
        ensures
            r@ == self@,
    {
        ListingEntry { title: self.title.clone(), uri: self.uri.clone() }
    }
}

/// The entries `entries` as plain values.
pub open spec fn entries_view(entries: Seq<ListingEntry>) -> Seq<(Seq<char>, Seq<char>)> {
    Seq::new(entries.len(), |i: int| entries[i]@)
}

#[verifier::external_type_specification]
#[verifier::external_body]
pub struct ExPage(select::document::Document);

/// The page that the markup `page` describes.
pub uninterp spec fn parsed_page(page: Seq<char>) -> select::document::Document;

/// The elements of `page` with the name `name`, in the order of the page:
/// for each the value of its attribute `attribute`, where it has one, and
/// what it holds, as markup.
pub uninterp spec fn html_elements(
    page: select::document::Document,
    name: Seq<char>,
    attribute: Seq<char>,
) -> Seq<(Option<Seq<char>>, Seq<char>)>;

/// The elements `elements` as plain values.
pub open spec fn elements_view(elements: Seq<(Option<String>, String)>) -> Seq<
    (Option<Seq<char>>, Seq<char>),
> {
    Seq::new(
        elements.len(),
        |i: int|
            (
                match elements[i].0 {
                    Some(value) => Some(value@),
                    None => None,
                },
                elements[i].1@,
            ),
    )
}

/// `Document::from` of the crate `select`, for a text: the page that the
/// markup describes.
#[verifier::external_body]
fn parse_page(page: &str) -> (r: select::document::Document)
    ensures
        r == parsed_page(page@),
{
    select::document::Document::from(page)
}

/// `Document::find` of the crate `select`, with the predicate `Name`, and
/// `Node::attr` and `Node::inner_html` on each node found: the elements of
/// the given name in the order of the page.
#[verifier::external_body]
fn find_elements(page: &select::document::Document, name: &str, attribute: &str) -> (r: Vec<
    (Option<String>, String),
>)
    ensures
        elements_view(r@) == html_elements(*page, name@, attribute@),
{
    page.find(select::predicate::Name(name)).map(
        |node| (node.attr(attribute).map(|value| value.to_string()), node.inner_html()),
    ).collect()
}

/// The links of the page that the markup `page` describes: for each
/// anchor its target, where it has one, and what it holds.
pub open spec fn links_of(page: Seq<char>) -> Seq<(Option<Seq<char>>, Seq<char>)> {
    html_elements(parsed_page(page), LINK_ELEMENT@, LINK_TARGET@)
}

/// Whether `c` is the letter `letter`, which is given in lower case, in
/// either case.
pub open spec fn is_letter(c: char, letter: char) -> bool {
    c == letter || (c as u32) + 32 == (letter as u32)
}

/// How much of the first `n` characters of `uri` is left when the
/// separators and the components for the directory itself are dropped from
/// its end: what is left ends with the name of the file.
pub open spec fn path_length(uri: Seq<char>, n: int) -> int
    decreases n,
{
    if n >= 1 && n <= uri.len() && uri[n - 1] == '/' {
        path_length(uri, n - 1)
    } else if n >= 2 && n <= uri.len() && uri[n - 1] == '.' && uri[n - 2] == '/' {
        path_length(uri, n - 2)
    } else {
        n
    }
}

/// Whether the address `uri` names a file with the extension `pdf`, in
/// any case of its letters: the name of the file ends in a dot and these
/// three letters, and does not start at that dot.
pub open spec fn is_pdf_link(uri: Seq<char>) -> bool {
    let n = path_length(uri, uri.len() as int);
    &&& n >= 5
    &&& uri[n - 5] != '/'
    &&& uri[n - 4] == '.'
    &&& is_letter(uri[n - 3], 'p')
    &&& is_letter(uri[n - 2], 'd')
    &&& is_letter(uri[n - 1], 'f')
}

fn same_letter(c: char, lower: char) -> (r: bool)
    requires
        lower as u32 >= 32,
    ensures
        r == is_letter(c, lower),
{
    let code: u32 = c as u32;
    let wanted: u32 = lower as u32;
    c == lower || code == wanted - 32
}

fn path_end(all: &Vec<char>) -> (n: usize)
    ensures
        n == path_length(all@, all@.len() as int),
        n <= all@.len(),
{
    let mut n: usize = all.len();
    loop
        invariant
            n <= all@.len(),
            path_length(all@, all@.len() as int) == path_length(all@, n as int),
        decreases n,
    {
        if n >= 1 && all[n - 1] == '/' {
            n = n - 1;
        } else if n >= 2 && all[n - 1] == '.' && all[n - 2] == '/' {
            n = n - 2;
        } else {
            return n;
        }
    }
}

/// Whether the address `uri` names a file with the extension `pdf`.
pub fn pdf_link(uri: &str) -> (r: bool)
    ensures
        r == is_pdf_link(uri@),
{
    let all = chars_of(uri);
    let n: usize = path_end(&all);
    if n < 5 {
        return false;
    }
    all[n - 5] != '/' && all[n - 4] == '.' && same_letter(all[n - 3], 'p') && same_letter(
        all[n - 2],
        'd',
    ) && same_letter(all[n - 1], 'f')
}

/// The entries that the first `upto` of `elements` give: one for each
/// element with a target that, resolved against `base`, names a file with
/// the extension `pdf`. The title is what the element holds, the address
/// the target with `base` before it.
pub open spec fn listing_of(
    elements: Seq<(Option<Seq<char>>, Seq<char>)>,
    base: Seq<char>,
    upto: int,
) -> Seq<(Seq<char>, Seq<char>)>
    decreases upto,
{
    if upto <= 0 {
        Seq::empty()
    } else {
        let earlier = listing_of(elements, base, upto - 1);
        match elements[upto - 1].0 {
            Some(target) if is_pdf_link(base + target) => earlier.push(
                (elements[upto - 1].1, base + target),
            ),
            _ => earlier,
        }
    }
}

/// The entries that the links `elements` of an index give, in their order.
pub fn entries_of_links(elements: &Vec<(Option<String>, String)>, base_uri: &str) -> (r: Vec<
    ListingEntry,
>)
    ensures
        entries_view(r@) == listing_of(
            elements_view(elements@),
            base_uri@,
            elements@.len() as int,
        ),
{
    let mut entries: Vec<ListingEntry> = Vec::new();
    let mut i: usize = 0;
    proof {
        assert(entries_view(entries@) =~= Seq::empty());
    }
    while i < elements.len()
        invariant
            i <= elements@.len(),
            entries_view(entries@) == listing_of(elements_view(elements@), base_uri@, i as int),
        decreases elements@.len() - i,
    {
        let ghost before = entries_view(entries@);
        match &elements[i].0 {
            Some(target) => {
                let uri = joined(base_uri, target.as_str());
                if pdf_link(uri.as_str()) {
                    entries.push(ListingEntry { title: elements[i].1.clone(), uri });
                    proof {
                        assert(entries_view(entries@) =~= before.push(
                            (elements@[i as int].1@, base_uri@ + target@),
                        ));
                    }
                }
            },
            None => {},
        }
        i = i + 1;
    }
    entries
}

/// Whether the text of a first page makes its notice one that declares a
/// designated area.
pub fn is_flagged_text(page_text: &str) -> (r: bool)
    ensures
        r == contains_text(page_text@, TARGET_TEXT@),
{
    let text = chars_of(page_text);
    let target = chars_of(TARGET_TEXT);
    find_from(&text, &target, 0).is_some()
}

/// The class of `document`: flagged where its first page holds the target
/// words, discarded where it does not; `Parse` where the page gives no
/// text.
pub open spec fn classification(document: lopdf::Document) -> Result<bool, PipelineError> {
    match page_text(document, FIRST_PAGE) {
        Some(text) => Ok(contains_text(text, TARGET_TEXT@)),
        None => Err(PipelineError::Parse),
    }
}

/// The class of `document`.
pub fn classify_document(document: &lopdf::Document) -> (r: Result<bool, PipelineError>)
    ensures
        r == classification(*document),
{
    match text_on_page(document, FIRST_PAGE) {
        Ok(text) => Ok(is_flagged_text(text.as_str())),
        Err(e) => Err(e),
    }
}

impl<T, U, V, W> Updater<T, U, V, W> where
    T: DatabaseProvider,
    U: ImageService,
    V: LocationParserService,
    W: GeocoderProvider,
 {
    /// The listing that the index page `page` gives: its links to files
    /// with the extension `pdf`, in the order of the page, each resolved
    /// against the base address of the run.
    pub fn parse_webpage(&self, page: &str) -> (r: Vec<ListingEntry>)
        ensures
            entries_view(r@) == listing_of(
                links_of(page@),
                self.base_uri@,
                links_of(page@).len() as int,
            ),
    {
        let document = parse_page(page);
        let links = find_elements(&document, LINK_ELEMENT, LINK_TARGET);
        entries_of_links(&links, self.base_uri.as_str())
    }

    /// The class of the document that `pdf_bytes` hold: flagged or
    /// discarded. It fails with `Parse` where the bytes cannot be read as a
    /// document; else it is the class of the document that was read.
    pub fn filter_result(pdf_bytes: &[u8]) -> (r: Result<bool, PipelineError>)
        ensures
            r == Err::<bool, PipelineError>(PipelineError::Parse) || exists|
                document: lopdf::Document,
            |
                r == #[trigger] classification(document),
    {
        match load_document(pdf_bytes) {
            Ok(document) => classify_document(&document),
            Err(e) => Err(e),
        }
    }
}

impl ListingEntry {
    /// The content hash of the entry, under which it is looked up in the
    /// store: the hash of its address, whatever its title.
    pub fn content_hash(&self) -> (r: String)
        ensures
            r@ == hash_text(self.uri@),
    {
        make_hash(self.uri.as_str())
    }
}

/// What is to be done next for an entry of the listing.
#[derive(Clone, Copy, Debug, PartialEq, Eq, Structural)]
pub enum Phase {
    /// The store is asked whether it holds the entry.
    Lookup,
    /// The document is fetched and classified.
    Inspection,
    /// The notice is flagged: its record is enriched and then saved.
    Enrichment,
    /// The notice is discarded: its record is saved as it is.
    Save,
    /// The record was handed to the store; nothing is left to do.
    Done,
    /// The entry was given up; nothing was stored for it.
    Dropped,
}

/// How a step for an entry ended.
#[derive(Clone, Copy, Debug, PartialEq, Eq, Structural)]
pub enum Signal {
    /// The step answered yes: the entry is held, or the notice is flagged.
    Yes,
    /// The step answered no, or succeeded with nothing to say.
    No,
    /// The step failed.
    Failed,
}

/// The signal that the answer to a question gives.
pub open spec fn signal_of(answer: Result<bool, PipelineError>) -> Signal {
    match answer {
        Ok(true) => Signal::Yes,
        Ok(false) => Signal::No,
        Err(_) => Signal::Failed,
    }
}

/// The phase that follows `phase` when its step ends with `signal`. An
/// entry is inspected only where the store answers that it does not hold
/// it; a failed lookup or inspection drops the entry; a flagged notice is
/// enriched and a discarded one saved, and either is done after that step,
/// however the step ends.
pub open spec fn next_phase(phase: Phase, signal: Signal) -> Phase {
    match phase {
        Phase::Lookup => match signal {
            Signal::No => Phase::Inspection,
            _ => Phase::Dropped,
        },
        Phase::Inspection => match signal {
            Signal::Yes => Phase::Enrichment,
            Signal::No => Phase::Save,
            Signal::Failed => Phase::Dropped,
        },
        Phase::Enrichment => Phase::Done,
        Phase::Save => Phase::Done,
        Phase::Done => Phase::Done,
        Phase::Dropped => Phase::Dropped,
    }
}

/// The signal that the answer to a question gives.
pub fn signal(answer: &Result<bool, PipelineError>) -> (r: Signal)
    ensures
        r == signal_of(*answer),
{
    match answer {
        Ok(true) => Signal::Yes,
        Ok(false) => Signal::No,
        Err(_) => Signal::Failed,
    }
}

/// The phase that follows `phase` when its step ends with `signal`.
pub fn advance(phase: Phase, signal: Signal) -> (r: Phase)
    ensures
        r == next_phase(phase, signal),
{
    match phase {
        Phase::Lookup => match signal {
            Signal::No => Phase::Inspection,
            _ => Phase::Dropped,
        },
        Phase::Inspection => match signal {
            Signal::Yes => Phase::Enrichment,
            Signal::No => Phase::Save,
            Signal::Failed => Phase::Dropped,
        },
        Phase::Enrichment => Phase::Done,
        Phase::Save => Phase::Done,
        Phase::Done => Phase::Done,
        Phase::Dropped => Phase::Dropped,
    }
}

/// The class of an entry whose inspection has left it in `phase`: flagged
/// where enrichment is due, discarded where the record is to be saved as
/// it is, none where the entry was dropped.
pub open spec fn class_after_inspection(phase: Phase) -> Option<bool> {
    match phase {
        Phase::Enrichment => Some(true),
        Phase::Save => Some(false),
        _ => None,
    }
}

/// The class of an entry whose inspection has left it in `phase`.
pub fn inspected_class(phase: Phase) -> (r: Option<bool>)
    ensures
        r == class_after_inspection(phase),
{
    match phase {
        Phase::Enrichment => Some(true),
        Phase::Save => Some(false),
        _ => None,
    }
}

/// An entry has a class after its inspection exactly where the document
/// could be classified, and then the class that was found.
pub proof fn lemma_class_is_what_inspection_found(answer: Result<bool, PipelineError>)
    ensures
        class_after_inspection(next_phase(Phase::Inspection, signal_of(answer))) == match answer {
            Ok(flagged) => Some(flagged),
            Err(_) => None,
        },
{
}

/// The phase that an entry is in after the steps that ended with
/// `signals`, from `phase` on.
pub open spec fn phase_after(phase: Phase, signals: Seq<Signal>) -> Phase
    decreases signals.len(),
{
    if signals.len() == 0 {
        phase
    } else {
        next_phase(phase_after(phase, signals.drop_last()), signals.last())
    }
}

/// A document is fetched only for an entry that the store does not hold:
/// the inspection follows nothing but a lookup that answers no.
pub proof fn lemma_only_unseen_entries_are_inspected(phase: Phase, signal: Signal)
    requires
        next_phase(phase, signal) == Phase::Inspection,
    ensures
        phase == Phase::Lookup,
        signal == Signal::No,
{
}

/// For an entry that the store holds, no step follows the lookup: it is
/// dropped, and stays dropped whatever is signalled.
pub proof fn lemma_held_entries_are_dropped(signals: Seq<Signal>)
    requires
        signals.len() > 0,
        signals[0] == Signal::Yes,
    ensures
        phase_after(Phase::Lookup, signals) == Phase::Dropped,
    decreases signals.len(),
{
    if signals.len() == 1 {
        assert(signals.drop_last().len() == 0);
        assert(signals.last() == signals[0]);
    } else {
        assert(signals.drop_last()[0] == signals[0]);
        lemma_held_entries_are_dropped(signals.drop_last());
    }
}

/// A notice that was classified is done after one more step, however that
/// step ends: a failure in its enrichment or in saving it is not tried
/// again.
pub proof fn lemma_classified_entries_are_done(class: Signal, outcome: Signal)
    requires
        class != Signal::Failed,
    ensures
        next_phase(next_phase(Phase::Inspection, class), outcome) == Phase::Done,
{
}

/// An entry whose lookup or inspection fails is never saved: once dropped
/// it stays dropped.
pub proof fn lemma_dropped_entries_stay_dropped(signals: Seq<Signal>)
    ensures
        phase_after(Phase::Dropped, signals) == Phase::Dropped,
    decreases signals.len(),
{
    if signals.len() > 0 {
        lemma_dropped_entries_stay_dropped(signals.drop_last());
    }
}

/// Those of the first `upto` of `outcomes` that have the class `class`, in
/// their order.
pub open spec fn of_class(
    outcomes: Seq<((Seq<char>, Seq<char>), bool)>,
    class: bool,
    upto: int,
) -> Seq<(Seq<char>, Seq<char>)>
    decreases upto,
{
    if upto <= 0 {
        Seq::empty()
    } else {
        let earlier = of_class(outcomes, class, upto - 1);
        if outcomes[upto - 1].1 == class {
            earlier.push(outcomes[upto - 1].0)
        } else {
            earlier
        }
    }
}

/// The classified entries `outcomes` as plain values.
pub open spec fn outcomes_view(outcomes: Seq<(ListingEntry, bool)>) -> Seq<
    ((Seq<char>, Seq<char>), bool),
> {
    Seq::new(outcomes.len(), |i: int| (outcomes[i].0@, outcomes[i].1))
}

/// The two parts of the inspected entries: first the flagged, then the
/// discarded, each in the order in which the entries came.
pub fn partition(outcomes: &Vec<(ListingEntry, bool)>) -> (r: (Vec<ListingEntry>, Vec<ListingEntry>))
    ensures
        entries_view(r.0@) == of_class(outcomes_view(outcomes@), true, outcomes@.len() as int),
        entries_view(r.1@) == of_class(outcomes_view(outcomes@), false, outcomes@.len() as int),
        r.0@.len() + r.1@.len() == outcomes@.len(),
{
    let mut flagged: Vec<ListingEntry> = Vec::new();
    let mut discarded: Vec<ListingEntry> = Vec::new();
    let mut i: usize = 0;
    proof {
        assert(entries_view(flagged@) =~= Seq::empty());
        assert(entries_view(discarded@) =~= Seq::empty());
    }
    while i < outcomes.len()
        invariant
            i <= outcomes@.len(),
            entries_view(flagged@) == of_class(outcomes_view(outcomes@), true, i as int),
            entries_view(discarded@) == of_class(outcomes_view(outcomes@), false, i as int),
            flagged@.len() + discarded@.len() == i,
        decreases outcomes@.len() - i,
    {
        let ghost flagged_before = entries_view(flagged@);
        let ghost discarded_before = entries_view(discarded@);
        let entry = outcomes[i].0.clone();
        if outcomes[i].1 {
            flagged.push(entry);
            proof {
                assert(entries_view(flagged@) =~= flagged_before.push(outcomes@[i as int].0@));
            }
        } else {
            discarded.push(entry);
            proof {
                assert(entries_view(discarded@) =~= discarded_before.push(
                    outcomes@[i as int].0@,
                ));
            }
        }
        i = i + 1;
    }
    (flagged, discarded)
}

/// The addresses of `entries`, in their order.
pub fn uris_of(entries: &Vec<ListingEntry>) -> (r: Vec<String>)
    ensures
        r@.len() == entries@.len(),
        forall|i: int| 0 <= i < r@.len() ==> (#[trigger] r@[i])@ == entries@[i].uri@,
{
    let mut uris: Vec<String> = Vec::new();
    let mut i: usize = 0;
    while i < entries.len()
        invariant
            i <= entries@.len(),
            uris@.len() == i,
            forall|k: int| 0 <= k < i ==> (#[trigger] uris@[k])@ == entries@[k].uri@,
        decreases entries@.len() - i,
    {
        uris.push(entries[i].uri.clone());
        i = i + 1;
    }
    uris
}

} // verus!
