//! The record of a notice and what is read out of its document.

use vstd::prelude::*;
use crate::error::PipelineError;
use crate::utils::dates::date_range_in_text;
use crate::utils::dates::dates_in_text;
use crate::utils::dates::parse_date_text_in_year;
use crate::utils::dates::range_in_text;
use crate::utils::dates::current_year;
use crate::utils::dates::CalendarDate;
use crate::utils::hash::hash_text;
use crate::utils::maptypes::region_points;
use crate::utils::maptypes::GeoPosition;
use crate::utils::maptypes::MapPolygon;
use crate::utils::maptypes::Sanitise;
use crate::utils::pattern::find_captures;
use crate::utils::pattern::pattern_captures;
use crate::utils::pattern::first_found;
use crate::utils::pattern::first_text;
use crate::utils::pdf::document_first_image;
use crate::utils::pdf::document_readable_text;
use crate::utils::pdf::document_text;
use crate::utils::pdf::first_image;
use crate::utils::pdf::full_text;
use crate::utils::pdf::readable_text;
use crate::utils::text::chars_of;
use crate::utils::text::push_all;
use crate::utils::text::text_of;

pub use crate::utils::handler::GazetteHandler;
pub use crate::utils::hash::make_hash;

verus! {

/// The prefix of the key under which a flagged notice is stored.
pub const FLAGGED_PREFIX: &'static str = "flagged:";

/// The prefix of the key under which a discarded notice is stored.
pub const DISCARDED_PREFIX: &'static str = "discarded:";

/// What follows the content hash in the name of an image file.
pub const IMAGE_SUFFIX: &'static str = ".jpg";

/// The clause that names the area of an operation; its group is the name.
pub const AREA_PATTERN: &'static str = r"Planned Operation in (.*)";

/// One notice of the gazette and what was derived from it.
#[derive(Debug)]
pub struct Gazette {
    pub uri: String,
    pub title: Option<String>,
    pub img_uri: Option<String>,
    pub flagged: bool,
    pub polygon: Option<MapPolygon>,
    pub start: Option<CalendarDate>,
    pub end: Option<CalendarDate>,
}

/// A notice as plain values.
pub struct GazetteView {
    pub uri: Seq<char>,
    pub title: Option<Seq<char>>,
    pub img_uri: Option<Seq<char>>,
    pub flagged: bool,
    pub polygon: Option<Seq<GeoPosition>>,
    pub start: Option<CalendarDate>,
    pub end: Option<CalendarDate>,
}

/// The text of `text`, where there is one.
pub open spec fn text_view(text: Option<String>) -> Option<Seq<char>> {
    match text {
        Some(t) => Some(t@),
        None => None,
    }
}

/// The points of `polygon`, where there is one.
pub open spec fn polygon_view(polygon: Option<MapPolygon>) -> Option<Seq<GeoPosition>> {
    match polygon {
        Some(p) => Some(p@),
        None => None,
    }
}

impl View for Gazette {
    type V = GazetteView;

    open spec fn view(&self) -> GazetteView {
        GazetteView {
            uri: self.uri@,
            title: text_view(self.title),
            img_uri: text_view(self.img_uri),
            flagged: self.flagged,
            polygon: polygon_view(self.polygon),
            start: self.start,
            end: self.end,
        }
    }
}

/// The record of a notice of which only the address is known.
pub open spec fn bare_record(uri: Seq<char>) -> GazetteView {
    GazetteView {
        uri,
        title: None,
        img_uri: None,
        flagged: false,
        polygon: None,
        start: None,
        end: None,
    }
}

/// The key under which the notice at `uri` is stored.
pub open spec fn storage_key_of(uri: Seq<char>, flagged: bool) -> Seq<char> {
    if flagged {
        FLAGGED_PREFIX@ + hash_text(uri)
    } else {
        DISCARDED_PREFIX@ + hash_text(uri)
    }
}

/// The name of the file that holds the image of the notice at `uri`.
pub open spec fn image_filename_of(uri: Seq<char>) -> Seq<char> {
    hash_text(uri) + IMAGE_SUFFIX@
}

/// `first` with `second` behind it.
pub fn joined(first: &str, second: &str) -> (r: String)
    ensures
        r@ == first@ + second@,
{
    let mut all = chars_of(first);
    let more = chars_of(second);
    push_all(&mut all, &more);
    text_of(&all)
}

fn copy_of_text(text: &Option<String>) -> (r: Option<String>)
    ensures
        text_view(r) == text_view(*text),
{
    match text {
        Some(t) => Some(t.clone()),
        None => None,
    }
}

impl Default for Gazette {
    /// A record with an empty address and nothing else.
    fn default() -> (r: Self)
        ensures
            r@ == bare_record(Seq::empty()),
    {
        Gazette {
            uri: String::new(),
            title: None,
            img_uri: None,
            flagged: false,
            polygon: None,
            start: None,
            end: None,
        }
    }
}

impl Clone for Gazette {
    fn clone(&self) -> (r: Self)
        ensures
            r@ == self@,
    {
        let polygon = match &self.polygon {
            Some(p) => Some(p.duplicate()),
            None => None,
        };
        Gazette {
            uri: self.uri.clone(),
            title: copy_of_text(&self.title),
            img_uri: copy_of_text(&self.img_uri),
            flagged: self.flagged,
            polygon,
            start: self.start,
            end: self.end,
        }
    }
}

/// Whether `outcome` is what reading the days named in `text` gives in the
/// year `year`.
pub open spec fn dates_read_in(
    outcome: Result<Vec<CalendarDate>, PipelineError>,
    text: Seq<char>,
    year: int,
) -> bool {
    match outcome {
        Ok(dates) => dates_in_text(text, year) == Some(dates@),
        Err(e) => e == PipelineError::Parse && dates_in_text(text, year) is None,
    }
}

impl Gazette {
    /// The record with which the enrichment of a flagged notice starts.
    pub fn flagged_notice(title: String, uri: String) -> (r: Gazette)
        ensures
            r@ == (GazetteView { title: Some(title@), flagged: true, ..bare_record(uri@) }),
    {
        Gazette {
            uri,
            title: Some(title),
            img_uri: None,
            flagged: true,
            polygon: None,
            start: None,
            end: None,
        }
    }

    /// The record of a notice that was inspected and not flagged.
    pub fn discarded_notice(title: String, uri: String) -> (r: Gazette)
        ensures
            r@ == (GazetteView { title: Some(title@), ..bare_record(uri@) }),
    {
        Gazette {
            uri,
            title: Some(title),
            img_uri: None,
            flagged: false,
            polygon: None,
            start: None,
            end: None,
        }
    }

    /// The key under which the record is stored: the prefix of its class and
    /// the content hash of its address.
    pub fn storage_key(&self) -> (r: String)
        ensures
            r@ == storage_key_of(self.uri@, self.flagged),
    {
        let hash = make_hash(self.uri.as_str());
        if self.flagged {
            joined(FLAGGED_PREFIX, hash.as_str())
        } else {
            joined(DISCARDED_PREFIX, hash.as_str())
        }
    }

    /// The name of the file under which the image of the notice is stored.
    pub fn image_filename(&self) -> (r: String)
        ensures
            r@ == image_filename_of(self.uri@),
    {
        let hash = make_hash(self.uri.as_str());
        joined(hash.as_str(), IMAGE_SUFFIX)
    }

    /// Takes over the reference of the stored image. A failed upload leaves
    /// the record as it is.
    pub fn record_image(&mut self, outcome: Result<Option<String>, PipelineError>)
        ensures
            final(self)@ == match outcome {
                Ok(reference) => GazetteView { img_uri: text_view(reference), ..old(self)@ },
                Err(_) => old(self)@,
            },
    {
        match outcome {
            Ok(reference) => {
                self.img_uri = reference;
            },
            Err(_) => {},
        }
    }

    /// Takes over the polygon. A failure leaves the record as it is.
    pub fn record_polygon(&mut self, outcome: Result<Option<MapPolygon>, PipelineError>)
        ensures
            final(self)@ == match outcome {
                Ok(polygon) => GazetteView { polygon: polygon_view(polygon), ..old(self)@ },
                Err(_) => old(self)@,
            },
    {
        match outcome {
            Ok(polygon) => {
                self.polygon = polygon;
            },
            Err(_) => {},
        }
    }

    /// Takes over the operative date range. A failure leaves the record as
    /// it is.
    pub fn record_dates(&mut self, outcome: Result<(CalendarDate, CalendarDate), PipelineError>)
        ensures
            final(self)@ == match outcome {
                Ok(range) => GazetteView { start: Some(range.0), end: Some(range.1), ..old(self)@ },
                Err(_) => old(self)@,
            },
    {
        match outcome {
            Ok(range) => {
                self.start = Some(range.0);
                self.end = Some(range.1);
            },
            Err(_) => {},
        }
    }

    /// The first image of the document of the notice. It fails with
    /// `ExtractionNotFound` where the document has none.
    pub fn extract_map(document: &lopdf::Document) -> (r: Result<Vec<u8>, PipelineError>)
        ensures
            match r {
                Ok(image) => first_image(*document) == Some(image@),
                Err(e) => e == PipelineError::ExtractionNotFound && first_image(*document)
                    is None,
            },
    {
        document_first_image(document)
    }

    /// The text of the whole document, page after page. It fails with
    /// `Parse` where a page gives no text.
    pub fn get_doc_text(document: &lopdf::Document) -> (r: Result<String, PipelineError>)
        ensures
            match r {
                Ok(text) => full_text(*document) == Some(text@),
                Err(e) => e == PipelineError::Parse && full_text(*document) is None,
            },
    {
        document_text(document)
    }

    /// The days named in `date_string`, with the present year for those
    /// that name no year.
    pub fn parse_date_text(date_string: &str) -> (r: Result<Vec<CalendarDate>, PipelineError>)
        ensures
            exists|year: int| #[trigger] dates_read_in(r, date_string@, year),
    {
        let year = current_year();
        let r = parse_date_text_in_year(date_string, year);
        proof {
            assert(dates_read_in(r, date_string@, year as int));
        }
        r
    }

    /// The operative date range that the document declares, read in the
    /// present year.
    pub fn get_date(document: &lopdf::Document) -> (r: Result<
        (CalendarDate, CalendarDate),
        PipelineError,
    >)
        ensures
            exists|year: int| r == #[trigger] range_in_text(readable_text(*document), year),
    {
        let text = document_readable_text(document);
        let year = current_year();
        let r = date_range_in_text(text.as_str(), year);
        proof {
            assert(r == range_in_text(readable_text(*document), year as int));
        }
        r
    }
}

/// The area of the operation that `page_text` names: what the first clause
/// on a planned operation holds behind its opening words.
pub open spec fn operation_area(page_text: Seq<char>) -> Result<Seq<char>, PipelineError> {
    match pattern_captures(AREA_PATTERN@, page_text, 1) {
        None => Err(PipelineError::Parse),
        Some(found) => match first_text(found) {
            Some(area) => Ok(area),
            None => Err(PipelineError::ExtractionNotFound),
        },
    }
}

/// The area of the operation that `page_text` names. It fails with
/// `ExtractionNotFound` where the text has no clause on a planned operation.
pub fn get_operation_area(page_text: &str) -> (r: Result<String, PipelineError>)
    ensures
        match r {
            Ok(area) => operation_area(page_text@) == Ok::<Seq<char>, PipelineError>(area@),
            Err(e) => operation_area(page_text@) == Err::<Seq<char>, PipelineError>(e),
        },
{
    match find_captures(AREA_PATTERN, page_text, 1) {
        Err(e) => Err(e),
        Ok(found) => match first_found(&found) {
            Some(area) => Ok(area),
            None => Err(PipelineError::ExtractionNotFound),
        },
    }
}

/// The hint that goes with each location to the geocoder: the area of the
/// operation, or the empty text where none is named.
pub fn area_hint(page_text: &str) -> (r: String)
    ensures
        r@ == match operation_area(page_text@) {
            Ok(area) => area,
            Err(_) => Seq::<char>::empty(),
        },
{
    match get_operation_area(page_text) {
        Ok(area) => area,
        Err(_) => String::new(),
    }
}

/// The position that stands for each outcome of `outcomes`: the position
/// found, or the origin where there is none.
pub open spec fn positions_of(outcomes: Seq<Result<GeoPosition, PipelineError>>) -> Seq<
    GeoPosition,
> {
    Seq::new(
        outcomes.len(),
        |i: int|
            match outcomes[i] {
                Ok(position) => position,
                Err(_) => GeoPosition { latitude: 0, longitude: 0 },
            },
    )
}

/// One position for each location that was geocoded, in their order, the
/// origin in place of a failure.
pub fn positions_or_default(outcomes: &Vec<Result<GeoPosition, PipelineError>>) -> (r: Vec<
    GeoPosition,
>)
    ensures
        r@ == positions_of(outcomes@),
        r@.len() == outcomes@.len(),
{
    let mut positions: Vec<GeoPosition> = Vec::new();
    let mut i: usize = 0;
    while i < outcomes.len()
        invariant
            i <= outcomes@.len(),
            positions@ == positions_of(outcomes@).take(i as int),
        decreases outcomes@.len() - i,
    {
        let position = match outcomes[i] {
            Ok(position) => position,
            Err(_) => GeoPosition::default(),
        };
        positions.push(position);
        proof {
            assert(positions_of(outcomes@).take(i + 1) == positions_of(outcomes@).take(
                i as int,
            ).push(positions_of(outcomes@)[i as int]));
        }
        i = i + 1;
    }
    proof {
        assert(positions_of(outcomes@).take(outcomes@.len() as int) == positions_of(outcomes@));
    }
    positions
}

/// The polygon of a notice: the positions of its locations, the origin in
/// place of each failure, without those outside the target region.
pub fn polygon_from_positions(outcomes: &Vec<Result<GeoPosition, PipelineError>>) -> (r:
    MapPolygon)
    ensures
        r@ == region_points(positions_of(outcomes@)),
{
    let mut data = positions_or_default(outcomes);
    data.sanitise();
    MapPolygon { data }
}

} // verus!
