//! The enrichment of one notice: its image, its polygon, its operative
//! date range, and the handing over of its record to the store.

use vstd::prelude::*;
use crate::db::service::DatabaseProvider;
use crate::error::PipelineError;
use crate::geocoder::service::GeocoderProvider;
use crate::image_service::service::upload_view;
use crate::image_service::service::ImageService;
use crate::location_parser::service::locations_view;
use crate::location_parser::service::LocationParserService;
use crate::utils::dates::range_in_text;
use crate::utils::dates::CalendarDate;
use crate::utils::gazette::area_hint;
use crate::utils::gazette::image_filename_of;
use crate::utils::gazette::operation_area;
use crate::utils::gazette::polygon_from_positions;
use crate::utils::gazette::polygon_view;
use crate::utils::gazette::positions_of;
use crate::utils::gazette::storage_key_of;
use crate::utils::gazette::Gazette;
use crate::utils::gazette::GazetteView;
use crate::utils::maptypes::region_points;
use crate::utils::maptypes::GeoPosition;
use crate::utils::maptypes::MapPolygon;
use crate::utils::pdf::first_image;
use crate::utils::pdf::full_text;
use crate::utils::pdf::readable_text;
use crate::utils::text::texts_of;

verus! {

/// The record of one notice together with the providers that enrich and
/// store it.
pub struct GazetteHandler<T, U, V, W> where
    T: DatabaseProvider,
    U: ImageService,
    V: LocationParserService,
    W: GeocoderProvider,
 {
    pub gazette: Gazette,
    pub database_provider: T,
    pub image_service: U,
    pub location_parser: V,
    pub geocoder: W,
}

/// The hint that goes with the locations of `text` to the geocoder.
pub open spec fn hint_of(text: Seq<char>) -> Seq<char> {
    match operation_area(text) {
        Ok(area) => area,
        Err(_) => Seq::<char>::empty(),
    }
}

/// Whether `outcomes` are answers that `geocoder` may give for `places`,
/// one for each and in their order, when it is asked with the hint `area`.
pub open spec fn geocoded<W: GeocoderProvider>(
    geocoder: W,
    places: Seq<Seq<char>>,
    area: Seq<char>,
    outcomes: Seq<Result<GeoPosition, PipelineError>>,
) -> bool {
    &&& outcomes.len() == places.len()
    &&& forall|i: int|
        0 <= i < places.len() ==> geocoder.may_answer(places[i], area, #[trigger] outcomes[i])
}

/// Whether `polygon` is a polygon of the locations `places`: the positions
/// that `geocoder` may give for them, the origin in place of each
/// failure, without those outside the target region.
pub open spec fn located<W: GeocoderProvider>(
    geocoder: W,
    places: Seq<Seq<char>>,
    area: Seq<char>,
    polygon: Seq<GeoPosition>,
) -> bool {
    exists|outcomes: Seq<Result<GeoPosition, PipelineError>>|
        #[trigger] geocoded(geocoder, places, area, outcomes) && polygon == region_points(
            positions_of(outcomes),
        )
}

/// Whether `outcome` is a polygon that the text `text` may get: it fails
/// as the location parser does where that fails; else it is a polygon of
/// the locations that the parser finds in the text.
pub open spec fn polygon_of_text<V: LocationParserService, W: GeocoderProvider>(
    parser: V,
    geocoder: W,
    text: Seq<char>,
    outcome: Result<Option<Seq<GeoPosition>>, PipelineError>,
) -> bool {
    exists|answer: Result<Seq<Seq<char>>, PipelineError>|
        #[trigger] parser.may_answer(text, answer) && match answer {
            Err(e) => outcome == Err::<Option<Seq<GeoPosition>>, PipelineError>(e),
            Ok(places) => match outcome {
                Ok(Some(polygon)) => located(geocoder, places, hint_of(text), polygon),
                _ => false,
            },
        }
}

/// Whether `outcome` is a polygon that the document may get: it fails with
/// `Parse` where the document gives no full text; else it is a polygon
/// that its full text may get.
pub open spec fn polygon_outcome<V: LocationParserService, W: GeocoderProvider>(
    parser: V,
    geocoder: W,
    document: lopdf::Document,
    outcome: Result<Option<Seq<GeoPosition>>, PipelineError>,
) -> bool {
    match full_text(document) {
        None => outcome == Err::<Option<Seq<GeoPosition>>, PipelineError>(PipelineError::Parse),
        Some(text) => polygon_of_text(parser, geocoder, text, outcome),
    }
}

/// Whether `outcome` is what the upload of the image of the document at
/// `uri` may give: it fails with `ExtractionNotFound` where the document
/// has no image; else it is an answer of the service to the first image
/// under the file name of the notice.
pub open spec fn upload_outcome<U: ImageService>(
    service: U,
    uri: Seq<char>,
    document: lopdf::Document,
    outcome: Result<Option<Seq<char>>, PipelineError>,
) -> bool {
    match first_image(document) {
        None => outcome == Err::<Option<Seq<char>>, PipelineError>(
            PipelineError::ExtractionNotFound,
        ),
        Some(image) => service.may_answer(image_filename_of(uri), image, outcome),
    }
}

/// The outcome of a request for a polygon as plain values.
pub open spec fn polygon_outcome_view(outcome: Result<Option<MapPolygon>, PipelineError>)
    -> Result<Option<Seq<GeoPosition>>, PipelineError> {
    match outcome {
        Ok(polygon) => Ok(polygon_view(polygon)),
        Err(e) => Err(e),
    }
}

/// The record `before` with the image reference that `outcome` brings.
pub open spec fn with_image(
    before: GazetteView,
    outcome: Result<Option<Seq<char>>, PipelineError>,
) -> GazetteView {
    match outcome {
        Ok(reference) => GazetteView { img_uri: reference, ..before },
        Err(_) => before,
    }
}

/// The record `before` with the polygon that `outcome` brings.
pub open spec fn with_polygon(
    before: GazetteView,
    outcome: Result<Option<Seq<GeoPosition>>, PipelineError>,
) -> GazetteView {
    match outcome {
        Ok(polygon) => GazetteView { polygon, ..before },
        Err(_) => before,
    }
}

/// The record `before` with the date range that `outcome` brings.
pub open spec fn with_dates(
    before: GazetteView,
    outcome: Result<(CalendarDate, CalendarDate), PipelineError>,
) -> GazetteView {
    match outcome {
        Ok(range) => GazetteView { start: Some(range.0), end: Some(range.1), ..before },
        Err(_) => before,
    }
}

/// Whether `after` is the record `before` enriched from `document`: each of
/// its image, its polygon and its date range is taken over where its step
/// succeeds and left as it was where the step fails.
pub open spec fn enriched<U: ImageService, V: LocationParserService, W: GeocoderProvider>(
    image_service: U,
    parser: V,
    geocoder: W,
    document: lopdf::Document,
    before: GazetteView,
    after: GazetteView,
) -> bool {
    exists|
        image: Result<Option<Seq<char>>, PipelineError>,
        polygon: Result<Option<Seq<GeoPosition>>, PipelineError>,
        year: int,
    |
        #![trigger
            upload_outcome(image_service, before.uri, document, image),
            polygon_outcome(parser, geocoder, document, polygon),
            range_in_text(readable_text(document), year),
        ]
        {
            &&& upload_outcome(image_service, before.uri, document, image)
            &&& polygon_outcome(parser, geocoder, document, polygon)
            &&& after == with_dates(
                with_polygon(with_image(before, image), polygon),
                range_in_text(readable_text(document), year),
            )
        }
}

impl<T, U, V, W> GazetteHandler<T, U, V, W> where
    T: DatabaseProvider,
    U: ImageService,
    V: LocationParserService,
    W: GeocoderProvider,
 {
    /// Hands the record to the store, under the key of its class and
    /// content hash. The answer is yes wherever the store takes the record.
    pub fn save(&mut self) -> (r: Result<bool, PipelineError>)
        ensures
            final(self).gazette == old(self).gazette,
            final(self).image_service == old(self).image_service,
            final(self).location_parser == old(self).location_parser,
            final(self).geocoder == old(self).geocoder,
            exists|answer: Result<bool, PipelineError>|
                #[trigger] old(self).database_provider.may_store(
                    storage_key_of(old(self).gazette@.uri, old(self).gazette@.flagged),
                    old(self).gazette@,
                    final(self).database_provider,
                    answer,
                ) && r == match answer {
                    Ok(_) => Ok::<bool, PipelineError>(true),
                    Err(e) => Err::<bool, PipelineError>(e),
                },
    {
        let key = self.gazette.storage_key();
        let ghost store = self.database_provider;
        let answer = self.database_provider.create_entry(key.as_str(), &self.gazette);
        let r = match answer {
            Ok(_) => Ok(true),
            Err(e) => Err(e),
        };
        proof {
            assert(store.may_store(
                storage_key_of(self.gazette@.uri, self.gazette@.flagged),
                self.gazette@,
                self.database_provider,
                answer,
            ));
        }
        r
    }

    /// Stores the first image of the document under the file name of the
    /// notice. It fails with `ExtractionNotFound` where the document has no
    /// image, and as the image service does where that fails.
    pub fn try_upload_image(&mut self, document: &lopdf::Document) -> (r: Result<
        Option<String>,
        PipelineError,
    >)
        ensures
            upload_outcome(
                old(self).image_service,
                old(self).gazette@.uri,
                *document,
                upload_view(r),
            ),
            final(self).gazette == old(self).gazette,
            final(self).database_provider == old(self).database_provider,
            final(self).location_parser == old(self).location_parser,
            final(self).geocoder == old(self).geocoder,
    {
        match Gazette::extract_map(document) {
            Ok(image) => {
                let filename = self.gazette.image_filename();
                self.image_service.upload(filename, image)
            },
            Err(e) => Err(e),
        }
    }

    /// The positions of the locations `places`, each asked of the geocoder
    /// with the hint `area`: one outcome for each location, in their order.
    pub fn geocode_all(&self, places: &Vec<String>, area: &str) -> (r: Vec<
        Result<GeoPosition, PipelineError>,
    >)
        ensures
            geocoded(self.geocoder, texts_of(places@), area@, r@),
    {
        let mut outcomes: Vec<Result<GeoPosition, PipelineError>> = Vec::new();
        let mut i: usize = 0;
        while i < places.len()
            invariant
                i <= places@.len(),
                outcomes@.len() == i,
                forall|k: int|
                    0 <= k < i ==> self.geocoder.may_answer(
                        places@[k]@,
                        area@,
                        #[trigger] outcomes@[k],
                    ),
            decreases places@.len() - i,
        {
            let outcome = self.geocoder.geocode(places[i].as_str(), area);
            outcomes.push(outcome);
            i = i + 1;
        }
        outcomes
    }

    /// The polygon of the notice: the locations that the location parser
    /// finds in the full text of the document, geocoded with the area of
    /// the operation as a hint and cleaned of what lies outside the target
    /// region. A location that cannot be geocoded counts as the origin; a
    /// text that names no area of operation gives an empty hint.
    pub fn get_polygon(&self, document: &lopdf::Document) -> (r: Result<
        Option<MapPolygon>,
        PipelineError,
    >)
        ensures
            polygon_outcome(
                self.location_parser,
                self.geocoder,
                *document,
                polygon_outcome_view(r),
            ),
    {
        let page_text = match Gazette::get_doc_text(document) {
            Ok(text) => text,
            Err(e) => {
                return Err(e);
            },
        };
        let answer = self.location_parser.parse_locations(page_text.clone());
        let ghost given = locations_view(answer);
        match answer {
            Err(e) => {
                let r: Result<Option<MapPolygon>, PipelineError> = Err(e);
                proof {
                    assert(self.location_parser.may_answer(page_text@, given));
                    assert(polygon_of_text(
                        self.location_parser,
                        self.geocoder,
                        page_text@,
                        polygon_outcome_view(r),
                    ));
                }
                r
            },
            Ok(places) => {
                let area = area_hint(page_text.as_str());
                let outcomes = self.geocode_all(&places, area.as_str());
                let polygon = polygon_from_positions(&outcomes);
                let ghost shape = polygon@;
                let r: Result<Option<MapPolygon>, PipelineError> = Ok(Some(polygon));
                proof {
                    assert(self.location_parser.may_answer(page_text@, given));
                    assert(geocoded(
                        self.geocoder,
                        texts_of(places@),
                        hint_of(page_text@),
                        outcomes@,
                    ));
                    assert(located(self.geocoder, texts_of(places@), hint_of(page_text@), shape));
                    assert(polygon_of_text(
                        self.location_parser,
                        self.geocoder,
                        page_text@,
                        polygon_outcome_view(r),
                    ));
                }
                r
            },
        }
    }

    /// The operative date range that the document declares.
    pub fn get_date(&self, document: &lopdf::Document) -> (r: Result<
        (CalendarDate, CalendarDate),
        PipelineError,
    >)
        ensures
            exists|year: int| r == #[trigger] range_in_text(readable_text(*document), year),
    {
        Gazette::get_date(document)
    }

    /// Enriches the record from the document of its notice and hands it to
    /// the store: the image, the polygon and the date range are looked for
    /// one after the other, each failure leaves its field as it was, and
    /// the record is saved once at the end, whatever was found.
    pub fn enrich(&mut self, document: &lopdf::Document) -> (r: Result<bool, PipelineError>)
        ensures
            enriched(
                old(self).image_service,
                old(self).location_parser,
                old(self).geocoder,
                *document,
                old(self).gazette@,
                final(self).gazette@,
            ),
            final(self).gazette@.uri == old(self).gazette@.uri,
            final(self).gazette@.title == old(self).gazette@.title,
            final(self).gazette@.flagged == old(self).gazette@.flagged,
            exists|answer: Result<bool, PipelineError>|
                #[trigger] old(self).database_provider.may_store(
                    storage_key_of(old(self).gazette@.uri, old(self).gazette@.flagged),
                    final(self).gazette@,
                    final(self).database_provider,
                    answer,
                ) && r == match answer {
                    Ok(_) => Ok::<bool, PipelineError>(true),
                    Err(e) => Err::<bool, PipelineError>(e),
                },
    {
        let ghost before = self.gazette@;
        let ghost image_service = self.image_service;
        let image = self.try_upload_image(document);
        let ghost image_view = upload_view(image);
        self.gazette.record_image(image);
        let polygon = self.get_polygon(document);
        let ghost polygon_view = polygon_outcome_view(polygon);
        self.gazette.record_polygon(polygon);
        let dates = self.get_date(document);
        self.gazette.record_dates(dates);
        proof {
            let year = choose|year: int| dates == #[trigger] range_in_text(
                readable_text(*document),
                year,
            );
            assert(upload_outcome(image_service, before.uri, *document, image_view));
            assert(polygon_outcome(
                self.location_parser,
                self.geocoder,
                *document,
                polygon_view,
            ));
            assert(self.gazette@ == with_dates(
                with_polygon(with_image(before, image_view), polygon_view),
                range_in_text(readable_text(*document), year),
            ));
        }
        self.save()
    }
}

} // verus!
