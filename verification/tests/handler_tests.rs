use gazette_scraper::db::mock::MockDatabaseProvider;
use gazette_scraper::db::DatabaseProvider;
use gazette_scraper::error::PipelineError;
use gazette_scraper::geocoder::GeocoderProvider;
use gazette_scraper::image_service::mock::MockImageService;
use gazette_scraper::location_parser::mock::MockLocationParser;
use gazette_scraper::utils::dates::CalendarDate;
use gazette_scraper::utils::gazette::make_hash;
use gazette_scraper::utils::gazette::Gazette;
use gazette_scraper::utils::gazette::GazetteHandler;
use gazette_scraper::utils::maptypes::GeoPosition;
use lopdf::content::Content;
use lopdf::content::Operation;
use lopdf::Dictionary;
use lopdf::Document;
use lopdf::Object;
use lopdf::Stream;

const URI: &str = "http://www.gazette.vic.gov.au/gazette/Gazettes2025/GG2025S737.pdf";

const TEXT: &str = "Notice under the Control of Weapons Act 1990\n\
                    Planned Operation in Melbourne CBD\n\
                    This declaration will be in place from 1 September 2025 to 11 October 2025. \n";

/// A geocoder that knows two corners of Melbourne when it is asked with
/// the right hint, puts a third place far away and fails for all else.
struct Corners;

impl GeocoderProvider for Corners {
    fn geocode(&self, input: &str, area: &str) -> Result<GeoPosition, PipelineError> {
        match (input, area) {
            ("Corner of Collins Street and Spencer Street", "Melbourne CBD") => {
                Ok(GeoPosition { latitude: -378183000, longitude: 1449529000 })
            }
            ("Southern Cross Railway Station", "Melbourne CBD") => {
                Ok(GeoPosition { latitude: -378184000, longitude: 1449525000 })
            }
            ("Elsewhere", _) => Ok(GeoPosition { latitude: 515074000, longitude: -1278000 }),
            _ => Err(PipelineError::Provider),
        }
    }
}

fn name(text: &str) -> Object {
    Object::Name(text.as_bytes().to_vec())
}

/// A document with one page for each line, and `image` on its second page.
fn document(lines: &[&str], image: Option<Vec<u8>>) -> Document {
    let mut doc = Document::with_version("1.5");
    let pages_id = doc.new_object_id();
    let mut font = Dictionary::new();
    font.set("Type", name("Font"));
    font.set("Subtype", name("Type1"));
    font.set("BaseFont", name("Courier"));
    let font_id = doc.add_object(font);
    let mut kids: Vec<Object> = Vec::new();
    for (index, line) in lines.iter().enumerate() {
        let mut fonts = Dictionary::new();
        fonts.set("F1", font_id);
        let mut resources = Dictionary::new();
        resources.set("Font", fonts);
        if index == 1 {
            if let Some(data) = &image {
                let mut picture = Dictionary::new();
                picture.set("Type", name("XObject"));
                picture.set("Subtype", name("Image"));
                picture.set("Width", 1);
                picture.set("Height", 1);
                picture.set("ColorSpace", name("DeviceGray"));
                picture.set("BitsPerComponent", 8);
                let picture_id = doc.add_object(Stream::new(picture, data.clone()));
                let mut objects = Dictionary::new();
                objects.set("Im0", picture_id);
                resources.set("XObject", objects);
            }
        }
        let content = Content {
            operations: vec![
                Operation::new("BT", vec![]),
                Operation::new("Tf", vec!["F1".into(), 12.into()]),
                Operation::new("Tj", vec![Object::string_literal(*line)]),
                Operation::new("ET", vec![]),
            ],
        };
        let content_id = doc.add_object(Stream::new(Dictionary::new(), content.encode().unwrap()));
        let mut page = Dictionary::new();
        page.set("Type", name("Page"));
        page.set("Parent", pages_id);
        page.set("Contents", content_id);
        page.set("Resources", resources);
        kids.push(doc.add_object(page).into());
    }
    let mut tree = Dictionary::new();
    tree.set("Type", name("Pages"));
    tree.set("Count", kids.len() as i64);
    tree.set("Kids", kids);
    doc.objects.insert(pages_id, Object::Dictionary(tree));
    let mut catalog = Dictionary::new();
    catalog.set("Type", name("Catalog"));
    catalog.set("Pages", pages_id);
    let catalog_id = doc.add_object(catalog);
    doc.trailer.set("Root", catalog_id);
    doc
}

fn notice(image: Option<Vec<u8>>) -> Document {
    let lines: Vec<&str> = TEXT.lines().collect();
    document(&lines, image)
}

fn handler(
    uploads_succeed: bool,
    places: Vec<&str>,
) -> GazetteHandler<MockDatabaseProvider, MockImageService, MockLocationParser, Corners> {
    GazetteHandler {
        gazette: Gazette::flagged_notice("Special Gazette 737".to_string(), URI.to_string()),
        database_provider: MockDatabaseProvider::new(),
        image_service: MockImageService::new(uploads_succeed),
        location_parser: MockLocationParser::new()
            .with_response(TEXT, places.into_iter().map(|p| p.to_string()).collect()),
        geocoder: Corners,
    }
}

fn corners() -> Vec<&'static str> {
    vec![
        "Southern Cross Railway Station",
        "Unknown place",
        "Corner of Collins Street and Spencer Street",
        "Elsewhere",
    ]
}

#[test]
fn document_of_the_notice_gives_the_expected_text() {
    assert_eq!(Gazette::get_doc_text(&notice(None)), Ok(TEXT.to_string()));
}

#[test]
fn enrichment_fills_the_record_and_saves_it_once() {
    let mut run = handler(true, corners());
    let saved = run.enrich(&notice(Some(vec![7, 7, 7])));
    assert_eq!(saved, Ok(true));
    assert_eq!(run.gazette.uri, URI);
    assert_eq!(run.gazette.title, Some("Special Gazette 737".to_string()));
    assert!(run.gazette.flagged);
    assert_eq!(run.gazette.img_uri, Some(format!("mock_url/{}.jpg", make_hash(URI))));
    assert_eq!(
        run.gazette.polygon.as_ref().unwrap().data,
        vec![
            GeoPosition { latitude: -378184000, longitude: 1449525000 },
            GeoPosition { latitude: -378183000, longitude: 1449529000 },
        ]
    );
    assert_eq!(run.gazette.start, Some(CalendarDate { year: 2025, month: 9, day: 1 }));
    assert_eq!(run.gazette.end, Some(CalendarDate { year: 2025, month: 10, day: 11 }));
    assert_eq!(run.image_service.upload_count(), 1);
    assert_eq!(run.database_provider.len(), 1);
    assert_eq!(run.database_provider.has_entry(&make_hash(URI)), Ok(true));
    let stored = run.database_provider.fetch_entries().unwrap();
    assert_eq!(stored[0].uri, URI);
    assert_eq!(stored[0].img_uri, run.gazette.img_uri);
    assert_eq!(stored[0].polygon.as_ref().unwrap().data.len(), 2);
    assert_eq!(stored[0].start, run.gazette.start);
}

#[test]
fn failed_upload_leaves_the_image_empty_and_the_rest_goes_on() {
    let mut run = handler(false, corners());
    assert_eq!(run.enrich(&notice(Some(vec![1]))), Ok(true));
    assert!(run.gazette.img_uri.is_none());
    assert_eq!(run.image_service.upload_count(), 1);
    assert_eq!(run.gazette.polygon.as_ref().unwrap().data.len(), 2);
    assert!(run.gazette.start.is_some());
    assert_eq!(run.database_provider.len(), 1);
}

#[test]
fn document_without_an_image_is_not_uploaded() {
    let mut run = handler(true, corners());
    assert_eq!(run.try_upload_image(&notice(None)), Err(PipelineError::ExtractionNotFound));
    assert_eq!(run.image_service.upload_count(), 0);
    assert_eq!(run.enrich(&notice(None)), Ok(true));
    assert!(run.gazette.img_uri.is_none());
    assert!(run.gazette.polygon.is_some());
}

#[test]
fn image_is_stored_under_the_hash_of_the_address() {
    let mut run = handler(true, corners());
    assert_eq!(
        run.try_upload_image(&notice(Some(vec![1, 2]))),
        Ok(Some(format!("mock_url/{}.jpg", make_hash(URI))))
    );
}

#[test]
fn each_location_is_geocoded_with_the_hint() {
    let run = handler(true, corners());
    let places: Vec<String> = corners().into_iter().map(|p| p.to_string()).collect();
    assert_eq!(
        run.geocode_all(&places, "Melbourne CBD"),
        vec![
            Ok(GeoPosition { latitude: -378184000, longitude: 1449525000 }),
            Err(PipelineError::Provider),
            Ok(GeoPosition { latitude: -378183000, longitude: 1449529000 }),
            Ok(GeoPosition { latitude: 515074000, longitude: -1278000 }),
        ]
    );
    assert_eq!(run.geocode_all(&places, "Geelong")[0], Err(PipelineError::Provider));
    assert!(run.geocode_all(&vec![], "Melbourne CBD").is_empty());
}

#[test]
fn text_without_an_area_is_geocoded_without_a_hint() {
    let text = "Only locations\n";
    let run = GazetteHandler {
        gazette: Gazette::flagged_notice("t".to_string(), URI.to_string()),
        database_provider: MockDatabaseProvider::new(),
        image_service: MockImageService::new(true),
        location_parser: MockLocationParser::new().with_response(text, vec!["Elsewhere".to_string()]),
        geocoder: Corners,
    };
    let polygon = run.get_polygon(&document(&["Only locations"], None)).unwrap().unwrap();
    assert!(polygon.data.is_empty());
}

#[test]
fn text_without_locations_gives_an_empty_polygon() {
    let run = handler(true, vec![]);
    let polygon = run.get_polygon(&notice(None)).unwrap().unwrap();
    assert!(polygon.data.is_empty());
    assert_eq!(
        run.get_date(&notice(None)),
        Ok((
            CalendarDate { year: 2025, month: 9, day: 1 },
            CalendarDate { year: 2025, month: 10, day: 11 }
        ))
    );
}

#[test]
fn discarded_notice_is_saved_under_its_class() {
    let mut run = GazetteHandler {
        gazette: Gazette::discarded_notice("Road closure".to_string(), URI.to_string()),
        database_provider: MockDatabaseProvider::new(),
        image_service: MockImageService::new(true),
        location_parser: MockLocationParser::new(),
        geocoder: Corners,
    };
    assert_eq!(run.save(), Ok(true));
    assert_eq!(run.save(), Ok(true));
    assert_eq!(run.database_provider.len(), 1);
    assert_eq!(run.database_provider.has_entry(&format!("discarded:{}", make_hash(URI))), Ok(true));
    assert_eq!(run.database_provider.has_entry(&format!("flagged:{}", make_hash(URI))), Ok(false));
    assert_eq!(run.image_service.upload_count(), 0);
}
