use gazette_scraper::db::mock::MockDatabaseProvider;
use gazette_scraper::db::DatabaseProvider;
use gazette_scraper::error::PipelineError;
use gazette_scraper::geocoder::mock::MockGeocoderProvider;
use gazette_scraper::image_service::mock::MockImageService;
use gazette_scraper::location_parser::mock::MockLocationParser;
use gazette_scraper::utils::gazette::make_hash;
use gazette_scraper::utils::gazette::Gazette;
use gazette_scraper::utils::updater::advance;
use gazette_scraper::utils::updater::entries_of_links;
use gazette_scraper::utils::updater::inspected_class;
use gazette_scraper::utils::updater::partition;
use gazette_scraper::utils::updater::pdf_link;
use gazette_scraper::utils::updater::signal;
use gazette_scraper::utils::updater::uris_of;
use gazette_scraper::utils::updater::ListingEntry;
use gazette_scraper::utils::updater::Phase;
use gazette_scraper::utils::updater::ServiceConfig;
use gazette_scraper::utils::updater::Signal;
use gazette_scraper::utils::updater::Updater;

type Run = Updater<MockDatabaseProvider, MockImageService, MockLocationParser, MockGeocoderProvider>;

fn run(base_uri: &str) -> Run {
    Updater {
        uri: "http://www.gazette.vic.gov.au/gazette_bin/gazette_archives.cfm".to_string(),
        base_uri: base_uri.to_string(),
        config: ServiceConfig {
            database_provider: MockDatabaseProvider::new(),
            image_service: MockImageService::new(true),
            location_parser: MockLocationParser::new(),
            geocoder: MockGeocoderProvider,
        },
    }
}

fn entry(title: &str, uri: &str) -> ListingEntry {
    ListingEntry { title: title.to_string(), uri: uri.to_string() }
}

fn pairs(entries: &Vec<ListingEntry>) -> Vec<(String, String)> {
    entries.iter().map(|e| (e.title.clone(), e.uri.clone())).collect()
}

/// Runs the entries through lookup and inspection as the pipeline does,
/// with `fetch` in the place of the download; gives the classified entries
/// and the addresses that were fetched.
fn filter(
    entries: &Vec<ListingEntry>,
    store: &MockDatabaseProvider,
    fetch: &dyn Fn(&str) -> Result<bool, PipelineError>,
) -> (Vec<(ListingEntry, bool)>, Vec<String>) {
    let mut fetched: Vec<String> = Vec::new();
    let mut classified: Vec<(ListingEntry, bool)> = Vec::new();
    for entry in entries {
        let mut phase = Phase::Lookup;
        let answer = store.has_entry(&entry.content_hash());
        phase = advance(phase, signal(&answer));
        if phase == Phase::Inspection {
            fetched.push(entry.uri.clone());
            let class = fetch(&entry.uri);
            phase = advance(phase, signal(&class));
            if let Some(flagged) = inspected_class(phase) {
                classified.push((entry.clone(), flagged));
            }
        }
    }
    (classified, fetched)
}

#[test]
fn listing_holds_the_link_to_the_document_only() {
    let page = "<html><body>\
                <a href=\"/gazette/Gazettes2025/GG2025S467.pdf\">Special Gazette 467</a>\
                <a href=\"/gazette/about.html\">About</a>\
                </body></html>";
    let entries = run("http://www.gazette.vic.gov.au").parse_webpage(page);
    assert_eq!(
        pairs(&entries),
        vec![(
            "Special Gazette 467".to_string(),
            "http://www.gazette.vic.gov.au/gazette/Gazettes2025/GG2025S467.pdf".to_string()
        )]
    );
}

#[test]
fn listing_is_in_the_order_of_the_page() {
    let page = "<a href=\"/b.PDF\">B</a><p><a name=\"x\">no target</a></p>\
                <a href=\"/a.pdf\"><b>A</b></a><a href=\"/c.Pdf\">C</a><a href=\"/d.doc\">D</a>";
    let entries = run("http://h").parse_webpage(page);
    assert_eq!(
        pairs(&entries),
        vec![
            ("B".to_string(), "http://h/b.PDF".to_string()),
            ("<b>A</b>".to_string(), "http://h/a.pdf".to_string()),
            ("C".to_string(), "http://h/c.Pdf".to_string()),
        ]
    );
}

#[test]
fn listing_of_a_page_without_links_is_empty() {
    assert_eq!(run("http://h").parse_webpage("<p>nothing</p>").len(), 0);
    assert_eq!(run("http://h").parse_webpage("").len(), 0);
}

#[test]
fn links_are_resolved_against_the_base() {
    let links = vec![
        (Some("/x.pdf".to_string()), "X".to_string()),
        (None, "Y".to_string()),
        (Some("z.pdf".to_string()), "Z".to_string()),
    ];
    assert_eq!(
        pairs(&entries_of_links(&links, "base")),
        vec![
            ("X".to_string(), "base/x.pdf".to_string()),
            ("Z".to_string(), "basez.pdf".to_string()),
        ]
    );
}

#[test]
fn extension_is_told_in_any_case_of_its_letters() {
    assert!(pdf_link("http://h/a.pdf"));
    assert!(pdf_link("http://h/a.PDF"));
    assert!(pdf_link("http://h/a.pDf"));
    assert!(pdf_link("a.pdf"));
    assert!(pdf_link("http://h/a.b.pdf"));
    assert!(!pdf_link("http://h/a.pdfx"));
    assert!(!pdf_link("http://h/a.html"));
    assert!(!pdf_link("http://h/apdf"));
    assert!(!pdf_link("http://h/.pdf"));
    assert!(!pdf_link(".pdf"));
    assert!(!pdf_link("http://h/a.pdf?x=1"));
    assert!(!pdf_link("http://h/a.p\u{44f}f"));
    assert!(!pdf_link(""));
}

#[test]
fn extension_is_that_of_the_last_name_of_the_path() {
    let corpus = [
        "http://h/a.pdf",
        "http://h/a.pdf/",
        "http://h/a.pdf//",
        "http://h/a.pdf/.",
        "http://h/a.pdf/./",
        "http://h/a.pdf/..",
        "http://h/a.pdf/x",
        "http://h/.pdf",
        "http://h/..pdf",
        "http://h/a.PDF/./.",
        "a.pdf.",
        "a.pdf ",
        ".pdf",
        "/.pdf",
        "x.pdf",
        ".",
        "./",
        "/",
        "",
        "a/.",
        "..",
        "pdf",
        "a.pd",
        "a.pdf?x=1",
        "http://h/dir.pdf/file.html",
    ];
    for uri in corpus {
        let expected = std::path::Path::new(uri)
            .extension()
            .is_some_and(|ext| ext.eq_ignore_ascii_case("pdf"));
        assert_eq!(pdf_link(uri), expected, "{uri}");
    }
}

#[test]
fn entry_that_is_stored_is_not_fetched() {
    let uri_a = "http://www.gazette.vic.gov.au/gazette/Gazettes2025/GG2025S467.pdf";
    let uri_b = "http://www.gazette.vic.gov.au/gazette/Gazettes2025/GG2025S737.pdf";
    let mut store = MockDatabaseProvider::new();
    let held = Gazette::flagged_notice("A".to_string(), uri_a.to_string());
    store.create_entry(&format!("flagged:{}", make_hash(uri_a)), &held).unwrap();
    let entries = vec![entry("A", uri_a), entry("B", uri_b)];
    let (classified, fetched) = filter(&entries, &store, &|_| Ok(true));
    assert_eq!(fetched.iter().filter(|uri| uri.as_str() == uri_a).count(), 0);
    assert_eq!(fetched, vec![uri_b.to_string()]);
    assert_eq!(classified.len(), 1);
    assert_eq!(classified[0].0.uri, uri_b);
}

#[test]
fn entry_that_was_discarded_is_not_fetched_again() {
    let uri = "http://www.gazette.vic.gov.au/gazette/Gazettes2025/GG2025S1.pdf";
    let mut store = MockDatabaseProvider::new();
    let held = Gazette::discarded_notice("A".to_string(), uri.to_string());
    store.create_entry(&held.storage_key(), &held).unwrap();
    let (classified, fetched) = filter(&vec![entry("A again", uri)], &store, &|_| Ok(true));
    assert!(fetched.is_empty());
    assert!(classified.is_empty());
}

#[test]
fn entry_whose_inspection_fails_is_neither_flagged_nor_discarded() {
    let store = MockDatabaseProvider::new();
    let entries = vec![entry("A", "a.pdf"), entry("B", "b.pdf"), entry("C", "c.pdf")];
    let (classified, fetched) = filter(&entries, &store, &|uri| match uri {
        "a.pdf" => Ok(true),
        "b.pdf" => Err(PipelineError::Fetch),
        _ => Ok(false),
    });
    assert_eq!(fetched.len(), 3);
    let (flagged, discarded) = partition(&classified);
    assert_eq!(pairs(&flagged), vec![("A".to_string(), "a.pdf".to_string())]);
    assert_eq!(pairs(&discarded), vec![("C".to_string(), "c.pdf".to_string())]);
    assert_eq!(uris_of(&flagged), vec!["a.pdf".to_string()]);
}

#[test]
fn phases_follow_one_another_as_documented() {
    assert_eq!(advance(Phase::Lookup, Signal::No), Phase::Inspection);
    assert_eq!(advance(Phase::Lookup, Signal::Yes), Phase::Dropped);
    assert_eq!(advance(Phase::Lookup, Signal::Failed), Phase::Dropped);
    assert_eq!(advance(Phase::Inspection, Signal::Yes), Phase::Enrichment);
    assert_eq!(advance(Phase::Inspection, Signal::No), Phase::Save);
    assert_eq!(advance(Phase::Inspection, Signal::Failed), Phase::Dropped);
    for s in [Signal::Yes, Signal::No, Signal::Failed] {
        assert_eq!(advance(Phase::Enrichment, s), Phase::Done);
        assert_eq!(advance(Phase::Save, s), Phase::Done);
        assert_eq!(advance(Phase::Done, s), Phase::Done);
        assert_eq!(advance(Phase::Dropped, s), Phase::Dropped);
    }
}

#[test]
fn class_is_known_after_a_successful_inspection_only() {
    assert_eq!(inspected_class(advance(Phase::Inspection, Signal::Yes)), Some(true));
    assert_eq!(inspected_class(advance(Phase::Inspection, Signal::No)), Some(false));
    assert_eq!(inspected_class(advance(Phase::Inspection, Signal::Failed)), None);
    assert_eq!(inspected_class(Phase::Lookup), None);
    assert_eq!(inspected_class(Phase::Done), None);
}

#[test]
fn answers_give_their_signals() {
    assert_eq!(signal(&Ok(true)), Signal::Yes);
    assert_eq!(signal(&Ok(false)), Signal::No);
    assert_eq!(signal(&Err(PipelineError::Provider)), Signal::Failed);
}

#[test]
fn partition_keeps_the_order_in_each_part() {
    let outcomes = vec![
        (entry("1", "a"), true),
        (entry("2", "b"), false),
        (entry("3", "c"), true),
        (entry("4", "d"), false),
        (entry("5", "e"), false),
    ];
    let (flagged, discarded) = partition(&outcomes);
    assert_eq!(uris_of(&flagged), vec!["a".to_string(), "c".to_string()]);
    assert_eq!(uris_of(&discarded), vec!["b".to_string(), "d".to_string(), "e".to_string()]);
    let (flagged, discarded) = partition(&vec![]);
    assert!(flagged.is_empty() && discarded.is_empty());
}

#[test]
fn content_hash_of_an_entry_is_that_of_its_address() {
    assert_eq!(entry("any title", "abc").content_hash(), make_hash("abc"));
    assert_eq!(entry("other title", "abc").content_hash(), make_hash("abc"));
}
