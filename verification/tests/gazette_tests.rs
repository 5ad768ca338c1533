use chrono::Datelike;
use gazette_scraper::error::PipelineError;
use gazette_scraper::utils::dates::date_range;
use gazette_scraper::utils::dates::date_range_in_text;
use gazette_scraper::utils::dates::date_text;
use gazette_scraper::utils::dates::dates_in_tokens;
use gazette_scraper::utils::dates::find_declaration_clause;
use gazette_scraper::utils::dates::parse_date_text_in_year;
use gazette_scraper::utils::dates::read_token;
use gazette_scraper::utils::dates::CalendarDate;
use gazette_scraper::utils::gazette::area_hint;
use gazette_scraper::utils::gazette::get_operation_area;
use gazette_scraper::utils::gazette::make_hash;
use gazette_scraper::utils::gazette::polygon_from_positions;
use gazette_scraper::utils::gazette::positions_or_default;
use gazette_scraper::utils::gazette::Gazette;
use gazette_scraper::utils::hash::to_hex;
use gazette_scraper::utils::maptypes::GeoPosition;
use gazette_scraper::utils::maptypes::MapPolygon;
use gazette_scraper::utils::pattern::find_captures;
use gazette_scraper::utils::pattern::first_found;

fn day(year: i32, month: u32, day: u32) -> CalendarDate {
    CalendarDate { year, month, day }
}

#[test]
fn hash_of_known_inputs_is_pinned() {
    assert_eq!(make_hash("abc"), "a9993e364706816aba3e25717850c26c9cd0d89d");
    assert_eq!(make_hash(""), "da39a3ee5e6b4b0d3255bfef95601890afd80709");
    assert_eq!(
        make_hash("The quick brown fox jumps over the lazy dog"),
        "2fd4e1c67a2d28fced849ee1bb76e7391b93eb12"
    );
}

#[test]
fn hash_is_deterministic_and_tells_the_corpus_apart() {
    let corpus = [
        "http://www.gazette.vic.gov.au/gazette/Gazettes2025/GG2025S467.pdf",
        "http://www.gazette.vic.gov.au/gazette/Gazettes2025/GG2025S737.pdf",
        "http://www.gazette.vic.gov.au/gazette/Gazettes2025/GG2025S738.pdf",
        "http://www.gazette.vic.gov.au/gazette/Gazettes2025/gg2025s737.pdf",
        "",
        "a",
        "b",
    ];
    for (i, a) in corpus.iter().enumerate() {
        assert_eq!(make_hash(a), make_hash(a));
        assert_eq!(make_hash(a).len(), 40);
        for b in corpus.iter().skip(i + 1) {
            assert_ne!(make_hash(a), make_hash(b));
        }
    }
}

#[test]
fn hash_takes_the_utf8_bytes_of_the_text() {
    assert_eq!(make_hash("\u{e9}"), "bf15be717ac1b080b4f1c456692825891ff5073d");
}

#[test]
fn hex_has_two_lower_case_digits_for_each_byte() {
    assert_eq!(to_hex(&[0x00, 0x0f, 0xa0, 0xff, 0x5c]), "000fa0ff5c");
    assert_eq!(to_hex(&[]), "");
}

#[test]
fn storage_key_has_the_prefix_of_the_class() {
    let uri = "http://www.gazette.vic.gov.au/gazette/Gazettes2025/GG2025S467.pdf";
    let flagged = Gazette::flagged_notice("A notice".to_string(), uri.to_string());
    let discarded = Gazette::discarded_notice("A notice".to_string(), uri.to_string());
    assert_eq!(flagged.storage_key(), format!("flagged:{}", make_hash(uri)));
    assert_eq!(discarded.storage_key(), format!("discarded:{}", make_hash(uri)));
}

#[test]
fn storage_key_ignores_the_title() {
    let a = Gazette::flagged_notice("One title".to_string(), "abc".to_string());
    let b = Gazette::flagged_notice("Another title".to_string(), "abc".to_string());
    assert_eq!(a.storage_key(), b.storage_key());
    assert_eq!(a.storage_key(), "flagged:a9993e364706816aba3e25717850c26c9cd0d89d");
}

#[test]
fn image_filename_is_the_hash_and_the_suffix() {
    let record = Gazette::flagged_notice("t".to_string(), "abc".to_string());
    assert_eq!(record.image_filename(), "a9993e364706816aba3e25717850c26c9cd0d89d.jpg");
}

#[test]
fn new_records_hold_title_address_and_class_only() {
    let flagged = Gazette::flagged_notice("T".to_string(), "U".to_string());
    assert_eq!(flagged.uri, "U");
    assert_eq!(flagged.title, Some("T".to_string()));
    assert!(flagged.flagged);
    assert!(flagged.img_uri.is_none() && flagged.polygon.is_none());
    assert!(flagged.start.is_none() && flagged.end.is_none());
    let discarded = Gazette::discarded_notice("T".to_string(), "U".to_string());
    assert!(!discarded.flagged);
    assert_eq!(discarded.title, Some("T".to_string()));
    let empty = Gazette::default();
    assert_eq!(empty.uri, "");
    assert!(empty.title.is_none() && !empty.flagged);
}

#[test]
fn failed_sub_operations_leave_their_fields_empty() {
    let mut record = Gazette::flagged_notice("T".to_string(), "U".to_string());
    record.record_image(Err(PipelineError::Provider));
    record.record_polygon(Err(PipelineError::Parse));
    record.record_dates(Err(PipelineError::ExtractionNotFound));
    assert!(record.img_uri.is_none());
    assert!(record.polygon.is_none());
    assert!(record.start.is_none() && record.end.is_none());
    assert!(record.flagged);
    assert_eq!(record.title, Some("T".to_string()));
}

#[test]
fn results_of_sub_operations_fill_their_fields() {
    let mut record = Gazette::flagged_notice("T".to_string(), "U".to_string());
    record.record_image(Ok(Some("x.jpg".to_string())));
    record.record_polygon(Ok(Some(MapPolygon {
        data: vec![GeoPosition { latitude: 1, longitude: 2 }],
    })));
    record.record_dates(Ok((day(2025, 9, 1), day(2025, 10, 11))));
    assert_eq!(record.img_uri, Some("x.jpg".to_string()));
    assert_eq!(record.polygon.as_ref().unwrap().data.len(), 1);
    assert_eq!(record.start, Some(day(2025, 9, 1)));
    assert_eq!(record.end, Some(day(2025, 10, 11)));
    record.record_image(Ok(None));
    assert!(record.img_uri.is_none());
    let copy = record.clone();
    assert_eq!(copy.uri, "U");
    assert_eq!(copy.start, Some(day(2025, 9, 1)));
    assert_eq!(copy.polygon.unwrap().data, vec![GeoPosition { latitude: 1, longitude: 2 }]);
}

#[test]
fn test_date_regex() {
    let date_string = "1.00 pm on Monday 1 September, to 1.59 am on Saturday  11 October 2025";
    let date_result = Gazette::parse_date_text(date_string);

    assert!(
        date_result.is_ok(),
        "Date regex failed to parse date string: {date_string}",
    );

    let dates = date_result.unwrap();
    assert_eq!(dates.len(), 2);
    assert_eq!(dates[0], day(chrono::Local::now().year(), 9, 1));
    assert_eq!(dates[1], day(2025, 10, 11));

    let date_string = "1.00 pm on Monday 1 September, to 1.59 am on Saturday  11 October";
    let date_result = Gazette::parse_date_text(date_string);

    assert!(
        date_result.is_ok(),
        "Date regex failed to parse date string: {date_string}",
    );

    let dates = date_result.unwrap();
    assert_eq!(dates.len(), 2);
    assert_eq!(dates[0], day(chrono::Local::now().year(), 9, 1));
    assert_eq!(dates[1], day(chrono::Local::now().year(), 10, 11));

    let date_string =
        "1.00 pm on Monday 1 September 2199, to 1.59 am on Saturday 11 October 2275";
    let date_result = Gazette::parse_date_text(date_string);

    assert!(
        date_result.is_ok(),
        "Date regex failed to parse date string: {date_string}"
    );

    let dates = date_result.unwrap();
    assert_eq!(dates.len(), 2);
    assert_eq!(dates[0], day(2199, 9, 1));
    assert_eq!(dates[1], day(2275, 10, 11));
}

#[test]
fn dates_without_a_year_take_the_year_of_the_clock() {
    let dates = Gazette::parse_date_text("on 7 July").unwrap();
    assert_eq!(dates, vec![day(chrono::Local::now().year(), 7, 7)]);
}

#[test]
fn dates_without_a_year_take_the_year_given() {
    let dates = parse_date_text_in_year("from 1 September to 11 October 2025", 2024).unwrap();
    assert_eq!(dates, vec![day(2024, 9, 1), day(2025, 10, 11)]);
}

#[test]
fn tokens_that_name_no_day_are_passed_over() {
    let dates = parse_date_text_in_year("on 31 February 2025, 12 Osprey and 3 March 2025", 2025);
    assert_eq!(dates.unwrap(), vec![day(2025, 3, 3)]);
    assert_eq!(parse_date_text_in_year("no day is named here", 2025).unwrap(), vec![]);
}

#[test]
fn a_token_is_read_with_and_without_its_year() {
    assert_eq!(read_token("11 October 2025", 1999), Some(day(2025, 10, 11)));
    assert_eq!(read_token("11 October", 1999), Some(day(1999, 10, 11)));
    assert_eq!(read_token("29 February", 2024), Some(day(2024, 2, 29)));
    assert_eq!(read_token("29 February", 2025), None);
    assert_eq!(read_token("11 Octember", 2025), None);
}

#[test]
fn tokens_are_read_in_their_order() {
    let tokens = vec![
        Some("5 May 2030".to_string()),
        None,
        Some("nothing".to_string()),
        Some("1 January".to_string()),
    ];
    assert_eq!(dates_in_tokens(&tokens, 2020), vec![day(2030, 5, 5), day(2020, 1, 1)]);
}

#[test]
fn range_runs_from_the_earliest_day_to_the_next() {
    assert_eq!(date_range(&vec![]), None);
    assert_eq!(date_range(&vec![day(2025, 9, 1)]), Some((day(2025, 9, 1), day(2025, 9, 1))));
    assert_eq!(
        date_range(&vec![day(2025, 10, 11), day(2025, 9, 1)]),
        Some((day(2025, 9, 1), day(2025, 10, 11)))
    );
    assert_eq!(
        date_range(&vec![day(2026, 1, 1), day(2025, 12, 31), day(2025, 12, 30), day(2027, 1, 1)]),
        Some((day(2025, 12, 30), day(2025, 12, 31)))
    );
    assert_eq!(
        date_range(&vec![day(2025, 9, 1), day(2025, 9, 1), day(2025, 9, 2)]),
        Some((day(2025, 9, 1), day(2025, 9, 1)))
    );
}

#[test]
fn days_are_ordered_by_year_month_and_day() {
    assert!(day(2024, 12, 31).is_before(&day(2025, 1, 1)));
    assert!(day(2025, 1, 31).is_before(&day(2025, 2, 1)));
    assert!(day(2025, 2, 1).is_before(&day(2025, 2, 2)));
    assert!(!day(2025, 2, 2).is_before(&day(2025, 2, 2)));
    assert!(!day(2025, 2, 3).is_before(&day(2025, 2, 2)));
}

#[test]
fn date_range_of_the_declaration_scenario() {
    let text = "This declaration will be in place from 1 September to 11 October 2025.";
    assert_eq!(date_range_in_text(text, 2025), Ok((day(2025, 9, 1), day(2025, 10, 11))));
    assert_eq!(date_range_in_text(text, 2024), Ok((day(2024, 9, 1), day(2025, 10, 11))));
}

#[test]
fn date_range_is_in_ascending_order_whatever_the_year() {
    let text = "This declaration will be in place from 1 September to 11 October 2025.";
    assert_eq!(date_range_in_text(text, 2026), Ok((day(2025, 10, 11), day(2026, 9, 1))));
}

#[test]
fn date_range_of_one_day_starts_and_ends_there() {
    let text = "The declared Designated Area will be operating on 3 March 2025. Then 4 April 2025";
    assert_eq!(date_range_in_text(text, 2025), Ok((day(2025, 3, 3), day(2025, 3, 3))));
}

#[test]
fn date_range_needs_an_opening_phrase_and_a_day() {
    assert_eq!(
        date_range_in_text("In place from 1 September 2025.", 2025),
        Err(PipelineError::ExtractionNotFound)
    );
    assert_eq!(
        date_range_in_text("This declaration will operate as follows: always. 1 May 2025", 2025),
        Err(PipelineError::ExtractionNotFound)
    );
    assert_eq!(date_range_in_text("", 2025), Err(PipelineError::ExtractionNotFound));
}

#[test]
fn clause_runs_from_the_phrase_to_the_end_of_the_sentence() {
    assert_eq!(
        find_declaration_clause("Before. This declaration will be in place  from A\nto B .C. D"),
        Some("from Ato B .C".to_string())
    );
    assert_eq!(
        find_declaration_clause("This declaration will operate as follows: x"),
        Some(": x".to_string())
    );
    assert_eq!(
        find_declaration_clause("The declared Designated Area will be operating"),
        Some("".to_string())
    );
    assert_eq!(find_declaration_clause("This declaration will be"), None);
}

#[test]
fn clause_of_the_first_phrase_of_the_list_counts() {
    let text = "The declared Designated Area will be operating now. \
                This declaration will be in place later. ";
    assert_eq!(find_declaration_clause(text), Some("later".to_string()));
}

#[test]
fn clause_is_found_across_a_line_break() {
    assert_eq!(
        find_declaration_clause("This declaration will be in\n place on 1 May.\n Next"),
        Some("on 1 May".to_string())
    );
}

#[test]
fn date_text_is_year_month_day() {
    assert_eq!(date_text(&Some(day(2025, 9, 1))), "2025-09-01");
    assert_eq!(date_text(&Some(day(987, 12, 31))), "0987-12-31");
    assert_eq!(date_text(&None), "");
    assert_eq!(date_text(&Some(day(2025, 2, 30))), "");
}

#[test]
fn operation_area_is_what_follows_the_opening_words() {
    let text = "Notice\nPlanned Operation in Melbourne CBD\nPlanned Operation in Geelong\n";
    assert_eq!(get_operation_area(text), Ok("Melbourne CBD".to_string()));
    assert_eq!(area_hint(text), "Melbourne CBD");
}

#[test]
fn missing_operation_area_is_recoverable() {
    assert_eq!(
        get_operation_area("No operation is planned"),
        Err(PipelineError::ExtractionNotFound)
    );
    assert_eq!(area_hint("No operation is planned"), "");
}

#[test]
fn captures_are_the_texts_of_the_group_in_each_match() {
    assert_eq!(
        find_captures(r"(\d+)-(x)?", "1- 22-x 333-", 0),
        Ok(vec![Some("1-".to_string()), Some("22-x".to_string()), Some("333-".to_string())])
    );
    assert_eq!(
        find_captures(r"(\d+)-(x)?", "1- 22-x 333-", 2),
        Ok(vec![None, Some("x".to_string()), None])
    );
    assert_eq!(find_captures(r"(\d+)-(x)?", "1- 22-x", 9), Ok(vec![None, None]));
    assert_eq!(find_captures("a", "bbb", 0), Ok(vec![]));
    assert_eq!(find_captures("(", "text", 0), Err(PipelineError::Parse));
}

#[test]
fn first_capture_that_took_part_is_found() {
    assert_eq!(first_found(&vec![None, Some("a".to_string()), Some("b".to_string())]), Some("a".to_string()));
    assert_eq!(first_found(&vec![None, None]), None);
    assert_eq!(first_found(&vec![]), None);
}

#[test]
fn failed_positions_become_the_origin() {
    let outcomes = vec![
        Ok(GeoPosition { latitude: -378136000, longitude: 1449631000 }),
        Err(PipelineError::Provider),
        Ok(GeoPosition { latitude: 1, longitude: 2 }),
        Err(PipelineError::ExtractionNotFound),
    ];
    assert_eq!(
        positions_or_default(&outcomes),
        vec![
            GeoPosition { latitude: -378136000, longitude: 1449631000 },
            GeoPosition { latitude: 0, longitude: 0 },
            GeoPosition { latitude: 1, longitude: 2 },
            GeoPosition { latitude: 0, longitude: 0 },
        ]
    );
    assert_eq!(
        polygon_from_positions(&outcomes).data,
        vec![GeoPosition { latitude: -378136000, longitude: 1449631000 }]
    );
}

#[test]
fn errors_describe_themselves() {
    assert_eq!(PipelineError::Fetch.message(), "fetch failed");
    assert_eq!(PipelineError::Parse.message(), "unexpected structure");
    assert_eq!(PipelineError::Provider.message(), "provider failed");
    assert_eq!(PipelineError::ExtractionNotFound.message(), "nothing found");
}
