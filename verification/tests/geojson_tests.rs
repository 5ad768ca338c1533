use gazette_scraper::utils::dates::CalendarDate;
use gazette_scraper::utils::gazette::Gazette;
use gazette_scraper::utils::geojson::display_geometry;
use gazette_scraper::utils::geojson::feature_of;
use gazette_scraper::utils::geojson::image_address;
use gazette_scraper::utils::geojson::outline;
use gazette_scraper::utils::geojson::ring_of;
use gazette_scraper::utils::geojson::GeoJsonFeatureCollection;
use gazette_scraper::utils::geojson::GeoJsonGeometry;
use gazette_scraper::utils::maptypes::GeoPosition;
use gazette_scraper::utils::maptypes::MapPolygon;
use gazette_scraper::utils::proximity::DistanceTable;

fn polygon(points: &[(i32, i32)]) -> MapPolygon {
    MapPolygon {
        data: points.iter().map(|p| GeoPosition { latitude: p.0, longitude: p.1 }).collect(),
    }
}

fn near(count: usize) -> DistanceTable {
    DistanceTable::new(vec![vec![10; count]; count]).unwrap()
}

#[test]
fn coordinates_hold_the_longitude_first() {
    assert_eq!(GeoPosition { latitude: -378136000, longitude: 1449631000 }.coordinates(), [
        1449631000,
        -378136000
    ]);
    assert_eq!(ring_of(&polygon(&[(1, 2), (3, 4)])), vec![[2, 1], [4, 3]]);
}

#[test]
fn new_collection_is_empty() {
    let collection = GeoJsonFeatureCollection::new();
    assert_eq!(collection.type_field, "FeatureCollection");
    assert!(collection.features.is_empty());
}

#[test]
fn many_points_are_drawn_as_their_hull() {
    let shape = polygon(&[(0, 0), (0, 10), (10, 10), (10, 0), (5, 5), (0, 0)]);
    match display_geometry(&shape, &near(6)) {
        Some(GeoJsonGeometry::Polygon { coordinates }) => {
            assert_eq!(coordinates, vec![vec![[0, 0], [10, 0], [10, 10], [0, 10], [0, 0]]]);
        }
        other => panic!("not a polygon: {other:?}"),
    }
}

#[test]
fn few_points_are_drawn_as_their_centre() {
    match display_geometry(&polygon(&[(10, 100), (30, 300)]), &near(2)) {
        Some(GeoJsonGeometry::Point { coordinates }) => assert_eq!(coordinates, [200, 20]),
        other => panic!("not a point: {other:?}"),
    }
    match display_geometry(&polygon(&[(1, 1), (1, 1), (1, 1), (3, 3), (3, 3)]), &near(5)) {
        Some(GeoJsonGeometry::Point { coordinates }) => assert_eq!(coordinates, [2, 2]),
        other => panic!("not a point: {other:?}"),
    }
}

#[test]
fn isolated_points_are_not_drawn() {
    let shape = polygon(&[(1, 1), (2, 2), (3, 3), (4, 4)]);
    let far = DistanceTable::new(vec![vec![5001; 4]; 4]).unwrap();
    assert!(display_geometry(&shape, &far).is_none());
    let at_the_limit = DistanceTable::new(vec![vec![5000; 4]; 4]).unwrap();
    assert!(display_geometry(&shape, &at_the_limit).is_some());
    assert!(display_geometry(&polygon(&[]), &near(0)).is_none());
}

#[test]
fn outline_is_the_hull_without_outliers() {
    let shape = polygon(&[(0, 0), (0, 10), (10, 10), (10, 0), (0, 0), (90, 90)]);
    let mut rows = vec![vec![100u32; 6]; 6];
    for i in 0..6 {
        rows[i][5] = 100000;
        rows[5][i] = 100000;
    }
    let table = DistanceTable::new(rows).unwrap();
    let ring = outline(&shape, &table, 1000, 200);
    let points: Vec<(i32, i32)> = ring.data.iter().map(|p| (p.latitude, p.longitude)).collect();
    assert_eq!(points, vec![(0, 0), (0, 10), (10, 10), (10, 0), (0, 0)]);
}

#[test]
fn image_address_stands_behind_the_storage_address() {
    assert_eq!(
        image_address("https://storage/", &Some("abc.jpg".to_string())),
        Some("https://storage/abc.jpg".to_string())
    );
    assert_eq!(image_address("https://storage/", &None), None);
}

#[test]
fn feature_holds_what_is_known_of_the_notice() {
    let mut record = Gazette::flagged_notice("Title".to_string(), "http://h/a.pdf".to_string());
    record.img_uri = Some("abc.jpg".to_string());
    record.polygon = Some(polygon(&[(0, 0), (0, 10), (10, 10), (10, 0)]));
    record.start = Some(CalendarDate { year: 2025, month: 9, day: 1 });
    let feature = feature_of(&record, &near(4), "https://storage/").unwrap();
    assert_eq!(feature.type_field, "Feature");
    assert_eq!(feature.properties.title, Some("Title".to_string()));
    assert_eq!(feature.properties.uri, "http://h/a.pdf");
    assert_eq!(feature.properties.img_uri, Some("https://storage/abc.jpg".to_string()));
    assert_eq!(feature.properties.start, "2025-09-01");
    assert_eq!(feature.properties.end, "");
    assert!(matches!(feature.geometry, GeoJsonGeometry::Polygon { .. }));
}

#[test]
fn notice_without_a_polygon_has_no_feature() {
    let record = Gazette::flagged_notice("Title".to_string(), "http://h/a.pdf".to_string());
    assert!(feature_of(&record, &near(0), "").is_none());
}
