use gazette_scraper::utils::hull::comes_before;
use gazette_scraper::utils::hull::lowest_point;
use gazette_scraper::utils::hull::sort_by_angle;
use gazette_scraper::utils::maptypes::contains_point;
use gazette_scraper::utils::maptypes::GeoPosition;
use gazette_scraper::utils::maptypes::MapPolygon;
use gazette_scraper::utils::maptypes::Sanitise;
use gazette_scraper::utils::maptypes::REGION_EAST;
use gazette_scraper::utils::maptypes::REGION_NORTH;
use gazette_scraper::utils::maptypes::REGION_SOUTH;
use gazette_scraper::utils::maptypes::REGION_WEST;
use gazette_scraper::utils::proximity::DistanceTable;

fn at(latitude: i32, longitude: i32) -> GeoPosition {
    GeoPosition { latitude, longitude }
}

fn polygon(points: &[(i32, i32)]) -> MapPolygon {
    MapPolygon { data: points.iter().map(|p| at(p.0, p.1)).collect() }
}

fn pairs(polygon: &MapPolygon) -> Vec<(i32, i32)> {
    polygon.data.iter().map(|p| (p.latitude, p.longitude)).collect()
}

fn inside(p: &GeoPosition) -> bool {
    let latitude = p.latitude as f64 / 1e7;
    let longitude = p.longitude as f64 / 1e7;
    (-39.2..=-33.9).contains(&latitude) && (140.7..=149.0).contains(&longitude)
}

/// Great-circle distance in whole metres, with an earth of 6371 km.
fn haversine_metres(a: &GeoPosition, b: &GeoPosition) -> u32 {
    let lat1 = (a.latitude as f64 / 1e7).to_radians();
    let lat2 = (b.latitude as f64 / 1e7).to_radians();
    let d_lat = lat2 - lat1;
    let d_lng = ((b.longitude as f64 - a.longitude as f64) / 1e7).to_radians();
    let h = (d_lat / 2.0).sin().powi(2) + lat1.cos() * lat2.cos() * (d_lng / 2.0).sin().powi(2);
    (6371.0 * 2.0 * h.sqrt().asin() * 1000.0).round() as u32
}

fn measured(polygon: &MapPolygon) -> DistanceTable {
    let rows = polygon
        .data
        .iter()
        .map(|a| polygon.data.iter().map(|b| haversine_metres(a, b)).collect())
        .collect();
    DistanceTable::new(rows).unwrap()
}

/// Four points at 100 m from each other and a fifth at 1000 m from all.
fn cluster_and_stray() -> (MapPolygon, DistanceTable) {
    let shape = polygon(&[(1, 1), (2, 2), (3, 3), (4, 4), (9, 9)]);
    let mut rows: Vec<Vec<u32>> = Vec::new();
    for i in 0..5 {
        let mut row: Vec<u32> = Vec::new();
        for j in 0..5 {
            row.push(if i == j {
                0
            } else if i == 4 || j == 4 {
                1000
            } else {
                100
            });
        }
        rows.push(row);
    }
    (shape, DistanceTable::new(rows).unwrap())
}

#[test]
fn default_position_is_the_origin() {
    assert_eq!(GeoPosition::default(), at(0, 0));
}

#[test]
fn region_bounds_are_the_documented_degrees() {
    assert_eq!(REGION_SOUTH as f64 / 1e7, -39.2);
    assert_eq!(REGION_NORTH as f64 / 1e7, -33.9);
    assert_eq!(REGION_WEST as f64 / 1e7, 140.7);
    assert_eq!(REGION_EAST as f64 / 1e7, 149.0);
}

#[test]
fn sanitise_keeps_the_edges_and_drops_what_lies_beyond() {
    let mut points = vec![
        at(-392000000, 1407000000),
        at(-392000001, 1407000000),
        at(-339000000, 1490000000),
        at(-339000000, 1490000001),
        at(-378136000, 1449631000),
        at(0, 0),
        at(-338999999, 1449631000),
        at(-378136000, 1406999999),
    ];
    points.sanitise();
    assert_eq!(
        points,
        vec![
            at(-392000000, 1407000000),
            at(-339000000, 1490000000),
            at(-378136000, 1449631000),
        ]
    );
}

#[test]
fn sanitise_keeps_exactly_the_points_inside_for_generated_sets() {
    let mut seed: u64 = 0x2545f4914f6cdd1d;
    for round in 0..200 {
        let mut points: Vec<GeoPosition> = Vec::new();
        for _ in 0..(round % 17) {
            seed = seed.wrapping_mul(6364136223846793005).wrapping_add(1442695040888963407);
            let latitude = -450000000 + ((seed >> 33) % 200000000) as i32;
            seed = seed.wrapping_mul(6364136223846793005).wrapping_add(1442695040888963407);
            let longitude = 1350000000 + ((seed >> 33) % 200000000) as i32;
            points.push(at(latitude, longitude));
        }
        let expected: Vec<GeoPosition> = points.iter().filter(|p| inside(p)).cloned().collect();
        let mut cleaned = points.clone();
        cleaned.sanitise();
        assert_eq!(cleaned, expected);
        assert!(cleaned.iter().all(inside));
    }
}

#[test]
fn sanitise_drops_the_default_position() {
    let mut points = vec![GeoPosition::default(), at(-378136000, 1449631000)];
    points.sanitise();
    assert_eq!(points, vec![at(-378136000, 1449631000)]);
}

#[test]
fn centre_is_the_mean_of_each_coordinate() {
    let shape = polygon(&[(10, 100), (20, 200), (60, 600)]);
    assert_eq!(shape.centre(), at(30, 300));
}

#[test]
fn centre_rounds_toward_zero() {
    assert_eq!(polygon(&[(1, -1), (2, -2)]).centre(), at(1, -1));
    assert_eq!(polygon(&[(7, -7), (0, 0), (0, 0)]).centre(), at(2, -2));
}

#[test]
fn centre_of_extreme_points_does_not_overflow() {
    let shape = polygon(&[(i32::MAX, i32::MIN), (i32::MAX, i32::MIN), (i32::MAX, i32::MIN)]);
    assert_eq!(shape.centre(), at(i32::MAX, i32::MIN));
}

#[test]
fn centre_of_one_point_is_that_point() {
    assert_eq!(polygon(&[(-378136000, 1449631000)]).centre(), at(-378136000, 1449631000));
}

#[test]
fn identical_points_are_removed_in_first_seen_order() {
    let mut shape = polygon(&[(1, 1), (2, 2), (1, 1), (3, 3), (2, 2), (1, 1)]);
    shape.remove_identical_points();
    assert_eq!(pairs(&shape), vec![(1, 1), (2, 2), (3, 3)]);
}

#[test]
fn identical_points_differ_in_either_coordinate() {
    let mut shape = polygon(&[(1, 1), (1, 2), (2, 1), (1, 1)]);
    shape.remove_identical_points();
    assert_eq!(pairs(&shape), vec![(1, 1), (1, 2), (2, 1)]);
}

#[test]
fn fewer_than_three_points_keep_their_repetitions() {
    let mut shape = polygon(&[(1, 1), (1, 1)]);
    shape.remove_identical_points();
    assert_eq!(pairs(&shape), vec![(1, 1), (1, 1)]);
}

#[test]
fn removal_of_identical_points_never_adds_a_point() {
    let mut seed: u64 = 99;
    for round in 0..100 {
        let mut points: Vec<(i32, i32)> = Vec::new();
        for _ in 0..(3 + round % 9) {
            seed = seed.wrapping_mul(6364136223846793005).wrapping_add(1442695040888963407);
            points.push((((seed >> 40) % 3) as i32, ((seed >> 50) % 3) as i32));
        }
        let mut shape = polygon(&points);
        shape.remove_identical_points();
        let left = pairs(&shape);
        assert!(left.len() <= points.len());
        for (i, p) in left.iter().enumerate() {
            assert!(!left[..i].contains(p));
        }
        let mut first_seen: Vec<(i32, i32)> = Vec::new();
        for p in &points {
            if !first_seen.contains(p) {
                first_seen.push(*p);
            }
        }
        assert_eq!(left, first_seen);
    }
}

#[test]
fn removal_calls_can_be_chained() {
    let (mut shape, table) = cluster_and_stray();
    shape.remove_isolated_points(&table, 500, 2).remove_identical_points();
    assert_eq!(pairs(&shape), vec![(1, 1), (2, 2), (3, 3), (4, 4)]);
}

#[test]
fn contains_point_finds_equal_coordinates_only() {
    let points = vec![at(1, 2), at(3, 4)];
    assert!(contains_point(&points, at(3, 4)));
    assert!(!contains_point(&points, at(4, 3)));
}

#[test]
fn hull_of_fewer_than_three_points_is_the_input() {
    assert_eq!(pairs(&polygon(&[]).convex_hull()), vec![]);
    assert_eq!(pairs(&polygon(&[(5, 5)]).convex_hull()), vec![(5, 5)]);
    assert_eq!(pairs(&polygon(&[(5, 5), (1, 1)]).convex_hull()), vec![(5, 5), (1, 1)]);
}

#[test]
fn hull_of_a_square_with_a_point_inside() {
    let shape = polygon(&[(0, 0), (0, 10), (10, 10), (10, 0), (5, 5)]);
    let hull = shape.convex_hull();
    assert_eq!(pairs(&hull), vec![(0, 0), (0, 10), (10, 10), (10, 0), (0, 0)]);
}

#[test]
fn hull_starts_at_the_lowest_point_and_is_closed() {
    let shape = polygon(&[(7, 3), (2, 9), (2, 4), (8, 8), (5, 5), (9, 1)]);
    let hull = shape.convex_hull();
    let points = pairs(&hull);
    assert_eq!(points.first(), Some(&(2, 4)));
    assert_eq!(points.first(), points.last());
    assert_eq!(points, vec![(2, 4), (2, 9), (8, 8), (9, 1), (2, 4)]);
}

#[test]
fn hull_turns_left_at_every_corner() {
    let mut seed: u64 = 7;
    for round in 0..100 {
        let mut points: Vec<(i32, i32)> = Vec::new();
        for _ in 0..(3 + round % 12) {
            seed = seed.wrapping_mul(6364136223846793005).wrapping_add(1442695040888963407);
            points.push((((seed >> 40) % 50) as i32, ((seed >> 20) % 50) as i32));
        }
        let hull = polygon(&points).convex_hull();
        let ring = &hull.data;
        assert!(ring.len() >= 2);
        assert_eq!(ring.first(), ring.last());
        for p in ring {
            assert!(points.contains(&(p.latitude, p.longitude)));
        }
        let open = if ring.len() >= 3 && ring[ring.len() - 2] != ring[0] {
            &ring[..ring.len() - 1]
        } else {
            &ring[..]
        };
        for w in open.windows(3) {
            assert!(GeoPosition::orientation(&w[0], &w[1], &w[2]) > 0);
        }
    }
}

#[test]
fn hull_is_convex_and_does_not_cross_itself() {
    let mut seed: u64 = 2024;
    for round in 0..200 {
        let mut points: Vec<(i32, i32)> = Vec::new();
        for _ in 0..(3 + round % 10) {
            seed = seed.wrapping_mul(6364136223846793005).wrapping_add(1442695040888963407);
            points.push((((seed >> 40) % 7) as i32, ((seed >> 20) % 7) as i32));
        }
        let ring = polygon(&points).convex_hull().data;
        for i in 0..ring.len() - 1 {
            for v in &ring {
                assert!(GeoPosition::orientation(&ring[i], &ring[i + 1], v) >= 0);
            }
            for j in i + 1..ring.len() - 1 {
                let side = |a: &GeoPosition, b: &GeoPosition, c: &GeoPosition| {
                    GeoPosition::orientation(a, b, c).signum()
                };
                let crossing = side(&ring[i], &ring[i + 1], &ring[j])
                    * side(&ring[i], &ring[i + 1], &ring[j + 1])
                    < 0
                    && side(&ring[j], &ring[j + 1], &ring[i])
                        * side(&ring[j], &ring[j + 1], &ring[i + 1])
                        < 0;
                assert!(!crossing);
            }
        }
    }
}

#[test]
fn hull_keeps_the_last_of_the_points_at_one_angle() {
    let hull = polygon(&[(0, 0), (2, 2), (1, 1), (3, -1)]).convex_hull();
    assert_eq!(pairs(&hull), vec![(0, 0), (1, 1), (3, -1), (0, 0)]);
}

#[test]
fn hull_of_points_on_one_line() {
    let hull = polygon(&[(0, 0), (0, 1), (0, 2)]).convex_hull();
    assert_eq!(pairs(&hull), vec![(0, 0), (0, 2), (0, 0)]);
}

#[test]
fn hull_of_identical_points() {
    let hull = polygon(&[(3, 3), (3, 3), (3, 3)]).convex_hull();
    assert_eq!(pairs(&hull), vec![(3, 3), (3, 3)]);
}

#[test]
fn orientation_is_twice_the_signed_area() {
    assert_eq!(GeoPosition::orientation(&at(0, 0), &at(0, 4), &at(3, 0)), 12);
    assert_eq!(GeoPosition::orientation(&at(0, 0), &at(3, 0), &at(0, 4)), -12);
    assert_eq!(GeoPosition::orientation(&at(0, 0), &at(1, 1), &at(2, 2)), 0);
    assert_eq!(
        GeoPosition::orientation(&at(i32::MIN, i32::MIN), &at(i32::MIN, i32::MAX), &at(i32::MAX, i32::MIN)),
        (u32::MAX as i128) * (u32::MAX as i128)
    );
}

#[test]
fn lowest_point_prefers_south_then_west() {
    let points = vec![at(5, 5), at(1, 9), at(1, 3), at(1, 3), at(2, 0)];
    assert_eq!(lowest_point(&points), 2);
}

#[test]
fn angles_ascend_counter_clockwise_from_due_east() {
    let pivot = at(0, 0);
    assert!(comes_before(&pivot, &at(0, 5), &at(5, 5)));
    assert!(comes_before(&pivot, &at(5, 5), &at(5, 0)));
    assert!(comes_before(&pivot, &at(5, 0), &at(5, -5)));
    assert!(!comes_before(&pivot, &at(5, 5), &at(1, 1)));
    assert!(!comes_before(&pivot, &at(1, 1), &at(5, 5)));
    assert!(comes_before(&pivot, &pivot, &at(5, 0)));
    assert!(!comes_before(&pivot, &pivot, &at(0, 5)));
    assert!(!comes_before(&pivot, &at(5, 0), &pivot));
}

#[test]
fn sorting_by_angle_keeps_the_order_of_equal_angles() {
    let pivot = at(0, 0);
    let points = vec![at(5, 0), at(2, 2), at(0, 3), at(1, 1), at(0, 1), at(0, 0)];
    let sorted = sort_by_angle(&pivot, &points);
    assert_eq!(sorted, vec![at(0, 3), at(0, 1), at(0, 0), at(2, 2), at(1, 1), at(5, 0)]);
}

#[test]
fn distance_table_must_be_square() {
    assert!(DistanceTable::new(vec![]).is_some());
    assert!(DistanceTable::new(vec![vec![0, 1], vec![1, 0]]).is_some());
    assert!(DistanceTable::new(vec![vec![0, 1], vec![1]]).is_none());
    assert!(DistanceTable::new(vec![vec![0, 1, 2], vec![1, 0, 2]]).is_none());
}

#[test]
fn distance_table_of_too_many_points_is_refused() {
    let rows: Vec<Vec<u32>> = vec![Vec::new(); 65536];
    assert!(DistanceTable::new(rows).is_none());
}

#[test]
fn distance_table_hands_out_its_entries() {
    let table = DistanceTable::new(vec![vec![0, 7], vec![9, 0]]).unwrap();
    assert_eq!(table.len(), 2);
    assert_eq!(table.between(0, 1), 7);
    assert_eq!(table.between(1, 0), 9);
}

#[test]
fn isolated_points_are_removed() {
    let (mut shape, table) = cluster_and_stray();
    shape.remove_isolated_points(&table, 500, 2);
    assert_eq!(pairs(&shape), vec![(1, 1), (2, 2), (3, 3), (4, 4)]);
}

#[test]
fn isolation_counts_neighbours_within_the_distance_inclusive() {
    let (mut shape, table) = cluster_and_stray();
    shape.remove_isolated_points(&table, 1000, 4);
    assert_eq!(pairs(&shape), vec![(1, 1), (2, 2), (3, 3), (4, 4), (9, 9)]);
    let (mut shape, table) = cluster_and_stray();
    shape.remove_isolated_points(&table, 999, 4);
    assert_eq!(pairs(&shape), vec![]);
    let (mut shape, table) = cluster_and_stray();
    shape.remove_isolated_points(&table, 99, 0);
    assert_eq!(shape.data.len(), 5);
}

#[test]
fn isolation_does_not_count_points_with_the_same_coordinates() {
    let mut shape = polygon(&[(1, 1), (1, 1), (1, 1), (2, 2)]);
    let table = DistanceTable::new(vec![vec![0; 4]; 4]).unwrap();
    shape.remove_isolated_points(&table, 10, 2);
    assert_eq!(pairs(&shape), vec![(2, 2)]);
}

#[test]
fn fewer_than_four_points_are_never_isolated() {
    let mut shape = polygon(&[(1, 1), (2, 2), (3, 3)]);
    let table = DistanceTable::new(vec![vec![4000000; 3]; 3]).unwrap();
    shape.remove_isolated_points(&table, 1, 2);
    assert_eq!(shape.data.len(), 3);
    shape.remove_outliers_by_proximity(&table, 0, 0);
    assert_eq!(shape.data.len(), 3);
}

#[test]
fn outlier_with_a_z_score_of_two_stays_at_threshold_two() {
    let (mut shape, table) = cluster_and_stray();
    shape.remove_outliers_by_proximity(&table, 2000, 50);
    assert_eq!(shape.data.len(), 5);
}

#[test]
fn outlier_with_a_z_score_of_two_leaves_below_threshold_two() {
    let (mut shape, table) = cluster_and_stray();
    shape.remove_outliers_by_proximity(&table, 1999, 50);
    assert_eq!(pairs(&shape), vec![(1, 1), (2, 2), (3, 3), (4, 4)]);
}

#[test]
fn outlier_within_the_buffer_stays() {
    let (mut shape, table) = cluster_and_stray();
    shape.remove_outliers_by_proximity(&table, 0, 1000);
    assert_eq!(shape.data.len(), 5);
}

#[test]
fn points_nearer_than_the_mean_stay_at_threshold_zero() {
    let (mut shape, table) = cluster_and_stray();
    shape.remove_outliers_by_proximity(&table, 0, 0);
    assert_eq!(pairs(&shape), vec![(1, 1), (2, 2), (3, 3), (4, 4)]);
}

#[test]
fn equal_nearest_distances_have_no_z_score() {
    let mut shape = polygon(&[(1, 1), (2, 2), (3, 3), (4, 4)]);
    let table = DistanceTable::new(vec![vec![100; 4]; 4]).unwrap();
    shape.remove_outliers_by_proximity(&table, 3000, 99);
    assert_eq!(pairs(&shape), vec![]);
    let mut shape = polygon(&[(1, 1), (2, 2), (3, 3), (4, 4)]);
    shape.remove_outliers_by_proximity(&table, 3000, 100);
    assert_eq!(shape.data.len(), 4);
}

#[test]
fn points_without_a_neighbour_are_outliers() {
    let mut shape = polygon(&[(1, 1), (1, 1), (1, 1), (1, 1)]);
    let table = DistanceTable::new(vec![vec![0; 4]; 4]).unwrap();
    shape.remove_outliers_by_proximity(&table, 3000, 1000);
    assert_eq!(pairs(&shape), vec![]);
}

#[test]
fn outliers_with_largest_distances_do_not_overflow() {
    let mut shape = polygon(&[(1, 1), (2, 2), (3, 3), (4, 4)]);
    let mut rows = vec![vec![u32::MAX; 4]; 4];
    rows[0] = vec![0, 1, 1, 1];
    let table = DistanceTable::new(rows).unwrap();
    shape.remove_outliers_by_proximity(&table, u16::MAX, 0);
    assert_eq!(shape.data.len(), 4);
}

#[test]
fn measured_distances_remove_a_far_point() {
    let mut shape = polygon(&[
        (-378136000, 1449631000),
        (-378140000, 1449640000),
        (-378130000, 1449620000),
        (-378150000, 1449650000),
        (-360000000, 1460000000),
    ]);
    let table = measured(&shape);
    assert!(table.between(0, 4) > 200000);
    assert!(table.between(0, 1) < 200);
    shape.remove_isolated_points(&table, 5000, 2);
    assert_eq!(shape.data.len(), 4);
    assert!(!shape.data.contains(&at(-360000000, 1460000000)));
}

#[test]
fn polygon_clone_has_the_same_points() {
    let shape = polygon(&[(1, 2), (3, 4)]);
    assert_eq!(pairs(&shape.clone()), vec![(1, 2), (3, 4)]);
    assert_eq!(pairs(&shape.duplicate()), vec![(1, 2), (3, 4)]);
}
