//! Positions, polygons and the clean-up operations on point sets.
//!
//! A coordinate is a whole number of 1e-7 degrees, which covers the globe
//! within an `i32`. Equality, ordering and the region test are therefore
//! exact.

use vstd::prelude::*;

verus! {

/// Southern edge of the target region (-39.2 degrees).
pub const REGION_SOUTH: i32 = -392000000;

/// Northern edge of the target region (-33.9 degrees).
pub const REGION_NORTH: i32 = -339000000;

/// Western edge of the target region (140.7 degrees).
pub const REGION_WEST: i32 = 1407000000;

/// Eastern edge of the target region (149.0 degrees).
pub const REGION_EAST: i32 = 1490000000;

/// A position on the globe, each coordinate in units of 1e-7 degree.
#[derive(Clone, Copy, Debug, PartialEq, Eq, Structural)]
pub struct GeoPosition {
    pub latitude: i32,
    pub longitude: i32,
}

impl Default for GeoPosition {
    /// The origin, which stands for a position that could not be found.
    fn default() -> (r: Self)
        ensures
            r == (GeoPosition { latitude: 0, longitude: 0 }),
    {
        GeoPosition { latitude: 0, longitude: 0 }
    }
}

/// Clean-up of a point set that came from a provider whose answers may be
/// wildly off.
pub trait Sanitise {
    /// Drops what cannot be right.
    fn sanitise(&mut self);
}

/// An ordered sequence of positions.
#[derive(Debug)]
pub struct MapPolygon {
    pub data: Vec<GeoPosition>,
}

impl View for MapPolygon {
    type V = Seq<GeoPosition>;

    open spec fn view(&self) -> Seq<GeoPosition> {
        self.data@
    }
}

impl MapPolygon {
    /// A polygon of the same points.
    pub fn duplicate(&self) -> (r: MapPolygon)
        ensures
            r@ == self@,
    {
        let mut data: Vec<GeoPosition> = Vec::new();
        let mut i: usize = 0;
        while i < self.data.len()
            invariant
                i <= self.data@.len(),
                data@ == self.data@.take(i as int),
            decreases self.data@.len() - i,
        {
            data.push(self.data[i]);
            proof {
                assert(self.data@.take(i + 1) == self.data@.take(i as int).push(
                    self.data@[i as int],
                ));
            }
            i = i + 1;
        }
        proof {
            assert(self.data@.take(self.data@.len() as int) == self.data@);
        }
        MapPolygon { data }
    }
}

impl Clone for MapPolygon {
    fn clone(&self) -> (r: Self)
        ensures
            r@ == self@,
    {
        self.duplicate()
    }
}

/// Whether a position lies inside the target region, edges included.
pub open spec fn in_region(p: GeoPosition) -> bool {
    &&& REGION_SOUTH <= p.latitude <= REGION_NORTH
    &&& REGION_WEST <= p.longitude <= REGION_EAST
}

/// The points of `s` that lie inside the target region, in their order.
pub open spec fn region_points(s: Seq<GeoPosition>) -> Seq<GeoPosition> {
    s.filter(|p: GeoPosition| in_region(p))
}

/// The points of `s` without repetitions: each value stays at the place
/// where it is first seen.
pub open spec fn distinct_points(s: Seq<GeoPosition>) -> Seq<GeoPosition>
    decreases s.len(),
{
    if s.len() == 0 {
        Seq::empty()
    } else {
        let earlier = distinct_points(s.drop_last());
        if earlier.contains(s.last()) {
            earlier
        } else {
            earlier.push(s.last())
        }
    }
}

/// What is left of `s` when identical points are removed: `s` itself where
/// it has fewer than three points, else its points without repetitions.
pub open spec fn without_identical(s: Seq<GeoPosition>) -> Seq<GeoPosition> {
    if s.len() < 3 {
        s
    } else {
        distinct_points(s)
    }
}

/// Sum of the latitudes of `s`.
pub open spec fn latitude_sum(s: Seq<GeoPosition>) -> int
    decreases s.len(),
{
    if s.len() == 0 {
        0
    } else {
        latitude_sum(s.drop_last()) + s.last().latitude
    }
}

/// Sum of the longitudes of `s`.
pub open spec fn longitude_sum(s: Seq<GeoPosition>) -> int
    decreases s.len(),
{
    if s.len() == 0 {
        0
    } else {
        longitude_sum(s.drop_last()) + s.last().longitude
    }
}

/// `total` divided by `count`, rounded toward zero.
pub open spec fn mean_toward_zero(total: int, count: int) -> int
    recommends
        count > 0,
{
    if total >= 0 {
        total / count
    } else {
        -((-total) / count)
    }
}

/// The arithmetic mean of the points of `s`, each coordinate rounded toward
/// zero to the next unit.
pub open spec fn centre_of(s: Seq<GeoPosition>) -> GeoPosition
    recommends
        s.len() > 0,
{
    GeoPosition {
        latitude: mean_toward_zero(latitude_sum(s), s.len() as int) as i32,
        longitude: mean_toward_zero(longitude_sum(s), s.len() as int) as i32,
    }
}

proof fn lemma_sum_bounds(s: Seq<GeoPosition>)
    ensures
        -(s.len() * 0x8000_0000) <= latitude_sum(s) <= s.len() * 0x7fff_ffff,
        -(s.len() * 0x8000_0000) <= longitude_sum(s) <= s.len() * 0x7fff_ffff,
    decreases s.len(),
{
    if s.len() > 0 {
        lemma_sum_bounds(s.drop_last());
        assert(s.drop_last().len() == s.len() - 1);
        assert((s.len() - 1) * 0x8000_0000 == s.len() * 0x8000_0000 - 0x8000_0000)
            by (nonlinear_arith);
        assert((s.len() - 1) * 0x7fff_ffff == s.len() * 0x7fff_ffff - 0x7fff_ffff)
            by (nonlinear_arith);
    }
}

proof fn lemma_mean_bounds(total: int, count: int)
    requires
        count > 0,
        -(count * 0x8000_0000) <= total <= count * 0x7fff_ffff,
    ensures
        -0x8000_0000 <= mean_toward_zero(total, count) <= 0x7fff_ffff,
{
    if total >= 0 {
        assert(total / count <= 0x7fff_ffff) by (nonlinear_arith)
            requires
                count > 0,
                0 <= total <= count * 0x7fff_ffff,
        ;
        assert(total / count >= 0) by (nonlinear_arith)
            requires
                count > 0,
                0 <= total,
        ;
    } else {
        assert((-total) / count <= 0x8000_0000) by (nonlinear_arith)
            requires
                count > 0,
                0 <= -total <= count * 0x8000_0000,
        ;
        assert((-total) / count >= 0) by (nonlinear_arith)
            requires
                count > 0,
                0 <= -total,
        ;
    }
}

fn mean_coordinate(total: i128, count: usize) -> (r: i32)
    requires
        count > 0,
        -(count * 0x8000_0000) <= total <= count * 0x7fff_ffff,
    ensures
        r == mean_toward_zero(total as int, count as int),
{
    proof {
        lemma_mean_bounds(total as int, count as int);
    }
    let n: i128 = count as i128;
    if total >= 0 {
        (total / n) as i32
    } else {
        let magnitude: i128 = -total;
        (-(magnitude / n)) as i32
    }
}

impl MapPolygon {
    /// The arithmetic mean of the points.
    pub fn centre(&self) -> (r: GeoPosition)
        requires
            self@.len() > 0,
        ensures
            r == centre_of(self@),
    {
        let count: usize = self.data.len();
        let mut latitudes: i128 = 0;
        let mut longitudes: i128 = 0;
        let mut i: usize = 0;
        while i < count
            invariant
                count == self.data@.len(),
                i <= count,
                latitudes == latitude_sum(self.data@.take(i as int)),
                longitudes == longitude_sum(self.data@.take(i as int)),
            decreases count - i,
        {
            proof {
                let next = self.data@.take(i + 1);
                assert(next.drop_last() == self.data@.take(i as int));
                assert(next.last() == self.data@[i as int]);
                lemma_sum_bounds(self.data@.take(i as int));
                assert(i * 0x8000_0000 <= 0xffff_ffff_ffff_ffff * 0x8000_0000)
                    by (nonlinear_arith)
                    requires
                        i <= 0xffff_ffff_ffff_ffff,
                ;
                assert(i * 0x7fff_ffff <= 0xffff_ffff_ffff_ffff * 0x7fff_ffff)
                    by (nonlinear_arith)
                    requires
                        i <= 0xffff_ffff_ffff_ffff,
                ;
            }
            latitudes = latitudes + self.data[i].latitude as i128;
            longitudes = longitudes + self.data[i].longitude as i128;
            i = i + 1;
        }
        proof {
            assert(self.data@.take(count as int) == self.data@);
            lemma_sum_bounds(self.data@);
        }
        GeoPosition {
            latitude: mean_coordinate(latitudes, count),
            longitude: mean_coordinate(longitudes, count),
        }
    }

    /// Drops every repetition of a point, keeping the first of each. A
    /// polygon of fewer than three points is left as it is.
    pub fn remove_identical_points(&mut self) -> (r: &mut Self)
        ensures
            r@ == without_identical(old(self)@),
            r@.len() <= old(self)@.len(),
            old(self)@.len() >= 3 ==> r@.no_duplicates(),
            old(self)@.len() >= 3 ==> in_first_seen_order(old(self)@, r@),
            forall|p: GeoPosition| r@.contains(p) <==> old(self)@.contains(p),
            *final(self) == *final(r),
    {
        proof {
            lemma_distinct_points_are_distinct(self@);
            let places = lemma_distinct_points_keep_order(self@);
            if self@.len() >= 3 {
                assert(in_first_seen_order(self@, distinct_points(self@))) by {
                    assert(ascending_first_places(self@, distinct_points(self@), places));
                }
            }
        }
        if self.data.len() < 3 {
            return self;
        }
        let mut filtered: Vec<GeoPosition> = Vec::new();
        let count: usize = self.data.len();
        let mut i: usize = 0;
        while i < count
            invariant
                count == self.data@.len(),
                i <= count,
                filtered@ == distinct_points(self.data@.take(i as int)),
            decreases count - i,
        {
            let point = self.data[i];
            let seen = contains_point(&filtered, point);
            proof {
                let next = self.data@.take(i + 1);
                assert(next.drop_last() == self.data@.take(i as int));
                assert(next.last() == point);
            }
            if !seen {
                filtered.push(point);
            }
            i = i + 1;
        }
        proof {
            assert(self.data@.take(count as int) == self.data@);
        }
        self.data = filtered;
        self
    }
}

/// Whether `point` occurs in `points`.
pub fn contains_point(points: &Vec<GeoPosition>, point: GeoPosition) -> (r: bool)
    ensures
        r == points@.contains(point),
{
    let mut i: usize = 0;
    while i < points.len()
        invariant
            i <= points@.len(),
            forall|k: int| 0 <= k < i ==> points@[k] != point,
        decreases points@.len() - i,
    {
        if points[i] == point {
            return true;
        }
        i = i + 1;
    }
    false
}

impl Sanitise for Vec<GeoPosition> {
    /// Drops every point that lies outside the target region.
    fn sanitise(&mut self)
        ensures
            final(self)@ == region_points(old(self)@),
            forall|k: int| 0 <= k < final(self)@.len() ==> in_region(#[trigger] final(self)@[k]),
            forall|p: GeoPosition|
                #![trigger final(self)@.to_multiset().count(p)]
                final(self)@.to_multiset().count(p) == if in_region(p) {
                    old(self)@.to_multiset().count(p)
                } else {
                    0
                },
    {
        proof {
            lemma_region_points_are_those_inside(self@);
        }
        let mut kept: Vec<GeoPosition> = Vec::new();
        let count: usize = self.len();
        let mut i: usize = 0;
        while i < count
            invariant
                count == self@.len(),
                i <= count,
                kept@ == region_points(self@.take(i as int)),
            decreases count - i,
        {
            let point = self[i];
            proof {
                let seen = self@.take(i as int);
                assert(self@.take(i + 1) == seen.push(point));
                seen.lemma_filter_push(point, |p: GeoPosition| in_region(p));
            }
            if REGION_SOUTH <= point.latitude && point.latitude <= REGION_NORTH
                && REGION_WEST <= point.longitude && point.longitude <= REGION_EAST {
                kept.push(point);
            }
            i = i + 1;
        }
        proof {
            assert(self@.take(count as int) == self@);
        }
        *self = kept;
    }
}

/// The clean-up keeps exactly the points inside the target region: every
/// point that is left lies inside, and every point of `s` that lies inside
/// is left, as often as it occurs in `s`.
pub proof fn lemma_region_points_are_those_inside(s: Seq<GeoPosition>)
    ensures
        forall|k: int|
            0 <= k < region_points(s).len() ==> in_region(#[trigger] region_points(s)[k]),
        forall|p: GeoPosition|
            #![trigger region_points(s).to_multiset().count(p)]
            region_points(s).to_multiset().count(p) == if in_region(p) {
                s.to_multiset().count(p)
            } else {
                0
            },
        region_points(s).len() <= s.len(),
    decreases s.len(),
{
    broadcast use {vstd::seq_lib::to_multiset_build, vstd::multiset::group_multiset_axioms};

    let inside = |p: GeoPosition| in_region(p);
    if s.len() == 0 {
        assert(region_points(s) == s);
        s.to_multiset_ensures();
        assert forall|p: GeoPosition| s.to_multiset().count(p) == 0 by {
            if s.to_multiset().count(p) > 0 {
                assert(s.to_multiset().contains(p));
                assert(s.contains(p));
            }
        }
    } else {
        let front = s.drop_last();
        lemma_region_points_are_those_inside(front);
        assert(s == front.push(s.last()));
        front.lemma_filter_push(s.last(), inside);
        assert(s.to_multiset() == front.to_multiset().insert(s.last()));
        assert forall|p: GeoPosition|
            #![trigger region_points(s).to_multiset().count(p)]
            region_points(s).to_multiset().count(p) == if in_region(p) {
                s.to_multiset().count(p)
            } else {
                0
            } by {
            if in_region(s.last()) {
                assert(region_points(s) == region_points(front).push(s.last()));
                assert(region_points(s).to_multiset() == region_points(
                    front,
                ).to_multiset().insert(s.last()));
            } else {
                assert(region_points(s) == region_points(front));
            }
        }
        assert forall|k: int| 0 <= k < region_points(s).len() implies in_region(
            #[trigger] region_points(s)[k],
        ) by {
            if k < region_points(front).len() {
                assert(region_points(s)[k] == region_points(front)[k]);
            }
        }
    }
}

/// Whether `place` is where the value `p` is first seen in `s`.
pub open spec fn first_seen_at(s: Seq<GeoPosition>, p: GeoPosition, place: int) -> bool {
    &&& 0 <= place < s.len()
    &&& s[place] == p
    &&& forall|j: int| 0 <= j < place ==> s[j] != p
}

/// Removing repetitions leaves no more points than there were, no value
/// twice, and exactly the values of `s`.
pub proof fn lemma_distinct_points_are_distinct(s: Seq<GeoPosition>)
    ensures
        distinct_points(s).len() <= s.len(),
        distinct_points(s).no_duplicates(),
        forall|p: GeoPosition| distinct_points(s).contains(p) <==> s.contains(p),
    decreases s.len(),
{
    if s.len() > 0 {
        let front = s.drop_last();
        let earlier = distinct_points(front);
        lemma_distinct_points_are_distinct(front);
        assert forall|p: GeoPosition| distinct_points(s).contains(p) <==> s.contains(p) by {
            if distinct_points(s).contains(p) {
                let k = choose|k: int|
                    0 <= k < distinct_points(s).len() && distinct_points(s)[k] == p;
                if k < earlier.len() {
                    assert(earlier[k] == p);
                    assert(front.contains(p));
                    let m = choose|m: int| 0 <= m < front.len() && front[m] == p;
                    assert(s[m] == p);
                } else {
                    assert(s[s.len() - 1] == p);
                }
            }
            if s.contains(p) {
                let m = choose|m: int| 0 <= m < s.len() && s[m] == p;
                if m < s.len() - 1 {
                    assert(front[m] == p);
                    assert(front.contains(p));
                    assert(earlier.contains(p));
                    let k = choose|k: int| 0 <= k < earlier.len() && earlier[k] == p;
                    assert(distinct_points(s)[k] == p);
                } else if earlier.contains(p) {
                } else {
                    assert(distinct_points(s)[earlier.len() as int] == p);
                }
            }
        }
    }
}

/// Whether `places` are the places at which the points of `r` are first
/// seen in `s`, and ascend.
pub open spec fn ascending_first_places(
    s: Seq<GeoPosition>,
    r: Seq<GeoPosition>,
    places: Seq<int>,
) -> bool {
    &&& places.len() == r.len()
    &&& forall|k: int| 0 <= k < places.len() ==> first_seen_at(s, r[k], #[trigger] places[k])
    &&& forall|a: int, b: int| 0 <= a < b < places.len() ==> places[a] < places[b]
}

/// Whether the points of `r` stand in the order in which their values are
/// first seen in `s`.
pub open spec fn in_first_seen_order(s: Seq<GeoPosition>, r: Seq<GeoPosition>) -> bool {
    exists|places: Seq<int>| #[trigger] ascending_first_places(s, r, places)
}

/// Removing repetitions keeps the order in which the values are first seen:
/// the places at which the points that are left are first seen in `s` ascend.
pub proof fn lemma_distinct_points_keep_order(s: Seq<GeoPosition>) -> (places: Seq<int>)
    ensures
        places.len() == distinct_points(s).len(),
        forall|k: int|
            0 <= k < places.len() ==> first_seen_at(s, distinct_points(s)[k], #[trigger] places[k]),
        forall|a: int, b: int| 0 <= a < b < places.len() ==> places[a] < places[b],
    decreases s.len(),
{
    if s.len() == 0 {
        Seq::empty()
    } else {
        let front = s.drop_last();
        let earlier = distinct_points(front);
        let before = lemma_distinct_points_keep_order(front);
        lemma_distinct_points_are_distinct(front);
        assert forall|k: int| 0 <= k < before.len() implies first_seen_at(
            s,
            earlier[k],
            #[trigger] before[k],
        ) by {
            assert(first_seen_at(front, earlier[k], before[k]));
            assert(s[before[k]] == front[before[k]]);
            assert forall|j: int| 0 <= j < before[k] implies s[j] != earlier[k] by {
                assert(s[j] == front[j]);
            }
        }
        if earlier.contains(s.last()) {
            before
        } else {
            let places = before.push(s.len() - 1);
            assert forall|j: int| 0 <= j < s.len() - 1 implies s[j] != s.last() by {
                assert(front[j] == s[j]);
                if s[j] == s.last() {
                    assert(front.contains(s.last()));
                }
            }
            assert forall|k: int| 0 <= k < places.len() implies first_seen_at(
                s,
                distinct_points(s)[k],
                #[trigger] places[k],
            ) by {
                if k < before.len() {
                    assert(places[k] == before[k]);
                    assert(distinct_points(s)[k] == earlier[k]);
                }
            }
            assert forall|a: int, b: int| 0 <= a < b < places.len() implies places[a]
                < places[b] by {
                assert(first_seen_at(s, earlier[a], before[a]));
                if b < before.len() {
                    assert(places[a] == before[a] && places[b] == before[b]);
                } else {
                    assert(first_seen_at(front, earlier[a], before[a]));
                }
            }
            places
        }
    }
}

} // verus!
