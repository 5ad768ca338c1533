//! Removal of points that lie far from the others.
//!
//! Great-circle distances are not computed here: the caller measures them
//! and hands them over as a table of whole metres, one row for each point.

use vstd::prelude::*;
use crate::utils::maptypes::GeoPosition;
use crate::utils::maptypes::MapPolygon;

verus! {

/// The most points that a table of distances can cover.
pub const MAX_MEASURED_POINTS: usize = 65535;

/// The distances between the points of a polygon, in metres: the entry in
/// row `i` at place `j` is the distance from point `i` to point `j`.
pub struct DistanceTable {
    rows: Vec<Vec<u32>>,
}

impl View for DistanceTable {
    type V = Seq<Seq<u32>>;

    closed spec fn view(&self) -> Seq<Seq<u32>> {
        Seq::new(self.rows@.len(), |i: int| self.rows@[i]@)
    }
}

/// Whether `rows` is a square table of at most `MAX_MEASURED_POINTS` rows.
pub open spec fn square(rows: Seq<Seq<u32>>) -> bool {
    &&& rows.len() <= MAX_MEASURED_POINTS
    &&& forall|i: int| 0 <= i < rows.len() ==> (#[trigger] rows[i]).len() == rows.len()
}

/// The rows of `rows` as sequences.
pub open spec fn rows_of(rows: Seq<Vec<u32>>) -> Seq<Seq<u32>> {
    Seq::new(rows.len(), |i: int| rows[i]@)
}

impl DistanceTable {
    #[verifier::type_invariant]
    spec fn well_formed(self) -> bool {
        square(self@)
    }

    /// The number of points that the table covers.
    pub open spec fn size(&self) -> nat {
        self@.len()
    }

    /// A table of the given rows, or nothing where they do not make a
    /// square or are too many.
    pub fn new(rows: Vec<Vec<u32>>) -> (r: Option<DistanceTable>)
        ensures
            r is Some <==> square(rows_of(rows@)),
            r is Some ==> r->Some_0@ == rows_of(rows@),
    {
        let size: usize = rows.len();
        if size > MAX_MEASURED_POINTS {
            return None;
        }
        let mut i: usize = 0;
        while i < size
            invariant
                size == rows@.len(),
                i <= size,
                forall|k: int| 0 <= k < i ==> (#[trigger] rows@[k])@.len() == size,
            decreases size - i,
        {
            if rows[i].len() != size {
                proof {
                    assert(rows_of(rows@)[i as int].len() != size);
                }
                return None;
            }
            i = i + 1;
        }
        proof {
            assert forall|k: int| 0 <= k < rows_of(rows@).len() implies (#[trigger] rows_of(
                rows@,
            )[k]).len() == rows_of(rows@).len() by {
                assert(rows@[k]@.len() == size);
            }
        }
        Some(DistanceTable { rows })
    }

    /// The number of points that the table covers.
    pub fn len(&self) -> (n: usize)
        ensures
            n == self.size(),
            n <= MAX_MEASURED_POINTS,
    {
        proof {
            use_type_invariant(self);
        }
        self.rows.len()
    }

    /// The distance from point `i` to point `j`.
    pub fn between(&self, i: usize, j: usize) -> (d: u32)
        requires
            i < self.size(),
            j < self.size(),
        ensures
            d == self@[i as int][j as int],
    {
        proof {
            use_type_invariant(self);
            assert(self@[i as int].len() == self@.len());
        }
        self.rows[i][j]
    }
}

/// How many of the first `upto` points differ from point `i` and lie
/// within `limit` metres of it.
pub open spec fn neighbours(
    s: Seq<GeoPosition>,
    d: Seq<Seq<u32>>,
    i: int,
    limit: int,
    upto: int,
) -> nat
    decreases upto,
{
    if upto <= 0 {
        0
    } else {
        let earlier = neighbours(s, d, i, limit, upto - 1);
        if s[upto - 1] != s[i] && d[i][upto - 1] <= limit {
            earlier + 1
        } else {
            earlier
        }
    }
}

/// Those of the first `upto` points that have at least `least` neighbours
/// within `limit` metres, in their order.
pub open spec fn points_in_company(
    s: Seq<GeoPosition>,
    d: Seq<Seq<u32>>,
    limit: int,
    least: int,
    upto: int,
) -> Seq<GeoPosition>
    decreases upto,
{
    if upto <= 0 {
        Seq::empty()
    } else {
        let earlier = points_in_company(s, d, limit, least, upto - 1);
        if neighbours(s, d, upto - 1, limit, s.len() as int) >= least {
            earlier.push(s[upto - 1])
        } else {
            earlier
        }
    }
}

/// The least distance from point `i` to one of the first `upto` points that
/// differ from it; nothing where there is none.
pub open spec fn nearest(s: Seq<GeoPosition>, d: Seq<Seq<u32>>, i: int, upto: int) -> Option<int>
    decreases upto,
{
    if upto <= 0 {
        None
    } else {
        let earlier = nearest(s, d, i, upto - 1);
        if s[upto - 1] != s[i] {
            match earlier {
                Some(least) if least <= d[i][upto - 1] => earlier,
                _ => Some(d[i][upto - 1] as int),
            }
        } else {
            earlier
        }
    }
}

/// The nearest-neighbour distance of point `i`, zero where it has none.
pub open spec fn nearest_or_zero(s: Seq<GeoPosition>, d: Seq<Seq<u32>>, i: int) -> int {
    match nearest(s, d, i, s.len() as int) {
        Some(least) => least,
        None => 0,
    }
}

/// The sum of the nearest-neighbour distances of the first `upto` points.
pub open spec fn nearest_total(s: Seq<GeoPosition>, d: Seq<Seq<u32>>, upto: int) -> int
    decreases upto,
{
    if upto <= 0 {
        0
    } else {
        nearest_total(s, d, upto - 1) + nearest_or_zero(s, d, upto - 1)
    }
}

/// The sum of the squares of the nearest-neighbour distances of the first
/// `upto` points.
pub open spec fn nearest_squares(s: Seq<GeoPosition>, d: Seq<Seq<u32>>, upto: int) -> int
    decreases upto,
{
    if upto <= 0 {
        0
    } else {
        nearest_squares(s, d, upto - 1) + nearest_or_zero(s, d, upto - 1) * nearest_or_zero(
            s,
            d,
            upto - 1,
        )
    }
}

/// Whether the z-score of `distance` is at most `threshold` thousandths,
/// among `count` distances with the sum `total` and the sum of squares
/// `squares`. The z-score is `(distance - mean) / deviation`, with the
/// population standard deviation; where the deviation is zero there is no
/// z-score and the answer is no.
pub open spec fn within_spread(
    count: int,
    total: int,
    squares: int,
    distance: int,
    threshold: int,
) -> bool {
    let spread = count * squares - total * total;
    let excess = count * distance - total;
    spread > 0 && (excess <= 0 || 1000000 * (excess * excess) <= (threshold * threshold) * spread)
}

/// Whether point `i` stays when outliers are removed: its nearest neighbour
/// is within `buffer` metres, or the z-score of that distance is at most
/// `threshold` thousandths.
pub open spec fn near_enough(
    s: Seq<GeoPosition>,
    d: Seq<Seq<u32>>,
    i: int,
    threshold: int,
    buffer: int,
) -> bool {
    match nearest(s, d, i, s.len() as int) {
        Some(least) => least <= buffer || within_spread(
            s.len() as int,
            nearest_total(s, d, s.len() as int),
            nearest_squares(s, d, s.len() as int),
            least,
            threshold,
        ),
        None => false,
    }
}

/// Those of the first `upto` points that are near enough to the others, in
/// their order.
pub open spec fn points_near_enough(
    s: Seq<GeoPosition>,
    d: Seq<Seq<u32>>,
    threshold: int,
    buffer: int,
    upto: int,
) -> Seq<GeoPosition>
    decreases upto,
{
    if upto <= 0 {
        Seq::empty()
    } else {
        let earlier = points_near_enough(s, d, threshold, buffer, upto - 1);
        if near_enough(s, d, upto - 1, threshold, buffer) {
            earlier.push(s[upto - 1])
        } else {
            earlier
        }
    }
}

/// What is left of `s` when isolated points are removed: `s` itself where
/// it has fewer than four points, else the points that have at least
/// `least` neighbours within `limit` metres.
pub open spec fn without_isolated(
    s: Seq<GeoPosition>,
    d: Seq<Seq<u32>>,
    limit: int,
    least: int,
) -> Seq<GeoPosition> {
    if s.len() < 4 {
        s
    } else {
        points_in_company(s, d, limit, least, s.len() as int)
    }
}

/// What is left of `s` when outliers are removed: `s` itself where it has
/// fewer than four points, else the points that are near enough to the
/// others.
pub open spec fn without_outliers(
    s: Seq<GeoPosition>,
    d: Seq<Seq<u32>>,
    threshold: int,
    buffer: int,
) -> Seq<GeoPosition> {
    if s.len() < 4 {
        s
    } else {
        points_near_enough(s, d, threshold, buffer, s.len() as int)
    }
}

/// The points that stay in company are points of `s`, and no more than
/// were looked at.
pub proof fn lemma_points_in_company_come_from_input(
    s: Seq<GeoPosition>,
    d: Seq<Seq<u32>>,
    limit: int,
    least: int,
    upto: int,
)
    requires
        0 <= upto <= s.len(),
    ensures
        points_in_company(s, d, limit, least, upto).len() <= upto,
        forall|k: int|
            0 <= k < points_in_company(s, d, limit, least, upto).len() ==> s.contains(
                #[trigger] points_in_company(s, d, limit, least, upto)[k],
            ),
    decreases upto,
{
    if upto > 0 {
        lemma_points_in_company_come_from_input(s, d, limit, least, upto - 1);
        let earlier = points_in_company(s, d, limit, least, upto - 1);
        assert forall|k: int|
            0 <= k < points_in_company(s, d, limit, least, upto).len() implies s.contains(
            #[trigger] points_in_company(s, d, limit, least, upto)[k],
        ) by {
            if k < earlier.len() {
                assert(points_in_company(s, d, limit, least, upto)[k] == earlier[k]);
            } else {
                assert(s[upto - 1] == points_in_company(s, d, limit, least, upto)[k]);
            }
        }
    }
}

/// The points that are near enough are points of `s`, and no more than
/// were looked at.
pub proof fn lemma_points_near_enough_come_from_input(
    s: Seq<GeoPosition>,
    d: Seq<Seq<u32>>,
    threshold: int,
    buffer: int,
    upto: int,
)
    requires
        0 <= upto <= s.len(),
    ensures
        points_near_enough(s, d, threshold, buffer, upto).len() <= upto,
        forall|k: int|
            0 <= k < points_near_enough(s, d, threshold, buffer, upto).len() ==> s.contains(
                #[trigger] points_near_enough(s, d, threshold, buffer, upto)[k],
            ),
    decreases upto,
{
    if upto > 0 {
        lemma_points_near_enough_come_from_input(s, d, threshold, buffer, upto - 1);
        let earlier = points_near_enough(s, d, threshold, buffer, upto - 1);
        assert forall|k: int|
            0 <= k < points_near_enough(s, d, threshold, buffer, upto).len() implies s.contains(
            #[trigger] points_near_enough(s, d, threshold, buffer, upto)[k],
        ) by {
            if k < earlier.len() {
                assert(points_near_enough(s, d, threshold, buffer, upto)[k] == earlier[k]);
            } else {
                assert(s[upto - 1] == points_near_enough(s, d, threshold, buffer, upto)[k]);
            }
        }
    }
}

fn count_neighbours(
    points: &Vec<GeoPosition>,
    distances: &DistanceTable,
    i: usize,
    limit: u32,
) -> (count: usize)
    requires
        distances.size() == points@.len(),
        i < points@.len(),
    ensures
        count == neighbours(points@, distances@, i as int, limit as int, points@.len() as int),
{
    let mut count: usize = 0;
    let mut j: usize = 0;
    while j < points.len()
        invariant
            distances.size() == points@.len(),
            i < points@.len(),
            j <= points@.len(),
            count <= j,
            count == neighbours(points@, distances@, i as int, limit as int, j as int),
        decreases points@.len() - j,
    {
        if points[j] != points[i] && distances.between(i, j) <= limit {
            count = count + 1;
        }
        j = j + 1;
    }
    count
}

fn nearest_distance(points: &Vec<GeoPosition>, distances: &DistanceTable, i: usize) -> (least:
    Option<u32>)
    requires
        distances.size() == points@.len(),
        i < points@.len(),
    ensures
        match least {
            Some(x) => nearest(points@, distances@, i as int, points@.len() as int) == Some(
                x as int,
            ),
            None => nearest(points@, distances@, i as int, points@.len() as int) is None,
        },
{
    let mut least: Option<u32> = None;
    let mut j: usize = 0;
    while j < points.len()
        invariant
            distances.size() == points@.len(),
            i < points@.len(),
            j <= points@.len(),
            match least {
                Some(x) => nearest(points@, distances@, i as int, j as int) == Some(x as int),
                None => nearest(points@, distances@, i as int, j as int) is None,
            },
        decreases points@.len() - j,
    {
        if points[j] != points[i] {
            let here = distances.between(i, j);
            match least {
                Some(x) => {
                    if x > here {
                        least = Some(here);
                    }
                },
                None => {
                    least = Some(here);
                },
            }
        }
        j = j + 1;
    }
    least
}

impl MapPolygon {
    /// Keeps the points that have at least `min_neighbours` other points
    /// within `distance_limit` metres. A polygon of fewer than four points
    /// is left as it is.
    pub fn remove_isolated_points(
        &mut self,
        distances: &DistanceTable,
        distance_limit: u32,
        min_neighbours: usize,
    ) -> (r: &mut Self)
        requires
            distances.size() == old(self)@.len(),
        ensures
            r@ == without_isolated(
                old(self)@,
                distances@,
                distance_limit as int,
                min_neighbours as int,
            ),
            r@.len() <= old(self)@.len(),
            forall|k: int| 0 <= k < r@.len() ==> old(self)@.contains(#[trigger] r@[k]),
            *final(self) == *final(r),
    {
        proof {
            lemma_points_in_company_come_from_input(
                self@,
                distances@,
                distance_limit as int,
                min_neighbours as int,
                self@.len() as int,
            );
        }
        if self.data.len() < 4 {
            return self;
        }
        let mut kept: Vec<GeoPosition> = Vec::new();
        let mut i: usize = 0;
        while i < self.data.len()
            invariant
                distances.size() == self.data@.len(),
                i <= self.data@.len(),
                kept@ == points_in_company(
                    self.data@,
                    distances@,
                    distance_limit as int,
                    min_neighbours as int,
                    i as int,
                ),
            decreases self.data@.len() - i,
        {
            if count_neighbours(&self.data, distances, i, distance_limit) >= min_neighbours {
                kept.push(self.data[i]);
            }
            i = i + 1;
        }
        self.data = kept;
        self
    }
}

proof fn lemma_product_grows(a: int, b: int, c: int, d: int)
    requires
        0 <= a <= c,
        0 <= b <= d,
    ensures
        0 <= a * b <= c * d,
{
    assert(0 <= a * b <= c * d) by (nonlinear_arith)
        requires
            0 <= a <= c,
            0 <= b <= d,
    ;
}

/// Whether the z-score of `distance` is at most `threshold` thousandths.
fn spread_allows(count: usize, total: u64, squares: u128, distance: u32, threshold: u16) -> (r:
    bool)
    requires
        count <= MAX_MEASURED_POINTS,
        total <= count * 0xffff_ffff,
        squares <= count * (0xffff_ffff * 0xffff_ffff),
    ensures
        r == within_spread(
            count as int,
            total as int,
            squares as int,
            distance as int,
            threshold as int,
        ),
{
    let n: u128 = count as u128;
    let sum: u128 = total as u128;
    proof {
        lemma_product_grows(count as int, 0xffff_ffffint, 65535int, 0xffff_ffffint);
        lemma_product_grows(count as int, 0xffff_ffffint * 0xffff_ffffint, 65535int, 0xffff_ffffint * 0xffff_ffffint);
        lemma_product_grows(count as int, squares as int, 65535int, 65535int * (0xffff_ffffint * 0xffff_ffffint));
        lemma_product_grows(total as int, total as int, 65535int * 0xffff_ffffint, 65535int * 0xffff_ffffint);
        lemma_product_grows(count as int, distance as int, 65535int, 0xffff_ffffint);
    }
    let scaled_squares: u128 = n * squares;
    let squared_sum: u128 = sum * sum;
    if scaled_squares <= squared_sum {
        return false;
    }
    let spread: u128 = scaled_squares - squared_sum;
    let scaled_distance: u128 = n * (distance as u128);
    if scaled_distance <= sum {
        return true;
    }
    let excess: u128 = scaled_distance - sum;
    let limit: u128 = threshold as u128;
    proof {
        lemma_product_grows(excess as int, excess as int, 65535int * 0xffff_ffffint, 65535int * 0xffff_ffffint);
        lemma_product_grows(
            1000000int,
            excess * excess,
            1000000int,
            (65535int * 0xffff_ffffint) * (65535int * 0xffff_ffffint),
        );
        lemma_product_grows(limit as int, limit as int, 65535int, 65535int);
        lemma_product_grows(
            limit * limit,
            spread as int,
            65535int * 65535int,
            65535int * (65535int * (0xffff_ffffint * 0xffff_ffffint)),
        );
    }
    let left: u128 = 1000000 * (excess * excess);
    let right: u128 = (limit * limit) * spread;
    left <= right
}

impl MapPolygon {
    /// Keeps the points whose nearest neighbour lies within `buffer`
    /// metres, or whose nearest-neighbour distance has a z-score, among
    /// those of all points, of at most `threshold` thousandths. A polygon
    /// of fewer than four points is left as it is.
    pub fn remove_outliers_by_proximity(
        &mut self,
        distances: &DistanceTable,
        threshold: u16,
        buffer: u32,
    ) -> (r: &mut Self)
        requires
            distances.size() == old(self)@.len(),
        ensures
            r@ == without_outliers(old(self)@, distances@, threshold as int, buffer as int),
            r@.len() <= old(self)@.len(),
            forall|k: int| 0 <= k < r@.len() ==> old(self)@.contains(#[trigger] r@[k]),
            *final(self) == *final(r),
    {
        proof {
            lemma_points_near_enough_come_from_input(
                self@,
                distances@,
                threshold as int,
                buffer as int,
                self@.len() as int,
            );
        }
        if self.data.len() < 4 {
            return self;
        }
        let count: usize = distances.len();
        let mut nearest_distances: Vec<Option<u32>> = Vec::new();
        let mut total: u64 = 0;
        let mut squares: u128 = 0;
        let mut i: usize = 0;
        while i < count
            invariant
                count == self.data@.len(),
                count <= MAX_MEASURED_POINTS,
                distances.size() == self.data@.len(),
                i <= count,
                nearest_distances@.len() == i,
                forall|k: int|
                    0 <= k < i ==> match #[trigger] nearest_distances@[k] {
                        Some(x) => nearest(self.data@, distances@, k, count as int) == Some(
                            x as int,
                        ),
                        None => nearest(self.data@, distances@, k, count as int) is None,
                    },
                total == nearest_total(self.data@, distances@, i as int),
                squares == nearest_squares(self.data@, distances@, i as int),
                total <= i * 0xffff_ffff,
                squares <= i * (0xffff_ffff * 0xffff_ffff),
            decreases count - i,
        {
            let least = nearest_distance(&self.data, distances, i);
            let known: u32 = match least {
                Some(x) => x,
                None => 0,
            };
            proof {
                assert(known == nearest_or_zero(self.data@, distances@, i as int));
                lemma_product_grows(known as int, known as int, 0xffff_ffffint, 0xffff_ffffint);
                lemma_product_grows(i as int, 0xffff_ffffint, 65535int, 0xffff_ffffint);
                lemma_product_grows(
                    i as int,
                    0xffff_ffffint * 0xffff_ffffint,
                    65535int,
                    0xffff_ffffint * 0xffff_ffffint,
                );
                assert((i + 1) * 0xffff_ffff == i * 0xffff_ffff + 0xffff_ffff)
                    by (nonlinear_arith);
                assert((i + 1) * (0xffff_ffff * 0xffff_ffff) == i * (0xffff_ffff * 0xffff_ffff)
                    + 0xffff_ffff * 0xffff_ffff) by (nonlinear_arith);
            }
            total = total + known as u64;
            squares = squares + (known as u128) * (known as u128);
            nearest_distances.push(least);
            i = i + 1;
        }
        let mut kept: Vec<GeoPosition> = Vec::new();
        let mut i: usize = 0;
        while i < count
            invariant
                count == self.data@.len(),
                count <= MAX_MEASURED_POINTS,
                i <= count,
                nearest_distances@.len() == count,
                forall|k: int|
                    0 <= k < count ==> match #[trigger] nearest_distances@[k] {
                        Some(x) => nearest(self.data@, distances@, k, count as int) == Some(
                            x as int,
                        ),
                        None => nearest(self.data@, distances@, k, count as int) is None,
                    },
                total == nearest_total(self.data@, distances@, count as int),
                squares == nearest_squares(self.data@, distances@, count as int),
                total <= count * 0xffff_ffff,
                squares <= count * (0xffff_ffff * 0xffff_ffff),
                kept@ == points_near_enough(
                    self.data@,
                    distances@,
                    threshold as int,
                    buffer as int,
                    i as int,
                ),
            decreases count - i,
        {
            let stays = match nearest_distances[i] {
                Some(least) => least <= buffer || spread_allows(
                    count,
                    total,
                    squares,
                    least,
                    threshold,
                ),
                None => false,
            };
            proof {
                assert(stays == near_enough(
                    self.data@,
                    distances@,
                    i as int,
                    threshold as int,
                    buffer as int,
                ));
            }
            if stays {
                kept.push(self.data[i]);
            }
            i = i + 1;
        }
        self.data = kept;
        self
    }
}

} // verus!
