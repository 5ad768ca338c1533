//! The convex hull of a polygon's points by a sweep around its lowest point.

use vstd::prelude::*;
use crate::utils::convexity::bends_left;
use crate::utils::crossing::edges_cross;
use crate::utils::crossing::lemma_hull_does_not_cross_itself;
use crate::utils::maptypes::GeoPosition;
use crate::utils::maptypes::MapPolygon;

verus! {

/// Twice the signed area of the triangle `p`, `q`, `r`, with the longitude
/// as abscissa and the latitude as ordinate: positive where the three make a
/// counter-clockwise turn, zero where they lie on one line.
pub open spec fn turn(p: GeoPosition, q: GeoPosition, r: GeoPosition) -> int {
    (q.longitude - p.longitude) * (r.latitude - p.latitude) - (q.latitude - p.latitude) * (
    r.longitude - p.longitude)
}

/// Whether `a` lies lower than `b`: further south, or as far south and
/// further west.
pub open spec fn lower(a: GeoPosition, b: GeoPosition) -> bool {
    a.latitude < b.latitude || (a.latitude == b.latitude && a.longitude < b.longitude)
}

/// The index of the lowest point of `s`, the first one where several are
/// equal.
pub open spec fn lowest_index(s: Seq<GeoPosition>) -> int
    decreases s.len(),
{
    if s.len() <= 1 {
        0
    } else {
        let earlier = lowest_index(s.drop_last());
        if lower(s.last(), s[earlier]) {
            s.len() - 1
        } else {
            earlier
        }
    }
}

/// Whether `a` is met before `b` when a ray from `pivot` turns
/// counter-clockwise from due east. It is meant for points that are not
/// lower than `pivot`; a point equal to `pivot` counts as lying due east.
pub open spec fn angle_before(pivot: GeoPosition, a: GeoPosition, b: GeoPosition) -> bool {
    if a == pivot {
        b.latitude > pivot.latitude
    } else if b == pivot {
        false
    } else {
        turn(pivot, a, b) > 0
    }
}

/// `sorted` with `x` put in behind every point that `x` is not before.
pub open spec fn insert_by_angle(
    pivot: GeoPosition,
    sorted: Seq<GeoPosition>,
    x: GeoPosition,
) -> Seq<GeoPosition>
    decreases sorted.len(),
{
    if sorted.len() > 0 && angle_before(pivot, x, sorted.last()) {
        insert_by_angle(pivot, sorted.drop_last(), x).push(sorted.last())
    } else {
        sorted.push(x)
    }
}

/// The points of `s` in the order of their angle around `pivot`; points
/// of equal angle keep the order they have in `s`.
pub open spec fn sorted_by_angle(pivot: GeoPosition, s: Seq<GeoPosition>) -> Seq<GeoPosition>
    decreases s.len(),
{
    if s.len() == 0 {
        Seq::empty()
    } else {
        insert_by_angle(pivot, sorted_by_angle(pivot, s.drop_last()), s.last())
    }
}

/// `stack` without the points at its top that do not make a strict
/// counter-clockwise turn with `point`.
pub open spec fn settle(stack: Seq<GeoPosition>, point: GeoPosition) -> Seq<GeoPosition>
    decreases stack.len(),
{
    if stack.len() >= 2 && turn(stack[stack.len() - 2], stack.last(), point) <= 0 {
        settle(stack.drop_last(), point)
    } else {
        stack
    }
}

/// The stack of hull points after the sweep from `pivot` over `points`.
pub open spec fn swept(pivot: GeoPosition, points: Seq<GeoPosition>) -> Seq<GeoPosition>
    decreases points.len(),
{
    if points.len() == 0 {
        seq![pivot]
    } else {
        settle(swept(pivot, points.drop_last()), points.last()).push(points.last())
    }
}

/// The turn that the three points of `chain` from the place `i` on make.
pub open spec fn turn_at(chain: Seq<GeoPosition>, i: int) -> int {
    turn(chain[i], chain[i + 1], chain[i + 2])
}

/// `chain` with its first point repeated at the end, unless it ends there
/// already.
pub open spec fn closed(chain: Seq<GeoPosition>) -> Seq<GeoPosition> {
    if chain.len() > 0 && chain[0] != chain.last() {
        chain.push(chain[0])
    } else {
        chain
    }
}

/// The hull before it is closed: the sweep from the lowest point of `s`
/// over the other points in the order of their angle.
pub open spec fn open_hull(s: Seq<GeoPosition>) -> Seq<GeoPosition>
    recommends
        s.len() > 0,
{
    let lowest = lowest_index(s);
    swept(s[lowest], sorted_by_angle(s[lowest], s.remove(lowest)))
}

/// The convex hull of `s`: `s` itself where it has fewer than three points,
/// else the closed boundary that the sweep leaves.
pub open spec fn hull_of(s: Seq<GeoPosition>) -> Seq<GeoPosition> {
    if s.len() < 3 {
        s
    } else {
        closed(open_hull(s))
    }
}

/// The lowest index is an index of `s`, no point of `s` is lower than the
/// point there, and every point before it is strictly higher.
pub proof fn lemma_lowest_index(s: Seq<GeoPosition>)
    requires
        s.len() > 0,
    ensures
        0 <= lowest_index(s) < s.len(),
        forall|j: int| 0 <= j < s.len() ==> !lower(#[trigger] s[j], s[lowest_index(s)]),
        forall|j: int| 0 <= j < lowest_index(s) ==> lower(s[lowest_index(s)], #[trigger] s[j]),
    decreases s.len(),
{
    if s.len() > 1 {
        let front = s.drop_last();
        lemma_lowest_index(front);
        let earlier = lowest_index(front);
        assert(front[earlier] == s[earlier]);
        assert forall|j: int| 0 <= j < s.len() implies !lower(
            #[trigger] s[j],
            s[lowest_index(s)],
        ) by {
            if j < s.len() - 1 {
                assert(front[j] == s[j]);
            }
        }
        assert forall|j: int| 0 <= j < lowest_index(s) implies lower(
            s[lowest_index(s)],
            #[trigger] s[j],
        ) by {
            assert(front[j] == s[j]);
        }
    }
}

/// Inserting keeps every point and adds the new one.
pub proof fn lemma_insert_permutes(pivot: GeoPosition, sorted: Seq<GeoPosition>, x: GeoPosition)
    ensures
        insert_by_angle(pivot, sorted, x).to_multiset() == sorted.to_multiset().insert(x),
        insert_by_angle(pivot, sorted, x).len() == sorted.len() + 1,
    decreases sorted.len(),
{
    broadcast use vstd::seq_lib::to_multiset_build;

    if sorted.len() > 0 && angle_before(pivot, x, sorted.last()) {
        let front = sorted.drop_last();
        lemma_insert_permutes(pivot, front, x);
        assert(sorted == front.push(sorted.last()));
        assert(front.to_multiset().insert(x).insert(sorted.last()) == front.to_multiset().insert(
            sorted.last(),
        ).insert(x));
    }
}

/// Sorting by angle rearranges the points and neither adds nor drops one.
pub proof fn lemma_sorted_permutes(pivot: GeoPosition, s: Seq<GeoPosition>)
    ensures
        sorted_by_angle(pivot, s).to_multiset() == s.to_multiset(),
        sorted_by_angle(pivot, s).len() == s.len(),
    decreases s.len(),
{
    broadcast use vstd::seq_lib::to_multiset_build;

    if s.len() == 0 {
        assert(sorted_by_angle(pivot, s) == s);
    } else {
        let front = s.drop_last();
        lemma_sorted_permutes(pivot, front);
        lemma_insert_permutes(pivot, sorted_by_angle(pivot, front), s.last());
        assert(s == front.push(s.last()));
    }
}

/// Whether no point of `s` is before a point that stands earlier in `s`.
pub open spec fn angles_ascend(pivot: GeoPosition, s: Seq<GeoPosition>) -> bool {
    forall|i: int, j: int| 0 <= i < j < s.len() ==> !angle_before(pivot, s[j], s[i])
}

proof fn lemma_insert_place(pivot: GeoPosition, sorted: Seq<GeoPosition>, x: GeoPosition) -> (k:
    int)
    ensures
        0 <= k <= sorted.len(),
        insert_by_angle(pivot, sorted, x) == sorted.insert(k, x),
        forall|j: int| k <= j < sorted.len() ==> angle_before(pivot, x, #[trigger] sorted[j]),
        k > 0 ==> !angle_before(pivot, x, sorted[k - 1]),
    decreases sorted.len(),
{
    if sorted.len() > 0 && angle_before(pivot, x, sorted.last()) {
        let front = sorted.drop_last();
        let k = lemma_insert_place(pivot, front, x);
        assert(front.insert(k, x).push(sorted.last()) =~= sorted.insert(k, x));
        assert forall|j: int| k <= j < sorted.len() implies angle_before(
            pivot,
            x,
            #[trigger] sorted[j],
        ) by {
            if j < sorted.len() - 1 {
                assert(front[j] == sorted[j]);
            }
        }
        if k > 0 {
            assert(front[k - 1] == sorted[k - 1]);
        }
        k
    } else {
        assert(sorted.push(x) =~= sorted.insert(sorted.len() as int, x));
        sorted.len() as int
    }
}


impl GeoPosition {
    /// Twice the signed area of the triangle `p`, `q`, `r`.
    pub fn orientation(p: &GeoPosition, q: &GeoPosition, r: &GeoPosition) -> (area: i128)
        ensures
            area == turn(*p, *q, *r),
    {
        let qx: i64 = q.longitude as i64 - p.longitude as i64;
        let qy: i64 = q.latitude as i64 - p.latitude as i64;
        let rx: i64 = r.longitude as i64 - p.longitude as i64;
        let ry: i64 = r.latitude as i64 - p.latitude as i64;
        proof {
            lemma_product_bound(qx as int, ry as int);
            lemma_product_bound(qy as int, rx as int);
        }
        (qx as i128) * (ry as i128) - (qy as i128) * (rx as i128)
    }
}

proof fn lemma_product_bound(a: int, b: int)
    requires
        -0x1_0000_0000 < a < 0x1_0000_0000,
        -0x1_0000_0000 < b < 0x1_0000_0000,
    ensures
        -0x1_0000_0000_0000_0000 < a * b < 0x1_0000_0000_0000_0000,
{
    assert(-0x1_0000_0000_0000_0000 < a * b < 0x1_0000_0000_0000_0000) by (nonlinear_arith)
        requires
            -0x1_0000_0000 < a < 0x1_0000_0000,
            -0x1_0000_0000 < b < 0x1_0000_0000,
    ;
}

/// Whether `a` comes before `b` in the order of angles around `pivot`.
pub fn comes_before(pivot: &GeoPosition, a: &GeoPosition, b: &GeoPosition) -> (r: bool)
    ensures
        r == angle_before(*pivot, *a, *b),
{
    if *a == *pivot {
        b.latitude > pivot.latitude
    } else if *b == *pivot {
        false
    } else {
        GeoPosition::orientation(pivot, a, b) > 0
    }
}

/// The index of the lowest point of `points`.
pub fn lowest_point(points: &Vec<GeoPosition>) -> (lowest: usize)
    requires
        points@.len() > 0,
    ensures
        lowest == lowest_index(points@),
        lowest < points@.len(),
{
    let mut lowest: usize = 0;
    let mut i: usize = 1;
    proof {
        assert(lowest_index(points@.take(1)) == 0);
    }
    while i < points.len()
        invariant
            1 <= i <= points@.len(),
            lowest < i,
            lowest == lowest_index(points@.take(i as int)),
        decreases points@.len() - i,
    {
        proof {
            let next = points@.take(i + 1);
            assert(next.drop_last() == points@.take(i as int));
            assert(next.last() == points@[i as int]);
            assert(next[lowest as int] == points@[lowest as int]);
        }
        if points[i].latitude < points[lowest].latitude || (points[i].latitude
            == points[lowest].latitude && points[i].longitude < points[lowest].longitude) {
            lowest = i;
        }
        i = i + 1;
    }
    proof {
        assert(points@.take(points@.len() as int) == points@);
    }
    lowest
}

/// The points of `points` but the one at `skip`, in their order.
fn without_index(points: &Vec<GeoPosition>, skip: usize) -> (rest: Vec<GeoPosition>)
    requires
        skip < points@.len(),
    ensures
        rest@ == points@.remove(skip as int),
{
    let mut rest: Vec<GeoPosition> = Vec::new();
    let mut i: usize = 0;
    while i < points.len()
        invariant
            i <= points@.len(),
            skip < points@.len(),
            i <= skip ==> rest@ == points@.take(i as int),
            i > skip ==> rest@ == points@.take(i as int).remove(skip as int),
        decreases points@.len() - i,
    {
        if i != skip {
            rest.push(points[i]);
        }
        proof {
            let next = points@.take(i + 1);
            if i < skip {
                assert(next == points@.take(i as int).push(points@[i as int]));
            } else if i == skip {
                assert(next.remove(skip as int) == points@.take(i as int));
            } else {
                assert(next.remove(skip as int) == points@.take(i as int).remove(
                    skip as int,
                ).push(points@[i as int]));
            }
        }
        i = i + 1;
    }
    proof {
        assert(points@.take(points@.len() as int) == points@);
    }
    rest
}

/// The points in the order of their angle around `pivot`, points of equal
/// angle in the order in which they came.
pub fn sort_by_angle(pivot: &GeoPosition, points: &Vec<GeoPosition>) -> (sorted: Vec<GeoPosition>)
    ensures
        sorted@ == sorted_by_angle(*pivot, points@),
{
    let mut sorted: Vec<GeoPosition> = Vec::new();
    let mut i: usize = 0;
    while i < points.len()
        invariant
            i <= points@.len(),
            sorted@ == sorted_by_angle(*pivot, points@.take(i as int)),
            sorted@.len() == i,
        decreases points@.len() - i,
    {
        let point = points[i];
        let ghost place = lemma_insert_place(*pivot, sorted@, point);
        let mut k: usize = sorted.len();
        while k > 0 && comes_before(pivot, &point, &sorted[k - 1])
            invariant
                place <= k <= sorted@.len(),
                0 <= place <= sorted@.len(),
                forall|j: int| place <= j < sorted@.len() ==> angle_before(
                    *pivot,
                    point,
                    #[trigger] sorted@[j],
                ),
                place > 0 ==> !angle_before(*pivot, point, sorted@[place - 1]),
            decreases k,
        {
            k = k - 1;
        }
        proof {
            if k > place {
                assert(angle_before(*pivot, point, sorted@[k - 1]));
            }
            assert(k == place);
            let next = points@.take(i + 1);
            assert(next.drop_last() == points@.take(i as int));
            assert(next.last() == point);
        }
        sorted.insert(k, point);
        i = i + 1;
    }
    proof {
        assert(points@.take(points@.len() as int) == points@);
    }
    sorted
}

/// The stack of hull points after the sweep from `pivot` over `points`.
fn sweep(pivot: GeoPosition, points: &Vec<GeoPosition>) -> (hull: Vec<GeoPosition>)
    ensures
        hull@ == swept(pivot, points@),
{
    let mut hull: Vec<GeoPosition> = Vec::new();
    hull.push(pivot);
    let mut i: usize = 0;
    proof {
        assert(hull@ == seq![pivot]);
    }
    while i < points.len()
        invariant
            i <= points@.len(),
            hull@ == swept(pivot, points@.take(i as int)),
        decreases points@.len() - i,
    {
        let point = points[i];
        let ghost before = hull@;
        while hull.len() >= 2 && GeoPosition::orientation(
            &hull[hull.len() - 2],
            &hull[hull.len() - 1],
            &point,
        ) <= 0
            invariant
                settle(hull@, point) == settle(before, point),
            decreases hull@.len(),
        {
            hull.pop();
        }
        proof {
            let next = points@.take(i + 1);
            assert(next.drop_last() == points@.take(i as int));
            assert(next.last() == point);
            assert(settle(hull@, point) == hull@);
        }
        hull.push(point);
        i = i + 1;
    }
    proof {
        assert(points@.take(points@.len() as int) == points@);
    }
    hull
}

impl MapPolygon {
    /// The convex hull of the points by a sweep around the lowest of them,
    /// closed: the boundary ends where it starts, does not cross itself and
    /// bends to the left only. A polygon of fewer than three points comes
    /// back as it is.
    pub fn convex_hull(&self) -> (r: MapPolygon)
        ensures
            r@ == hull_of(self@),
            self@.len() < 3 ==> r@ == self@,
            self@.len() >= 3 ==> r@.len() >= 2 && r@.first() == r@.last(),
            self@.len() >= 3 ==> forall|i: int, j: int|
                0 <= i < j && j + 1 < r@.len() ==> !#[trigger] edges_cross(r@, i, j),
            self@.len() >= 3 ==> bends_left(r@),
            forall|k: int| 0 <= k < r@.len() ==> self@.contains(#[trigger] r@[k]),
    {
        proof {
            lemma_hull_points_come_from_input(self@);
            if self@.len() >= 3 {
                lemma_hull_is_closed(self@);
                lemma_hull_does_not_cross_itself(self@);
                crate::utils::convexity::lemma_hull_is_convex(self@);
            }
        }
        if self.data.len() < 3 {
            let mut same: Vec<GeoPosition> = Vec::new();
            let mut i: usize = 0;
            while i < self.data.len()
                invariant
                    i <= self.data@.len(),
                    same@ == self.data@.take(i as int),
                decreases self.data@.len() - i,
            {
                same.push(self.data[i]);
                proof {
                    assert(self.data@.take(i + 1) == self.data@.take(i as int).push(
                        self.data@[i as int],
                    ));
                }
                i = i + 1;
            }
            proof {
                assert(self.data@.take(self.data@.len() as int) == self.data@);
            }
            return MapPolygon { data: same };
        }
        let lowest = lowest_point(&self.data);
        let pivot = self.data[lowest];
        let others = without_index(&self.data, lowest);
        let sorted = sort_by_angle(&pivot, &others);
        let mut hull = sweep(pivot, &sorted);
        proof {
            lemma_swept_starts_at_pivot(pivot, sorted@);
        }
        if hull[0] != hull[hull.len() - 1] {
            let first = hull[0];
            hull.push(first);
        }
        MapPolygon { data: hull }
    }
}

/// The settled stack is a beginning of the stack, and keeps its first
/// point.
pub proof fn lemma_settle_is_prefix(stack: Seq<GeoPosition>, point: GeoPosition)
    requires
        stack.len() >= 1,
    ensures
        1 <= settle(stack, point).len() <= stack.len(),
        settle(stack, point) == stack.take(settle(stack, point).len() as int),
        settle(stack, point).len() >= 2 ==> turn(
            settle(stack, point)[settle(stack, point).len() - 2],
            settle(stack, point).last(),
            point,
        ) > 0,
    decreases stack.len(),
{
    if stack.len() >= 2 && turn(stack[stack.len() - 2], stack.last(), point) <= 0 {
        let front = stack.drop_last();
        lemma_settle_is_prefix(front, point);
        let n = settle(front, point).len() as int;
        assert(front.take(n) == stack.take(n));
    } else {
        assert(stack.take(stack.len() as int) == stack);
    }
}

/// The sweep leaves a stack that starts at the pivot.
pub proof fn lemma_swept_starts_at_pivot(pivot: GeoPosition, points: Seq<GeoPosition>)
    ensures
        swept(pivot, points).len() >= 1,
        swept(pivot, points)[0] == pivot,
        points.len() > 0 ==> swept(pivot, points).len() >= 2,
        points.len() > 0 ==> swept(pivot, points).last() == points.last(),
    decreases points.len(),
{
    if points.len() > 0 {
        let earlier = swept(pivot, points.drop_last());
        lemma_swept_starts_at_pivot(pivot, points.drop_last());
        lemma_settle_is_prefix(earlier, points.last());
    }
}

/// Every point of the swept stack behind the pivot is one of the points
/// swept over.
pub proof fn lemma_swept_members(pivot: GeoPosition, points: Seq<GeoPosition>)
    ensures
        forall|k: int|
            1 <= k < swept(pivot, points).len() ==> points.contains(
                #[trigger] swept(pivot, points)[k],
            ),
    decreases points.len(),
{
    if points.len() > 0 {
        let front = points.drop_last();
        let earlier = swept(pivot, front);
        lemma_swept_members(pivot, front);
        lemma_swept_starts_at_pivot(pivot, front);
        lemma_settle_is_prefix(earlier, points.last());
        let kept = settle(earlier, points.last());
        assert forall|k: int| 1 <= k < swept(pivot, points).len() implies points.contains(
            #[trigger] swept(pivot, points)[k],
        ) by {
            if k < kept.len() {
                assert(kept[k] == earlier[k]);
                assert(front.contains(earlier[k]));
                let m = choose|m: int| 0 <= m < front.len() && front[m] == earlier[k];
                assert(points[m] == earlier[k]);
            } else {
                assert(points[points.len() - 1] == points.last());
            }
        }
    }
}

/// Any three points in a row on the swept stack make a strict
/// counter-clockwise turn.
pub proof fn lemma_swept_turns_left(pivot: GeoPosition, points: Seq<GeoPosition>)
    ensures
        forall|i: int|
            0 <= i && i + 2 < swept(pivot, points).len() ==> #[trigger] turn_at(
                swept(pivot, points),
                i,
            ) > 0,
    decreases points.len(),
{
    if points.len() > 0 {
        let front = points.drop_last();
        let earlier = swept(pivot, front);
        lemma_swept_turns_left(pivot, front);
        lemma_swept_starts_at_pivot(pivot, front);
        lemma_settle_is_prefix(earlier, points.last());
        let kept = settle(earlier, points.last());
        let now = swept(pivot, points);
        assert(now == kept.push(points.last()));
        assert forall|i: int| 0 <= i && i + 2 < now.len() implies #[trigger] turn_at(now, i)
            > 0 by {
            assert(now[i] == earlier[i]);
            assert(now[i + 1] == earlier[i + 1]);
            if i + 2 < kept.len() {
                assert(now[i + 2] == earlier[i + 2]);
                assert(turn_at(earlier, i) > 0);
            }
        }
    }
}

/// Where it has at least three points, the hull starts at the lowest point
/// and ends where it starts.
pub proof fn lemma_hull_is_closed(s: Seq<GeoPosition>)
    requires
        s.len() >= 3,
    ensures
        hull_of(s).len() >= 2,
        hull_of(s).first() == hull_of(s).last(),
        hull_of(s).first() == s[lowest_index(s)],
{
    let lowest = lowest_index(s);
    lemma_lowest_index(s);
    let others = s.remove(lowest);
    lemma_sorted_permutes(s[lowest], others);
    lemma_swept_starts_at_pivot(s[lowest], sorted_by_angle(s[lowest], others));
}

/// Every point of the hull is a point of the polygon.
pub proof fn lemma_hull_points_come_from_input(s: Seq<GeoPosition>)
    ensures
        forall|k: int| 0 <= k < hull_of(s).len() ==> s.contains(#[trigger] hull_of(s)[k]),
{
    if s.len() >= 3 {
        let lowest = lowest_index(s);
        lemma_lowest_index(s);
        let pivot = s[lowest];
        let others = s.remove(lowest);
        let sorted = sorted_by_angle(pivot, others);
        let chain = swept(pivot, sorted);
        lemma_sorted_permutes(pivot, others);
        lemma_swept_starts_at_pivot(pivot, sorted);
        lemma_swept_members(pivot, sorted);
        assert forall|k: int| 0 <= k < chain.len() implies s.contains(#[trigger] chain[k]) by {
            if k >= 1 {
                assert(sorted.contains(chain[k]));
                vstd::seq_lib::to_multiset_contains(sorted, chain[k]);
                vstd::seq_lib::to_multiset_contains(others, chain[k]);
                assert(others.contains(chain[k]));
                let m = choose|m: int| 0 <= m < others.len() && others[m] == chain[k];
                if m < lowest {
                    assert(s[m] == chain[k]);
                } else {
                    assert(s[m + 1] == chain[k]);
                }
            }
        }
        assert forall|k: int| 0 <= k < hull_of(s).len() implies s.contains(
            #[trigger] hull_of(s)[k],
        ) by {
            if k < chain.len() {
                assert(hull_of(s)[k] == chain[k]);
            } else {
                assert(hull_of(s)[k] == chain[0]);
            }
        }
    }
}

/// Any three points in a row on the hull, before it is closed, make a
/// strict counter-clockwise turn.
pub proof fn lemma_hull_turns_left(s: Seq<GeoPosition>)
    requires
        s.len() >= 3,
    ensures
        forall|i: int| 0 <= i && i + 2 < open_hull(s).len() ==> #[trigger] turn_at(open_hull(s), i) > 0,
{
    let lowest = lowest_index(s);
    lemma_swept_turns_left(s[lowest], sorted_by_angle(s[lowest], s.remove(lowest)));
}

/// Whether no point of `s` is lower than `pivot`.
pub open spec fn none_lower(pivot: GeoPosition, s: Seq<GeoPosition>) -> bool {
    forall|i: int| 0 <= i < s.len() ==> !lower(#[trigger] s[i], pivot)
}

/// Of two points, at most one is before the other.
pub proof fn lemma_angle_before_is_one_way(pivot: GeoPosition, a: GeoPosition, b: GeoPosition)
    requires
        angle_before(pivot, a, b),
    ensures
        !angle_before(pivot, b, a),
{
    if a != pivot && b != pivot {
        assert(turn(pivot, b, a) == -turn(pivot, a, b)) by (nonlinear_arith);
    }
}

/// Among points that are not lower than the pivot: where `c` is not before
/// `b` and `b` is not before `a`, `c` is not before `a`.
pub proof fn lemma_angle_order_is_transitive(
    pivot: GeoPosition,
    a: GeoPosition,
    b: GeoPosition,
    c: GeoPosition,
)
    requires
        !lower(a, pivot),
        !lower(b, pivot),
        !lower(c, pivot),
        !angle_before(pivot, b, a),
        !angle_before(pivot, c, b),
    ensures
        !angle_before(pivot, c, a),
{
    let ax = a.longitude - pivot.longitude;
    let ay = a.latitude - pivot.latitude;
    let bx = b.longitude - pivot.longitude;
    let by = b.latitude - pivot.latitude;
    let cx = c.longitude - pivot.longitude;
    let cy = c.latitude - pivot.latitude;
    assert(turn(pivot, c, a) == cx * ay - cy * ax);
    assert(turn(pivot, b, a) == bx * ay - by * ax);
    assert(turn(pivot, c, b) == cx * by - cy * bx);
    if c == pivot {
        if b != pivot && a != pivot {
            assert(by == 0);
            assert(bx > 0);
            assert(ay <= 0) by (nonlinear_arith)
                requires
                    bx * ay - by * ax <= 0,
                    by == 0,
                    bx > 0,
            ;
        }
    } else if a == pivot {
    } else if b == pivot {
        assert(ay == 0);
        assert(ax > 0);
        assert(cx * ay - cy * ax <= 0) by (nonlinear_arith)
            requires
                ay == 0,
                ax > 0,
                cy >= 0,
        ;
    } else {
        if by > 0 {
            lemma_scaled_difference(cx * ay, cy * ax, by);
            lemma_scaled_difference(bx * ay, by * ax, cy);
            lemma_scaled_difference(cx * by, cy * bx, ay);
            assert((cx * ay - cy * ax) * by == (bx * ay - by * ax) * cy + (cx * by - cy * bx) * ay)
                by (nonlinear_arith)
                requires
                    (cx * ay - cy * ax) * by == (cx * ay) * by - (cy * ax) * by,
                    (bx * ay - by * ax) * cy == (bx * ay) * cy - (by * ax) * cy,
                    (cx * by - cy * bx) * ay == (cx * by) * ay - (cy * bx) * ay,
            ;
            assert(cx * ay - cy * ax <= 0) by (nonlinear_arith)
                requires
                    (cx * ay - cy * ax) * by == (bx * ay - by * ax) * cy + (cx * by - cy * bx)
                        * ay,
                    by > 0,
                    bx * ay - by * ax <= 0,
                    cx * by - cy * bx <= 0,
                    cy >= 0,
                    ay >= 0,
            ;
        } else {
            assert(by == 0);
            assert(bx > 0);
            assert(ay <= 0) by (nonlinear_arith)
                requires
                    bx * ay - by * ax <= 0,
                    by == 0,
                    bx > 0,
            ;
            assert(ax > 0);
            assert(cx * ay - cy * ax <= 0) by (nonlinear_arith)
                requires
                    ay == 0,
                    ax > 0,
                    cy >= 0,
            ;
        }
    }
}

proof fn lemma_insert_keeps_order(pivot: GeoPosition, sorted: Seq<GeoPosition>, x: GeoPosition)
    requires
        none_lower(pivot, sorted),
        !lower(x, pivot),
        angles_ascend(pivot, sorted),
    ensures
        angles_ascend(pivot, insert_by_angle(pivot, sorted, x)),
        none_lower(pivot, insert_by_angle(pivot, sorted, x)),
{
    let k = lemma_insert_place(pivot, sorted, x);
    let next = sorted.insert(k, x);
    assert forall|i: int, j: int| 0 <= i < j < next.len() implies !angle_before(
        pivot,
        next[j],
        next[i],
    ) by {
        if j == k {
            assert(next[i] == sorted[i]);
            if i < k - 1 {
                lemma_angle_order_is_transitive(pivot, sorted[i], sorted[k - 1], x);
            }
        } else if i == k {
            assert(next[j] == sorted[j - 1]);
            lemma_angle_before_is_one_way(pivot, x, sorted[j - 1]);
        } else {
            let from_i = if i < k { i } else { i - 1 };
            let from_j = if j < k { j } else { j - 1 };
            assert(next[i] == sorted[from_i]);
            assert(next[j] == sorted[from_j]);
        }
    }
    assert forall|i: int| 0 <= i < next.len() implies !lower(#[trigger] next[i], pivot) by {
        if i < k {
            assert(next[i] == sorted[i]);
        } else if i > k {
            assert(next[i] == sorted[i - 1]);
        }
    }
}

/// Sorting points that are not lower than the pivot leaves them in
/// ascending order of angle.
pub proof fn lemma_sorted_ascends(pivot: GeoPosition, s: Seq<GeoPosition>)
    requires
        none_lower(pivot, s),
    ensures
        angles_ascend(pivot, sorted_by_angle(pivot, s)),
        none_lower(pivot, sorted_by_angle(pivot, s)),
    decreases s.len(),
{
    if s.len() > 0 {
        let front = s.drop_last();
        assert forall|i: int| 0 <= i < front.len() implies !lower(#[trigger] front[i], pivot) by {
            assert(front[i] == s[i]);
        }
        lemma_sorted_ascends(pivot, front);
        lemma_insert_keeps_order(pivot, sorted_by_angle(pivot, front), s.last());
    }
}

/// The points of the hull behind its first stand in ascending order of
/// their angle around the first, so the boundary winds once around it.
pub proof fn lemma_hull_angles_ascend(s: Seq<GeoPosition>)
    requires
        s.len() >= 3,
    ensures
        angles_ascend(open_hull(s)[0], open_hull(s).drop_first()),
{
    let lowest = lowest_index(s);
    lemma_lowest_index(s);
    let pivot = s[lowest];
    let others = s.remove(lowest);
    assert forall|i: int| 0 <= i < others.len() implies !lower(#[trigger] others[i], pivot) by {
        if i < lowest {
            assert(others[i] == s[i]);
        } else {
            assert(others[i] == s[i + 1]);
        }
    }
    lemma_sorted_ascends(pivot, others);
    let sorted = sorted_by_angle(pivot, others);
    lemma_swept_keeps_order(pivot, sorted);
    lemma_swept_starts_at_pivot(pivot, sorted);
}

proof fn lemma_swept_keeps_order(pivot: GeoPosition, points: Seq<GeoPosition>)
    requires
        angles_ascend(pivot, points),
    ensures
        angles_ascend(pivot, swept(pivot, points).drop_first()),
    decreases points.len(),
{
    if points.len() > 0 {
        let front = points.drop_last();
        let earlier = swept(pivot, front);
        assert forall|i: int, j: int| 0 <= i < j < front.len() implies !angle_before(
            pivot,
            front[j],
            front[i],
        ) by {
            assert(front[i] == points[i] && front[j] == points[j]);
        }
        lemma_swept_keeps_order(pivot, front);
        lemma_swept_members(pivot, front);
        lemma_swept_starts_at_pivot(pivot, front);
        lemma_settle_is_prefix(earlier, points.last());
        let kept = settle(earlier, points.last());
        let now = swept(pivot, points).drop_first();
        assert forall|i: int, j: int| 0 <= i < j < now.len() implies !angle_before(
            pivot,
            now[j],
            now[i],
        ) by {
            assert(now[i] == earlier[i + 1]);
            assert(earlier.drop_first()[i] == earlier[i + 1]);
            if j + 1 < kept.len() {
                assert(now[j] == earlier[j + 1]);
                assert(earlier.drop_first()[j] == earlier[j + 1]);
            } else {
                assert(now[j] == points.last());
                assert(front.contains(earlier[i + 1]));
                let m = choose|m: int| 0 <= m < front.len() && front[m] == earlier[i + 1];
                assert(points[m] == now[i]);
                assert(points[points.len() - 1] == now[j]);
            }
        }
    }
}

proof fn lemma_scaled_difference(a: int, b: int, k: int)
    ensures
        (a - b) * k == a * k - b * k,
{
    assert((a - b) * k == a * k - b * k) by (nonlinear_arith);
}

} // verus!
