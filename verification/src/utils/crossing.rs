//! Edges that cross, and why those of the swept hull do not: the hull winds
//! around its first point.

use vstd::prelude::*;
use crate::utils::hull::angle_before;
use crate::utils::hull::hull_of;
use crate::utils::hull::lemma_hull_angles_ascend;
use crate::utils::hull::lemma_hull_is_closed;
use crate::utils::hull::lemma_swept_starts_at_pivot;
use crate::utils::hull::lowest_index;
use crate::utils::hull::open_hull;
use crate::utils::hull::sorted_by_angle;
use crate::utils::hull::turn;
use crate::utils::maptypes::GeoPosition;

verus! {

proof fn lemma_regroup(w: int, x: int, y: int, z: int)
    ensures
        (w * x) * (y * z) == (w * y) * (x * z),
        (w * x) * (y * z) == (w * z) * (x * y),
        (w * z) * (x * y) == (w * x) * (y * z),
        (w * y) * (x * z) == (w * z) * (x * y),
        (w * x) * (z * y) == (w * x) * (y * z),
        (w * z) * (y * x) == (w * z) * (x * y),
{
    assert((w * x) * (y * z) == (w * y) * (x * z)) by (nonlinear_arith);
    assert((w * x) * (y * z) == (w * z) * (x * y)) by (nonlinear_arith);
    assert((w * x) * (z * y) == (w * x) * (y * z)) by (nonlinear_arith);
    assert((w * z) * (y * x) == (w * z) * (x * y)) by (nonlinear_arith);
}

proof fn lemma_product_of_differences(a: int, b: int, c: int, d: int)
    ensures
        (a - b) * (c - d) == a * c - a * d - b * c + b * d,
{
    assert((a - b) * (c - d) == a * c - a * d - b * c + b * d) by (nonlinear_arith);
}

/// Whether two numbers have opposite signs, neither being zero.
pub open spec fn opposite(x: int, y: int) -> bool {
    (x > 0 && y < 0) || (x < 0 && y > 0)
}

/// Whether the segment from `a` to `b` and the segment from `c` to `d`
/// cross: the ends of each lie strictly on opposite sides of the line
/// through the other.
pub open spec fn segments_cross(
    a: GeoPosition,
    b: GeoPosition,
    c: GeoPosition,
    d: GeoPosition,
) -> bool {
    opposite(turn(a, b, c), turn(a, b, d)) && opposite(turn(c, d, a), turn(c, d, b))
}

/// Whether the edge of `chain` from the place `i` and its edge from the
/// place `j` cross.
pub open spec fn edges_cross(chain: Seq<GeoPosition>, i: int, j: int) -> bool {
    segments_cross(chain[i], chain[i + 1], chain[j], chain[j + 1])
}

/// Whether the points of `s` wind around `pivot`: seen from `pivot`, no
/// point lies clockwise of a point that stands earlier in `s`.
pub open spec fn winds_around(pivot: GeoPosition, s: Seq<GeoPosition>) -> bool {
    forall|i: int, j: int| 0 <= i < j < s.len() ==> turn(pivot, s[i], s[j]) >= 0
}

proof fn lemma_no_crossing_numbers(p: int, q: int, r: int, s: int, u: int, v: int)
    requires
        p >= 0,
        q >= 0,
        r >= 0,
        s >= 0,
        u >= 0,
        v >= 0,
        p * v + r * s == q * u,
    ensures
        !(opposite(s + p - q, u + p - r) && opposite(v + q - r, v + s - u)),
{
    if s + p - q > 0 && u + p - r < 0 && v + s - u > 0 {
        assert(r * s >= (u + p) * s) by (nonlinear_arith)
            requires
                r >= u + p,
                s >= 0,
        ;
        assert((u + p) * s == u * s + p * s) by (nonlinear_arith);
        assert(u * (q - s) >= p * (s + v)) by (nonlinear_arith)
            requires
                p * v + r * s == q * u,
                r * s >= u * s + p * s,
        ;
        assert(u * (q - s) <= u * p) by (nonlinear_arith)
            requires
                u >= 0,
                q - s <= p,
        ;
        assert(p * (s + v) <= p * u) by (nonlinear_arith)
            requires
                u * (q - s) >= p * (s + v),
                u * (q - s) <= u * p,
        ;
        if p > 0 {
            if u > 0 {
                assert(u * (q - s) < u * p) by (nonlinear_arith)
                    requires
                        u > 0,
                        q - s < p,
                ;
                assert(p * (s + v) < p * u) by (nonlinear_arith)
                    requires
                        u * (q - s) >= p * (s + v),
                        u * (q - s) < u * p,
                ;
                assert(s + v < u) by (nonlinear_arith)
                    requires
                        p > 0,
                        p * (s + v) < p * u,
                ;
            } else {
                assert(s + v <= 0) by (nonlinear_arith)
                    requires
                        p > 0,
                        u == 0,
                        p * (s + v) <= p * u,
                ;
            }
        } else {
            assert(u * (q - s) >= 0);
            assert(u == 0) by (nonlinear_arith)
                requires
                    u >= 0,
                    q - s < 0,
                    u * (q - s) >= 0,
            ;
            assert(q * u == 0) by (nonlinear_arith)
                requires
                    u == 0,
            ;
            assert(p * v == 0) by (nonlinear_arith)
                requires
                    p == 0,
            ;
            assert(s == 0) by (nonlinear_arith)
                requires
                    r * s == 0,
                    r > 0,
                    s >= 0,
            ;
        }
    }
    if s + p - q < 0 && u + p - r > 0 && v + s - u < 0 {
        assert(q * u > (s + p) * u) by (nonlinear_arith)
            requires
                q > s + p,
                u > 0,
        ;
        assert((s + p) * u == s * u + p * u) by (nonlinear_arith);
        assert(s * (r - u) > p * (u - v)) by (nonlinear_arith)
            requires
                p * v + r * s == q * u,
                q * u > s * u + p * u,
        ;
        assert(s * (r - u) <= s * p) by (nonlinear_arith)
            requires
                s >= 0,
                r - u <= p,
        ;
        assert(p * (u - v) >= p * s) by (nonlinear_arith)
            requires
                p >= 0,
                u - v >= s,
        ;
        assert(s * p == p * s) by (nonlinear_arith);
    }
}

pub proof fn lemma_four_vectors(
    ax: int,
    ay: int,
    bx: int,
    by: int,
    cx: int,
    cy: int,
    dx: int,
    dy: int,
)
    ensures
        (ax * by - ay * bx) * (cx * dy - cy * dx) + (ax * dy - ay * dx) * (bx * cy - by * cx) == (
        ax * cy - ay * cx) * (bx * dy - by * dx),
{
    lemma_product_of_differences(ax * by, ay * bx, cx * dy, cy * dx);
    lemma_product_of_differences(ax * dy, ay * dx, bx * cy, by * cx);
    lemma_product_of_differences(ax * cy, ay * cx, bx * dy, by * dx);
    lemma_regroup(ax, by, cx, dy);
    lemma_regroup(ay, bx, cy, dx);
    lemma_regroup(ax, bx, cy, dy);
    lemma_regroup(ax, by, cy, dx);
    lemma_regroup(ay, bx, cx, dy);
    lemma_regroup(ay, by, cx, dx);
    assert((ax * dy) * (by * cx) == (ax * by) * (cx * dy));
    assert((ay * dx) * (bx * cy) == (ay * bx) * (cy * dx));
    assert((ax * cy) * (bx * dy) == (ax * dy) * (bx * cy));
    assert((ax * cy) * (by * dx) == (ax * by) * (cy * dx));
    assert((ay * cx) * (bx * dy) == (ay * bx) * (cx * dy));
    assert((ay * cx) * (by * dx) == (ay * dx) * (by * cx));
}

pub proof fn lemma_turn_seen_from(pivot: GeoPosition, a: GeoPosition, b: GeoPosition, c: GeoPosition)
    ensures
        turn(a, b, c) == turn(pivot, b, c) + turn(pivot, a, b) - turn(pivot, a, c),
{
    let ax = a.longitude - pivot.longitude;
    let ay = a.latitude - pivot.latitude;
    let bx = b.longitude - pivot.longitude;
    let by = b.latitude - pivot.latitude;
    let cx = c.longitude - pivot.longitude;
    let cy = c.latitude - pivot.latitude;
    assert(turn(a, b, c) == (bx - ax) * (cy - ay) - (by - ay) * (cx - ax));
    assert((bx - ax) * (cy - ay) - (by - ay) * (cx - ax) == (bx * cy - by * cx) + (ax * by - ay
        * bx) - (ax * cy - ay * cx)) by (nonlinear_arith);
}

/// Two segments whose four ends wind around a point, in the order in
/// which the segments name them, do not cross.
pub proof fn lemma_winding_segments_do_not_cross(
    pivot: GeoPosition,
    a: GeoPosition,
    b: GeoPosition,
    c: GeoPosition,
    d: GeoPosition,
)
    requires
        turn(pivot, a, b) >= 0,
        turn(pivot, a, c) >= 0,
        turn(pivot, a, d) >= 0,
        turn(pivot, b, c) >= 0,
        turn(pivot, b, d) >= 0,
        turn(pivot, c, d) >= 0,
    ensures
        !segments_cross(a, b, c, d),
{
    lemma_turn_seen_from(pivot, a, b, c);
    lemma_turn_seen_from(pivot, a, b, d);
    lemma_turn_seen_from(pivot, c, d, a);
    lemma_turn_seen_from(pivot, c, d, b);
    lemma_turn_reversed(pivot, a, c);
    lemma_turn_reversed(pivot, a, d);
    lemma_turn_reversed(pivot, b, c);
    lemma_turn_reversed(pivot, b, d);
    lemma_four_vectors(
        a.longitude - pivot.longitude,
        a.latitude - pivot.latitude,
        b.longitude - pivot.longitude,
        b.latitude - pivot.latitude,
        c.longitude - pivot.longitude,
        c.latitude - pivot.latitude,
        d.longitude - pivot.longitude,
        d.latitude - pivot.latitude,
    );
    lemma_no_crossing_numbers(
        turn(pivot, a, b),
        turn(pivot, a, c),
        turn(pivot, a, d),
        turn(pivot, b, c),
        turn(pivot, b, d),
        turn(pivot, c, d),
    );
}

/// Seen from `pivot`, `b` lies as far counter-clockwise of `a` as `a` lies
/// clockwise of `b`.
pub proof fn lemma_turn_reversed(pivot: GeoPosition, a: GeoPosition, b: GeoPosition)
    ensures
        turn(pivot, b, a) == -turn(pivot, a, b),
{
    assert(turn(pivot, b, a) == -turn(pivot, a, b)) by (nonlinear_arith);
}

pub proof fn lemma_turn_with_repeated_point(pivot: GeoPosition, x: GeoPosition)
    ensures
        turn(pivot, pivot, x) == 0,
        turn(pivot, x, pivot) == 0,
        turn(pivot, x, x) == 0,
{
    assert(turn(pivot, pivot, x) == 0) by (nonlinear_arith);
    assert(turn(pivot, x, pivot) == 0) by (nonlinear_arith);
    assert(turn(pivot, x, x) == 0) by (nonlinear_arith);
}

/// The hull winds around its first point.
pub proof fn lemma_hull_winds_around_its_start(s: Seq<GeoPosition>)
    requires
        s.len() >= 3,
    ensures
        winds_around(hull_of(s)[0], hull_of(s)),
{
    let chain = open_hull(s);
    let hull = hull_of(s);
    let lowest = lowest_index(s);
    let pivot = s[lowest];
    lemma_hull_is_closed(s);
    lemma_hull_angles_ascend(s);
    lemma_swept_starts_at_pivot(pivot, sorted_by_angle(pivot, s.remove(lowest)));
    assert(chain[0] == pivot);
    assert(hull[0] == pivot);
    assert forall|i: int, j: int| 0 <= i < j < hull.len() implies turn(pivot, hull[i], hull[j])
        >= 0 by {
        lemma_turn_with_repeated_point(pivot, hull[i]);
        lemma_turn_with_repeated_point(pivot, hull[j]);
        if hull[i] != pivot && hull[j] != pivot {
            assert(j < chain.len());
            assert(hull[i] == chain[i] && hull[j] == chain[j]);
            let rest = chain.drop_first();
            assert(rest[i - 1] == chain[i] && rest[j - 1] == chain[j]);
            assert(!angle_before(pivot, rest[j - 1], rest[i - 1]));
            lemma_turn_reversed(pivot, hull[i], hull[j]);
        }
    }
}

/// The hull does not cross itself: no two of its edges cross.
pub proof fn lemma_hull_does_not_cross_itself(s: Seq<GeoPosition>)
    requires
        s.len() >= 3,
    ensures
        forall|i: int, j: int|
            0 <= i < j && j + 1 < hull_of(s).len() ==> !#[trigger] edges_cross(hull_of(s), i, j),
{
    let hull = hull_of(s);
    let pivot = hull[0];
    lemma_hull_winds_around_its_start(s);
    assert forall|i: int, j: int| 0 <= i < j && j + 1 < hull.len() implies !#[trigger] edges_cross(
        hull,
        i,
        j,
    ) by {
        lemma_turn_with_repeated_point(pivot, hull[j]);
        assert(turn(pivot, hull[i], hull[i + 1]) >= 0);
        assert(turn(pivot, hull[i], hull[j]) >= 0);
        assert(turn(pivot, hull[i], hull[j + 1]) >= 0);
        assert(turn(pivot, hull[i + 1], hull[j + 1]) >= 0);
        assert(turn(pivot, hull[j], hull[j + 1]) >= 0);
        if i + 1 < j {
            assert(turn(pivot, hull[i + 1], hull[j]) >= 0);
        }
        lemma_winding_segments_do_not_cross(pivot, hull[i], hull[i + 1], hull[j], hull[j + 1]);
    }
}

} // verus!
