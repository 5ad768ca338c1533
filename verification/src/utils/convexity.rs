//! The convexity of the swept hull: every point of it lies to the left of,
//! or on, the line through each of its edges.

use vstd::prelude::*;
use crate::utils::crossing::lemma_four_vectors;
use crate::utils::crossing::lemma_turn_reversed;
use crate::utils::crossing::lemma_turn_seen_from;
use crate::utils::crossing::lemma_turn_with_repeated_point;
use crate::utils::crossing::winds_around;
use crate::utils::hull::angle_before;
use crate::utils::hull::angles_ascend;
use crate::utils::hull::closed;
use crate::utils::hull::hull_of;
use crate::utils::hull::lemma_lowest_index;
use crate::utils::hull::lemma_settle_is_prefix;
use crate::utils::hull::lemma_sorted_ascends;
use crate::utils::hull::lemma_swept_members;
use crate::utils::hull::lower;
use crate::utils::hull::lowest_index;
use crate::utils::hull::open_hull;
use crate::utils::hull::settle;
use crate::utils::hull::sorted_by_angle;
use crate::utils::hull::swept;
use crate::utils::hull::turn;
use crate::utils::hull::turn_at;
use crate::utils::maptypes::GeoPosition;

verus! {

/// The side of the edge of `chain` from the place `i` on which its point
/// at the place `j` lies: positive to the left, zero on the line.
pub open spec fn side_at(chain: Seq<GeoPosition>, i: int, j: int) -> int {
    turn(chain[i], chain[i + 1], chain[j])
}

/// Whether `chain` bends to the left only: every point of it lies to the
/// left of, or on, the line through each two points that follow one
/// another in it.
pub open spec fn bends_left(chain: Seq<GeoPosition>) -> bool {
    forall|i: int, j: int|
        0 <= i && i + 1 < chain.len() && 0 <= j < chain.len() ==> #[trigger] side_at(chain, i, j)
            >= 0
}

/// How far the point of `chain` at the place `k` lies clockwise of the
/// next, seen from `pivot`.
pub open spec fn step_at(pivot: GeoPosition, chain: Seq<GeoPosition>, k: int) -> int {
    turn(pivot, chain[k], chain[k + 1])
}

/// Whether each point of `chain` but the first and the last lies strictly
/// clockwise of the next, seen from `pivot`.
pub open spec fn steps_ahead(pivot: GeoPosition, chain: Seq<GeoPosition>) -> bool {
    forall|k: int| 1 <= k && k + 2 < chain.len() ==> #[trigger] step_at(pivot, chain, k) > 0
}

/// Any three points in a row of `chain` make a strict counter-clockwise
/// turn.
pub open spec fn turns_left(chain: Seq<GeoPosition>) -> bool {
    forall|i: int| 0 <= i && i + 2 < chain.len() ==> #[trigger] turn_at(chain, i) > 0
}

/// The turn that three points make stays the same when the first of them
/// is named last.
pub proof fn lemma_turn_rotated(a: GeoPosition, b: GeoPosition, c: GeoPosition)
    ensures
        turn(a, b, c) == turn(b, c, a),
{
    lemma_turn_seen_from(a, b, c, a);
    lemma_turn_with_repeated_point(a, b);
    lemma_turn_with_repeated_point(a, c);
    lemma_turn_reversed(a, b, c);
}

proof fn lemma_scaled(x: int, a: int, b: int, c: int)
    ensures
        (a + b - c) * x == a * x + b * x - c * x,
        x * (a + b - c) == x * a + x * b - x * c,
{
    assert((a + b - c) * x == a * x + b * x - c * x) by (nonlinear_arith);
    assert(x * (a + b - c) == x * a + x * b - x * c) by (nonlinear_arith);
}

proof fn lemma_swapped(x: int, y: int)
    ensures
        x * y == y * x,
{
    assert(x * y == y * x) by (nonlinear_arith);
}

proof fn lemma_positive_factor(x: int, y: int)
    requires
        x * y >= 0,
        y > 0,
    ensures
        x >= 0,
{
    assert(x >= 0) by (nonlinear_arith)
        requires
            x * y >= 0,
            y > 0,
    ;
}

proof fn lemma_product_sign(x: int, y: int)
    requires
        x >= 0,
        y >= 0,
    ensures
        x * y >= 0,
{
    assert(x * y >= 0) by (nonlinear_arith)
        requires
            x >= 0,
            y >= 0,
    ;
}

proof fn lemma_left_of_edge_numbers(p1: int, p2: int, p3: int, p4: int, p5: int, p6: int)
    requires
        p1 * p6 + p3 * p4 == p2 * p5,
        p4 > 0,
        p4 + p1 - p2 >= 0,
        p5 >= 0,
        p1 >= 0,
        p6 + p4 - p5 >= 0,
    ensures
        p5 + p1 - p3 >= 0,
{
    lemma_scaled(p4, p5, p1, p3);
    lemma_scaled(p5, p4, p1, p2);
    lemma_scaled(p1, p6, p4, p5);
    lemma_swapped(p4, p5);
    lemma_swapped(p1, p4);
    lemma_swapped(p1, p5);
    lemma_swapped(p1, p6);
    lemma_swapped(p2, p5);
    lemma_swapped(p3, p4);
    lemma_swapped(p1, p6 + p4 - p5);
    assert((p5 + p1 - p3) * p4 == (p4 + p1 - p2) * p5 + p1 * (p6 + p4 - p5));
    lemma_product_sign(p4 + p1 - p2, p5);
    lemma_product_sign(p1, p6 + p4 - p5);
    lemma_positive_factor(p5 + p1 - p3, p4);
}

proof fn lemma_left_of_new_edge_numbers(p1: int, p2: int, p3: int, p4: int, p5: int, p6: int)
    requires
        p1 * p6 + p3 * p4 == p2 * p5,
        p4 > 0,
        p4 + p1 - p2 >= 0,
        p6 >= 0,
        p2 >= 0,
        p6 + p4 - p5 >= 0,
    ensures
        p6 + p2 - p3 >= 0,
{
    lemma_scaled(p4, p6, p2, p3);
    lemma_scaled(p6, p4, p1, p2);
    lemma_scaled(p2, p6, p4, p5);
    lemma_swapped(p4, p6);
    lemma_swapped(p2, p4);
    lemma_swapped(p2, p6);
    lemma_swapped(p1, p6);
    lemma_swapped(p2, p5);
    lemma_swapped(p3, p4);
    lemma_swapped(p2, p6 + p4 - p5);
    assert((p6 + p2 - p3) * p4 == (p4 + p1 - p2) * p6 + p2 * (p6 + p4 - p5));
    lemma_product_sign(p4 + p1 - p2, p6);
    lemma_product_sign(p2, p6 + p4 - p5);
    lemma_positive_factor(p6 + p2 - p3, p4);
}

proof fn lemma_strict_step_numbers(p1: int, p2: int, p3: int, p4: int, p5: int, p6: int)
    requires
        p1 * p6 + p3 * p4 == p2 * p5,
        p4 >= 0,
        p2 >= 0,
        p5 >= 0,
        p4 + p1 - p2 > 0,
        p6 + p4 - p5 > 0,
    ensures
        p4 > 0,
{
    if p4 == 0 {
        assert(p3 * p4 == 0) by (nonlinear_arith)
            requires
                p4 == 0,
        ;
        assert(p1 * p6 > p2 * p5) by (nonlinear_arith)
            requires
                p1 > p2,
                p2 >= 0,
                p6 > p5,
                p5 >= 0,
        ;
    }
}

/// The six turns that four points make with `pivot`, and what ties them.
proof fn lemma_turns_of_four(
    pivot: GeoPosition,
    a: GeoPosition,
    b: GeoPosition,
    c: GeoPosition,
    d: GeoPosition,
)
    ensures
        turn(pivot, a, b) * turn(pivot, c, d) + turn(pivot, a, d) * turn(pivot, b, c) == turn(
            pivot,
            a,
            c,
        ) * turn(pivot, b, d),
        turn(a, b, c) == turn(pivot, b, c) + turn(pivot, a, b) - turn(pivot, a, c),
        turn(a, b, d) == turn(pivot, b, d) + turn(pivot, a, b) - turn(pivot, a, d),
        turn(a, c, d) == turn(pivot, c, d) + turn(pivot, a, c) - turn(pivot, a, d),
        turn(b, c, d) == turn(pivot, c, d) + turn(pivot, b, c) - turn(pivot, b, d),
{
    lemma_turn_seen_from(pivot, a, b, c);
    lemma_turn_seen_from(pivot, a, b, d);
    lemma_turn_seen_from(pivot, a, c, d);
    lemma_turn_seen_from(pivot, b, c, d);
    lemma_four_vectors(
        a.longitude - pivot.longitude,
        a.latitude - pivot.latitude,
        b.longitude - pivot.longitude,
        b.latitude - pivot.latitude,
        c.longitude - pivot.longitude,
        c.latitude - pivot.latitude,
        d.longitude - pivot.longitude,
        d.latitude - pivot.latitude,
    );
}

/// Where `a`, `b`, `c` and `d` wind around `pivot`, `b` strictly before
/// `c`, with `c` to the left of the line from `a` to `b` and `d` to the
/// left of the line from `b` to `c`, `d` lies to the left of the line from
/// `a` to `b` too.
proof fn lemma_left_of_edge(
    pivot: GeoPosition,
    a: GeoPosition,
    b: GeoPosition,
    c: GeoPosition,
    d: GeoPosition,
)
    requires
        turn(pivot, b, c) > 0,
        turn(pivot, a, b) >= 0,
        turn(pivot, b, d) >= 0,
        turn(a, b, c) >= 0,
        turn(b, c, d) >= 0,
    ensures
        turn(a, b, d) >= 0,
{
    lemma_turns_of_four(pivot, a, b, c, d);
    lemma_left_of_edge_numbers(
        turn(pivot, a, b),
        turn(pivot, a, c),
        turn(pivot, a, d),
        turn(pivot, b, c),
        turn(pivot, b, d),
        turn(pivot, c, d),
    );
}

/// Under the like conditions, `d` lies to the left of the line from `a`
/// to `c`.
proof fn lemma_left_of_new_edge(
    pivot: GeoPosition,
    a: GeoPosition,
    b: GeoPosition,
    c: GeoPosition,
    d: GeoPosition,
)
    requires
        turn(pivot, b, c) > 0,
        turn(pivot, a, c) >= 0,
        turn(pivot, c, d) >= 0,
        turn(a, b, c) >= 0,
        turn(b, c, d) >= 0,
    ensures
        turn(a, c, d) >= 0,
{
    lemma_turns_of_four(pivot, a, b, c, d);
    lemma_left_of_new_edge_numbers(
        turn(pivot, a, b),
        turn(pivot, a, c),
        turn(pivot, a, d),
        turn(pivot, b, c),
        turn(pivot, b, d),
        turn(pivot, c, d),
    );
}

/// Where two strict turns follow one another among points that wind
/// around `pivot`, the two points in the middle are strictly apart.
proof fn lemma_strict_step(
    pivot: GeoPosition,
    a: GeoPosition,
    b: GeoPosition,
    c: GeoPosition,
    d: GeoPosition,
)
    requires
        turn(pivot, b, c) >= 0,
        turn(pivot, a, c) >= 0,
        turn(pivot, b, d) >= 0,
        turn(a, b, c) > 0,
        turn(b, c, d) > 0,
    ensures
        turn(pivot, b, c) > 0,
{
    lemma_turns_of_four(pivot, a, b, c, d);
    lemma_strict_step_numbers(
        turn(pivot, a, b),
        turn(pivot, a, c),
        turn(pivot, a, d),
        turn(pivot, b, c),
        turn(pivot, b, d),
        turn(pivot, c, d),
    );
}

/// What holds of a stack of the sweep around `pivot`.
pub open spec fn swept_well(pivot: GeoPosition, chain: Seq<GeoPosition>) -> bool {
    &&& chain.len() >= 1
    &&& chain[0] == pivot
    &&& winds_around(pivot, chain)
    &&& turns_left(chain)
    &&& steps_ahead(pivot, chain)
    &&& bends_left(chain)
}

proof fn lemma_prefix_is_swept_well(pivot: GeoPosition, chain: Seq<GeoPosition>, n: int)
    requires
        swept_well(pivot, chain),
        1 <= n <= chain.len(),
    ensures
        swept_well(pivot, chain.take(n)),
{
    let front = chain.take(n);
    assert forall|i: int, j: int| 0 <= i < j < front.len() implies turn(
        pivot,
        front[i],
        front[j],
    ) >= 0 by {
        assert(front[i] == chain[i] && front[j] == chain[j]);
    }
    assert forall|i: int| 0 <= i && i + 2 < front.len() implies #[trigger] turn_at(front, i)
        > 0 by {
        assert(front[i] == chain[i] && front[i + 1] == chain[i + 1] && front[i + 2] == chain[i
            + 2]);
        assert(turn_at(chain, i) > 0);
    }
    assert forall|k: int| 1 <= k && k + 2 < front.len() implies #[trigger] step_at(
        pivot,
        front,
        k,
    ) > 0 by {
        assert(front[k] == chain[k] && front[k + 1] == chain[k + 1]);
        assert(step_at(pivot, chain, k) > 0);
    }
    assert forall|i: int, j: int|
        0 <= i && i + 1 < front.len() && 0 <= j < front.len() implies #[trigger] side_at(
        front,
        i,
        j,
    ) >= 0 by {
        assert(front[i] == chain[i] && front[i + 1] == chain[i + 1] && front[j] == chain[j]);
        assert(side_at(chain, i, j) >= 0);
    }
}

/// The new point lies to the left of, or on, the line through each two
/// points in a row of the stack from `i` on.
proof fn lemma_new_point_left_of_edges(
    pivot: GeoPosition,
    kept: Seq<GeoPosition>,
    q: GeoPosition,
    i: int,
)
    requires
        swept_well(pivot, kept),
        steps_ahead(pivot, kept.push(q)),
        forall|j: int| 0 <= j < kept.len() ==> turn(pivot, #[trigger] kept[j], q) >= 0,
        kept.len() >= 2 ==> turn(kept[kept.len() - 2], kept.last(), q) > 0,
        0 <= i,
        i + 1 < kept.len(),
    ensures
        turn(kept[i], kept[i + 1], q) >= 0,
    decreases kept.len() - i,
{
    let m = kept.len() - 1;
    if i == m - 1 {
    } else if i == 0 {
        assert(turn(pivot, kept[1], q) >= 0);
    } else {
        lemma_new_point_left_of_edges(pivot, kept, q, i + 1);
        let a = kept[i];
        let b = kept[i + 1];
        let c = kept[i + 2];
        assert(kept.push(q)[i + 1] == b && kept.push(q)[i + 2] == c);
        assert(step_at(pivot, kept.push(q), i + 1) > 0);
        assert(turn(pivot, b, c) > 0);
        assert(turn(pivot, a, b) >= 0);
        assert(turn(pivot, b, q) >= 0);
        assert(turn_at(kept, i) > 0);
        assert(turn(a, b, c) > 0);
        lemma_left_of_edge(pivot, a, b, c, q);
    }
}

/// Pushing a point that winds on behind the stack, and turns left at its
/// top, leaves a stack of the sweep.
proof fn lemma_push_is_swept_well(pivot: GeoPosition, kept: Seq<GeoPosition>, q: GeoPosition)
    requires
        swept_well(pivot, kept),
        forall|j: int| 0 <= j < kept.len() ==> turn(pivot, #[trigger] kept[j], q) >= 0,
        kept.len() >= 2 ==> turn(kept[kept.len() - 2], kept.last(), q) > 0,
    ensures
        swept_well(pivot, kept.push(q)),
{
    let now = kept.push(q);
    let m = kept.len() - 1;
    assert forall|i: int, j: int| 0 <= i < j < now.len() implies turn(pivot, now[i], now[j])
        >= 0 by {
        assert(now[i] == kept[i]);
        if j < kept.len() {
            assert(now[j] == kept[j]);
        }
    }
    assert forall|i: int| 0 <= i && i + 2 < now.len() implies #[trigger] turn_at(now, i) > 0 by {
        assert(now[i] == kept[i] && now[i + 1] == kept[i + 1]);
        if i + 2 < kept.len() {
            assert(now[i + 2] == kept[i + 2]);
            assert(turn_at(kept, i) > 0);
        }
    }
    assert forall|k: int| 1 <= k && k + 2 < now.len() implies #[trigger] step_at(pivot, now, k)
        > 0 by {
        assert(now[k] == kept[k] && now[k + 1] == kept[k + 1]);
        if k + 1 == m {
            let a = kept[m - 2];
            let b = kept[m - 1];
            let c = kept[m];
            assert(turn(pivot, b, c) >= 0);
            if m - 2 == 0 {
                lemma_turn_with_repeated_point(pivot, c);
            }
            assert(turn(pivot, a, c) >= 0);
            assert(turn(pivot, b, q) >= 0);
            assert(turn_at(kept, m - 2) > 0);
            lemma_strict_step(pivot, a, b, c, q);
        } else {
            assert(step_at(pivot, kept, k) > 0);
        }
    }
    assert(steps_ahead(pivot, now));
    assert forall|i: int, j: int|
        0 <= i && i + 1 < now.len() && 0 <= j < now.len() implies #[trigger] side_at(now, i, j)
        >= 0 by {
        assert(now[i] == kept[i]);
        if i + 1 < kept.len() {
            assert(now[i + 1] == kept[i + 1]);
            if j < kept.len() {
                assert(now[j] == kept[j]);
                assert(side_at(kept, i, j) >= 0);
            } else {
                lemma_new_point_left_of_edges(pivot, kept, q, i);
            }
        } else {
            let c = kept[m];
            assert(now[i + 1] == q);
            if j == m || j == m + 1 {
                lemma_turn_rotated(c, q, now[j]);
                lemma_turn_with_repeated_point(now[j], c);
                lemma_turn_with_repeated_point(now[j], q);
                lemma_turn_with_repeated_point(c, q);
                lemma_turn_rotated(q, q, c);
            } else if j == m - 1 {
                lemma_turn_rotated(kept[m - 1], c, q);
                lemma_turn_rotated(c, q, kept[m - 1]);
            } else if j == 0 {
                lemma_turn_rotated(c, q, pivot);
                lemma_turn_rotated(q, pivot, c);
            } else {
                let a = kept[j];
                let b = kept[m - 1];
                assert(now[j] == a);
                assert(kept.push(q)[m - 1] == b && kept.push(q)[m] == c);
                assert(step_at(pivot, now, m - 1) > 0);
                assert(turn(pivot, b, c) > 0);
                assert(turn(pivot, a, c) >= 0);
                assert(turn(pivot, c, q) >= 0);
                assert(side_at(kept, m - 1, j) >= 0);
                assert(turn(b, c, a) >= 0);
                lemma_turn_rotated(a, b, c);
                lemma_left_of_new_edge(pivot, a, b, c, q);
                lemma_turn_rotated(a, c, q);
                lemma_turn_rotated(c, q, a);
            }
        }
    }
}

/// The sweep over points that wind around the pivot leaves a stack of the
/// sweep.
pub proof fn lemma_swept_is_swept_well(pivot: GeoPosition, points: Seq<GeoPosition>)
    requires
        winds_around(pivot, points),
    ensures
        swept_well(pivot, swept(pivot, points)),
    decreases points.len(),
{
    if points.len() == 0 {
        let chain = swept(pivot, points);
        assert(chain == seq![pivot]);
        lemma_turn_with_repeated_point(pivot, pivot);
    } else {
        let front = points.drop_last();
        let q = points.last();
        assert forall|i: int, j: int| 0 <= i < j < front.len() implies turn(
            pivot,
            front[i],
            front[j],
        ) >= 0 by {
            assert(front[i] == points[i] && front[j] == points[j]);
        }
        lemma_swept_is_swept_well(pivot, front);
        let earlier = swept(pivot, front);
        lemma_swept_members(pivot, front);
        lemma_settle_is_prefix(earlier, q);
        let kept = settle(earlier, q);
        lemma_prefix_is_swept_well(pivot, earlier, kept.len() as int);
        assert forall|j: int| 0 <= j < kept.len() implies turn(pivot, #[trigger] kept[j], q)
            >= 0 by {
            assert(kept[j] == earlier[j]);
            if j == 0 {
                lemma_turn_with_repeated_point(pivot, q);
            } else {
                assert(front.contains(earlier[j]));
                let t = choose|t: int| 0 <= t < front.len() && front[t] == earlier[j];
                assert(points[t] == kept[j]);
                assert(points[points.len() - 1] == q);
            }
        }
        lemma_push_is_swept_well(pivot, kept, q);
    }
}

/// Points in ascending order of their angle around `pivot` wind around
/// it.
pub proof fn lemma_ascending_angles_wind(pivot: GeoPosition, s: Seq<GeoPosition>)
    requires
        angles_ascend(pivot, s),
    ensures
        winds_around(pivot, s),
{
    assert forall|i: int, j: int| 0 <= i < j < s.len() implies turn(pivot, s[i], s[j]) >= 0 by {
        lemma_turn_with_repeated_point(pivot, s[i]);
        lemma_turn_with_repeated_point(pivot, s[j]);
        lemma_turn_reversed(pivot, s[i], s[j]);
        assert(!angle_before(pivot, s[j], s[i]));
    }
}

/// The hull is convex: every point of it lies to the left of, or on, the
/// line through each of its edges.
pub proof fn lemma_hull_is_convex(s: Seq<GeoPosition>)
    requires
        s.len() >= 3,
    ensures
        bends_left(hull_of(s)),
{
    let lowest = lowest_index(s);
    lemma_lowest_index(s);
    let pivot = s[lowest];
    let others = s.remove(lowest);
    assert forall|i: int| 0 <= i < others.len() implies !lower(#[trigger] others[i], pivot) by {
        if i < lowest {
            assert(others[i] == s[i]);
        } else {
            assert(others[i] == s[i + 1]);
        }
    }
    lemma_sorted_ascends(pivot, others);
    let sorted = sorted_by_angle(pivot, others);
    lemma_ascending_angles_wind(pivot, sorted);
    lemma_swept_is_swept_well(pivot, sorted);
    let chain = open_hull(s);
    let hull = hull_of(s);
    assert(chain == swept(pivot, sorted));
    assert(hull == closed(chain));
    if hull.len() > chain.len() {
        let n = chain.len() as int;
        assert forall|i: int, j: int|
            0 <= i && i + 1 < hull.len() && 0 <= j < hull.len() implies #[trigger] side_at(
            hull,
            i,
            j,
        ) >= 0 by {
            let point = if j < n {
                j
            } else {
                0
            };
            assert(hull[j] == chain[point]);
            assert(hull[i] == chain[i]);
            if i + 1 < n {
                assert(hull[i + 1] == chain[i + 1]);
                assert(side_at(chain, i, point) >= 0);
            } else {
                assert(hull[i + 1] == pivot);
                lemma_turn_rotated(chain[i], pivot, chain[point]);
                lemma_turn_with_repeated_point(pivot, chain[point]);
                lemma_turn_with_repeated_point(pivot, chain[i]);
                if point < i {
                    assert(turn(pivot, chain[point], chain[i]) >= 0);
                }
            }
        }
    }
}

} // verus!
