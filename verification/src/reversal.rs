//! Ring direction: reversing the positions of a valid ring gives a valid
//! ring of the opposite winding, and whether rings form a valid polygon does
//! not depend on their directions. Winding reports the order of the
//! coordinates; it never decides a ring's role.

use crate::exact::{cross, orientation_spec};
use crate::topology::{
    abs_spec, collinear_relation_spec, crossing_flip, edge_pair_simple, edge_ring_relation,
    interior_inside, interiors_separate, least_index, lex_lt, location_from, max_spec, min_spec,
    on_edge_spec, on_segment_spec, point_location, polygon_rejection, ring_rejection,
    rings_relation_from, rings_relation_spec, segment_relation_spec, simple_boundary,
    stronger_spec, winding_spec, winding_turn, PointLocation, SegmentRelation,
};
use vstd::arithmetic::div_mod::{lemma_mod_add_multiples_vanish, lemma_mod_self_0, lemma_small_mod};
use vstd::prelude::*;

verus! {

/// Swapping the first two points of a triangle negates its doubled area.
proof fn lemma_cross_swap(a: (int, int), b: (int, int), c: (int, int))
    ensures
        cross(b, a, c) == -cross(a, b, c),
        cross(c, b, a) == -cross(a, b, c),
{
    assert(cross(b, a, c) == -cross(a, b, c)) by (nonlinear_arith);
    assert(cross(c, b, a) == -cross(a, b, c)) by (nonlinear_arith);
}

proof fn lemma_orientation_swap(a: (int, int), b: (int, int), c: (int, int))
    ensures
        orientation_spec(b, a, c) == -orientation_spec(a, b, c),
        orientation_spec(c, b, a) == -orientation_spec(a, b, c),
{
    lemma_cross_swap(a, b, c);
}

/// Reversing both segments does not change their relation.
pub proof fn lemma_relation_of_reversed_segments(
    a: (int, int),
    b: (int, int),
    c: (int, int),
    d: (int, int),
)
    ensures
        segment_relation_spec(b, a, d, c) == segment_relation_spec(a, b, c, d),
{
    lemma_orientation_swap(a, b, c);
    lemma_orientation_swap(a, b, d);
    lemma_orientation_swap(c, d, a);
    lemma_orientation_swap(c, d, b);
}

/// Parallel non-zero vectors are both steeper than diagonal or both not.
proof fn lemma_parallel_same_axis(ux: int, uy: int, vx: int, vy: int)
    requires
        ux * vy == uy * vx,
        ux != 0 || uy != 0,
        vx != 0 || vy != 0,
    ensures
        (abs_spec(ux) >= abs_spec(uy)) == (abs_spec(vx) >= abs_spec(vy)),
{
    let au = abs_spec(ux);
    let bu = abs_spec(uy);
    let av = abs_spec(vx);
    let bv = abs_spec(vy);
    assert(au * bv == bu * av) by (nonlinear_arith)
        requires
            ux * vy == uy * vx,
            au == abs_spec(ux),
            bu == abs_spec(uy),
            av == abs_spec(vx),
            bv == abs_spec(vy),
    ;
    if au >= bu && av < bv {
        assert(au > 0);
        assert(au * bv > au * av) by (nonlinear_arith)
            requires
                au > 0,
                av < bv,
        ;
        assert(au * av >= bu * av) by (nonlinear_arith)
            requires
                au >= bu,
                av >= 0,
        ;
    }
    if au < bu && av >= bv {
        assert(av > 0);
        assert(av * bu > av * au) by (nonlinear_arith)
            requires
                av > 0,
                au < bu,
        ;
        assert(av * au >= bv * au) by (nonlinear_arith)
            requires
                av >= bv,
                au >= 0,
        ;
    }
}

/// Two collinear segments of non-zero length relate the same way whichever
/// is measured first.
proof fn lemma_collinear_swap(a: (int, int), b: (int, int), c: (int, int), d: (int, int))
    requires
        a != b,
        c != d,
        orientation_spec(a, b, c) == 0,
        orientation_spec(a, b, d) == 0,
    ensures
        collinear_relation_spec(c, d, a, b) == collinear_relation_spec(a, b, c, d),
{
    let ux = b.0 - a.0;
    let uy = b.1 - a.1;
    let vx = d.0 - c.0;
    let vy = d.1 - c.1;
    assert(ux * vy == uy * vx) by (nonlinear_arith)
        requires
            cross(a, b, c) == 0,
            cross(a, b, d) == 0,
            ux == b.0 - a.0,
            uy == b.1 - a.1,
            vx == d.0 - c.0,
            vy == d.1 - c.1,
    ;
    lemma_parallel_same_axis(ux, uy, vx, vy);
}

/// Swapping two segments of non-zero length does not change their relation.
pub proof fn lemma_relation_of_swapped_segments(
    a: (int, int),
    b: (int, int),
    c: (int, int),
    d: (int, int),
)
    requires
        a != b,
        c != d,
    ensures
        segment_relation_spec(c, d, a, b) == segment_relation_spec(a, b, c, d),
{
    if orientation_spec(a, b, c) == 0 && orientation_spec(a, b, d) == 0 {
        lemma_collinear_swap(a, b, c, d);
    }
}

/// The positions in reverse order.
pub open spec fn reversed_points(points: Seq<(int, int)>) -> Seq<(int, int)> {
    Seq::new(points.len(), |i: int| points[points.len() - 1 - i])
}

/// A closed boundary without zero-length edges stays simple when reversed.
proof fn lemma_reversed_simple(points: Seq<(int, int)>)
    requires
        points.len() >= 2,
        forall|i: int| 0 <= i < points.len() - 1 ==> #[trigger] points[i] != points[i + 1],
        simple_boundary(points),
    ensures
        simple_boundary(reversed_points(points)),
{
    let n = points.len();
    let rev = reversed_points(points);
    assert forall|first: int, second: int|
        0 <= first < second < rev.len() - 1 implies #[trigger] edge_pair_simple(rev, first, second) by {
        let later = n - 2 - first;
        let earlier = n - 2 - second;
        assert(rev[first] == points[later + 1]);
        assert(rev[first + 1] == points[later]);
        assert(rev[second] == points[earlier + 1]);
        assert(rev[second + 1] == points[earlier]);
        assert(points[later] != points[later + 1]);
        assert(points[earlier] != points[earlier + 1]);
        lemma_relation_of_reversed_segments(
            points[later],
            points[later + 1],
            points[earlier],
            points[earlier + 1],
        );
        lemma_relation_of_swapped_segments(
            points[earlier],
            points[earlier + 1],
            points[later],
            points[later + 1],
        );
        assert(edge_pair_simple(points, earlier, later));
    }
}

/// The least index is within range and no earlier-counted point is smaller.
proof fn lemma_least_index_is_least(points: Seq<(int, int)>, count: int)
    requires
        1 <= count <= points.len(),
    ensures
        0 <= least_index(points, count) < count,
        forall|k: int| 0 <= k < count ==> !lex_lt(#[trigger] points[k], points[least_index(points, count)]),
    decreases count,
{
    if count > 1 {
        lemma_least_index_is_least(points, count - 1);
    }
}

/// Segments that start at one point are never disjoint.
proof fn lemma_shared_start_meets(a: (int, int), b: (int, int), d: (int, int))
    ensures
        segment_relation_spec(a, b, a, d) != SegmentRelation::Disjoint,
{
    assert(cross(a, b, a) == 0) by (nonlinear_arith);
    assert(cross(a, d, a) == 0) by (nonlinear_arith);
}

/// The vertices of a valid ring, closing position excluded, are distinct.
proof fn lemma_valid_ring_vertices_distinct(points: Seq<(int, int)>, i: int, j: int)
    requires
        ring_rejection(points) is None,
        0 <= i < j < points.len() - 1,
    ensures
        points[i] != points[j],
{
    let n = points.len();
    let edge_count = n - 1;
    if points[i] == points[j] {
        if j == i + 1 {
            assert(points[i] == points[i + 1]);
        } else if i == 0 && j + 1 == edge_count {
            assert(points[j] == points[j + 1]);
        } else {
            assert(edge_pair_simple(points, i, j));
            lemma_shared_start_meets(points[i], points[i + 1], points[j + 1]);
        }
    }
}

/// The cyclic neighbours of an index below `count`.
proof fn lemma_cyclic_neighbours(index: int, count: int)
    requires
        0 <= index < count,
        count >= 2,
    ensures
        (index + count - 1) % count == if index == 0 {
            count - 1
        } else {
            index - 1
        },
        (index + 1) % count == if index == count - 1 {
            0
        } else {
            index + 1
        },
{
    if index == 0 {
        lemma_small_mod((count - 1) as nat, count as nat);
    } else {
        lemma_mod_add_multiples_vanish(index - 1, count);
        lemma_small_mod((index - 1) as nat, count as nat);
        assert(index + count - 1 == count + (index - 1));
    }
    if index == count - 1 {
        lemma_mod_self_0(count);
    } else {
        lemma_small_mod((index + 1) as nat, count as nat);
    }
}

/// Reversing the positions of a valid ring gives a valid ring whose winding
/// is the opposite one.
pub proof fn reversing_a_ring_flips_its_winding(points: Seq<(int, int)>)
    requires
        ring_rejection(points) is None,
    ensures
        ring_rejection(reversed_points(points)) is None,
        winding_spec(reversed_points(points)) != winding_spec(points),
        winding_turn(reversed_points(points)) == -winding_turn(points),
{
    let n = points.len();
    let count = n - 1;
    let rev = reversed_points(points);
    assert forall|i: int| 0 <= i < n - 1 implies #[trigger] points[i] != points[i + 1] by {
        if points[i] == points[i + 1] {
            assert(exists|k: int| 0 <= k < n - 1 && #[trigger] points[k] == points[k + 1]);
        }
    }
    lemma_reversed_simple(points);
    assert forall|i: int| 0 <= i < n - 1 implies #[trigger] rev[i] != rev[i + 1] by {
        assert(points[n - 2 - i] != points[n - 2 - i + 1]);
    }

    lemma_least_index_is_least(points, count);
    lemma_least_index_is_least(rev, count);
    let m = least_index(points, count);
    let mr = least_index(rev, count);
    let partner = if m == 0 {
        0
    } else {
        count - m
    };
    let q = if mr == 0 {
        0
    } else {
        count - mr
    };
    assert(rev[partner] == points[m]);
    assert(rev[mr] == points[q]);
    assert(!lex_lt(rev[partner], rev[mr]));
    assert(!lex_lt(points[q], points[m]));
    assert(points[q] == points[m]);
    if q != m {
        if q < m {
            lemma_valid_ring_vertices_distinct(points, q, m);
        } else {
            lemma_valid_ring_vertices_distinct(points, m, q);
        }
    }
    assert(mr == partner);

    lemma_cyclic_neighbours(m, count);
    lemma_cyclic_neighbours(mr, count);
    let before = points[(m + count - 1) % count];
    let after = points[(m + 1) % count];
    assert(rev[(mr + count - 1) % count] == after);
    assert(rev[(mr + 1) % count] == before);
    lemma_orientation_swap(before, points[m], after);
    assert(winding_turn(rev) == -winding_turn(points));
    assert(rev.len() == n);
    assert(rev[0] == rev[n - 1]);
}

/// Reversing one segment does not change its relation to another.
proof fn lemma_relation_of_one_reversed_segment(
    a: (int, int),
    b: (int, int),
    c: (int, int),
    d: (int, int),
)
    ensures
        segment_relation_spec(b, a, c, d) == segment_relation_spec(a, b, c, d),
        segment_relation_spec(a, b, d, c) == segment_relation_spec(a, b, c, d),
{
    lemma_orientation_swap(a, b, c);
    lemma_orientation_swap(a, b, d);
    lemma_relation_of_reversed_segments(a, b, d, c);
}

/// Segments `a b` and `c d` do not meet.
#[verifier::opaque]
pub open spec fn segments_clear(a: (int, int), b: (int, int), c: (int, int), d: (int, int)) -> bool {
    segment_relation_spec(a, b, c, d) == SegmentRelation::Disjoint
}

/// Segment `a b` meets no edge of `ring`.
#[verifier::opaque]
pub open spec fn edge_clear_of(a: (int, int), b: (int, int), ring: Seq<(int, int)>) -> bool {
    edge_ring_relation(a, b, ring, 0) == SegmentRelation::Disjoint
}

/// Every edge of `first` is disjoint from every edge of `second`.
pub open spec fn all_edges_disjoint(first: Seq<(int, int)>, second: Seq<(int, int)>) -> bool {
    forall|i: int, j: int|
        0 <= i < first.len() - 1 && 0 <= j < second.len() - 1 ==> #[trigger] segments_clear(
            first[i],
            first[i + 1],
            second[j],
            second[j + 1],
        )
}

proof fn lemma_stronger_disjoint(x: SegmentRelation, y: SegmentRelation)
    ensures
        (stronger_spec(x, y) == SegmentRelation::Disjoint) == (x == SegmentRelation::Disjoint && y
            == SegmentRelation::Disjoint),
{
}

#[verifier::rlimit(40)]
proof fn lemma_edge_ring_disjoint(a: (int, int), b: (int, int), ring: Seq<(int, int)>, j: int)
    requires
        j >= 0,
    ensures
        (edge_ring_relation(a, b, ring, j) == SegmentRelation::Disjoint) == (forall|k: int|
            j <= k < ring.len() - 1 ==> #[trigger] segments_clear(a, b, ring[k], ring[k + 1])),
    decreases ring.len() - j,
{
    if j + 1 < ring.len() {
        lemma_edge_ring_disjoint(a, b, ring, j + 1);
        let here = segment_relation_spec(a, b, ring[j], ring[j + 1]);
        let rest = edge_ring_relation(a, b, ring, j + 1);
        assert(edge_ring_relation(a, b, ring, j) == stronger_spec(here, rest));
        lemma_stronger_disjoint(here, rest);
        assert(segments_clear(a, b, ring[j], ring[j + 1]) == (here == SegmentRelation::Disjoint)) by {
            reveal(segments_clear);
        }
    }
}

#[verifier::rlimit(40)]
proof fn lemma_rings_relation_from_disjoint(first: Seq<(int, int)>, second: Seq<(int, int)>, i: int)
    requires
        i >= 0,
    ensures
        (rings_relation_from(first, second, i) == SegmentRelation::Disjoint) == (forall|k: int|
            i <= k < first.len() - 1 ==> #[trigger] edge_clear_of(first[k], first[k + 1], second)),
    decreases first.len() - i,
{
    if i + 1 < first.len() {
        lemma_rings_relation_from_disjoint(first, second, i + 1);
        let here = edge_ring_relation(first[i], first[i + 1], second, 0);
        let rest = rings_relation_from(first, second, i + 1);
        assert(rings_relation_from(first, second, i) == stronger_spec(here, rest));
        lemma_stronger_disjoint(here, rest);
        assert(edge_clear_of(first[i], first[i + 1], second) == (here == SegmentRelation::Disjoint)) by {
            reveal(edge_clear_of);
        }
    }
}

/// Two rings' boundaries are disjoint exactly when every pair of edges is.
pub proof fn lemma_rings_disjoint_pairwise(first: Seq<(int, int)>, second: Seq<(int, int)>)
    ensures
        (rings_relation_spec(first, second) == SegmentRelation::Disjoint) == all_edges_disjoint(
            first,
            second,
        ),
{
    lemma_rings_relation_from_disjoint(first, second, 0);
    assert forall|i: int| 0 <= i < first.len() - 1 implies #[trigger] edge_clear_of(
        first[i],
        first[i + 1],
        second,
    ) == (forall|k: int|
        0 <= k < second.len() - 1 ==> #[trigger] segments_clear(
            first[i],
            first[i + 1],
            second[k],
            second[k + 1],
        )) by {
        reveal(edge_clear_of);
        lemma_edge_ring_disjoint(first[i], first[i + 1], second, 0);
    }
    if rings_relation_spec(first, second) == SegmentRelation::Disjoint {
        assert forall|i: int, j: int|
            0 <= i < first.len() - 1 && 0 <= j < second.len() - 1 implies #[trigger] segments_clear(
            first[i],
            first[i + 1],
            second[j],
            second[j + 1],
        ) by {
            assert(edge_clear_of(first[i], first[i + 1], second));
        }
    }
    if all_edges_disjoint(first, second) {
        assert forall|i: int| 0 <= i < first.len() - 1 implies #[trigger] edge_clear_of(
            first[i],
            first[i + 1],
            second,
        ) by {
            assert forall|k: int| 0 <= k < second.len() - 1 implies #[trigger] segments_clear(
                first[i],
                first[i + 1],
                second[k],
                second[k + 1],
            ) by {}
        }
    }
}

proof fn lemma_clear_reversed_edges(a: (int, int), b: (int, int), c: (int, int), d: (int, int))
    ensures
        segments_clear(b, a, c, d) == segments_clear(a, b, c, d),
        segments_clear(a, b, d, c) == segments_clear(a, b, c, d),
{
    reveal(segments_clear);
    lemma_relation_of_one_reversed_segment(a, b, c, d);
}

/// Reversing either ring does not change whether their boundaries meet.
pub proof fn lemma_disjoint_rings_ignore_direction(first: Seq<(int, int)>, second: Seq<(int, int)>)
    ensures
        all_edges_disjoint(reversed_points(first), second) == all_edges_disjoint(first, second),
        all_edges_disjoint(first, reversed_points(second)) == all_edges_disjoint(first, second),
{
    let rf = reversed_points(first);
    let rs = reversed_points(second);
    let n = first.len();
    let m = second.len();
    assert forall|i: int, j: int|
        0 <= i < n - 1 && 0 <= j < m - 1 implies #[trigger] segments_clear(
        rf[i],
        rf[i + 1],
        second[j],
        second[j + 1],
    ) == segments_clear(first[n - 2 - i], first[n - 1 - i], second[j], second[j + 1]) by {
        lemma_clear_reversed_edges(first[n - 2 - i], first[n - 1 - i], second[j], second[j + 1]);
    }
    assert forall|i: int, j: int|
        0 <= i < n - 1 && 0 <= j < m - 1 implies #[trigger] segments_clear(
        first[i],
        first[i + 1],
        rs[j],
        rs[j + 1],
    ) == segments_clear(first[i], first[i + 1], second[m - 2 - j], second[m - 1 - j]) by {
        lemma_clear_reversed_edges(first[i], first[i + 1], second[m - 2 - j], second[m - 1 - j]);
    }
    if all_edges_disjoint(first, second) {
        assert forall|i: int, j: int|
            0 <= i < rf.len() - 1 && 0 <= j < second.len() - 1 implies #[trigger] segments_clear(
            rf[i],
            rf[i + 1],
            second[j],
            second[j + 1],
        ) by {
            assert(segments_clear(first[n - 2 - i], first[n - 2 - i + 1], second[j], second[j + 1]));
        }
        assert forall|i: int, j: int|
            0 <= i < first.len() - 1 && 0 <= j < rs.len() - 1 implies #[trigger] segments_clear(
            first[i],
            first[i + 1],
            rs[j],
            rs[j + 1],
        ) by {
            assert(segments_clear(first[i], first[i + 1], second[m - 2 - j], second[m - 2 - j + 1]));
        }
    }
    if all_edges_disjoint(rf, second) {
        assert forall|i: int, j: int|
            0 <= i < first.len() - 1 && 0 <= j < second.len() - 1 implies #[trigger] segments_clear(
            first[i],
            first[i + 1],
            second[j],
            second[j + 1],
        ) by {
            let r = n - 2 - i;
            assert(segments_clear(rf[r], rf[r + 1], second[j], second[j + 1]));
        }
    }
    if all_edges_disjoint(first, rs) {
        assert forall|i: int, j: int|
            0 <= i < first.len() - 1 && 0 <= j < second.len() - 1 implies #[trigger] segments_clear(
            first[i],
            first[i + 1],
            second[j],
            second[j + 1],
        ) by {
            let r = m - 2 - j;
            assert(segments_clear(first[i], first[i + 1], rs[r], rs[r + 1]));
        }
    }
}

/// `point` lies on an edge of `ring` at or after edge `i`.
pub open spec fn on_boundary_from(ring: Seq<(int, int)>, point: (int, int), i: int) -> bool {
    exists|k: int| i <= k < ring.len() - 1 && #[trigger] on_edge_spec(ring[k], ring[k + 1], point)
}

/// Crossing parity of the edges at or after `i`.
pub open spec fn parity_from(ring: Seq<(int, int)>, point: (int, int), i: int) -> bool
    decreases ring.len() - i,
{
    if i < 0 || i + 1 >= ring.len() {
        false
    } else {
        crossing_flip(ring[i], ring[i + 1], point) != parity_from(ring, point, i + 1)
    }
}

/// Crossing parity of the edges before `j`.
pub open spec fn parity_to(ring: Seq<(int, int)>, point: (int, int), j: int) -> bool
    decreases j,
{
    if j <= 0 {
        false
    } else {
        crossing_flip(ring[j - 1], ring[j], point) != parity_to(ring, point, j - 1)
    }
}

proof fn lemma_location_from(ring: Seq<(int, int)>, point: (int, int), i: int, inside: bool)
    requires
        i >= 0,
    ensures
        location_from(ring, point, i, inside) == if on_boundary_from(ring, point, i) {
            PointLocation::Boundary
        } else if inside != parity_from(ring, point, i) {
            PointLocation::Inside
        } else {
            PointLocation::Outside
        },
    decreases ring.len() - i,
{
    if i + 1 < ring.len() {
        let flip = crossing_flip(ring[i], ring[i + 1], point);
        lemma_location_from(ring, point, i + 1, inside != flip);
        if on_boundary_from(ring, point, i + 1) {
            let k = choose|k: int| i + 1 <= k < ring.len() - 1 && #[trigger] on_edge_spec(
                ring[k],
                ring[k + 1],
                point,
            );
            assert(on_edge_spec(ring[k], ring[k + 1], point));
        }
        if on_boundary_from(ring, point, i) && !on_edge_spec(ring[i], ring[i + 1], point) {
            let k = choose|k: int| i <= k < ring.len() - 1 && #[trigger] on_edge_spec(
                ring[k],
                ring[k + 1],
                point,
            );
            assert(k != i);
            assert(on_boundary_from(ring, point, i + 1));
        }
    }
}

proof fn lemma_parity_split(ring: Seq<(int, int)>, point: (int, int), j: int)
    requires
        0 <= j <= ring.len() - 1,
    ensures
        parity_from(ring, point, 0) == (parity_to(ring, point, j) != parity_from(ring, point, j)),
    decreases j,
{
    if j > 0 {
        lemma_parity_split(ring, point, j - 1);
    }
}

/// A point on the supporting line of a non-horizontal edge, between the
/// edge's ends in y, lies on the edge.
proof fn lemma_collinear_between(e0: (int, int), e1: (int, int), point: (int, int))
    requires
        cross(e0, e1, point) == 0,
        e0.1 != e1.1,
        min_spec(e0.1, e1.1) <= point.1 <= max_spec(e0.1, e1.1),
    ensures
        on_segment_spec(e0, e1, point),
{
    let dx = e1.0 - e0.0;
    let dy = e1.1 - e0.1;
    let t = point.1 - e0.1;
    let s = point.0 - e0.0;
    assert(dx * t == dy * s) by (nonlinear_arith)
        requires
            cross(e0, e1, point) == 0,
            dx == e1.0 - e0.0,
            dy == e1.1 - e0.1,
            t == point.1 - e0.1,
            s == point.0 - e0.0,
    ;
    if dy > 0 {
        assert(0 <= t <= dy);
        if dx >= 0 {
            assert(0 <= s <= dx) by (nonlinear_arith)
                requires
                    dx * t == dy * s,
                    dy > 0,
                    0 <= t <= dy,
                    dx >= 0,
            ;
        } else {
            assert(dx <= s <= 0) by (nonlinear_arith)
                requires
                    dx * t == dy * s,
                    dy > 0,
                    0 <= t <= dy,
                    dx < 0,
            ;
        }
    } else {
        assert(dy <= t <= 0);
        if dx >= 0 {
            assert(0 <= s <= dx) by (nonlinear_arith)
                requires
                    dx * t == dy * s,
                    dy < 0,
                    dy <= t <= 0,
                    dx >= 0,
            ;
        } else {
            assert(dx <= s <= 0) by (nonlinear_arith)
                requires
                    dx * t == dy * s,
                    dy < 0,
                    dy <= t <= 0,
                    dx < 0,
            ;
        }
    }
}

/// Off the edge, whether a ray crosses it does not depend on its direction.
proof fn lemma_flip_symmetric(e0: (int, int), e1: (int, int), point: (int, int))
    requires
        !on_edge_spec(e0, e1, point),
    ensures
        crossing_flip(e1, e0, point) == crossing_flip(e0, e1, point),
{
    lemma_orientation_swap(e0, e1, point);
    if (e0.1 > point.1) != (e1.1 > point.1) && orientation_spec(e0, e1, point) == 0 {
        lemma_collinear_between(e0, e1, point);
    }
}

proof fn lemma_reversed_parity(ring: Seq<(int, int)>, point: (int, int), i: int)
    requires
        0 <= i,
        !on_boundary_from(ring, point, 0),
    ensures
        parity_from(reversed_points(ring), point, i) == parity_to(ring, point, ring.len() - 1 - i),
    decreases ring.len() - i,
{
    let n = ring.len();
    let rev = reversed_points(ring);
    if i + 1 < n {
        lemma_reversed_parity(ring, point, i + 1);
        let e = n - 2 - i;
        assert(rev[i] == ring[e + 1] && rev[i + 1] == ring[e]);
        if on_edge_spec(ring[e], ring[e + 1], point) {
            assert(on_boundary_from(ring, point, 0));
        }
        lemma_flip_symmetric(ring[e], ring[e + 1], point);
    }
}

/// Where a point lies does not depend on the direction of the ring.
pub proof fn lemma_location_ignores_direction(ring: Seq<(int, int)>, point: (int, int))
    requires
        ring.len() >= 1,
    ensures
        point_location(reversed_points(ring), point) == point_location(ring, point),
{
    let n = ring.len();
    let rev = reversed_points(ring);
    lemma_location_from(ring, point, 0, false);
    lemma_location_from(rev, point, 0, false);
    if on_boundary_from(ring, point, 0) {
        let k = choose|k: int| 0 <= k < n - 1 && #[trigger] on_edge_spec(ring[k], ring[k + 1], point);
        let r = n - 2 - k;
        assert(rev[r] == ring[k + 1] && rev[r + 1] == ring[k]);
        lemma_orientation_swap(ring[k], ring[k + 1], point);
        assert(on_edge_spec(rev[r], rev[r + 1], point));
    } else {
        if on_boundary_from(rev, point, 0) {
            let r = choose|r: int| 0 <= r < n - 1 && #[trigger] on_edge_spec(rev[r], rev[r + 1], point);
            let k = n - 2 - r;
            assert(rev[r] == ring[k + 1] && rev[r + 1] == ring[k]);
            lemma_orientation_swap(ring[k], ring[k + 1], point);
            assert(on_edge_spec(ring[k], ring[k + 1], point));
        }
        lemma_reversed_parity(ring, point, 0);
        lemma_parity_split(ring, point, n - 1);
    }
}

/// `given` is `ring` or its reverse.
pub open spec fn either_direction(ring: Seq<(int, int)>, given: Seq<(int, int)>) -> bool {
    given == ring || given == reversed_points(ring)
}

proof fn lemma_disjoint_either_direction(
    first: Seq<(int, int)>,
    second: Seq<(int, int)>,
    first_given: Seq<(int, int)>,
    second_given: Seq<(int, int)>,
)
    requires
        either_direction(first, first_given),
        either_direction(second, second_given),
    ensures
        (rings_relation_spec(first_given, second_given) == SegmentRelation::Disjoint) == (
        rings_relation_spec(first, second) == SegmentRelation::Disjoint),
{
    lemma_rings_disjoint_pairwise(first, second);
    lemma_rings_disjoint_pairwise(first_given, second_given);
    lemma_disjoint_rings_ignore_direction(first, second);
    lemma_disjoint_rings_ignore_direction(first, second_given);
    lemma_disjoint_rings_ignore_direction(first_given, second);
}

proof fn lemma_location_either_direction(
    ring: Seq<(int, int)>,
    given: Seq<(int, int)>,
    point: (int, int),
)
    requires
        ring.len() >= 1,
        either_direction(ring, given),
    ensures
        point_location(given, point) == point_location(ring, point),
{
    lemma_location_ignores_direction(ring, point);
}

proof fn lemma_first_vertex_either_direction(ring: Seq<(int, int)>, given: Seq<(int, int)>)
    requires
        ring_rejection(ring) is None,
        either_direction(ring, given),
    ensures
        given.len() == ring.len(),
        given[0] == ring[0],
{
}

proof fn lemma_inside_either(
    exterior: Seq<(int, int)>,
    interior: Seq<(int, int)>,
    exterior_given: Seq<(int, int)>,
    interior_given: Seq<(int, int)>,
)
    requires
        ring_rejection(exterior) is None,
        ring_rejection(interior) is None,
        either_direction(exterior, exterior_given),
        either_direction(interior, interior_given),
    ensures
        interior_inside(exterior_given, interior_given) == interior_inside(exterior, interior),
{
    lemma_disjoint_either_direction(exterior, interior, exterior_given, interior_given);
    lemma_first_vertex_either_direction(interior, interior_given);
    lemma_location_either_direction(exterior, exterior_given, interior[0]);
}

proof fn lemma_separate_either(
    first: Seq<(int, int)>,
    second: Seq<(int, int)>,
    first_given: Seq<(int, int)>,
    second_given: Seq<(int, int)>,
)
    requires
        ring_rejection(first) is None,
        ring_rejection(second) is None,
        either_direction(first, first_given),
        either_direction(second, second_given),
    ensures
        interiors_separate(first_given, second_given) == interiors_separate(first, second),
{
    lemma_disjoint_either_direction(first, second, first_given, second_given);
    lemma_first_vertex_either_direction(first, first_given);
    lemma_first_vertex_either_direction(second, second_given);
    lemma_location_either_direction(second, second_given, first[0]);
    lemma_location_either_direction(first, first_given, second[0]);
}

proof fn lemma_all_inside_either(
    exterior: Seq<(int, int)>,
    interiors: Seq<Seq<(int, int)>>,
    exterior_given: Seq<(int, int)>,
    interiors_given: Seq<Seq<(int, int)>>,
)
    requires
        ring_rejection(exterior) is None,
        forall|k: int| 0 <= k < interiors.len() ==> ring_rejection(#[trigger] interiors[k]) is None,
        either_direction(exterior, exterior_given),
        interiors_given.len() == interiors.len(),
        forall|k: int|
            0 <= k < interiors.len() ==> either_direction(
                #[trigger] interiors[k],
                interiors_given[k],
            ),
    ensures
        forall|k: int|
            0 <= k < interiors.len() ==> interior_inside(exterior_given, #[trigger] interiors_given[k])
                == interior_inside(exterior, interiors[k]),
{
    assert forall|k: int| 0 <= k < interiors.len() implies interior_inside(
        exterior_given,
        #[trigger] interiors_given[k],
    ) == interior_inside(exterior, interiors[k]) by {
        lemma_inside_either(exterior, interiors[k], exterior_given, interiors_given[k]);
    }
}

proof fn lemma_all_separate_either(
    interiors: Seq<Seq<(int, int)>>,
    interiors_given: Seq<Seq<(int, int)>>,
)
    requires
        forall|k: int| 0 <= k < interiors.len() ==> ring_rejection(#[trigger] interiors[k]) is None,
        interiors_given.len() == interiors.len(),
        forall|k: int|
            0 <= k < interiors.len() ==> either_direction(
                #[trigger] interiors[k],
                interiors_given[k],
            ),
    ensures
        forall|f: int, s: int|
            0 <= f < s < interiors.len() ==> interiors_separate(
                #[trigger] interiors_given[f],
                #[trigger] interiors_given[s],
            ) == interiors_separate(interiors[f], interiors[s]),
{
    assert forall|f: int, s: int| 0 <= f < s < interiors.len() implies interiors_separate(
        #[trigger] interiors_given[f],
        #[trigger] interiors_given[s],
    ) == interiors_separate(interiors[f], interiors[s]) by {
        lemma_separate_either(interiors[f], interiors[s], interiors_given[f], interiors_given[s]);
    }
}

/// Whether an exterior and interiors form a valid polygon does not depend
/// on the direction of any of its rings: the shell and the holes are given
/// by position, never inferred from winding.
pub proof fn polygon_validity_ignores_winding(
    exterior: Seq<(int, int)>,
    interiors: Seq<Seq<(int, int)>>,
    exterior_given: Seq<(int, int)>,
    interiors_given: Seq<Seq<(int, int)>>,
)
    requires
        ring_rejection(exterior) is None,
        forall|k: int| 0 <= k < interiors.len() ==> ring_rejection(#[trigger] interiors[k]) is None,
        either_direction(exterior, exterior_given),
        interiors_given.len() == interiors.len(),
        forall|k: int|
            0 <= k < interiors.len() ==> either_direction(
                #[trigger] interiors[k],
                interiors_given[k],
            ),
    ensures
        polygon_rejection(exterior_given, interiors_given) == polygon_rejection(exterior, interiors),
{
    lemma_all_inside_either(exterior, interiors, exterior_given, interiors_given);
    lemma_all_separate_either(interiors, interiors_given);
    lemma_same_outside(exterior, interiors, exterior_given, interiors_given);
    lemma_same_overlap(interiors, interiors_given);
}

proof fn lemma_same_outside(
    exterior: Seq<(int, int)>,
    interiors: Seq<Seq<(int, int)>>,
    exterior_given: Seq<(int, int)>,
    interiors_given: Seq<Seq<(int, int)>>,
)
    requires
        interiors_given.len() == interiors.len(),
        forall|k: int|
            0 <= k < interiors.len() ==> interior_inside(exterior_given, #[trigger] interiors_given[k])
                == interior_inside(exterior, interiors[k]),
    ensures
        (exists|k: int|
            0 <= k < interiors_given.len() && !interior_inside(
                exterior_given,
                #[trigger] interiors_given[k],
            )) == (exists|k: int|
            0 <= k < interiors.len() && !interior_inside(exterior, #[trigger] interiors[k])),
{
    if exists|k: int| 0 <= k < interiors.len() && !interior_inside(exterior, #[trigger] interiors[k]) {
        let k = choose|k: int| 0 <= k < interiors.len() && !interior_inside(exterior, #[trigger] interiors[k]);
        assert(!interior_inside(exterior_given, interiors_given[k]));
    }
}

proof fn lemma_same_overlap(interiors: Seq<Seq<(int, int)>>, interiors_given: Seq<Seq<(int, int)>>)
    requires
        interiors_given.len() == interiors.len(),
        forall|f: int, s: int|
            0 <= f < s < interiors.len() ==> interiors_separate(
                #[trigger] interiors_given[f],
                #[trigger] interiors_given[s],
            ) == interiors_separate(interiors[f], interiors[s]),
    ensures
        (exists|f: int, s: int|
            0 <= f < s < interiors_given.len() && !interiors_separate(
                #[trigger] interiors_given[f],
                #[trigger] interiors_given[s],
            )) == (exists|f: int, s: int|
            0 <= f < s < interiors.len() && !interiors_separate(
                #[trigger] interiors[f],
                #[trigger] interiors[s],
            )),
{
    if exists|f: int, s: int|
        0 <= f < s < interiors.len() && !interiors_separate(
            #[trigger] interiors[f],
            #[trigger] interiors[s],
        ) {
        let (f, s) = choose|f: int, s: int|
            0 <= f < s < interiors.len() && !interiors_separate(
                #[trigger] interiors[f],
                #[trigger] interiors[s],
            );
        assert(!interiors_separate(interiors_given[f], interiors_given[s]));
    }
}

} // verus!
