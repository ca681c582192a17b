//! Ring validity and winding do not depend on where a ring is placed or on
//! its unit: translating it, or scaling it by a positive factor, keeps a
//! valid ring valid with the same winding and an invalid one invalid for the
//! same reason.

use crate::exact::{cross, orientation_spec, sign_of};
use crate::topology::{
    abs_spec, collinear_relation_spec, edge_pair_simple, least_index, lex_lt, max_spec, min_spec,
    on_segment_spec, ring_rejection, segment_relation_spec, simple_boundary, winding_spec,
    winding_turn,
};
use vstd::arithmetic::mul::{
    lemma_mul_is_associative, lemma_mul_is_commutative, lemma_mul_is_distributive_sub,
};
use vstd::prelude::*;

verus! {

/// `point` scaled by `scale` about the origin, then moved by `(dx, dy)`.
pub open spec fn similar_point(point: (int, int), scale: int, dx: int, dy: int) -> (int, int) {
    (scale * point.0 + dx, scale * point.1 + dy)
}

/// Every point of `points` mapped by [`similar_point`].
pub open spec fn similar_points(points: Seq<(int, int)>, scale: int, dx: int, dy: int) -> Seq<
    (int, int),
> {
    points.map_values(|p: (int, int)| similar_point(p, scale, dx, dy))
}

proof fn lemma_scaled_difference(scale: int, p: int, q: int, shift: int)
    ensures
        (scale * p + shift) - (scale * q + shift) == scale * (p - q),
{
    lemma_mul_is_distributive_sub(scale, p, q);
}

proof fn lemma_scaled_product(scale: int, x: int, y: int)
    ensures
        (scale * x) * (scale * y) == (scale * scale) * (x * y),
{
    lemma_mul_is_associative(scale * x, scale, y);
    lemma_mul_is_associative(scale, x, scale);
    lemma_mul_is_commutative(x, scale);
    lemma_mul_is_associative(scale, scale, x);
    lemma_mul_is_associative(scale * scale, x, y);
}

proof fn lemma_scaled_order(a: int, b: int, scale: int, shift: int)
    requires
        scale > 0,
    ensures
        (scale * a + shift <= scale * b + shift) == (a <= b),
        (scale * a + shift < scale * b + shift) == (a < b),
        (scale * a + shift == scale * b + shift) == (a == b),
{
    if a < b {
        assert(scale * a < scale * b) by (nonlinear_arith)
            requires
                scale > 0,
                a < b,
        ;
    } else if b < a {
        assert(scale * b < scale * a) by (nonlinear_arith)
            requires
                scale > 0,
                b < a,
        ;
    }
}

proof fn lemma_scaled_min_max(a: int, b: int, scale: int, shift: int)
    requires
        scale > 0,
    ensures
        min_spec(scale * a + shift, scale * b + shift) == scale * min_spec(a, b) + shift,
        max_spec(scale * a + shift, scale * b + shift) == scale * max_spec(a, b) + shift,
{
    lemma_scaled_order(a, b, scale, shift);
}

proof fn lemma_scaled_abs(a: int, scale: int)
    requires
        scale > 0,
    ensures
        abs_spec(scale * a) == scale * abs_spec(a),
{
    if a < 0 {
        assert(scale * a < 0 && scale * (-a) == -(scale * a)) by (nonlinear_arith)
            requires
                scale > 0,
                a < 0,
        ;
    } else {
        assert(scale * a >= 0) by (nonlinear_arith)
            requires
                scale > 0,
                a >= 0,
        ;
    }
}

/// Orientation is unchanged by the map.
pub proof fn lemma_similar_orientation(
    a: (int, int),
    b: (int, int),
    c: (int, int),
    scale: int,
    dx: int,
    dy: int,
)
    requires
        scale > 0,
    ensures
        orientation_spec(
            similar_point(a, scale, dx, dy),
            similar_point(b, scale, dx, dy),
            similar_point(c, scale, dx, dy),
        ) == orientation_spec(a, b, c),
{
    let ta = similar_point(a, scale, dx, dy);
    let tb = similar_point(b, scale, dx, dy);
    let tc = similar_point(c, scale, dx, dy);
    let unmapped = cross(a, b, c);
    let ss = scale * scale;
    let u0 = b.0 - a.0;
    let u1 = b.1 - a.1;
    let v0 = c.0 - a.0;
    let v1 = c.1 - a.1;
    lemma_scaled_difference(scale, b.0, a.0, dx);
    lemma_scaled_difference(scale, b.1, a.1, dy);
    lemma_scaled_difference(scale, c.0, a.0, dx);
    lemma_scaled_difference(scale, c.1, a.1, dy);
    lemma_scaled_product(scale, u0, v1);
    lemma_scaled_product(scale, u1, v0);
    lemma_mul_is_distributive_sub(ss, u0 * v1, u1 * v0);
    assert(cross(ta, tb, tc) == ss * unmapped);
    assert(ss > 0) by (nonlinear_arith)
        requires
            scale > 0,
            ss == scale * scale,
    ;
    assert(sign_of(ss * unmapped) == sign_of(unmapped)) by (nonlinear_arith)
        requires
            ss > 0,
    ;
}

proof fn lemma_similar_on_segment(
    a: (int, int),
    b: (int, int),
    p: (int, int),
    scale: int,
    dx: int,
    dy: int,
)
    requires
        scale > 0,
    ensures
        on_segment_spec(
            similar_point(a, scale, dx, dy),
            similar_point(b, scale, dx, dy),
            similar_point(p, scale, dx, dy),
        ) == on_segment_spec(a, b, p),
{
    lemma_scaled_min_max(a.0, b.0, scale, dx);
    lemma_scaled_min_max(a.1, b.1, scale, dy);
    lemma_scaled_order(min_spec(a.0, b.0), p.0, scale, dx);
    lemma_scaled_order(p.0, max_spec(a.0, b.0), scale, dx);
    lemma_scaled_order(min_spec(a.1, b.1), p.1, scale, dy);
    lemma_scaled_order(p.1, max_spec(a.1, b.1), scale, dy);
}

proof fn lemma_similar_collinear(
    a: (int, int),
    b: (int, int),
    c: (int, int),
    d: (int, int),
    scale: int,
    dx: int,
    dy: int,
)
    requires
        scale > 0,
    ensures
        collinear_relation_spec(
            similar_point(a, scale, dx, dy),
            similar_point(b, scale, dx, dy),
            similar_point(c, scale, dx, dy),
            similar_point(d, scale, dx, dy),
        ) == collinear_relation_spec(a, b, c, d),
{
    let ta = similar_point(a, scale, dx, dy);
    let tb = similar_point(b, scale, dx, dy);
    assert(tb.0 - ta.0 == scale * (b.0 - a.0)) by (nonlinear_arith)
        requires
            ta == similar_point(a, scale, dx, dy),
            tb == similar_point(b, scale, dx, dy),
    ;
    assert(tb.1 - ta.1 == scale * (b.1 - a.1)) by (nonlinear_arith)
        requires
            ta == similar_point(a, scale, dx, dy),
            tb == similar_point(b, scale, dx, dy),
    ;
    lemma_scaled_abs(b.0 - a.0, scale);
    lemma_scaled_abs(b.1 - a.1, scale);
    lemma_scaled_order(abs_spec(b.1 - a.1), abs_spec(b.0 - a.0), scale, 0);
    let use_x = abs_spec(b.0 - a.0) >= abs_spec(b.1 - a.1);
    let shift = if use_x {
        dx
    } else {
        dy
    };
    let a0 = if use_x {
        a.0
    } else {
        a.1
    };
    let a1 = if use_x {
        b.0
    } else {
        b.1
    };
    let b0 = if use_x {
        c.0
    } else {
        c.1
    };
    let b1 = if use_x {
        d.0
    } else {
        d.1
    };
    lemma_scaled_min_max(a0, a1, scale, shift);
    lemma_scaled_min_max(b0, b1, scale, shift);
    let low_a = min_spec(a0, a1);
    let low_b = min_spec(b0, b1);
    let high_a = max_spec(a0, a1);
    let high_b = max_spec(b0, b1);
    lemma_scaled_min_max(low_a, low_b, scale, shift);
    lemma_scaled_min_max(high_a, high_b, scale, shift);
    lemma_scaled_order(max_spec(low_a, low_b), min_spec(high_a, high_b), scale, shift);
}

/// The relation of two segments is unchanged by the map.
pub proof fn lemma_similar_segment_relation(
    a: (int, int),
    b: (int, int),
    c: (int, int),
    d: (int, int),
    scale: int,
    dx: int,
    dy: int,
)
    requires
        scale > 0,
    ensures
        segment_relation_spec(
            similar_point(a, scale, dx, dy),
            similar_point(b, scale, dx, dy),
            similar_point(c, scale, dx, dy),
            similar_point(d, scale, dx, dy),
        ) == segment_relation_spec(a, b, c, d),
{
    lemma_scaled_min_max(a.0, b.0, scale, dx);
    lemma_scaled_min_max(c.0, d.0, scale, dx);
    lemma_scaled_min_max(a.1, b.1, scale, dy);
    lemma_scaled_min_max(c.1, d.1, scale, dy);
    lemma_scaled_order(max_spec(a.0, b.0), min_spec(c.0, d.0), scale, dx);
    lemma_scaled_order(max_spec(c.0, d.0), min_spec(a.0, b.0), scale, dx);
    lemma_scaled_order(max_spec(a.1, b.1), min_spec(c.1, d.1), scale, dy);
    lemma_scaled_order(max_spec(c.1, d.1), min_spec(a.1, b.1), scale, dy);
    lemma_similar_orientation(a, b, c, scale, dx, dy);
    lemma_similar_orientation(a, b, d, scale, dx, dy);
    lemma_similar_orientation(c, d, a, scale, dx, dy);
    lemma_similar_orientation(c, d, b, scale, dx, dy);
    lemma_similar_collinear(a, b, c, d, scale, dx, dy);
    lemma_similar_on_segment(a, b, c, scale, dx, dy);
    lemma_similar_on_segment(a, b, d, scale, dx, dy);
    lemma_similar_on_segment(c, d, a, scale, dx, dy);
    lemma_similar_on_segment(c, d, b, scale, dx, dy);
}

proof fn lemma_similar_simple_boundary(points: Seq<(int, int)>, scale: int, dx: int, dy: int)
    requires
        scale > 0,
    ensures
        simple_boundary(similar_points(points, scale, dx, dy)) == simple_boundary(points),
{
    let mapped = similar_points(points, scale, dx, dy);
    assert forall|first: int, second: int|
        0 <= first < second < points.len() - 1 implies #[trigger] edge_pair_simple(
            mapped,
            first,
            second,
        ) == edge_pair_simple(points, first, second) by {
        lemma_similar_segment_relation(
            points[first],
            points[first + 1],
            points[second],
            points[second + 1],
            scale,
            dx,
            dy,
        );
    }
    if simple_boundary(points) != simple_boundary(mapped) {
        if simple_boundary(points) {
            let (first, second) = choose|first: int, second: int|
                0 <= first < second < mapped.len() - 1 && !#[trigger] edge_pair_simple(
                    mapped,
                    first,
                    second,
                );
            assert(edge_pair_simple(points, first, second));
        } else {
            let (first, second) = choose|first: int, second: int|
                0 <= first < second < points.len() - 1 && !#[trigger] edge_pair_simple(
                    points,
                    first,
                    second,
                );
            assert(edge_pair_simple(mapped, first, second));
        }
    }
}

proof fn lemma_similar_least_index(points: Seq<(int, int)>, count: int, scale: int, dx: int, dy: int)
    requires
        scale > 0,
        count <= points.len(),
    ensures
        least_index(similar_points(points, scale, dx, dy), count) == least_index(points, count),
    decreases count,
{
    if count > 1 {
        lemma_similar_least_index(points, count - 1, scale, dx, dy);
        let previous = least_index(points, count - 1);
        let mapped = similar_points(points, scale, dx, dy);
        lemma_least_index_bound(points, count - 1);
        let p = points[count - 1];
        let q = points[previous];
        lemma_scaled_order(p.0, q.0, scale, dx);
        lemma_scaled_order(p.1, q.1, scale, dy);
        assert(lex_lt(mapped[count - 1], mapped[previous]) == lex_lt(p, q));
    }
}

proof fn lemma_least_index_bound(points: Seq<(int, int)>, count: int)
    ensures
        count >= 1 ==> 0 <= least_index(points, count) < count,
        count < 1 ==> least_index(points, count) == 0,
    decreases count,
{
    if count > 1 {
        lemma_least_index_bound(points, count - 1);
    }
}

/// Translating a ring, or scaling it by a positive factor, neither makes a
/// valid ring invalid nor an invalid ring valid: the reason for rejection is
/// the same, and a valid ring keeps its winding.
pub proof fn ring_validity_and_winding_are_similarity_invariant(
    points: Seq<(int, int)>,
    scale: int,
    dx: int,
    dy: int,
)
    requires
        scale > 0,
    ensures
        ring_rejection(similar_points(points, scale, dx, dy)) == ring_rejection(points),
        ring_rejection(points) is None ==> winding_spec(similar_points(points, scale, dx, dy))
            == winding_spec(points),
{
    let mapped = similar_points(points, scale, dx, dy);
    assert forall|i: int, j: int|
        0 <= i < points.len() && 0 <= j < points.len() implies (#[trigger] mapped[i] == #[trigger] mapped[j])
        == (points[i] == points[j]) by {
        lemma_scaled_order(points[i].0, points[j].0, scale, dx);
        lemma_scaled_order(points[i].1, points[j].1, scale, dy);
    }
    lemma_similar_simple_boundary(points, scale, dx, dy);
    if points.len() >= 4 {
        let count = points.len() - 1;
        lemma_similar_least_index(points, count, scale, dx, dy);
        lemma_least_index_bound(points, count);
        let index = least_index(points, count);
        assert(0 <= (index + count - 1) % count < count);
        assert(0 <= (index + 1) % count < count);
        lemma_similar_orientation(
            points[(index + count - 1) % count],
            points[index],
            points[(index + 1) % count],
            scale,
            dx,
            dy,
        );
        assert(winding_turn(mapped) == winding_turn(points));
        if exists|i: int| 0 <= i < points.len() - 1 && #[trigger] points[i] == points[i + 1] {
            let i = choose|i: int| 0 <= i < points.len() - 1 && #[trigger] points[i] == points[i + 1];
            assert(mapped[i] == mapped[i + 1]);
        }
        if exists|i: int| 0 <= i < mapped.len() - 1 && #[trigger] mapped[i] == mapped[i + 1] {
            let i = choose|i: int| 0 <= i < mapped.len() - 1 && #[trigger] mapped[i] == mapped[i + 1];
            assert(points[i] == points[i + 1]);
        }
    }
}

} // verus!
