//! The shoelace area of a closed ring, and how it moves together with the
//! reported winding under reversal, translation and scaling.

use crate::exact::{cross, orientation_spec};
use crate::reversal::reversed_points;
use crate::similarity::{similar_point, similar_points};
use crate::topology::{least_index, ring_rejection, winding_spec, winding_turn, RingWinding};
use vstd::prelude::*;

verus! {

/// The shoelace contribution of the edge `p q`.
pub open spec fn shoelace_term(p: (int, int), q: (int, int)) -> int {
    p.0 * q.1 - q.0 * p.1
}

/// Sum of the shoelace contributions of the first `count` edges.
pub open spec fn shoelace_prefix(points: Seq<(int, int)>, count: int) -> int
    decreases count,
{
    if count <= 0 {
        0
    } else {
        shoelace_prefix(points, count - 1) + shoelace_term(points[count - 1], points[count])
    }
}

/// Twice the signed area enclosed by a closed ring (first position repeated
/// last), by the shoelace formula.
pub open spec fn shoelace_area(points: Seq<(int, int)>) -> int {
    shoelace_prefix(points, points.len() - 1)
}

/// The first `count` edges of the reversed positions sum to the last
/// `count` edges of the original positions, negated.
proof fn lemma_reversed_prefix(points: Seq<(int, int)>, count: int)
    requires
        points.len() >= 1,
        0 <= count <= points.len() - 1,
    ensures
        shoelace_prefix(reversed_points(points), count) == shoelace_prefix(
            points,
            points.len() - 1 - count,
        ) - shoelace_prefix(points, points.len() - 1),
    decreases count,
{
    let n = points.len();
    let rev = reversed_points(points);
    if count > 0 {
        lemma_reversed_prefix(points, count - 1);
        let k = n - 1 - count;
        assert(rev[count - 1] == points[k + 1]);
        assert(rev[count] == points[k]);
        assert(shoelace_term(points[k + 1], points[k]) == -shoelace_term(points[k], points[k + 1]))
            by (nonlinear_arith);
    }
}

/// Reversing the positions of a ring negates its shoelace area.
pub proof fn reversing_a_ring_negates_its_area(points: Seq<(int, int)>)
    ensures
        shoelace_area(reversed_points(points)) == -shoelace_area(points),
{
    if points.len() >= 1 {
        lemma_reversed_prefix(points, points.len() - 1);
    }
}

/// For a valid ring, reversal negates the shoelace area and flips the
/// reported winding together.
pub proof fn reversal_moves_area_and_winding_together(points: Seq<(int, int)>)
    requires
        ring_rejection(points) is None,
    ensures
        shoelace_area(reversed_points(points)) == -shoelace_area(points),
        winding_spec(reversed_points(points)) != winding_spec(points),
{
    reversing_a_ring_negates_its_area(points);
    crate::reversal::reversing_a_ring_flips_its_winding(points);
}

/// A valid ring of three vertices encloses non-zero area, and its winding
/// is `CounterClockwise` exactly when that area is positive.
pub proof fn triangle_winding_is_the_sign_of_its_area(points: Seq<(int, int)>)
    requires
        ring_rejection(points) is None,
        points.len() == 4,
    ensures
        shoelace_area(points) != 0,
        (winding_spec(points) == RingWinding::CounterClockwise) == (shoelace_area(points) > 0),
{
    let p0 = points[0];
    let p1 = points[1];
    let p2 = points[2];
    assert(points[3] == p0);
    assert(shoelace_prefix(points, 0) == 0);
    assert(shoelace_prefix(points, 1) == shoelace_term(p0, p1));
    assert(shoelace_prefix(points, 2) == shoelace_term(p0, p1) + shoelace_term(p1, p2));
    assert(shoelace_prefix(points, 3) == shoelace_term(p0, p1) + shoelace_term(p1, p2)
        + shoelace_term(p2, p0));
    assert(shoelace_area(points) == cross(p0, p1, p2)) by (nonlinear_arith)
        requires
            shoelace_area(points) == shoelace_term(p0, p1) + shoelace_term(p1, p2)
                + shoelace_term(p2, p0),
    ;
    assert(cross(p1, p2, p0) == cross(p0, p1, p2)) by (nonlinear_arith);
    assert(cross(p2, p0, p1) == cross(p0, p1, p2)) by (nonlinear_arith);
    reveal_with_fuel(least_index, 3);
    let m = least_index(points, 3);
    if m == 0 {
        assert(winding_turn(points) == orientation_spec(p2, p0, p1));
    } else if m == 1 {
        assert(winding_turn(points) == orientation_spec(p0, p1, p2));
    } else {
        assert(m == 2);
        assert(winding_turn(points) == orientation_spec(p1, p2, p0));
    }
}

/// `(u + v) * (w + z)` multiplied out.
proof fn lemma_expand(u: int, v: int, w: int, z: int)
    ensures
        (u + v) * (w + z) == u * w + u * z + v * w + v * z,
{
    assert((u + v) * (w + z) == u * w + u * z + v * w + v * z) by (nonlinear_arith);
}

/// Products of scaled coordinates, regrouped.
proof fn lemma_scaled_products(scale: int, x: int, y: int, dx: int, dy: int)
    ensures
        (scale * x) * (scale * y) == scale * scale * (x * y),
        (scale * x) * dy == scale * (x * dy),
        dx * (scale * y) == scale * (dx * y),
{
    assert((scale * x) * (scale * y) == scale * scale * (x * y)) by (nonlinear_arith);
    assert((scale * x) * dy == scale * (x * dy)) by (nonlinear_arith);
    assert(dx * (scale * y) == scale * (dx * y)) by (nonlinear_arith);
}

/// The shoelace contribution of a translated and scaled edge.
proof fn lemma_similar_term(p: (int, int), q: (int, int), scale: int, dx: int, dy: int)
    ensures
        shoelace_term(similar_point(p, scale, dx, dy), similar_point(q, scale, dx, dy)) == scale
            * scale * shoelace_term(p, q) + scale * dy * (p.0 - q.0) + scale * dx * (q.1 - p.1),
{
    let (x0, y0) = p;
    let (x1, y1) = q;
    lemma_expand(scale * x0, dx, scale * y1, dy);
    lemma_expand(scale * x1, dx, scale * y0, dy);
    lemma_scaled_products(scale, x0, y1, dx, dy);
    lemma_scaled_products(scale, x1, y0, dx, dy);
    assert(scale * scale * (x0 * y1) - scale * scale * (x1 * y0) == scale * scale * (x0 * y1 - x1
        * y0)) by (nonlinear_arith);
    assert(scale * (x0 * dy) - scale * (x1 * dy) == scale * dy * (x0 - x1)) by (nonlinear_arith);
    assert(scale * (dx * y1) - scale * (dx * y0) == scale * dx * (y1 - y0)) by (nonlinear_arith);
}

/// The first `count` edges of a translated and scaled ring: the scaled sum
/// plus the translation's contribution, which depends only on the first and
/// the `count`-th position.
proof fn lemma_similar_prefix(points: Seq<(int, int)>, count: int, scale: int, dx: int, dy: int)
    requires
        0 <= count < points.len(),
    ensures
        shoelace_prefix(similar_points(points, scale, dx, dy), count) == scale * scale
            * shoelace_prefix(points, count) + scale * dy * (points[0].0 - points[count].0) + scale
            * dx * (points[count].1 - points[0].1),
    decreases count,
{
    let mapped = similar_points(points, scale, dx, dy);
    if count == 0 {
        assert(scale * dy * (points[0].0 - points[0].0) == 0);
        assert(scale * dx * (points[0].1 - points[0].1) == 0);
        assert(scale * scale * 0 == 0);
    } else {
        lemma_similar_prefix(points, count - 1, scale, dx, dy);
        let p = points[count - 1];
        let q = points[count];
        let first = points[0];
        assert(mapped[count - 1] == similar_point(p, scale, dx, dy));
        assert(mapped[count] == similar_point(q, scale, dx, dy));
        let before = shoelace_prefix(points, count - 1);
        let mapped_before = shoelace_prefix(mapped, count - 1);
        lemma_similar_term(p, q, scale, dx, dy);
        assert(mapped_before + (scale * scale * shoelace_term(p, q) + scale * dy * (p.0 - q.0)
            + scale * dx * (q.1 - p.1)) == scale * scale * (before + shoelace_term(p, q)) + scale
            * dy * (first.0 - q.0) + scale * dx * (q.1 - first.1)) by (nonlinear_arith)
            requires
                mapped_before == scale * scale * before + scale * dy * (first.0 - p.0) + scale * dx
                    * (p.1 - first.1),
        ;
    }
}

/// Translating a closed ring leaves its shoelace area unchanged, and
/// scaling it by `scale` multiplies the area by `scale * scale`; a positive
/// scale keeps the area's sign, as it keeps the winding.
pub proof fn similarity_scales_the_area(points: Seq<(int, int)>, scale: int, dx: int, dy: int)
    requires
        points.len() >= 1,
        points[0] == points[points.len() - 1],
    ensures
        shoelace_area(similar_points(points, scale, dx, dy)) == scale * scale * shoelace_area(
            points,
        ),
{
    lemma_similar_prefix(points, points.len() - 1, scale, dx, dy);
    assert(scale * dy * (points[0].0 - points[points.len() - 1].0) == 0);
    assert(scale * dx * (points[points.len() - 1].1 - points[0].1) == 0);
}

} // verus!
