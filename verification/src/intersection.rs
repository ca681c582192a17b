//! What the exact segment relation says about the points two closed
//! segments share. Points are rational, written `p / scale` with integer `p`
//! and positive `scale`, so a shared point is an integer point of both
//! segments scaled by `scale`. The relation is `Disjoint` exactly when no
//! point is shared, `Overlap` exactly when two distinct points are shared,
//! `Cross` exactly when a point is shared and no end of either segment lies
//! on the other, and `Touch` in the remaining case: one shared point, with
//! an end of one segment on the other.

use crate::exact::{cross, orientation_spec};
use crate::similarity::{lemma_similar_segment_relation, similar_point};
use crate::topology::{
    abs_spec, collinear_relation_spec, max_spec, min_spec, on_edge_spec, on_segment_spec,
    opposite_spec, segment_relation_spec, SegmentRelation,
};
use vstd::prelude::*;

verus! {

/// Two vectors parallel to one non-zero vector are parallel to each other.
proof fn lemma_parallel_through(w: (int, int), z1: (int, int), z2: (int, int))
    requires
        w.0 != 0 || w.1 != 0,
        z1.0 * w.1 == z1.1 * w.0,
        z2.0 * w.1 == z2.1 * w.0,
    ensures
        z1.0 * z2.1 == z1.1 * z2.0,
{
    let k = z1.0 * z2.1 - z1.1 * z2.0;
    assert(w.0 * k == 0) by (nonlinear_arith)
        requires
            z1.0 * w.1 == z1.1 * w.0,
            z2.0 * w.1 == z2.1 * w.0,
            k == z1.0 * z2.1 - z1.1 * z2.0,
    ;
    assert(w.1 * k == 0) by (nonlinear_arith)
        requires
            z1.0 * w.1 == z1.1 * w.0,
            z2.0 * w.1 == z2.1 * w.0,
            k == z1.0 * z2.1 - z1.1 * z2.0,
    ;
    if w.0 != 0 {
        assert(k == 0) by (nonlinear_arith)
            requires
                w.0 * k == 0,
                w.0 != 0,
        ;
    } else {
        assert(k == 0) by (nonlinear_arith)
            requires
                w.1 * k == 0,
                w.1 != 0,
        ;
    }
}

/// A line `a b` that holds `c` but not `d` meets the segment `c d` only at
/// `c`: a point of that segment on the line is `c`.
proof fn lemma_single_meeting(a: (int, int), b: (int, int), c: (int, int), d: (int, int), p: (int, int))
    requires
        cross(a, b, c) == 0,
        cross(a, b, d) != 0,
        cross(a, b, p) == 0,
        cross(c, d, p) == 0,
    ensures
        p == c,
{
    let w = (b.0 - a.0, b.1 - a.1);
    let u = (d.0 - c.0, d.1 - c.1);
    let z = (p.0 - c.0, p.1 - c.1);
    let lz = w.0 * z.1 - w.1 * z.0;
    let lu = w.0 * u.1 - w.1 * u.0;
    assert(lz == cross(a, b, p) - cross(a, b, c)) by (nonlinear_arith)
        requires
            w == (b.0 - a.0, b.1 - a.1),
            z == (p.0 - c.0, p.1 - c.1),
            lz == w.0 * z.1 - w.1 * z.0,
    ;
    assert(lu == cross(a, b, d) - cross(a, b, c)) by (nonlinear_arith)
        requires
            w == (b.0 - a.0, b.1 - a.1),
            u == (d.0 - c.0, d.1 - c.1),
            lu == w.0 * u.1 - w.1 * u.0,
    ;
    assert(u.0 * z.1 == u.1 * z.0) by (nonlinear_arith)
        requires
            cross(c, d, p) == 0,
            u == (d.0 - c.0, d.1 - c.1),
            z == (p.0 - c.0, p.1 - c.1),
    ;
    assert(z.0 * lu == u.0 * lz && z.1 * lu == u.1 * lz) by (nonlinear_arith)
        requires
            u.0 * z.1 == u.1 * z.0,
            lz == w.0 * z.1 - w.1 * z.0,
            lu == w.0 * u.1 - w.1 * u.0,
    ;
    assert(z.0 == 0 && z.1 == 0) by (nonlinear_arith)
        requires
            z.0 * lu == u.0 * lz,
            z.1 * lu == u.1 * lz,
            lz == 0,
            lu != 0,
    ;
}

/// A segment `c d` that has a point on the line `a b`, with neither end on
/// that line, has its ends on opposite sides of the line.
proof fn lemma_straddles(a: (int, int), b: (int, int), c: (int, int), d: (int, int), p: (int, int))
    requires
        cross(a, b, c) != 0,
        cross(a, b, d) != 0,
        cross(a, b, p) == 0,
        on_edge_spec(c, d, p),
    ensures
        (cross(a, b, c) > 0 && cross(a, b, d) < 0) || (cross(a, b, c) < 0 && cross(a, b, d) > 0),
{
    let fc = cross(a, b, c);
    let fd = cross(a, b, d);
    let w = (b.0 - a.0, b.1 - a.1);
    let u = (d.0 - c.0, d.1 - c.1);
    let z = (p.0 - c.0, p.1 - c.1);
    let lz = w.0 * z.1 - w.1 * z.0;
    let lu = w.0 * u.1 - w.1 * u.0;
    assert(lz == -fc) by (nonlinear_arith)
        requires
            fc == cross(a, b, c),
            cross(a, b, p) == 0,
            w == (b.0 - a.0, b.1 - a.1),
            z == (p.0 - c.0, p.1 - c.1),
            lz == w.0 * z.1 - w.1 * z.0,
    ;
    assert(lu == fd - fc) by (nonlinear_arith)
        requires
            fc == cross(a, b, c),
            fd == cross(a, b, d),
            w == (b.0 - a.0, b.1 - a.1),
            u == (d.0 - c.0, d.1 - c.1),
            lu == w.0 * u.1 - w.1 * u.0,
    ;
    assert(orientation_spec(c, d, p) == 0);
    assert(cross(c, d, p) == 0);
    assert(u.0 * z.1 == u.1 * z.0) by (nonlinear_arith)
        requires
            cross(c, d, p) == 0,
            u == (d.0 - c.0, d.1 - c.1),
            z == (p.0 - c.0, p.1 - c.1),
    ;
    assert(z.0 * lu == u.0 * lz && z.1 * lu == u.1 * lz) by (nonlinear_arith)
        requires
            u.0 * z.1 == u.1 * z.0,
            lz == w.0 * z.1 - w.1 * z.0,
            lu == w.0 * u.1 - w.1 * u.0,
    ;
    // p lies between c and d in each coordinate.
    assert(on_segment_spec(c, d, p));
    assert((0 <= z.0 <= u.0 || u.0 <= z.0 <= 0) && (0 <= z.1 <= u.1 || u.1 <= z.1 <= 0));
    if z.0 != 0 {
        let s = z.0 * u.0;
        assert(s > 0 && s <= u.0 * u.0) by (nonlinear_arith)
            requires
                s == z.0 * u.0,
                z.0 != 0,
                0 <= z.0 <= u.0 || u.0 <= z.0 <= 0,
        ;
        assert(s * fd == fc * (s - u.0 * u.0)) by (nonlinear_arith)
            requires
                s == z.0 * u.0,
                z.0 * lu == u.0 * lz,
                lz == -fc,
                lu == fd - fc,
        ;
        assert((fc > 0 && fd < 0) || (fc < 0 && fd > 0)) by (nonlinear_arith)
            requires
                s > 0,
                s <= u.0 * u.0,
                s * fd == fc * (s - u.0 * u.0),
                fc != 0,
                fd != 0,
        ;
    } else if z.1 != 0 {
        let s = z.1 * u.1;
        assert(s > 0 && s <= u.1 * u.1) by (nonlinear_arith)
            requires
                s == z.1 * u.1,
                z.1 != 0,
                0 <= z.1 <= u.1 || u.1 <= z.1 <= 0,
        ;
        assert(s * fd == fc * (s - u.1 * u.1)) by (nonlinear_arith)
            requires
                s == z.1 * u.1,
                z.1 * lu == u.1 * lz,
                lz == -fc,
                lu == fd - fc,
        ;
        assert((fc > 0 && fd < 0) || (fc < 0 && fd > 0)) by (nonlinear_arith)
            requires
                s > 0,
                s <= u.1 * u.1,
                s * fd == fc * (s - u.1 * u.1),
                fc != 0,
                fd != 0,
        ;
    } else {
        assert(p == c);
    }
}

/// When `c` and `d` both lie on the line through distinct points `a` and
/// `b`, all four points lie on one line.
proof fn lemma_collinear_pair(a: (int, int), b: (int, int), c: (int, int), d: (int, int))
    requires
        a != b,
        cross(a, b, c) == 0,
        cross(a, b, d) == 0,
    ensures
        cross(c, d, a) == 0,
        cross(c, d, b) == 0,
{
    let w = (b.0 - a.0, b.1 - a.1);
    let z1 = (c.0 - a.0, c.1 - a.1);
    let z2 = (d.0 - a.0, d.1 - a.1);
    let y1 = (c.0 - b.0, c.1 - b.1);
    let y2 = (d.0 - b.0, d.1 - b.1);
    assert(z1.0 * w.1 == z1.1 * w.0 && z2.0 * w.1 == z2.1 * w.0) by (nonlinear_arith)
        requires
            cross(a, b, c) == 0,
            cross(a, b, d) == 0,
            w == (b.0 - a.0, b.1 - a.1),
            z1 == (c.0 - a.0, c.1 - a.1),
            z2 == (d.0 - a.0, d.1 - a.1),
    ;
    assert(y1.0 * w.1 == y1.1 * w.0 && y2.0 * w.1 == y2.1 * w.0) by (nonlinear_arith)
        requires
            z1.0 * w.1 == z1.1 * w.0,
            z2.0 * w.1 == z2.1 * w.0,
            y1 == (z1.0 - w.0, z1.1 - w.1),
            y2 == (z2.0 - w.0, z2.1 - w.1),
    ;
    lemma_parallel_through(w, z1, z2);
    lemma_parallel_through(w, y1, y2);
    assert(cross(c, d, a) == z1.0 * z2.1 - z1.1 * z2.0) by (nonlinear_arith)
        requires
            z1 == (c.0 - a.0, c.1 - a.1),
            z2 == (d.0 - a.0, d.1 - a.1),
    ;
    assert(cross(c, d, b) == y1.0 * y2.1 - y1.1 * y2.0) by (nonlinear_arith)
        requires
            y1 == (c.0 - b.0, c.1 - b.1),
            y2 == (d.0 - b.0, d.1 - b.1),
    ;
}

/// Swapping the ends of a segment negates the doubled area it spans with a
/// third point.
proof fn lemma_cross_reversed(a: (int, int), b: (int, int), p: (int, int))
    ensures
        cross(b, a, p) == -cross(a, b, p),
{
    assert(cross(b, a, p) == -cross(a, b, p)) by (nonlinear_arith);
}

/// When `c` and `d` lie on the line through `a` and `b`, and the segments
/// `a b` and `c d` share a point, `a` and `b` lie on the line through `c`
/// and `d`.
proof fn lemma_both_on_line(a: (int, int), b: (int, int), c: (int, int), d: (int, int), p: (int, int))
    requires
        cross(a, b, c) == 0,
        cross(a, b, d) == 0,
        on_edge_spec(a, b, p),
        on_edge_spec(c, d, p),
    ensures
        cross(c, d, a) == 0,
        cross(c, d, b) == 0,
{
    if a == b {
        assert(p == a);
        assert(orientation_spec(c, d, p) == 0);
    } else {
        lemma_collinear_pair(a, b, c, d);
    }
}

/// Two closed segments with integer ends that share an integer point are
/// never reported disjoint.
pub proof fn segments_sharing_a_point_meet(
    a: (int, int),
    b: (int, int),
    c: (int, int),
    d: (int, int),
    p: (int, int),
)
    requires
        on_edge_spec(a, b, p),
        on_edge_spec(c, d, p),
    ensures
        segment_relation_spec(a, b, c, d) != SegmentRelation::Disjoint,
{
    let fab_c = cross(a, b, c);
    let fab_d = cross(a, b, d);
    let fcd_a = cross(c, d, a);
    let fcd_b = cross(c, d, b);
    assert(orientation_spec(a, b, p) == 0 && orientation_spec(c, d, p) == 0);
    assert(cross(a, b, p) == 0 && cross(c, d, p) == 0);
    if fab_c == 0 && fab_d == 0 {
        lemma_both_on_line(a, b, c, d, p);
    } else if fcd_a == 0 && fcd_b == 0 {
        lemma_both_on_line(c, d, a, b, p);
    } else if fab_c == 0 {
        lemma_single_meeting(a, b, c, d, p);
        assert(on_segment_spec(a, b, c));
    } else if fab_d == 0 {
        lemma_cross_reversed(c, d, p);
        lemma_single_meeting(a, b, d, c, p);
        assert(on_segment_spec(a, b, d));
    } else if fcd_a == 0 {
        lemma_single_meeting(c, d, a, b, p);
        assert(on_segment_spec(c, d, a));
    } else if fcd_b == 0 {
        lemma_cross_reversed(a, b, p);
        lemma_single_meeting(c, d, b, a, p);
        assert(on_segment_spec(c, d, b));
    } else {
        lemma_straddles(a, b, c, d, p);
        lemma_straddles(c, d, a, b, p);
    }
}

/// A segment relation of `Disjoint` means the two closed segments share no
/// point with rational coordinates: no `p / scale` lies on both.
pub proof fn disjoint_segments_share_no_point(
    a: (int, int),
    b: (int, int),
    c: (int, int),
    d: (int, int),
)
    requires
        segment_relation_spec(a, b, c, d) == SegmentRelation::Disjoint,
    ensures
        forall|p: (int, int), scale: int|
            scale > 0 ==> !(#[trigger] on_edge_spec(
                similar_point(a, scale, 0, 0),
                similar_point(b, scale, 0, 0),
                p,
            ) && on_edge_spec(similar_point(c, scale, 0, 0), similar_point(d, scale, 0, 0), p)),
{
    assert forall|p: (int, int), scale: int|
        scale > 0 implies !(#[trigger] on_edge_spec(
            similar_point(a, scale, 0, 0),
            similar_point(b, scale, 0, 0),
            p,
        ) && on_edge_spec(similar_point(c, scale, 0, 0), similar_point(d, scale, 0, 0), p)) by {
        lemma_similar_segment_relation(a, b, c, d, scale, 0, 0);
        if on_edge_spec(similar_point(a, scale, 0, 0), similar_point(b, scale, 0, 0), p)
            && on_edge_spec(similar_point(c, scale, 0, 0), similar_point(d, scale, 0, 0), p) {
            segments_sharing_a_point_meet(
                similar_point(a, scale, 0, 0),
                similar_point(b, scale, 0, 0),
                similar_point(c, scale, 0, 0),
                similar_point(d, scale, 0, 0),
                p,
            );
        }
    }
}

/// The point `scale * a + lam * (b - a)` with `0 <= lam <= scale` lies on
/// the segment from `scale * a` to `scale * b`.
proof fn lemma_on_scaled_edge(a: (int, int), b: (int, int), scale: int, lam: int, p: (int, int))
    requires
        0 <= lam <= scale,
        p == (scale * a.0 + lam * (b.0 - a.0), scale * a.1 + lam * (b.1 - a.1)),
    ensures
        on_edge_spec(similar_point(a, scale, 0, 0), similar_point(b, scale, 0, 0), p),
{
    let sa = similar_point(a, scale, 0, 0);
    let sb = similar_point(b, scale, 0, 0);
    assert(cross(sa, sb, p) == 0) by (nonlinear_arith)
        requires
            sa == (scale * a.0 + 0, scale * a.1 + 0),
            sb == (scale * b.0 + 0, scale * b.1 + 0),
            p == (scale * a.0 + lam * (b.0 - a.0), scale * a.1 + lam * (b.1 - a.1)),
    ;
    assert(0 <= lam * (b.0 - a.0) <= scale * (b.0 - a.0) || scale * (b.0 - a.0) <= lam * (b.0
        - a.0) <= 0) by (nonlinear_arith)
        requires
            0 <= lam <= scale,
    ;
    assert(0 <= lam * (b.1 - a.1) <= scale * (b.1 - a.1) || scale * (b.1 - a.1) <= lam * (b.1
        - a.1) <= 0) by (nonlinear_arith)
        requires
            0 <= lam <= scale,
    ;
    assert(sb.0 - sa.0 == scale * (b.0 - a.0) && sb.1 - sa.1 == scale * (b.1 - a.1))
        by (nonlinear_arith)
        requires
            sa == (scale * a.0 + 0, scale * a.1 + 0),
            sb == (scale * b.0 + 0, scale * b.1 + 0),
    ;
}

/// The algebra behind a crossing: with `q = cross(c, d, a) - cross(c, d, b)`,
/// the point `cross(c, d, a) * b - cross(c, d, b) * a` is also
/// `q * c - cross(a, b, c) * (d - c)`, and `cross(a, b, c) - cross(a, b, d)`
/// is `-q`.
proof fn lemma_crossing_algebra(a: (int, int), b: (int, int), c: (int, int), d: (int, int))
    ensures
        cross(a, b, c) - cross(a, b, d) == cross(c, d, b) - cross(c, d, a),
        cross(c, d, a) * b.0 - cross(c, d, b) * a.0 == (cross(c, d, a) - cross(c, d, b)) * c.0
            - cross(a, b, c) * (d.0 - c.0),
        cross(c, d, a) * b.1 - cross(c, d, b) * a.1 == (cross(c, d, a) - cross(c, d, b)) * c.1
            - cross(a, b, c) * (d.1 - c.1),
{
    let a0 = a.0 - c.0;
    let a1 = a.1 - c.1;
    let b0 = b.0 - c.0;
    let b1 = b.1 - c.1;
    let d0 = d.0 - c.0;
    let d1 = d.1 - c.1;
    let fa = cross(c, d, a);
    let fb = cross(c, d, b);
    let ga = cross(a, b, c);
    let gb = cross(a, b, d);
    assert(fa == d0 * a1 - d1 * a0);
    assert(fb == d0 * b1 - d1 * b0);
    assert(ga == (b0 - a0) * (0 - a1) - (b1 - a1) * (0 - a0));
    assert(gb == (b0 - a0) * (d1 - a1) - (b1 - a1) * (d0 - a0));
    assert(ga - gb == fb - fa) by (nonlinear_arith)
        requires
            fa == d0 * a1 - d1 * a0,
            fb == d0 * b1 - d1 * b0,
            ga == (b0 - a0) * (0 - a1) - (b1 - a1) * (0 - a0),
            gb == (b0 - a0) * (d1 - a1) - (b1 - a1) * (d0 - a0),
    ;
    assert(ga == a0 * b1 - a1 * b0) by (nonlinear_arith)
        requires
            ga == (b0 - a0) * (0 - a1) - (b1 - a1) * (0 - a0),
    ;
    assert(fa * b0 == d0 * a1 * b0 - d1 * a0 * b0) by (nonlinear_arith)
        requires
            fa == d0 * a1 - d1 * a0,
    ;
    assert(fb * a0 == d0 * b1 * a0 - d1 * b0 * a0) by (nonlinear_arith)
        requires
            fb == d0 * b1 - d1 * b0,
    ;
    assert(ga * d0 == a0 * b1 * d0 - a1 * b0 * d0) by (nonlinear_arith)
        requires
            ga == a0 * b1 - a1 * b0,
    ;
    assert(fa * b0 - fb * a0 == -ga * d0) by (nonlinear_arith)
        requires
            fa * b0 == d0 * a1 * b0 - d1 * a0 * b0,
            fb * a0 == d0 * b1 * a0 - d1 * b0 * a0,
            ga * d0 == a0 * b1 * d0 - a1 * b0 * d0,
    ;
    assert(fa * b1 == d0 * a1 * b1 - d1 * a0 * b1) by (nonlinear_arith)
        requires
            fa == d0 * a1 - d1 * a0,
    ;
    assert(fb * a1 == d0 * b1 * a1 - d1 * b0 * a1) by (nonlinear_arith)
        requires
            fb == d0 * b1 - d1 * b0,
    ;
    assert(ga * d1 == a0 * b1 * d1 - a1 * b0 * d1) by (nonlinear_arith)
        requires
            ga == a0 * b1 - a1 * b0,
    ;
    assert(fa * b1 - fb * a1 == -ga * d1) by (nonlinear_arith)
        requires
            fa * b1 == d0 * a1 * b1 - d1 * a0 * b1,
            fb * a1 == d0 * b1 * a1 - d1 * b0 * a1,
            ga * d1 == a0 * b1 * d1 - a1 * b0 * d1,
    ;
    assert(fa * b.0 - fb * a.0 == (fa - fb) * c.0 - ga * d0) by (nonlinear_arith)
        requires
            fa * b0 - fb * a0 == -ga * d0,
            b0 == b.0 - c.0,
            a0 == a.0 - c.0,
    ;
    assert(fa * b.1 - fb * a.1 == (fa - fb) * c.1 - ga * d1) by (nonlinear_arith)
        requires
            fa * b1 - fb * a1 == -ga * d1,
            b1 == b.1 - c.1,
            a1 == a.1 - c.1,
    ;
}

/// Segments reported as crossing share a point with rational coordinates.
proof fn lemma_crossing_point(a: (int, int), b: (int, int), c: (int, int), d: (int, int))
    requires
        opposite_spec(orientation_spec(a, b, c), orientation_spec(a, b, d)),
        opposite_spec(orientation_spec(c, d, a), orientation_spec(c, d, b)),
    ensures
        exists|scale: int, p: (int, int)|
            scale > 0 && #[trigger] on_edge_spec(
                similar_point(a, scale, 0, 0),
                similar_point(b, scale, 0, 0),
                p,
            ) && on_edge_spec(similar_point(c, scale, 0, 0), similar_point(d, scale, 0, 0), p),
{
    let fa = cross(c, d, a);
    let fb = cross(c, d, b);
    let ga = cross(a, b, c);
    let gb = cross(a, b, d);
    let q = fa - fb;
    lemma_crossing_algebra(a, b, c, d);
    let base = (fa * b.0 - fb * a.0, fa * b.1 - fb * a.1);
    if fa > 0 {
        assert(base == (q * a.0 + fa * (b.0 - a.0), q * a.1 + fa * (b.1 - a.1)))
            by (nonlinear_arith)
            requires
                q == fa - fb,
                base == (fa * b.0 - fb * a.0, fa * b.1 - fb * a.1),
        ;
        assert(base == (q * c.0 + (-ga) * (d.0 - c.0), q * c.1 + (-ga) * (d.1 - c.1)))
            by (nonlinear_arith)
            requires
                base.0 == q * c.0 - ga * (d.0 - c.0),
                base.1 == q * c.1 - ga * (d.1 - c.1),
        ;
        lemma_on_scaled_edge(a, b, q, fa, base);
        lemma_on_scaled_edge(c, d, q, -ga, base);
        assert(on_edge_spec(similar_point(a, q, 0, 0), similar_point(b, q, 0, 0), base));
    } else {
        let p = (-base.0, -base.1);
        assert(p == ((-q) * a.0 + (-fa) * (b.0 - a.0), (-q) * a.1 + (-fa) * (b.1 - a.1)))
            by (nonlinear_arith)
            requires
                q == fa - fb,
                p == (-(fa * b.0 - fb * a.0), -(fa * b.1 - fb * a.1)),
        ;
        assert(p == ((-q) * c.0 + ga * (d.0 - c.0), (-q) * c.1 + ga * (d.1 - c.1)))
            by (nonlinear_arith)
            requires
                p == (-base.0, -base.1),
                base.0 == q * c.0 - ga * (d.0 - c.0),
                base.1 == q * c.1 - ga * (d.1 - c.1),
        ;
        lemma_on_scaled_edge(a, b, -q, -fa, p);
        lemma_on_scaled_edge(c, d, -q, ga, p);
        assert(on_edge_spec(similar_point(a, -q, 0, 0), similar_point(b, -q, 0, 0), p));
    }
}

/// Two points on the line through `a` with direction `w` differ by a
/// multiple of `w`.
proof fn lemma_line_relative(a: (int, int), w: (int, int), x: (int, int), y: (int, int))
    requires
        w.0 * (x.1 - a.1) == w.1 * (x.0 - a.0),
        w.0 * (y.1 - a.1) == w.1 * (y.0 - a.0),
    ensures
        w.0 * (x.1 - y.1) == w.1 * (x.0 - y.0),
{
    assert(w.0 * (x.1 - y.1) == w.1 * (x.0 - y.0)) by (nonlinear_arith)
        requires
            w.0 * (x.1 - a.1) == w.1 * (x.0 - a.0),
            w.0 * (y.1 - a.1) == w.1 * (y.0 - a.0),
    ;
}

/// On a line that is not vertical (`w.0 != 0`), a point whose first
/// coordinate lies between those of two other points of the line has its
/// second coordinate between theirs too.
proof fn lemma_between_on_line(u: (int, int), v: (int, int), e: (int, int), w: (int, int))
    requires
        w.0 != 0,
        w.0 * (u.1 - e.1) == w.1 * (u.0 - e.0),
        w.0 * (v.1 - e.1) == w.1 * (v.0 - e.0),
        min_spec(u.0, v.0) <= e.0 <= max_spec(u.0, v.0),
    ensures
        min_spec(u.1, v.1) <= e.1 <= max_spec(u.1, v.1),
{
    let du = u.1 - e.1;
    let dv = v.1 - e.1;
    let hu = u.0 - e.0;
    let hv = v.0 - e.0;
    assert(hu * hv <= 0) by (nonlinear_arith)
        requires
            (hu <= 0 && hv >= 0) || (hu >= 0 && hv <= 0),
    ;
    assert((w.0 * w.0) * (du * dv) == (w.1 * w.1) * (hu * hv)) by (nonlinear_arith)
        requires
            w.0 * du == w.1 * hu,
            w.0 * dv == w.1 * hv,
    ;
    assert(du * dv <= 0) by (nonlinear_arith)
        requires
            w.0 != 0,
            hu * hv <= 0,
            (w.0 * w.0) * (du * dv) == (w.1 * w.1) * (hu * hv),
    ;
    assert((du <= 0 && dv >= 0) || (du >= 0 && dv <= 0)) by (nonlinear_arith)
        requires
            du * dv <= 0,
    ;
}

/// The two coordinates of a point swapped.
spec fn swapped(p: (int, int)) -> (int, int) {
    (p.1, p.0)
}

/// The coordinate along which `collinear_relation_spec` measures segments
/// that lie on the line through `a` and `b`.
pub open spec fn along(a: (int, int), b: (int, int), p: (int, int)) -> int {
    if abs_spec(b.0 - a.0) >= abs_spec(b.1 - a.1) {
        p.0
    } else {
        p.1
    }
}

/// An end of either segment of a collinear pair whose measured coordinate
/// lies within both segments' ranges lies on both segments.
proof fn lemma_collinear_endpoint(
    a: (int, int),
    b: (int, int),
    c: (int, int),
    d: (int, int),
    e: (int, int),
)
    requires
        a != b,
        cross(a, b, c) == 0,
        cross(a, b, d) == 0,
        cross(c, d, a) == 0,
        cross(c, d, b) == 0,
        e == a || e == b || e == c || e == d,
        min_spec(along(a, b, a), along(a, b, b)) <= along(a, b, e) <= max_spec(
            along(a, b, a),
            along(a, b, b),
        ),
        min_spec(along(a, b, c), along(a, b, d)) <= along(a, b, e) <= max_spec(
            along(a, b, c),
            along(a, b, d),
        ),
    ensures
        on_edge_spec(a, b, e),
        on_edge_spec(c, d, e),
{
    let w = (b.0 - a.0, b.1 - a.1);
    let use_x = abs_spec(w.0) >= abs_spec(w.1);
    assert(cross(a, b, a) == 0);
    assert(cross(a, b, b) == 0) by (nonlinear_arith);
    assert(cross(c, d, c) == 0);
    assert(cross(c, d, d) == 0) by (nonlinear_arith);
    // Every point of the four lies on the line through `a` along `w`.
    assert(forall|x: (int, int)|
        cross(a, b, x) == 0 ==> #[trigger] (w.0 * (x.1 - a.1)) == w.1 * (x.0 - a.0));
    assert(cross(a, b, e) == 0 && cross(c, d, e) == 0);
    lemma_line_relative(a, w, a, e);
    lemma_line_relative(a, w, b, e);
    lemma_line_relative(a, w, c, e);
    lemma_line_relative(a, w, d, e);
    if use_x {
        assert(w.0 != 0);
        lemma_between_on_line(a, b, e, w);
        lemma_between_on_line(c, d, e, w);
    } else {
        assert(w.1 != 0);
        lemma_between_on_line(swapped(a), swapped(b), swapped(e), swapped(w));
        lemma_between_on_line(swapped(c), swapped(d), swapped(e), swapped(w));
    }
}

/// An end of either segment lies on the other.
pub open spec fn end_on_other(a: (int, int), b: (int, int), c: (int, int), d: (int, int)) -> bool {
    on_edge_spec(c, d, a) || on_edge_spec(c, d, b) || on_edge_spec(a, b, c) || on_edge_spec(a, b, d)
}

/// The boxes of `a b` and `c d` overlap.
pub open spec fn boxes_meet(a: (int, int), b: (int, int), c: (int, int), d: (int, int)) -> bool {
    !(max_spec(a.0, b.0) < min_spec(c.0, d.0) || max_spec(c.0, d.0) < min_spec(a.0, b.0)
        || max_spec(a.1, b.1) < min_spec(c.1, d.1) || max_spec(c.1, d.1) < min_spec(a.1, b.1))
}

/// Collinear segments whose boxes overlap and that are reported touching
/// or overlapping have an end of one on the other.
proof fn lemma_collinear_meeting(a: (int, int), b: (int, int), c: (int, int), d: (int, int))
    requires
        boxes_meet(a, b, c, d),
        cross(a, b, c) == 0,
        cross(a, b, d) == 0,
        cross(c, d, a) == 0,
        cross(c, d, b) == 0,
        collinear_relation_spec(a, b, c, d) != SegmentRelation::Disjoint,
    ensures
        end_on_other(a, b, c, d),
        exists|p: (int, int)| #[trigger] on_edge_spec(a, b, p) && on_edge_spec(c, d, p),
{
    if a == b {
        assert(cross(a, b, a) == 0);
        assert(on_edge_spec(a, b, a) && on_edge_spec(c, d, a));
    } else {
        let e = if min_spec(along(a, b, a), along(a, b, b)) >= min_spec(
            along(a, b, c),
            along(a, b, d),
        ) {
            if along(a, b, a) <= along(a, b, b) {
                a
            } else {
                b
            }
        } else if along(a, b, c) <= along(a, b, d) {
            c
        } else {
            d
        };
        lemma_collinear_endpoint(a, b, c, d, e);
        assert(on_edge_spec(a, b, e) && on_edge_spec(c, d, e));
    }
}

/// Collinear segments reported overlapping share two distinct integer
/// points, each an end of one of them.
proof fn lemma_collinear_overlap(a: (int, int), b: (int, int), c: (int, int), d: (int, int))
    requires
        cross(a, b, c) == 0,
        cross(a, b, d) == 0,
        cross(c, d, a) == 0,
        cross(c, d, b) == 0,
        collinear_relation_spec(a, b, c, d) == SegmentRelation::Overlap,
    ensures
        exists|p: (int, int), q: (int, int)|
            p != q && #[trigger] on_edge_spec(a, b, p) && on_edge_spec(c, d, p) && #[trigger] on_edge_spec(
                a,
                b,
                q,
            ) && on_edge_spec(c, d, q),
{
    assert(a != b);
    let low = if min_spec(along(a, b, a), along(a, b, b)) >= min_spec(
        along(a, b, c),
        along(a, b, d),
    ) {
        if along(a, b, a) <= along(a, b, b) {
            a
        } else {
            b
        }
    } else if along(a, b, c) <= along(a, b, d) {
        c
    } else {
        d
    };
    let high = if max_spec(along(a, b, a), along(a, b, b)) <= max_spec(
        along(a, b, c),
        along(a, b, d),
    ) {
        if along(a, b, a) >= along(a, b, b) {
            a
        } else {
            b
        }
    } else if along(a, b, c) >= along(a, b, d) {
        c
    } else {
        d
    };
    lemma_collinear_endpoint(a, b, c, d, low);
    lemma_collinear_endpoint(a, b, c, d, high);
    assert(along(a, b, low) < along(a, b, high));
    assert(on_edge_spec(a, b, low) && on_edge_spec(c, d, low) && on_edge_spec(a, b, high)
        && on_edge_spec(c, d, high));
}

/// Segments that are not reported disjoint share a point with rational
/// coordinates: some `p / scale` lies on both closed segments.
pub proof fn meeting_segments_share_a_point(a: (int, int), b: (int, int), c: (int, int), d: (int, int))
    requires
        segment_relation_spec(a, b, c, d) != SegmentRelation::Disjoint,
    ensures
        exists|scale: int, p: (int, int)|
            scale > 0 && #[trigger] on_edge_spec(
                similar_point(a, scale, 0, 0),
                similar_point(b, scale, 0, 0),
                p,
            ) && on_edge_spec(similar_point(c, scale, 0, 0), similar_point(d, scale, 0, 0), p),
{
    assert(similar_point(a, 1, 0, 0) == a && similar_point(b, 1, 0, 0) == b);
    assert(similar_point(c, 1, 0, 0) == c && similar_point(d, 1, 0, 0) == d);
    let ab_c = orientation_spec(a, b, c);
    let ab_d = orientation_spec(a, b, d);
    let cd_a = orientation_spec(c, d, a);
    let cd_b = orientation_spec(c, d, b);
    assert(cross(a, b, a) == 0 && cross(c, d, c) == 0);
    assert(cross(a, b, b) == 0 && cross(c, d, d) == 0) by (nonlinear_arith);
    if ab_c == 0 && ab_d == 0 && cd_a == 0 && cd_b == 0 {
        lemma_collinear_meeting(a, b, c, d);
        let p = choose|p: (int, int)| #[trigger] on_edge_spec(a, b, p) && on_edge_spec(c, d, p);
        assert(on_edge_spec(similar_point(a, 1, 0, 0), similar_point(b, 1, 0, 0), p));
    } else if opposite_spec(ab_c, ab_d) && opposite_spec(cd_a, cd_b) {
        lemma_crossing_point(a, b, c, d);
    } else if ab_c == 0 && on_segment_spec(a, b, c) {
        assert(on_edge_spec(similar_point(a, 1, 0, 0), similar_point(b, 1, 0, 0), c));
    } else if ab_d == 0 && on_segment_spec(a, b, d) {
        assert(on_edge_spec(similar_point(a, 1, 0, 0), similar_point(b, 1, 0, 0), d));
    } else if cd_a == 0 && on_segment_spec(c, d, a) {
        assert(on_edge_spec(similar_point(a, 1, 0, 0), similar_point(b, 1, 0, 0), a));
    } else {
        assert(on_edge_spec(similar_point(a, 1, 0, 0), similar_point(b, 1, 0, 0), b));
    }
}

/// Three points on the line through distinct points `p` and `q` are
/// collinear.
proof fn lemma_three_on_line(p: (int, int), q: (int, int), x: (int, int), y: (int, int), z: (int, int))
    requires
        p != q,
        cross(p, q, x) == 0,
        cross(p, q, y) == 0,
        cross(p, q, z) == 0,
    ensures
        cross(x, y, z) == 0,
{
    let w = (q.0 - p.0, q.1 - p.1);
    let u = (x.0 - p.0, x.1 - p.1);
    let v = (y.0 - p.0, y.1 - p.1);
    let t = (z.0 - p.0, z.1 - p.1);
    assert(u.0 * w.1 == u.1 * w.0 && v.0 * w.1 == v.1 * w.0 && t.0 * w.1 == t.1 * w.0)
        by (nonlinear_arith)
        requires
            cross(p, q, x) == 0,
            cross(p, q, y) == 0,
            cross(p, q, z) == 0,
            w == (q.0 - p.0, q.1 - p.1),
            u == (x.0 - p.0, x.1 - p.1),
            v == (y.0 - p.0, y.1 - p.1),
            t == (z.0 - p.0, z.1 - p.1),
    ;
    lemma_parallel_through(w, u, v);
    lemma_parallel_through(w, u, t);
    lemma_parallel_through(w, v, t);
    assert(cross(x, y, z) == 0) by (nonlinear_arith)
        requires
            u.0 * v.1 == u.1 * v.0,
            u.0 * t.1 == u.1 * t.0,
            v.0 * t.1 == v.1 * t.0,
            u == (x.0 - p.0, x.1 - p.1),
            v == (y.0 - p.0, y.1 - p.1),
            t == (z.0 - p.0, z.1 - p.1),
    ;
}

/// Segments with integer ends that share two distinct integer points are
/// reported overlapping.
proof fn lemma_two_points_overlap(
    a: (int, int),
    b: (int, int),
    c: (int, int),
    d: (int, int),
    p: (int, int),
    q: (int, int),
)
    requires
        p != q,
        on_edge_spec(a, b, p),
        on_edge_spec(c, d, p),
        on_edge_spec(a, b, q),
        on_edge_spec(c, d, q),
    ensures
        segment_relation_spec(a, b, c, d) == SegmentRelation::Overlap,
{
    assert(orientation_spec(a, b, p) == 0 && orientation_spec(a, b, q) == 0);
    assert(orientation_spec(c, d, p) == 0 && orientation_spec(c, d, q) == 0);
    assert(a != b);
    assert(c != d);
    lemma_collinear_pair(a, b, p, q);
    lemma_collinear_pair(c, d, p, q);
    lemma_three_on_line(p, q, a, b, c);
    lemma_three_on_line(p, q, a, b, d);
    lemma_three_on_line(p, q, c, d, a);
    lemma_three_on_line(p, q, c, d, b);
    let w = (b.0 - a.0, b.1 - a.1);
    assert(forall|x: (int, int)|
        cross(a, b, x) == 0 ==> #[trigger] (w.0 * (x.1 - a.1)) == w.1 * (x.0 - a.0));
    lemma_line_relative(a, w, p, q);
    if along(a, b, p) == along(a, b, q) {
        if abs_spec(w.0) >= abs_spec(w.1) {
            assert(w.0 != 0);
            assert(p.1 == q.1) by (nonlinear_arith)
                requires
                    w.0 != 0,
                    w.0 * (p.1 - q.1) == w.1 * (p.0 - q.0),
                    p.0 == q.0,
            ;
        } else {
            assert(w.1 != 0);
            assert(p.0 == q.0) by (nonlinear_arith)
                requires
                    w.1 != 0,
                    w.0 * (p.1 - q.1) == w.1 * (p.0 - q.0),
                    p.1 == q.1,
            ;
        }
    }
}

/// `p` lies on both segments `a b` and `c d` scaled by `scale`: the point
/// `p / scale` is common to the two closed segments.
pub open spec fn on_both(
    a: (int, int),
    b: (int, int),
    c: (int, int),
    d: (int, int),
    scale: int,
    p: (int, int),
) -> bool {
    &&& on_edge_spec(similar_point(a, scale, 0, 0), similar_point(b, scale, 0, 0), p)
    &&& on_edge_spec(similar_point(c, scale, 0, 0), similar_point(d, scale, 0, 0), p)
}

/// The closed segments share a point with rational coordinates.
pub open spec fn share_a_point(a: (int, int), b: (int, int), c: (int, int), d: (int, int)) -> bool {
    exists|scale: int, p: (int, int)| scale > 0 && #[trigger] on_both(a, b, c, d, scale, p)
}

/// The closed segments share two distinct points with rational coordinates.
pub open spec fn share_two_points(a: (int, int), b: (int, int), c: (int, int), d: (int, int)) -> bool {
    exists|scale: int, p: (int, int), q: (int, int)|
        scale > 0 && p != q && #[trigger] on_both(a, b, c, d, scale, p) && #[trigger] on_both(
            a,
            b,
            c,
            d,
            scale,
            q,
        )
}

/// What each segment relation means for the points the closed segments
/// share: `Disjoint` when they share none; `Overlap` when they share two
/// distinct points (and so a stretch); `Cross` when they share a point and
/// no end of either lies on the other; `Touch` when they share exactly one
/// point and an end of one lies on the other.
pub proof fn segment_relation_meaning(a: (int, int), b: (int, int), c: (int, int), d: (int, int))
    ensures
        (segment_relation_spec(a, b, c, d) == SegmentRelation::Disjoint) == !share_a_point(
            a,
            b,
            c,
            d,
        ),
        (segment_relation_spec(a, b, c, d) == SegmentRelation::Overlap) == share_two_points(
            a,
            b,
            c,
            d,
        ),
        (segment_relation_spec(a, b, c, d) == SegmentRelation::Cross) == (share_a_point(a, b, c, d)
            && !end_on_other(a, b, c, d)),
        (segment_relation_spec(a, b, c, d) == SegmentRelation::Touch) == (share_a_point(a, b, c, d)
            && end_on_other(a, b, c, d) && !share_two_points(a, b, c, d)),
{
    let relation = segment_relation_spec(a, b, c, d);
    let ab_c = orientation_spec(a, b, c);
    let ab_d = orientation_spec(a, b, d);
    let cd_a = orientation_spec(c, d, a);
    let cd_b = orientation_spec(c, d, b);
    assert(similar_point(a, 1, 0, 0) == a && similar_point(b, 1, 0, 0) == b);
    assert(similar_point(c, 1, 0, 0) == c && similar_point(d, 1, 0, 0) == d);
    // Disjoint exactly when no point is shared.
    if relation == SegmentRelation::Disjoint {
        disjoint_segments_share_no_point(a, b, c, d);
        assert(!share_a_point(a, b, c, d)) by {
            if share_a_point(a, b, c, d) {
                let (scale, p) = choose|scale: int, p: (int, int)|
                    scale > 0 && #[trigger] on_both(a, b, c, d, scale, p);
                assert(on_both(a, b, c, d, scale, p));
            }
        }
    } else {
        meeting_segments_share_a_point(a, b, c, d);
        let (scale, p) = choose|scale: int, p: (int, int)|
            scale > 0 && #[trigger] on_edge_spec(
                similar_point(a, scale, 0, 0),
                similar_point(b, scale, 0, 0),
                p,
            ) && on_edge_spec(similar_point(c, scale, 0, 0), similar_point(d, scale, 0, 0), p);
        assert(on_both(a, b, c, d, scale, p));
    }
    // Overlap exactly when two distinct points are shared.
    if share_two_points(a, b, c, d) {
        let (scale, p, q) = choose|scale: int, p: (int, int), q: (int, int)|
            scale > 0 && p != q && #[trigger] on_both(a, b, c, d, scale, p) && #[trigger] on_both(
                a,
                b,
                c,
                d,
                scale,
                q,
            );
        lemma_two_points_overlap(
            similar_point(a, scale, 0, 0),
            similar_point(b, scale, 0, 0),
            similar_point(c, scale, 0, 0),
            similar_point(d, scale, 0, 0),
            p,
            q,
        );
        lemma_similar_segment_relation(a, b, c, d, scale, 0, 0);
    }
    if relation == SegmentRelation::Overlap {
        lemma_collinear_overlap(a, b, c, d);
        let (p, q) = choose|p: (int, int), q: (int, int)|
            p != q && #[trigger] on_edge_spec(a, b, p) && on_edge_spec(c, d, p) && #[trigger] on_edge_spec(
                a,
                b,
                q,
            ) && on_edge_spec(c, d, q);
        assert(on_both(a, b, c, d, 1, p) && on_both(a, b, c, d, 1, q));
    }
    // Cross exactly when a point is shared and no end lies on the other.
    if relation == SegmentRelation::Cross {
        assert(!end_on_other(a, b, c, d));
    }
    if relation != SegmentRelation::Disjoint && ab_c == 0 && ab_d == 0 && cd_a == 0 && cd_b == 0 {
        lemma_collinear_meeting(a, b, c, d);
    }
}

} // verus!
