//! What a valid polygon and a valid multipolygon promise about their rings,
//! stated through the points that edges share: holes lie strictly inside the
//! shell and apart from each other in both directions, and every two
//! distinct components, taken in either order, neither cross nor share a
//! stretch of boundary, nor has either an exterior span inside the other.

use crate::intersection::{
    end_on_other, on_both, segment_relation_meaning, share_a_point, share_two_points,
};
use crate::reversal::{all_edges_disjoint, lemma_rings_disjoint_pairwise, segments_clear};
use crate::topology::{
    disjoint_failure, edge_ring_relation, exterior_has_point_inside_spec, first_pair_failure,
    interior_inside, interiors_separate, multipolygon_rejection, point_location,
    polygon_rejection, polygons_boundary_relation_spec, polygons_relation_from, relation_rank,
    ring_rings_relation, rings_relation_from, rings_relation_spec, segment_relation_spec,
    PointLocation, SegmentRelation,
};
use vstd::prelude::*;

verus! {

// ---------------------------------------------------------------------------
// Shared points are symmetric in the two segments
// ---------------------------------------------------------------------------

proof fn lemma_share_symmetric(a: (int, int), b: (int, int), c: (int, int), d: (int, int))
    ensures
        share_a_point(c, d, a, b) == share_a_point(a, b, c, d),
        share_two_points(c, d, a, b) == share_two_points(a, b, c, d),
        end_on_other(c, d, a, b) == end_on_other(a, b, c, d),
{
    if share_a_point(a, b, c, d) {
        let (scale, p) = choose|scale: int, p: (int, int)|
            scale > 0 && #[trigger] on_both(a, b, c, d, scale, p);
        assert(on_both(c, d, a, b, scale, p));
    }
    if share_a_point(c, d, a, b) {
        let (scale, p) = choose|scale: int, p: (int, int)|
            scale > 0 && #[trigger] on_both(c, d, a, b, scale, p);
        assert(on_both(a, b, c, d, scale, p));
    }
    if share_two_points(a, b, c, d) {
        let (scale, p, q) = choose|scale: int, p: (int, int), q: (int, int)|
            scale > 0 && p != q && #[trigger] on_both(a, b, c, d, scale, p) && #[trigger] on_both(
                a,
                b,
                c,
                d,
                scale,
                q,
            );
        assert(on_both(c, d, a, b, scale, p) && on_both(c, d, a, b, scale, q));
    }
    if share_two_points(c, d, a, b) {
        let (scale, p, q) = choose|scale: int, p: (int, int), q: (int, int)|
            scale > 0 && p != q && #[trigger] on_both(c, d, a, b, scale, p) && #[trigger] on_both(
                c,
                d,
                a,
                b,
                scale,
                q,
            );
        assert(on_both(a, b, c, d, scale, p) && on_both(a, b, c, d, scale, q));
    }
}

// ---------------------------------------------------------------------------
// Rings that do not meet
// ---------------------------------------------------------------------------

/// No edge of `first` shares a point with an edge of `second`.
pub open spec fn boundaries_apart(first: Seq<(int, int)>, second: Seq<(int, int)>) -> bool {
    forall|k: int, m: int|
        0 <= k < first.len() - 1 && 0 <= m < second.len() - 1 ==> !#[trigger] share_a_point(
            first[k],
            first[k + 1],
            second[m],
            second[m + 1],
        )
}

/// Rings whose boundaries are reported disjoint share no point, read in
/// either order.
proof fn lemma_disjoint_rings_apart(first: Seq<(int, int)>, second: Seq<(int, int)>)
    requires
        rings_relation_spec(first, second) == SegmentRelation::Disjoint,
    ensures
        boundaries_apart(first, second),
        boundaries_apart(second, first),
{
    lemma_rings_disjoint_pairwise(first, second);
    assert(all_edges_disjoint(first, second));
    assert forall|k: int, m: int|
        0 <= k < first.len() - 1 && 0 <= m < second.len() - 1 implies !#[trigger] share_a_point(
        first[k],
        first[k + 1],
        second[m],
        second[m + 1],
    ) by {
        assert(segments_clear(first[k], first[k + 1], second[m], second[m + 1]));
        reveal(segments_clear);
        segment_relation_meaning(first[k], first[k + 1], second[m], second[m + 1]);
    }
    assert forall|k: int, m: int|
        0 <= k < second.len() - 1 && 0 <= m < first.len() - 1 implies !#[trigger] share_a_point(
        second[k],
        second[k + 1],
        first[m],
        first[m + 1],
    ) by {
        assert(!share_a_point(first[m], first[m + 1], second[k], second[k + 1]));
        lemma_share_symmetric(first[m], first[m + 1], second[k], second[k + 1]);
    }
}

// ---------------------------------------------------------------------------
// Polygons
// ---------------------------------------------------------------------------

/// Every hole lies strictly inside the shell with no boundary point in
/// common; every two distinct holes, in either order, share no boundary
/// point, and neither has its first vertex strictly inside the other.
pub open spec fn holes_lie_apart(exterior: Seq<(int, int)>, holes: Seq<Seq<(int, int)>>) -> bool {
    &&& forall|k: int|
        0 <= k < holes.len() ==> boundaries_apart(exterior, #[trigger] holes[k]) && point_location(
            exterior,
            holes[k][0],
        ) == PointLocation::Inside
    &&& forall|i: int, j: int|
        0 <= i < holes.len() && 0 <= j < holes.len() && i != j ==> boundaries_apart(
            #[trigger] holes[i],
            #[trigger] holes[j],
        ) && point_location(holes[j], holes[i][0]) != PointLocation::Inside
}

/// A shell and holes that form a valid polygon lie apart as
/// [`holes_lie_apart`] says: no hole nests in another, whichever comes first.
pub proof fn valid_polygon_holes_lie_apart(exterior: Seq<(int, int)>, holes: Seq<Seq<(int, int)>>)
    requires
        polygon_rejection(exterior, holes) is None,
    ensures
        holes_lie_apart(exterior, holes),
{
    assert forall|k: int| 0 <= k < holes.len() implies boundaries_apart(exterior, #[trigger] holes[k])
        && point_location(exterior, holes[k][0]) == PointLocation::Inside by {
        assert(interior_inside(exterior, holes[k]));
        lemma_disjoint_rings_apart(exterior, holes[k]);
    }
    assert forall|i: int, j: int|
        0 <= i < holes.len() && 0 <= j < holes.len() && i != j implies boundaries_apart(
        #[trigger] holes[i],
        #[trigger] holes[j],
    ) && point_location(holes[j], holes[i][0]) != PointLocation::Inside by {
        if i < j {
            assert(interiors_separate(holes[i], holes[j]));
            lemma_disjoint_rings_apart(holes[i], holes[j]);
        } else {
            assert(interiors_separate(holes[j], holes[i]));
            lemma_disjoint_rings_apart(holes[j], holes[i]);
        }
    }
}

// ---------------------------------------------------------------------------
// Multipolygons
// ---------------------------------------------------------------------------

/// A relation no stronger than `Touch`.
pub open spec fn at_most_touch(relation: SegmentRelation) -> bool {
    relation_rank(relation) <= 1
}

proof fn lemma_edge_ring_at_most(a: (int, int), b: (int, int), ring: Seq<(int, int)>, j: int)
    requires
        j >= 0,
        at_most_touch(edge_ring_relation(a, b, ring, j)),
    ensures
        forall|k: int|
            j <= k < ring.len() - 1 ==> at_most_touch(
                #[trigger] segment_relation_spec(a, b, ring[k], ring[k + 1]),
            ),
    decreases ring.len() - j,
{
    if j + 1 < ring.len() {
        lemma_edge_ring_at_most(a, b, ring, j + 1);
    }
}

proof fn lemma_rings_from_at_most(first: Seq<(int, int)>, second: Seq<(int, int)>, i: int)
    requires
        i >= 0,
        at_most_touch(rings_relation_from(first, second, i)),
    ensures
        forall|k: int|
            i <= k < first.len() - 1 ==> at_most_touch(
                #[trigger] edge_ring_relation(first[k], first[k + 1], second, 0),
            ),
    decreases first.len() - i,
{
    if i + 1 < first.len() {
        lemma_rings_from_at_most(first, second, i + 1);
    }
}

proof fn lemma_ring_rings_at_most(ring: Seq<(int, int)>, rings: Seq<Seq<(int, int)>>, j: int)
    requires
        j >= 0,
        at_most_touch(ring_rings_relation(ring, rings, j)),
    ensures
        forall|m: int| j <= m < rings.len() ==> at_most_touch(#[trigger] rings_relation_spec(ring, rings[m])),
    decreases rings.len() - j,
{
    if j < rings.len() {
        lemma_ring_rings_at_most(ring, rings, j + 1);
    }
}

proof fn lemma_polygons_from_at_most(first: Seq<Seq<(int, int)>>, second: Seq<Seq<(int, int)>>, i: int)
    requires
        i >= 0,
        at_most_touch(polygons_relation_from(first, second, i)),
    ensures
        forall|r: int| i <= r < first.len() ==> at_most_touch(#[trigger] ring_rings_relation(first[r], second, 0)),
    decreases first.len() - i,
{
    if i < first.len() {
        lemma_polygons_from_at_most(first, second, i + 1);
    }
}

/// Two edges neither cross nor overlap: they share at most one point, and
/// where they share one, an end of one edge lies on the other.
pub open spec fn edges_meet_at_most_at_an_end(
    a: (int, int),
    b: (int, int),
    c: (int, int),
    d: (int, int),
) -> bool {
    &&& !share_two_points(a, b, c, d)
    &&& share_a_point(a, b, c, d) ==> end_on_other(a, b, c, d)
}

/// No edge of `first` crosses or overlaps an edge of `second`.
pub open spec fn rings_meet_at_most_at_ends(first: Seq<(int, int)>, second: Seq<(int, int)>) -> bool {
    forall|k: int, m: int|
        0 <= k < first.len() - 1 && 0 <= m < second.len() - 1 ==> #[trigger] edges_meet_at_most_at_an_end(
            first[k],
            first[k + 1],
            second[m],
            second[m + 1],
        )
}

/// Component `first` neither crosses nor shares a boundary stretch with
/// component `second`, and no exterior span of `first` lies inside `second`.
pub open spec fn component_clear_of(first: Seq<Seq<(int, int)>>, second: Seq<Seq<(int, int)>>) -> bool {
    &&& forall|r: int, q: int|
        0 <= r < first.len() && 0 <= q < second.len() ==> #[trigger] rings_meet_at_most_at_ends(
            first[r],
            second[q],
        )
    &&& !exterior_has_point_inside_spec(first, second)
}

/// Every two distinct components, in either order, are clear of each other.
pub open spec fn components_pairwise_clear(polygons: Seq<Seq<Seq<(int, int)>>>) -> bool {
    forall|i: int, j: int|
        0 <= i < polygons.len() && 0 <= j < polygons.len() && i != j ==> component_clear_of(
            #[trigger] polygons[i],
            #[trigger] polygons[j],
        )
}

/// No failure among the component pairs from `(f, s)` on, in
/// lexicographic order, means every such pair is disjoint.
proof fn lemma_pairs_from(polygons: Seq<Seq<Seq<(int, int)>>>, f: int, s: int)
    requires
        0 <= f < s,
        first_pair_failure(polygons, f, s) is None,
    ensures
        forall|g: int, t: int|
            (f < g || (g == f && s <= t)) && g < t < polygons.len() ==> disjoint_failure(
                #[trigger] polygons[g],
                #[trigger] polygons[t],
            ) is None,
    decreases polygons.len() - f, polygons.len() - s,
{
    if f >= polygons.len() {
    } else if s >= polygons.len() {
        lemma_pairs_from(polygons, f + 1, f + 2);
    } else {
        lemma_pairs_from(polygons, f, s + 1);
    }
}

/// Two components whose pair shows no failure are clear of each other, in
/// both orders.
proof fn lemma_pair_clear(first: Seq<Seq<(int, int)>>, second: Seq<Seq<(int, int)>>)
    requires
        disjoint_failure(first, second) is None,
    ensures
        component_clear_of(first, second),
        component_clear_of(second, first),
{
    let relation = polygons_boundary_relation_spec(first, second);
    assert(at_most_touch(relation));
    lemma_polygons_from_at_most(first, second, 0);
    assert forall|r: int, q: int|
        0 <= r < first.len() && 0 <= q < second.len() implies #[trigger] rings_meet_at_most_at_ends(
        first[r],
        second[q],
    ) && rings_meet_at_most_at_ends(second[q], first[r]) by {
        assert(at_most_touch(ring_rings_relation(first[r], second, 0)));
        lemma_ring_rings_at_most(first[r], second, 0);
        assert(at_most_touch(rings_relation_spec(first[r], second[q])));
        lemma_rings_from_at_most(first[r], second[q], 0);
        let x = first[r];
        let y = second[q];
        assert forall|k: int, m: int|
            0 <= k < x.len() - 1 && 0 <= m < y.len() - 1 implies #[trigger] edges_meet_at_most_at_an_end(
            x[k],
            x[k + 1],
            y[m],
            y[m + 1],
        ) by {
            assert(at_most_touch(edge_ring_relation(x[k], x[k + 1], y, 0)));
            lemma_edge_ring_at_most(x[k], x[k + 1], y, 0);
            assert(at_most_touch(segment_relation_spec(x[k], x[k + 1], y[m], y[m + 1])));
            segment_relation_meaning(x[k], x[k + 1], y[m], y[m + 1]);
        }
        assert forall|m: int, k: int|
            0 <= m < y.len() - 1 && 0 <= k < x.len() - 1 implies #[trigger] edges_meet_at_most_at_an_end(
            y[m],
            y[m + 1],
            x[k],
            x[k + 1],
        ) by {
            assert(edges_meet_at_most_at_an_end(x[k], x[k + 1], y[m], y[m + 1]));
            lemma_share_symmetric(x[k], x[k + 1], y[m], y[m + 1]);
        }
    }
    assert forall|q: int, r: int|
        0 <= q < second.len() && 0 <= r < first.len() implies #[trigger] rings_meet_at_most_at_ends(
        second[q],
        first[r],
    ) by {
        assert(rings_meet_at_most_at_ends(first[r], second[q]));
    }
}

/// The components of a valid multipolygon are pairwise clear of each other:
/// for every two distinct indices, in either order, no boundary edges cross
/// or share a stretch, and no exterior span of one lies inside the other.
pub proof fn valid_multipolygon_components_are_pairwise_clear(polygons: Seq<Seq<Seq<(int, int)>>>)
    requires
        multipolygon_rejection(polygons) is None,
    ensures
        components_pairwise_clear(polygons),
{
    lemma_pairs_from(polygons, 0, 1);
    assert forall|i: int, j: int|
        0 <= i < polygons.len() && 0 <= j < polygons.len() && i != j implies component_clear_of(
        #[trigger] polygons[i],
        #[trigger] polygons[j],
    ) by {
        if i < j {
            assert(disjoint_failure(polygons[i], polygons[j]) is None);
            lemma_pair_clear(polygons[i], polygons[j]);
        } else {
            assert(disjoint_failure(polygons[j], polygons[i]) is None);
            lemma_pair_clear(polygons[j], polygons[i]);
        }
    }
}

} // verus!
