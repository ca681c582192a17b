//! Explicit polygon topology contracts, decided exactly.

use crate::error::SpatialIoError;
use crate::exact::{
    big_eq, big_int_value, big_le, big_lt, big_neg, big_sign, big_sub, exact_orientation,
    midpoint_spec, orientation_spec, ExactPoint,
};
use crate::model::Point2;
use num_bigint::BigInt;
use vstd::arithmetic::div_mod::{lemma_mod_add_multiples_vanish, lemma_mod_self_0, lemma_small_mod};
use crate::separation::{
    components_pairwise_clear, holes_lie_apart, valid_multipolygon_components_are_pairwise_clear,
    valid_polygon_holes_lie_apart,
};
use vstd::prelude::*;

verus! {

// ---------------------------------------------------------------------------
// Exact model
// ---------------------------------------------------------------------------

/// Exact coordinates of a sequence of points.
pub open spec fn point_values(points: Seq<Point2>) -> Seq<(int, int)> {
    points.map_values(|p: Point2| p@)
}

/// Exact coordinates of a sequence of exact points.
pub open spec fn exact_values(points: Seq<ExactPoint>) -> Seq<(int, int)> {
    points.map_values(|p: ExactPoint| p@)
}

/// Relation between two closed segments.
#[derive(Debug, Clone, Copy, PartialEq, Eq, Structural)]
pub enum SegmentRelation {
    /// No common point.
    Disjoint,
    /// A common point without crossing or overlap.
    Touch,
    /// A proper crossing.
    Cross,
    /// A common sub-segment of positive length.
    Overlap,
}

/// Location of a point with respect to a ring or polygon.
#[derive(Debug, Clone, Copy, PartialEq, Eq, Structural)]
pub enum PointLocation {
    /// Strictly outside.
    Outside,
    /// On the boundary.
    Boundary,
    /// Strictly inside.
    Inside,
}

/// Strength of a relation: `Disjoint < Touch < Cross < Overlap`.
pub open spec fn relation_rank(relation: SegmentRelation) -> nat {
    match relation {
        SegmentRelation::Disjoint => 0,
        SegmentRelation::Touch => 1,
        SegmentRelation::Cross => 2,
        SegmentRelation::Overlap => 3,
    }
}

/// The stronger of two relations.
pub open spec fn stronger_spec(first: SegmentRelation, second: SegmentRelation) -> SegmentRelation {
    if relation_rank(first) >= relation_rank(second) {
        first
    } else {
        second
    }
}

pub open spec fn min_spec(a: int, b: int) -> int {
    if a <= b {
        a
    } else {
        b
    }
}

pub open spec fn max_spec(a: int, b: int) -> int {
    if a >= b {
        a
    } else {
        b
    }
}

pub open spec fn abs_spec(a: int) -> int {
    if a >= 0 {
        a
    } else {
        -a
    }
}

/// `point` lies in the axis-aligned box spanned by `a` and `b`.
pub open spec fn on_segment_spec(a: (int, int), b: (int, int), point: (int, int)) -> bool {
    &&& min_spec(a.0, b.0) <= point.0 <= max_spec(a.0, b.0)
    &&& min_spec(a.1, b.1) <= point.1 <= max_spec(a.1, b.1)
}

/// `point` lies on the closed segment `a b`.
pub open spec fn on_edge_spec(a: (int, int), b: (int, int), point: (int, int)) -> bool {
    orientation_spec(a, b, point) == 0 && on_segment_spec(a, b, point)
}

/// Relation of two segments known to lie on one line, measured along the
/// axis in which `a b` extends further.
pub open spec fn collinear_relation_spec(
    a: (int, int),
    b: (int, int),
    c: (int, int),
    d: (int, int),
) -> SegmentRelation {
    let use_x = abs_spec(b.0 - a.0) >= abs_spec(b.1 - a.1);
    let a0 = if use_x { a.0 } else { a.1 };
    let a1 = if use_x { b.0 } else { b.1 };
    let b0 = if use_x { c.0 } else { c.1 };
    let b1 = if use_x { d.0 } else { d.1 };
    let start = max_spec(min_spec(a0, a1), min_spec(b0, b1));
    let end = min_spec(max_spec(a0, a1), max_spec(b0, b1));
    if start < end {
        SegmentRelation::Overlap
    } else if start == end {
        SegmentRelation::Touch
    } else {
        SegmentRelation::Disjoint
    }
}

pub open spec fn opposite_spec(first: int, second: int) -> bool {
    (first > 0 && second < 0) || (first < 0 && second > 0)
}

/// Exact relation between segments `a b` and `c d`.
pub open spec fn segment_relation_spec(
    a: (int, int),
    b: (int, int),
    c: (int, int),
    d: (int, int),
) -> SegmentRelation {
    if max_spec(a.0, b.0) < min_spec(c.0, d.0) || max_spec(c.0, d.0) < min_spec(a.0, b.0)
        || max_spec(a.1, b.1) < min_spec(c.1, d.1) || max_spec(c.1, d.1) < min_spec(a.1, b.1) {
        SegmentRelation::Disjoint
    } else {
        let ab_c = orientation_spec(a, b, c);
        let ab_d = orientation_spec(a, b, d);
        let cd_a = orientation_spec(c, d, a);
        let cd_b = orientation_spec(c, d, b);
        if ab_c == 0 && ab_d == 0 && cd_a == 0 && cd_b == 0 {
            collinear_relation_spec(a, b, c, d)
        } else if opposite_spec(ab_c, ab_d) && opposite_spec(cd_a, cd_b) {
            SegmentRelation::Cross
        } else if (ab_c == 0 && on_segment_spec(a, b, c)) || (ab_d == 0 && on_segment_spec(a, b, d))
            || (cd_a == 0 && on_segment_spec(c, d, a)) || (cd_b == 0 && on_segment_spec(c, d, b)) {
            SegmentRelation::Touch
        } else {
            SegmentRelation::Disjoint
        }
    }
}

/// Strongest relation between segment `a b` and the edges `j..` of `ring`.
pub open spec fn edge_ring_relation(
    a: (int, int),
    b: (int, int),
    ring: Seq<(int, int)>,
    j: int,
) -> SegmentRelation
    decreases ring.len() - j,
{
    if j < 0 || j + 1 >= ring.len() {
        SegmentRelation::Disjoint
    } else {
        stronger_spec(
            segment_relation_spec(a, b, ring[j], ring[j + 1]),
            edge_ring_relation(a, b, ring, j + 1),
        )
    }
}

/// Strongest relation between the edges `i..` of `first` and all edges of `second`.
pub open spec fn rings_relation_from(
    first: Seq<(int, int)>,
    second: Seq<(int, int)>,
    i: int,
) -> SegmentRelation
    decreases first.len() - i,
{
    if i < 0 || i + 1 >= first.len() {
        SegmentRelation::Disjoint
    } else {
        stronger_spec(
            edge_ring_relation(first[i], first[i + 1], second, 0),
            rings_relation_from(first, second, i + 1),
        )
    }
}

/// Strongest relation between any edge of `first` and any edge of `second`.
pub open spec fn rings_relation_spec(first: Seq<(int, int)>, second: Seq<(int, int)>) -> SegmentRelation {
    rings_relation_from(first, second, 0)
}

/// The edge pair `first < second` of a closed ring meets only as allowed:
/// adjacent edges touch at their shared vertex, others are disjoint.
pub open spec fn edge_pair_simple(points: Seq<(int, int)>, first: int, second: int) -> bool {
    let edge_count = points.len() - 1;
    let adjacent = second == first + 1 || (first == 0 && second + 1 == edge_count);
    let relation = segment_relation_spec(
        points[first],
        points[first + 1],
        points[second],
        points[second + 1],
    );
    if adjacent {
        relation == SegmentRelation::Touch
    } else {
        relation == SegmentRelation::Disjoint
    }
}

/// Every pair of distinct edges meets only as allowed.
pub open spec fn simple_boundary(points: Seq<(int, int)>) -> bool {
    forall|first: int, second: int|
        0 <= first < second < points.len() - 1 ==> #[trigger] edge_pair_simple(
            points,
            first,
            second,
        )
}

/// Lexicographic `a < b` (x first, then y).
pub open spec fn lex_lt(a: (int, int), b: (int, int)) -> bool {
    a.0 < b.0 || (a.0 == b.0 && a.1 < b.1)
}

/// Index of the first lexicographically least point among `points[0..count]`.
pub open spec fn least_index(points: Seq<(int, int)>, count: int) -> int
    decreases count,
{
    if count <= 1 {
        0
    } else {
        let previous = least_index(points, count - 1);
        if lex_lt(points[count - 1], points[previous]) {
            count - 1
        } else {
            previous
        }
    }
}

/// Turn at the least vertex of a closed ring; its sign is the ring's winding.
pub open spec fn winding_turn(points: Seq<(int, int)>) -> int {
    let count = points.len() - 1;
    let index = least_index(points, count);
    orientation_spec(
        points[(index + count - 1) % count],
        points[index],
        points[(index + 1) % count],
    )
}

/// Whether the edge `e0 e1` toggles the crossing parity of a ray cast from
/// `point` in the positive x direction.
pub open spec fn crossing_flip(e0: (int, int), e1: (int, int), point: (int, int)) -> bool {
    (e0.1 > point.1) != (e1.1 > point.1) && (orientation_spec(e0, e1, point) > 0) == (e1.1 > e0.1)
}

/// Location of `point` with respect to the edges `i..` of `ring`, given the
/// parity accumulated so far.
pub open spec fn location_from(
    ring: Seq<(int, int)>,
    point: (int, int),
    i: int,
    inside: bool,
) -> PointLocation
    decreases ring.len() - i,
{
    if i < 0 || i + 1 >= ring.len() {
        if inside {
            PointLocation::Inside
        } else {
            PointLocation::Outside
        }
    } else if on_edge_spec(ring[i], ring[i + 1], point) {
        PointLocation::Boundary
    } else {
        location_from(ring, point, i + 1, inside != crossing_flip(ring[i], ring[i + 1], point))
    }
}

/// Location of `point` with respect to a closed ring: on an edge, or by
/// crossing parity.
pub open spec fn point_location(ring: Seq<(int, int)>, point: (int, int)) -> PointLocation {
    location_from(ring, point, 0, false)
}

/// Why `points` is not a valid linear ring, if it is not.
pub open spec fn ring_rejection(points: Seq<(int, int)>) -> Option<Seq<char>> {
    if points.len() < 4 {
        Some("a linear ring requires at least four positions"@)
    } else if points[0] != points[points.len() - 1] {
        Some("a linear ring must be explicitly closed"@)
    } else if exists|i: int| 0 <= i < points.len() - 1 && #[trigger] points[i] == points[i + 1] {
        Some("a linear ring cannot contain a zero-length edge"@)
    } else if !simple_boundary(points) {
        Some("a linear ring boundary must be simple and may meet only at adjacent endpoints"@)
    } else if winding_turn(points) == 0 {
        Some("a linear ring must enclose non-zero area"@)
    } else {
        None
    }
}

/// Numeric-coordinate winding of a validated linear ring.
///
/// This reports the turn at the ring's lexicographically least vertex as the
/// coordinates are stored. It does not infer whether a ring is a shell or a
/// hole.
#[derive(Debug, Clone, Copy, PartialEq, Eq, Structural)]
pub enum RingWinding {
    /// Right turn at the least vertex.
    Clockwise,
    /// Left turn at the least vertex.
    CounterClockwise,
}

/// Winding reported for a valid ring.
pub open spec fn winding_spec(points: Seq<(int, int)>) -> RingWinding {
    if winding_turn(points) > 0 {
        RingWinding::CounterClockwise
    } else {
        RingWinding::Clockwise
    }
}

// ---------------------------------------------------------------------------
// Exact predicates
// ---------------------------------------------------------------------------

proof fn lemma_stronger_associative(a: SegmentRelation, b: SegmentRelation, c: SegmentRelation)
    ensures
        stronger_spec(stronger_spec(a, b), c) == stronger_spec(a, stronger_spec(b, c)),
        stronger_spec(SegmentRelation::Disjoint, a) == a,
{
}

/// The stronger of two relations.
pub fn stronger(first: SegmentRelation, second: SegmentRelation) -> (result: SegmentRelation)
    ensures
        result == stronger_spec(first, second),
{
    match (first, second) {
        (SegmentRelation::Overlap, _) | (_, SegmentRelation::Overlap) => SegmentRelation::Overlap,
        (SegmentRelation::Cross, _) | (_, SegmentRelation::Cross) => SegmentRelation::Cross,
        (SegmentRelation::Touch, _) | (_, SegmentRelation::Touch) => SegmentRelation::Touch,
        (SegmentRelation::Disjoint, SegmentRelation::Disjoint) => SegmentRelation::Disjoint,
    }
}

fn opposite(first: i8, second: i8) -> (result: bool)
    ensures
        result == opposite_spec(first as int, second as int),
{
    (first > 0 && second < 0) || (first < 0 && second > 0)
}

fn on_segment(a: &ExactPoint, b: &ExactPoint, point: &ExactPoint) -> (result: bool)
    ensures
        result == on_segment_spec(a@, b@, point@),
{
    (big_le(&a.x, &point.x) || big_le(&b.x, &point.x))
        && (big_le(&point.x, &a.x) || big_le(&point.x, &b.x))
        && (big_le(&a.y, &point.y) || big_le(&b.y, &point.y))
        && (big_le(&point.y, &a.y) || big_le(&point.y, &b.y))
}

fn big_min<'a>(a: &'a BigInt, b: &'a BigInt) -> (result: &'a BigInt)
    ensures
        big_int_value(*result) == min_spec(big_int_value(*a), big_int_value(*b)),
{
    if big_le(a, b) {
        a
    } else {
        b
    }
}

fn big_max<'a>(a: &'a BigInt, b: &'a BigInt) -> (result: &'a BigInt)
    ensures
        big_int_value(*result) == max_spec(big_int_value(*a), big_int_value(*b)),
{
    if big_le(b, a) {
        a
    } else {
        b
    }
}

fn big_abs(value: BigInt) -> (result: BigInt)
    ensures
        big_int_value(result) == abs_spec(big_int_value(value)),
{
    if big_sign(&value) < 0 {
        big_neg(value)
    } else {
        value
    }
}

fn collinear_relation(
    a: &ExactPoint,
    b: &ExactPoint,
    c: &ExactPoint,
    d: &ExactPoint,
) -> (result: SegmentRelation)
    ensures
        result == collinear_relation_spec(a@, b@, c@, d@),
{
    let dx = big_abs(big_sub(&b.x, &a.x));
    let dy = big_abs(big_sub(&b.y, &a.y));
    let use_x = big_le(&dy, &dx);
    let (a0, a1, b0, b1) = if use_x {
        (&a.x, &b.x, &c.x, &d.x)
    } else {
        (&a.y, &b.y, &c.y, &d.y)
    };
    let start = big_max(big_min(a0, a1), big_min(b0, b1));
    let end = big_min(big_max(a0, a1), big_max(b0, b1));
    if big_lt(start, end) {
        SegmentRelation::Overlap
    } else if big_eq(start, end) {
        SegmentRelation::Touch
    } else {
        SegmentRelation::Disjoint
    }
}

/// Exact relation between segments `a b` and `c d`.
pub fn segment_relation(
    a: &ExactPoint,
    b: &ExactPoint,
    c: &ExactPoint,
    d: &ExactPoint,
) -> (result: SegmentRelation)
    ensures
        result == segment_relation_spec(a@, b@, c@, d@),
{
    // Exact range rejection avoids evaluating determinants for separated
    // edges. Strict comparisons retain all possible boundary contacts.
    if (big_lt(&a.x, &c.x) && big_lt(&a.x, &d.x) && big_lt(&b.x, &c.x) && big_lt(&b.x, &d.x))
        || (big_lt(&c.x, &a.x) && big_lt(&c.x, &b.x) && big_lt(&d.x, &a.x) && big_lt(&d.x, &b.x))
        || (big_lt(&a.y, &c.y) && big_lt(&a.y, &d.y) && big_lt(&b.y, &c.y) && big_lt(&b.y, &d.y))
        || (big_lt(&c.y, &a.y) && big_lt(&c.y, &b.y) && big_lt(&d.y, &a.y) && big_lt(&d.y, &b.y)) {
        return SegmentRelation::Disjoint;
    }
    let ab_c = exact_orientation(a, b, c);
    let ab_d = exact_orientation(a, b, d);
    let cd_a = exact_orientation(c, d, a);
    let cd_b = exact_orientation(c, d, b);
    if ab_c == 0 && ab_d == 0 && cd_a == 0 && cd_b == 0 {
        return collinear_relation(a, b, c, d);
    }
    if opposite(ab_c, ab_d) && opposite(cd_a, cd_b) {
        return SegmentRelation::Cross;
    }
    if (ab_c == 0 && on_segment(a, b, c)) || (ab_d == 0 && on_segment(a, b, d)) || (cd_a == 0
        && on_segment(c, d, a)) || (cd_b == 0 && on_segment(c, d, b)) {
        return SegmentRelation::Touch;
    }
    SegmentRelation::Disjoint
}

/// Exact coordinates of every point.
pub fn exact_ring(points: &Vec<Point2>) -> (result: Vec<ExactPoint>)
    ensures
        exact_values(result@) == point_values(points@),
{
    let mut result: Vec<ExactPoint> = Vec::new();
    let mut i: usize = 0;
    while i < points.len()
        invariant
            i <= points.len(),
            result@.len() == i,
            forall|k: int| 0 <= k < i ==> #[trigger] result@[k]@ == points@[k]@,
        decreases points.len() - i,
    {
        result.push(ExactPoint::from_point(points[i]));
        i = i + 1;
    }
    assert(exact_values(result@) =~= point_values(points@));
    result
}

/// Strongest relation between any edge of `first` and any edge of `second`.
pub fn rings_relation(first: &Vec<ExactPoint>, second: &Vec<ExactPoint>) -> (result: SegmentRelation)
    ensures
        result == rings_relation_spec(exact_values(first@), exact_values(second@)),
{
    let ghost fv = exact_values(first@);
    let ghost sv = exact_values(second@);
    let mut aggregate = SegmentRelation::Disjoint;
    let mut i: usize = 0;
    while i + 1 < first.len()
        invariant
            fv == exact_values(first@),
            sv == exact_values(second@),
            i == 0 || i < first.len(),
            stronger_spec(aggregate, rings_relation_from(fv, sv, i as int)) == rings_relation_from(
                fv,
                sv,
                0,
            ),
        decreases first.len() - i,
    {
        let mut edge_aggregate = SegmentRelation::Disjoint;
        let mut j: usize = 0;
        while j + 1 < second.len()
            invariant
                fv == exact_values(first@),
                sv == exact_values(second@),
                i + 1 < first.len(),
                j == 0 || j < second.len(),
                stronger_spec(edge_aggregate, edge_ring_relation(fv[i as int], fv[i + 1], sv, j as int))
                    == edge_ring_relation(fv[i as int], fv[i + 1], sv, 0),
            decreases second.len() - j,
        {
            let relation = segment_relation(&first[i], &first[i + 1], &second[j], &second[j + 1]);
            proof {
                lemma_stronger_associative(
                    edge_aggregate,
                    relation,
                    edge_ring_relation(fv[i as int], fv[i + 1], sv, j + 1),
                );
            }
            edge_aggregate = stronger(edge_aggregate, relation);
            j = j + 1;
        }
        proof {
            lemma_stronger_associative(
                aggregate,
                edge_aggregate,
                rings_relation_from(fv, sv, i + 1),
            );
        }
        aggregate = stronger(aggregate, edge_aggregate);
        i = i + 1;
    }
    aggregate
}


/// `a < b` in lexicographic order.
fn lex_less(a: &ExactPoint, b: &ExactPoint) -> (result: bool)
    ensures
        result == lex_lt(a@, b@),
{
    big_lt(&a.x, &b.x) || (big_eq(&a.x, &b.x) && big_lt(&a.y, &b.y))
}

/// Every pair of distinct ring edges meets only as allowed.
fn validate_simple_boundary(points: &Vec<ExactPoint>) -> (simple: bool)
    requires
        points.len() >= 2,
    ensures
        simple == simple_boundary(exact_values(points@)),
{
    let ghost pv = exact_values(points@);
    let edge_count = points.len() - 1;
    let mut first: usize = 0;
    while first < edge_count
        invariant
            pv == exact_values(points@),
            edge_count == points.len() - 1,
            first <= edge_count,
            forall|f: int, s: int|
                0 <= f < first && f < s < edge_count ==> #[trigger] edge_pair_simple(pv, f, s),
        decreases edge_count - first,
    {
        let mut second: usize = first + 1;
        while second < edge_count
            invariant
                pv == exact_values(points@),
                edge_count == points.len() - 1,
                first < edge_count,
                first < second <= edge_count,
                forall|f: int, s: int|
                    0 <= f < first && f < s < edge_count ==> #[trigger] edge_pair_simple(pv, f, s),
                forall|s: int| first < s < second ==> #[trigger] edge_pair_simple(pv, first as int, s),
            decreases edge_count - second,
        {
            let adjacent = second == first + 1 || (first == 0 && second + 1 == edge_count);
            let relation = segment_relation(
                &points[first],
                &points[first + 1],
                &points[second],
                &points[second + 1],
            );
            if (adjacent && relation != SegmentRelation::Touch) || (!adjacent && relation
                != SegmentRelation::Disjoint) {
                assert(!edge_pair_simple(pv, first as int, second as int));
                return false;
            }
            assert(edge_pair_simple(pv, first as int, second as int));
            second = second + 1;
        }
        first = first + 1;
    }
    true
}

/// Index of the first lexicographically least point among `points[0..count]`.
fn least_vertex(points: &Vec<ExactPoint>, count: usize) -> (index: usize)
    requires
        1 <= count <= points.len(),
    ensures
        index == least_index(exact_values(points@), count as int),
        index < count,
{
    let ghost pv = exact_values(points@);
    let mut index: usize = 0;
    let mut k: usize = 1;
    while k < count
        invariant
            pv == exact_values(points@),
            1 <= k <= count,
            count <= points.len(),
            index == least_index(pv, k as int),
            index < k,
        decreases count - k,
    {
        if lex_less(&points[k], &points[index]) {
            index = k;
        }
        k = k + 1;
    }
    index
}

/// Turn at the least vertex of a closed ring.
fn winding_sign(points: &Vec<ExactPoint>) -> (turn: i8)
    requires
        points.len() >= 2,
    ensures
        turn == winding_turn(exact_values(points@)),
{
    let count = points.len() - 1;
    let index = least_vertex(points, count);
    let previous = if index == 0 {
        count - 1
    } else {
        index - 1
    };
    let next = if index + 1 == count {
        0
    } else {
        index + 1
    };
    proof {
        if index == 0 {
            lemma_small_mod((count - 1) as nat, count as nat);
        } else {
            lemma_mod_add_multiples_vanish(index - 1, count as int);
            lemma_small_mod((index - 1) as nat, count as nat);
        }
        if index + 1 == count {
            lemma_mod_self_0(count as int);
        } else {
            lemma_small_mod((index + 1) as nat, count as nat);
        }
    }
    exact_orientation(&points[previous], &points[index], &points[next])
}

fn invalid(message: &str) -> (error: SpatialIoError)
    ensures
        error matches SpatialIoError::InvalidGeometry(m) && m@ == message@,
{
    SpatialIoError::InvalidGeometry(message.to_owned())
}

/// A simple, explicitly closed, non-zero-area linear ring.
#[derive(Debug)]
pub struct LinearRing {
    points: Vec<Point2>,
    winding: RingWinding,
}

impl Clone for LinearRing {
    fn clone(&self) -> (result: Self)
        ensures
            result.positions() == self.positions(),
            result.winding_view() == self.winding_view(),
    {
        proof {
            use_type_invariant(self);
        }
        let points = self.points.clone();
        assert(points@ =~= self.points@);
        LinearRing { points, winding: self.winding }
    }
}

impl PartialEq for LinearRing {
    fn eq(&self, other: &LinearRing) -> (equal: bool) {
        let a = &self.points;
        let b = &other.points;
        if a.len() != b.len() {
            assert(self.values().len() != other.values().len());
            return false;
        }
        let mut i: usize = 0;
        while i < a.len()
            invariant
                *a == self.points,
                *b == other.points,
                a@.len() == b@.len(),
                i <= a@.len(),
                forall|k: int| 0 <= k < i ==> (#[trigger] a@[k])@ == b@[k]@,
            decreases a.len() - i,
        {
            if a[i] != b[i] {
                assert(self.values()[i as int] != other.values()[i as int]);
                return false;
            }
            i = i + 1;
        }
        assert(point_values(a@) =~= point_values(b@));
        true
    }
}

impl vstd::std_specs::cmp::PartialEqSpecImpl for LinearRing {
    open spec fn obeys_eq_spec() -> bool {
        true
    }

    open spec fn eq_spec(&self, other: &LinearRing) -> bool {
        self.values() == other.values()
    }
}

impl LinearRing {
    #[verifier::type_invariant]
    spec fn valid_ring(self) -> bool {
        &&& ring_rejection(point_values(self.points@)) is None
        &&& self.winding == winding_spec(point_values(self.points@))
    }

    /// The retained positions.
    pub closed spec fn positions(self) -> Seq<Point2> {
        self.points@
    }

    /// The retained winding.
    pub closed spec fn winding_view(self) -> RingWinding {
        self.winding
    }

    /// Exact coordinates of the retained positions.
    pub open spec fn values(self) -> Seq<(int, int)> {
        point_values(self.positions())
    }

    /// Validates and retains an explicitly closed sequence of finite points.
    ///
    /// The first and last points must be exactly equal and at least four
    /// positions must be supplied. Zero-length edges, zero area,
    /// self-crossing, self-touching, and overlapping edges are rejected.
    /// Coordinates are never reordered, auto-closed, or repaired.
    pub fn new(points: Vec<Point2>) -> (result: Result<LinearRing, SpatialIoError>)
        ensures
            result is Ok <==> ring_rejection(point_values(points@)) is None,
            match result {
                Ok(ring) => ring.positions() == points@ && ring.winding_view() == winding_spec(
                    point_values(points@),
                ),
                Err(SpatialIoError::InvalidGeometry(m)) => ring_rejection(point_values(points@))
                    == Some(m@),
                Err(_) => false,
            },
    {
        let ghost pv = point_values(points@);
        if points.len() < 4 {
            return Err(invalid("a linear ring requires at least four positions"));
        }
        let last = points.len() - 1;
        if points[0] != points[last] {
            return Err(invalid("a linear ring must be explicitly closed"));
        }
        assert(pv[0] == pv[pv.len() - 1]);
        let mut i: usize = 0;
        while i < last
            invariant
                pv == point_values(points@),
                last == points.len() - 1,
                points.len() >= 4,
                pv[0] == pv[pv.len() - 1],
                i <= last,
                forall|k: int| 0 <= k < i ==> pv[k] != #[trigger] pv[k + 1],
            decreases last - i,
        {
            if points[i] == points[i + 1] {
                assert(pv[i as int] == pv[i + 1]);
                return Err(invalid("a linear ring cannot contain a zero-length edge"));
            }
            i = i + 1;
        }
        assert(!exists|k: int| 0 <= k < pv.len() - 1 && #[trigger] pv[k] == pv[k + 1]);
        let exact = exact_ring(&points);
        if !validate_simple_boundary(&exact) {
            return Err(
                invalid(
                    "a linear ring boundary must be simple and may meet only at adjacent endpoints",
                ),
            );
        }
        let turn = winding_sign(&exact);
        let winding = if turn > 0 {
            RingWinding::CounterClockwise
        } else if turn < 0 {
            RingWinding::Clockwise
        } else {
            return Err(invalid("a linear ring must enclose non-zero area"));
        };
        Ok(LinearRing { points, winding })
    }

    /// Validates positions and checks that a declared winding matches them.
    pub fn try_from_parts(points: Vec<Point2>, winding: RingWinding) -> (result: Result<
        LinearRing,
        SpatialIoError,
    >)
        ensures
            result is Ok <==> ring_rejection(point_values(points@)) is None && winding
                == winding_spec(point_values(points@)),
            match result {
                Ok(ring) => ring.positions() == points@ && ring.winding_view() == winding,
                Err(SpatialIoError::InvalidGeometry(m)) => match ring_rejection(
                    point_values(points@),
                ) {
                    Some(reason) => m@ == reason,
                    None => m@ == "serialized linear ring winding does not match its coordinates"@,
                },
                Err(_) => false,
            },
    {
        let ring = LinearRing::new(points)?;
        if ring.winding != winding {
            return Err(invalid("serialized linear ring winding does not match its coordinates"));
        }
        Ok(ring)
    }

    /// Returns the exact, explicitly closed positions in caller order.
    pub fn points(&self) -> (points: &[Point2])
        ensures
            points@ == self.positions(),
            points@.len() >= 4,
            ring_rejection(self.values()) is None,
    {
        proof {
            use_type_invariant(self);
        }
        self.points.as_slice()
    }

    /// Returns winding in the numeric coordinate space as stored.
    pub fn winding(&self) -> (winding: RingWinding)
        ensures
            winding == self.winding_view(),
            winding == winding_spec(self.values()),
            ring_rejection(self.values()) is None,
    {
        proof {
            use_type_invariant(self);
        }
        self.winding
    }
}


/// Location of an exact point with respect to a closed ring.
fn exact_point_in_ring(point: &ExactPoint, ring: &Vec<ExactPoint>) -> (location: PointLocation)
    ensures
        location == point_location(exact_values(ring@), point@),
{
    let ghost rv = exact_values(ring@);
    let mut inside = false;
    let mut i: usize = 0;
    while i + 1 < ring.len()
        invariant
            rv == exact_values(ring@),
            i == 0 || i < ring.len(),
            location_from(rv, point@, i as int, inside) == point_location(rv, point@),
        decreases ring.len() - i,
    {
        let a = &ring[i];
        let b = &ring[i + 1];
        let turn = exact_orientation(a, b, point);
        if turn == 0 && on_segment(a, b, point) {
            return PointLocation::Boundary;
        }
        let a_above = big_lt(&point.y, &a.y);
        let b_above = big_lt(&point.y, &b.y);
        if a_above != b_above && (turn > 0) == big_lt(&a.y, &b.y) {
            inside = !inside;
        }
        i = i + 1;
    }
    if inside {
        PointLocation::Inside
    } else {
        PointLocation::Outside
    }
}

/// Exact coordinates of each ring.
pub open spec fn rings_values(rings: Seq<LinearRing>) -> Seq<Seq<(int, int)>> {
    rings.map_values(|ring: LinearRing| ring.values())
}

/// A hole lies strictly inside its shell: no boundary contact and its first
/// vertex inside.
pub open spec fn interior_inside(exterior: Seq<(int, int)>, interior: Seq<(int, int)>) -> bool {
    rings_relation_spec(exterior, interior) == SegmentRelation::Disjoint && point_location(
        exterior,
        interior[0],
    ) == PointLocation::Inside
}

/// Two holes neither meet nor nest.
pub open spec fn interiors_separate(first: Seq<(int, int)>, second: Seq<(int, int)>) -> bool {
    &&& rings_relation_spec(first, second) == SegmentRelation::Disjoint
    &&& point_location(second, first[0]) != PointLocation::Inside
    &&& point_location(first, second[0]) != PointLocation::Inside
}

/// Why an exterior and interiors do not form a valid polygon, if they do not.
pub open spec fn polygon_rejection(
    exterior: Seq<(int, int)>,
    interiors: Seq<Seq<(int, int)>>,
) -> Option<Seq<char>> {
    if exists|k: int| 0 <= k < interiors.len() && !interior_inside(exterior, #[trigger] interiors[k]) {
        Some("a polygon interior must lie strictly inside its exterior"@)
    } else if exists|f: int, s: int|
        0 <= f < s < interiors.len() && !interiors_separate(
            #[trigger] interiors[f],
            #[trigger] interiors[s],
        ) {
        Some("polygon interiors must be pairwise disjoint and non-nested"@)
    } else {
        None
    }
}

/// Exact coordinates of each ring.
fn exact_rings(rings: &Vec<LinearRing>) -> (result: Vec<Vec<ExactPoint>>)
    ensures
        result@.len() == rings@.len(),
        forall|k: int|
            0 <= k < rings@.len() ==> #[trigger] exact_values(result@[k]@) == rings@[k].values(),
        forall|k: int| 0 <= k < rings@.len() ==> #[trigger] result@[k]@.len() >= 4,
{
    let mut result: Vec<Vec<ExactPoint>> = Vec::new();
    let mut k: usize = 0;
    while k < rings.len()
        invariant
            k <= rings.len(),
            result@.len() == k,
            forall|j: int| 0 <= j < k ==> #[trigger] exact_values(result@[j]@) == rings@[j].values(),
            forall|j: int| 0 <= j < k ==> #[trigger] result@[j]@.len() >= 4,
        decreases rings.len() - k,
    {
        let ring = &rings[k];
        proof {
            use_type_invariant(ring);
        }
        let exact = exact_ring(&ring.points);
        assert(exact_values(exact@).len() == exact@.len());
        result.push(exact);
        k = k + 1;
    }
    result
}

/// Two holes neither meet nor nest.
fn holes_separate(first: &Vec<ExactPoint>, second: &Vec<ExactPoint>) -> (separate: bool)
    requires
        first@.len() >= 1,
        second@.len() >= 1,
    ensures
        separate == interiors_separate(exact_values(first@), exact_values(second@)),
{
    assert(exact_values(first@)[0] == first@[0]@);
    assert(exact_values(second@)[0] == second@[0]@);
    rings_relation(first, second) == SegmentRelation::Disjoint && exact_point_in_ring(
        &first[0],
        second,
    ) != PointLocation::Inside && exact_point_in_ring(&second[0], first) != PointLocation::Inside
}

/// One polygon with an explicit exterior ring and explicit interior holes.
#[derive(Debug)]
pub struct Polygon {
    exterior: LinearRing,
    interiors: Vec<LinearRing>,
}

/// Two ring lists hold the same positions ring by ring.
pub open spec fn same_ring_positions(a: Seq<LinearRing>, b: Seq<LinearRing>) -> bool {
    &&& a.len() == b.len()
    &&& forall|k: int| 0 <= k < a.len() ==> (#[trigger] a[k]).positions() == b[k].positions()
}

impl Clone for Polygon {
    fn clone(&self) -> (result: Self)
        ensures
            result.shell().positions() == self.shell().positions(),
            same_ring_positions(result.holes(), self.holes()),
            result.ring_values() == self.ring_values(),
    {
        proof {
            use_type_invariant(self);
        }
        let exterior = self.exterior.clone();
        let mut interiors: Vec<LinearRing> = Vec::new();
        let mut i: usize = 0;
        while i < self.interiors.len()
            invariant
                i <= self.interiors@.len(),
                interiors@.len() == i,
                forall|k: int| 0 <= k < i ==> (#[trigger] interiors@[k]).positions() == self.interiors@[k].positions(),
            decreases self.interiors.len() - i,
        {
            interiors.push(self.interiors[i].clone());
            i = i + 1;
        }
        assert(rings_values(interiors@) =~= rings_values(self.interiors@));
        Polygon { exterior, interiors }
    }
}

impl PartialEq for Polygon {
    fn eq(&self, other: &Polygon) -> (equal: bool) {
        if self.exterior != other.exterior {
            assert(self.ring_values()[0] != other.ring_values()[0]);
            return false;
        }
        let a = &self.interiors;
        let b = &other.interiors;
        if a.len() != b.len() {
            assert(self.ring_values().len() != other.ring_values().len());
            return false;
        }
        let mut i: usize = 0;
        while i < a.len()
            invariant
                *a == self.interiors,
                *b == other.interiors,
                a@.len() == b@.len(),
                i <= a@.len(),
                forall|k: int| 0 <= k < i ==> (#[trigger] a@[k]).values() == b@[k].values(),
            decreases a.len() - i,
        {
            if a[i] != b[i] {
                assert(self.ring_values()[i + 1] != other.ring_values()[i + 1]);
                return false;
            }
            i = i + 1;
        }
        assert(rings_values(a@) =~= rings_values(b@));
        assert(self.ring_values() =~= other.ring_values());
        true
    }
}

impl vstd::std_specs::cmp::PartialEqSpecImpl for Polygon {
    open spec fn obeys_eq_spec() -> bool {
        true
    }

    open spec fn eq_spec(&self, other: &Polygon) -> bool {
        self.ring_values() == other.ring_values()
    }
}

impl Polygon {
    #[verifier::type_invariant]
    spec fn valid_polygon(self) -> bool {
        polygon_rejection(self.exterior.values(), rings_values(self.interiors@)) is None
    }

    /// The exterior shell.
    pub closed spec fn shell(self) -> LinearRing {
        self.exterior
    }

    /// The interior holes in caller order.
    pub closed spec fn holes(self) -> Seq<LinearRing> {
        self.interiors@
    }

    /// Exact coordinates of every ring, exterior first.
    pub open spec fn ring_values(self) -> Seq<Seq<(int, int)>> {
        seq![self.shell().values()] + rings_values(self.holes())
    }

    /// Creates a polygon without inferring ring roles from winding.
    ///
    /// Every interior must be strictly inside the exterior. Interior
    /// boundaries may not touch or cross the exterior or each other, and
    /// interiors may not overlap or nest.
    pub fn new(exterior: LinearRing, interiors: Vec<LinearRing>) -> (result: Result<
        Polygon,
        SpatialIoError,
    >)
        ensures
            result is Ok <==> polygon_rejection(exterior.values(), rings_values(interiors@)) is None,
            match result {
                Ok(polygon) => polygon.shell() == exterior && polygon.holes() == interiors@,
                Err(SpatialIoError::InvalidGeometry(m)) => polygon_rejection(
                    exterior.values(),
                    rings_values(interiors@),
                ) == Some(m@),
                Err(_) => false,
            },
            result is Ok ==> holes_lie_apart(exterior.values(), rings_values(interiors@)),
    {
        proof {
            if polygon_rejection(exterior.values(), rings_values(interiors@)) is None {
                valid_polygon_holes_lie_apart(exterior.values(), rings_values(interiors@));
            }
        }
        let ghost ev = exterior.values();
        let ghost iv = rings_values(interiors@);
        let outer = exact_ring(&exterior.points);
        let holes = exact_rings(&interiors);
        let mut k: usize = 0;
        while k < holes.len()
            invariant
                ev == exterior.values(),
                iv == rings_values(interiors@),
                exact_values(outer@) == ev,
                holes@.len() == interiors@.len(),
                forall|j: int|
                    0 <= j < interiors@.len() ==> #[trigger] exact_values(holes@[j]@) == iv[j],
                forall|j: int| 0 <= j < interiors@.len() ==> #[trigger] holes@[j]@.len() >= 4,
                k <= holes.len(),
                forall|j: int| 0 <= j < k ==> interior_inside(ev, #[trigger] iv[j]),
            decreases holes.len() - k,
        {
            let hole = &holes[k];
            assert(exact_values(hole@)[0] == hole@[0]@);
            if rings_relation(&outer, hole) != SegmentRelation::Disjoint || exact_point_in_ring(
                &hole[0],
                &outer,
            ) != PointLocation::Inside {
                assert(!interior_inside(ev, iv[k as int]));
                return Err(invalid("a polygon interior must lie strictly inside its exterior"));
            }
            k = k + 1;
        }
        assert(!exists|j: int| 0 <= j < iv.len() && !interior_inside(ev, #[trigger] iv[j]));
        let mut first: usize = 0;
        while first < holes.len()
            invariant
                ev == exterior.values(),
                iv == rings_values(interiors@),
                holes@.len() == interiors@.len(),
                forall|j: int|
                    0 <= j < interiors@.len() ==> #[trigger] exact_values(holes@[j]@) == iv[j],
                forall|j: int| 0 <= j < interiors@.len() ==> #[trigger] holes@[j]@.len() >= 4,
                first <= holes.len(),
                forall|j: int| 0 <= j < iv.len() ==> interior_inside(ev, #[trigger] iv[j]),
                forall|f: int, s: int|
                    0 <= f < first && f < s < iv.len() ==> interiors_separate(
                        #[trigger] iv[f],
                        #[trigger] iv[s],
                    ),
            decreases holes.len() - first,
        {
            let mut second: usize = first + 1;
            while second < holes.len()
                invariant
                    ev == exterior.values(),
                    iv == rings_values(interiors@),
                    holes@.len() == interiors@.len(),
                    forall|j: int|
                        0 <= j < interiors@.len() ==> #[trigger] exact_values(holes@[j]@) == iv[j],
                    forall|j: int| 0 <= j < interiors@.len() ==> #[trigger] holes@[j]@.len() >= 4,
                    first < holes.len(),
                    first < second <= holes.len(),
                    forall|j: int| 0 <= j < iv.len() ==> interior_inside(ev, #[trigger] iv[j]),
                    forall|f: int, s: int|
                        0 <= f < first && f < s < iv.len() ==> interiors_separate(
                            #[trigger] iv[f],
                            #[trigger] iv[s],
                        ),
                    forall|s: int|
                        first < s < second ==> interiors_separate(iv[first as int], #[trigger] iv[s]),
                decreases holes.len() - second,
            {
                if !holes_separate(&holes[first], &holes[second]) {
                    assert(!interiors_separate(iv[first as int], iv[second as int]));
                    return Err(invalid("polygon interiors must be pairwise disjoint and non-nested"));
                }
                second = second + 1;
            }
            first = first + 1;
        }
        Ok(Polygon { exterior, interiors })
    }

    /// Returns the explicitly assigned exterior shell.
    pub fn exterior(&self) -> (exterior: &LinearRing)
        ensures
            *exterior == self.shell(),
    {
        &self.exterior
    }

    /// Returns the explicitly assigned interior holes in caller order.
    pub fn interiors(&self) -> (interiors: &[LinearRing])
        ensures
            interiors@ == self.holes(),
            polygon_rejection(self.shell().values(), rings_values(interiors@)) is None,
    {
        proof {
            use_type_invariant(self);
        }
        self.interiors.as_slice()
    }
}


// ---------------------------------------------------------------------------
// Multipart polygons
// ---------------------------------------------------------------------------

/// Strongest relation between `ring` and the rings `j..` of `rings`.
pub open spec fn ring_rings_relation(
    ring: Seq<(int, int)>,
    rings: Seq<Seq<(int, int)>>,
    j: int,
) -> SegmentRelation
    decreases rings.len() - j,
{
    if j < 0 || j >= rings.len() {
        SegmentRelation::Disjoint
    } else {
        stronger_spec(rings_relation_spec(ring, rings[j]), ring_rings_relation(ring, rings, j + 1))
    }
}

/// Strongest relation between the rings `i..` of `first` and every ring of `second`.
pub open spec fn polygons_relation_from(
    first: Seq<Seq<(int, int)>>,
    second: Seq<Seq<(int, int)>>,
    i: int,
) -> SegmentRelation
    decreases first.len() - i,
{
    if i < 0 || i >= first.len() {
        SegmentRelation::Disjoint
    } else {
        stronger_spec(
            ring_rings_relation(first[i], second, 0),
            polygons_relation_from(first, second, i + 1),
        )
    }
}

/// Strongest relation between any boundary ring of two polygons.
pub open spec fn polygons_boundary_relation_spec(
    first: Seq<Seq<(int, int)>>,
    second: Seq<Seq<(int, int)>>,
) -> SegmentRelation {
    polygons_relation_from(first, second, 0)
}

/// Location of `point` with respect to the holes `k..` of a polygon whose
/// exterior contains it.
pub open spec fn holes_location(rings: Seq<Seq<(int, int)>>, point: (int, int), k: int) -> PointLocation
    decreases rings.len() - k,
{
    if k < 0 || k >= rings.len() {
        PointLocation::Inside
    } else {
        match point_location(rings[k], point) {
            PointLocation::Inside => PointLocation::Outside,
            PointLocation::Boundary => PointLocation::Boundary,
            PointLocation::Outside => holes_location(rings, point, k + 1),
        }
    }
}

/// Location of `point` with respect to a polygon given as rings, exterior first.
pub open spec fn polygon_location(rings: Seq<Seq<(int, int)>>, point: (int, int)) -> PointLocation {
    match point_location(rings[0], point) {
        PointLocation::Outside => PointLocation::Outside,
        PointLocation::Boundary => PointLocation::Boundary,
        PointLocation::Inside => holes_location(rings, point, 1),
    }
}

/// `point` is an endpoint of `e0 e1` or a vertex of `container` on that edge.
pub open spec fn is_contact(
    e0: (int, int),
    e1: (int, int),
    container: Seq<Seq<(int, int)>>,
    point: (int, int),
) -> bool {
    ||| point == e0
    ||| point == e1
    ||| on_edge_spec(e0, e1, point) && exists|r: int, i: int|
        0 <= r < container.len() && 0 <= i < container[r].len() && #[trigger] container[r][i]
            == point
}

/// `first < second` are contacts with no contact strictly between them.
pub open spec fn adjacent_contacts(
    e0: (int, int),
    e1: (int, int),
    container: Seq<Seq<(int, int)>>,
    first: (int, int),
    second: (int, int),
) -> bool {
    &&& is_contact(e0, e1, container, first)
    &&& is_contact(e0, e1, container, second)
    &&& lex_lt(first, second)
    &&& !exists|c: (int, int)|
        #[trigger] is_contact(e0, e1, container, c) && lex_lt(first, c) && lex_lt(c, second)
}

/// Some open span of the edge `e0 e1` between adjacent contacts has its
/// midpoint strictly inside `container`.
pub open spec fn edge_has_inside_span(
    e0: (int, int),
    e1: (int, int),
    container: Seq<Seq<(int, int)>>,
) -> bool {
    exists|a: (int, int), b: (int, int)|
        #[trigger] adjacent_contacts(e0, e1, container, a, b) && polygon_location(
            container,
            midpoint_spec(a, b),
        ) == PointLocation::Inside
}

/// Some exterior edge of `candidate` has a span strictly inside `container`.
pub open spec fn exterior_has_point_inside_spec(
    candidate: Seq<Seq<(int, int)>>,
    container: Seq<Seq<(int, int)>>,
) -> bool {
    exists|i: int|
        0 <= i < candidate[0].len() - 1 && #[trigger] edge_has_inside_span(
            candidate[0][i],
            candidate[0][i + 1],
            container,
        )
}

/// Why two multipart components are not disjoint, if they are not.
pub open spec fn disjoint_failure(
    first: Seq<Seq<(int, int)>>,
    second: Seq<Seq<(int, int)>>,
) -> Option<Seq<char>> {
    let relation = polygons_boundary_relation_spec(first, second);
    if relation == SegmentRelation::Cross || relation == SegmentRelation::Overlap {
        Some("multipolygon components may not cross or share boundary segments"@)
    } else if exterior_has_point_inside_spec(first, second) || exterior_has_point_inside_spec(
        second,
        first,
    ) {
        Some("multipolygon component interiors must be disjoint"@)
    } else {
        None
    }
}

/// The failure of the first failing component pair at or after `(f, s)`,
/// pairs taken in lexicographic order.
pub open spec fn first_pair_failure(
    polygons: Seq<Seq<Seq<(int, int)>>>,
    f: int,
    s: int,
) -> Option<Seq<char>>
    decreases polygons.len() - f, polygons.len() - s,
{
    if f < 0 || f >= polygons.len() {
        None
    } else if s >= polygons.len() {
        first_pair_failure(polygons, f + 1, f + 2)
    } else if s <= f {
        first_pair_failure(polygons, f, f + 1)
    } else {
        match disjoint_failure(polygons[f], polygons[s]) {
            Some(reason) => Some(reason),
            None => first_pair_failure(polygons, f, s + 1),
        }
    }
}

/// Why polygons do not form a valid multipolygon, if they do not.
pub open spec fn multipolygon_rejection(polygons: Seq<Seq<Seq<(int, int)>>>) -> Option<Seq<char>> {
    if polygons.len() == 0 {
        Some("a multipolygon requires at least one polygon"@)
    } else {
        first_pair_failure(polygons, 0, 1)
    }
}

/// Exact coordinates of every ring of every polygon.
pub open spec fn polygons_values(polygons: Seq<Polygon>) -> Seq<Seq<Seq<(int, int)>>> {
    polygons.map_values(|p: Polygon| p.ring_values())
}

/// Exact coordinates of nested rings.
pub open spec fn nested_values(rings: Seq<Vec<ExactPoint>>) -> Seq<Seq<(int, int)>> {
    rings.map_values(|r: Vec<ExactPoint>| exact_values(r@))
}

/// Exact rings of a polygon, exterior first.
#[verifier::rlimit(40)]
fn polygon_exact(polygon: &Polygon) -> (rings: Vec<Vec<ExactPoint>>)
    ensures
        nested_values(rings@) == polygon.ring_values(),
        rings@.len() >= 1,
        forall|k: int| 0 <= k < rings@.len() ==> #[trigger] rings@[k]@.len() >= 4,
{
    proof {
        use_type_invariant(&polygon.exterior);
    }
    let outer = exact_ring(&polygon.exterior.points);
    assert(exact_values(outer@).len() == outer@.len());
    let mut rings: Vec<Vec<ExactPoint>> = Vec::new();
    rings.push(outer);
    let ghost iv = rings_values(polygon.interiors@);
    let mut k: usize = 0;
    while k < polygon.interiors.len()
        invariant
            iv == rings_values(polygon.interiors@),
            k <= polygon.interiors@.len(),
            rings@.len() == k + 1,
            exact_values(rings@[0]@) == polygon.exterior.values(),
            forall|j: int| 0 <= j < k ==> #[trigger] exact_values(rings@[j + 1]@) == iv[j],
            forall|j: int| 0 <= j < rings@.len() ==> #[trigger] rings@[j]@.len() >= 4,
        decreases polygon.interiors@.len() - k,
    {
        let ring = &polygon.interiors[k];
        proof {
            use_type_invariant(ring);
        }
        let exact = exact_ring(&ring.points);
        assert(exact_values(exact@).len() == exact@.len());
        rings.push(exact);
        k = k + 1;
    }
    proof {
        let nv = nested_values(rings@);
        let rv = polygon.ring_values();
        assert(nv.len() == rv.len());
        assert forall|j: int| 0 <= j < nv.len() implies nv[j] == rv[j] by {
            if j > 0 {
                assert(rv[j] == iv[j - 1]);
                assert(exact_values(rings@[(j - 1) + 1]@) == iv[j - 1]);
            }
        }
        assert(nv =~= rv);
    }
    rings
}

/// Strongest relation between any ring of `first` and any ring of `second`.
fn polygons_boundary_relation(
    first: &Vec<Vec<ExactPoint>>,
    second: &Vec<Vec<ExactPoint>>,
) -> (relation: SegmentRelation)
    ensures
        relation == polygons_boundary_relation_spec(nested_values(first@), nested_values(second@)),
{
    let ghost fv = nested_values(first@);
    let ghost sv = nested_values(second@);
    let mut aggregate = SegmentRelation::Disjoint;
    let mut i: usize = 0;
    while i < first.len()
        invariant
            fv == nested_values(first@),
            sv == nested_values(second@),
            i <= first.len(),
            stronger_spec(aggregate, polygons_relation_from(fv, sv, i as int))
                == polygons_relation_from(fv, sv, 0),
        decreases first.len() - i,
    {
        let mut ring_aggregate = SegmentRelation::Disjoint;
        let mut j: usize = 0;
        while j < second.len()
            invariant
                fv == nested_values(first@),
                sv == nested_values(second@),
                i < first.len(),
                j <= second.len(),
                stronger_spec(ring_aggregate, ring_rings_relation(fv[i as int], sv, j as int))
                    == ring_rings_relation(fv[i as int], sv, 0),
            decreases second.len() - j,
        {
            let relation = rings_relation(&first[i], &second[j]);
            proof {
                lemma_stronger_associative(
                    ring_aggregate,
                    relation,
                    ring_rings_relation(fv[i as int], sv, j + 1),
                );
            }
            ring_aggregate = stronger(ring_aggregate, relation);
            j = j + 1;
        }
        proof {
            lemma_stronger_associative(aggregate, ring_aggregate, polygons_relation_from(fv, sv, i + 1));
        }
        aggregate = stronger(aggregate, ring_aggregate);
        i = i + 1;
    }
    aggregate
}

/// Location of an exact point with respect to a polygon, exterior first.
fn exact_point_in_polygon(point: &ExactPoint, rings: &Vec<Vec<ExactPoint>>) -> (location:
    PointLocation)
    requires
        rings@.len() >= 1,
    ensures
        location == polygon_location(nested_values(rings@), point@),
{
    let ghost rv = nested_values(rings@);
    assert(rv[0] == exact_values(rings@[0]@));
    match exact_point_in_ring(point, &rings[0]) {
        PointLocation::Outside => PointLocation::Outside,
        PointLocation::Boundary => PointLocation::Boundary,
        PointLocation::Inside => {
            let mut k: usize = 1;
            while k < rings.len()
                invariant
                    rv == nested_values(rings@),
                    1 <= k <= rings.len(),
                    polygon_location(rv, point@) == holes_location(rv, point@, 1),
                    holes_location(rv, point@, k as int) == holes_location(rv, point@, 1),
                decreases rings.len() - k,
            {
                assert(rv[k as int] == exact_values(rings@[k as int]@));
                match exact_point_in_ring(point, &rings[k]) {
                    PointLocation::Inside => return PointLocation::Outside,
                    PointLocation::Boundary => return PointLocation::Boundary,
                    PointLocation::Outside => {},
                }
                k = k + 1;
            }
            PointLocation::Inside
        },
    }
}

/// `c` occurs in `list`.
pub open spec fn in_list(list: Seq<(int, int)>, c: (int, int)) -> bool {
    exists|k: int| 0 <= k < list.len() && #[trigger] list[k] == c
}

/// `first < second` occur in `list` with no element of `list` strictly between.
pub open spec fn list_adjacent(list: Seq<(int, int)>, first: (int, int), second: (int, int)) -> bool {
    &&& in_list(list, first)
    &&& in_list(list, second)
    &&& lex_lt(first, second)
    &&& !exists|k: int| 0 <= k < list.len() && lex_lt(first, #[trigger] list[k]) && lex_lt(list[k], second)
}

/// Contacts of the edge `e0 e1` with the vertices of `container`.
fn edge_contacts(e0: &ExactPoint, e1: &ExactPoint, container: &Vec<Vec<ExactPoint>>) -> (contacts:
    Vec<ExactPoint>)
    ensures
        forall|c: (int, int)|
            #[trigger] is_contact(e0@, e1@, nested_values(container@), c) == in_list(
                exact_values(contacts@),
                c,
            ),
{
    let ghost kv = nested_values(container@);
    let mut contacts: Vec<ExactPoint> = Vec::new();
    contacts.push(e0.copy());
    contacts.push(e1.copy());
    let mut r: usize = 0;
    while r < container.len()
        invariant
            kv == nested_values(container@),
            r <= container.len(),
            contacts@.len() >= 2,
            contacts@[0]@ == e0@,
            contacts@[1]@ == e1@,
            forall|k: int|
                0 <= k < contacts@.len() ==> is_contact(e0@, e1@, kv, #[trigger] contacts@[k]@),
            forall|r2: int, i2: int|
                0 <= r2 < r && 0 <= i2 < kv[r2].len() && on_edge_spec(e0@, e1@, #[trigger] kv[r2][i2])
                    ==> in_list(exact_values(contacts@), kv[r2][i2]),
        decreases container.len() - r,
    {
        let ring = &container[r];
        let mut i: usize = 0;
        while i < ring.len()
            invariant
                kv == nested_values(container@),
                r < container.len(),
                ring@ == container@[r as int]@,
                i <= ring.len(),
                contacts@.len() >= 2,
                contacts@[0]@ == e0@,
                contacts@[1]@ == e1@,
                forall|k: int|
                    0 <= k < contacts@.len() ==> is_contact(e0@, e1@, kv, #[trigger] contacts@[k]@),
                forall|r2: int, i2: int|
                    0 <= r2 < r && 0 <= i2 < kv[r2].len() && on_edge_spec(
                        e0@,
                        e1@,
                        #[trigger] kv[r2][i2],
                    ) ==> in_list(exact_values(contacts@), kv[r2][i2]),
                forall|i2: int|
                    0 <= i2 < i && on_edge_spec(e0@, e1@, #[trigger] kv[r as int][i2]) ==> in_list(
                        exact_values(contacts@),
                        kv[r as int][i2],
                    ),
            decreases ring.len() - i,
        {
            let point = &ring[i];
            assert(kv[r as int][i as int] == point@);
            if exact_orientation(e0, e1, point) == 0 && on_segment(e0, e1, point) {
                let ghost before = contacts@;
                contacts.push(point.copy());
                proof {
                    assert(is_contact(e0@, e1@, kv, point@));
                    assert(exact_values(contacts@)[contacts@.len() - 1] == point@);
                    assert forall|c: (int, int)| in_list(exact_values(before), c) implies in_list(
                        exact_values(contacts@),
                        c,
                    ) by {
                        let k = choose|k: int|
                            0 <= k < exact_values(before).len() && #[trigger] exact_values(
                                before,
                            )[k] == c;
                        assert(exact_values(contacts@)[k] == c);
                    }
                }
            }
            i = i + 1;
        }
        r = r + 1;
    }
    proof {
        let lv = exact_values(contacts@);
        assert forall|c: (int, int)| #[trigger] is_contact(e0@, e1@, kv, c) == in_list(lv, c) by {
            if in_list(lv, c) {
                let k = choose|k: int| 0 <= k < lv.len() && #[trigger] lv[k] == c;
                assert(is_contact(e0@, e1@, kv, contacts@[k]@));
            }
            if is_contact(e0@, e1@, kv, c) {
                if c == e0@ {
                    assert(lv[0] == c);
                } else if c == e1@ {
                    assert(lv[1] == c);
                } else {
                    let (r2, i2) = choose|r2: int, i2: int|
                        0 <= r2 < kv.len() && 0 <= i2 < kv[r2].len() && #[trigger] kv[r2][i2] == c;
                    assert(in_list(lv, kv[r2][i2]));
                }
            }
        }
    }
    contacts
}

/// Some pair of adjacent listed contacts has its midpoint inside `container`.
fn span_inside(contacts: &Vec<ExactPoint>, container: &Vec<Vec<ExactPoint>>) -> (found: bool)
    requires
        container@.len() >= 1,
    ensures
        found == exists|a: (int, int), b: (int, int)|
            #[trigger] list_adjacent(exact_values(contacts@), a, b) && polygon_location(
                nested_values(container@),
                midpoint_spec(a, b),
            ) == PointLocation::Inside,
{
    let ghost lv = exact_values(contacts@);
    let ghost kv = nested_values(container@);
    let n = contacts.len();
    let mut ia: usize = 0;
    while ia < n
        invariant
            lv == exact_values(contacts@),
            kv == nested_values(container@),
            container@.len() >= 1,
            n == contacts@.len(),
            ia <= n,
            forall|x: int, y: int|
                0 <= x < ia && 0 <= y < n ==> !(list_adjacent(lv, #[trigger] lv[x], #[trigger] lv[y])
                    && polygon_location(kv, midpoint_spec(lv[x], lv[y])) == PointLocation::Inside),
        decreases n - ia,
    {
        let mut ib: usize = 0;
        while ib < n
            invariant
                lv == exact_values(contacts@),
                kv == nested_values(container@),
                container@.len() >= 1,
                n == contacts@.len(),
                ia < n,
                ib <= n,
                forall|x: int, y: int|
                    0 <= x < ia && 0 <= y < n ==> !(list_adjacent(
                        lv,
                        #[trigger] lv[x],
                        #[trigger] lv[y],
                    ) && polygon_location(kv, midpoint_spec(lv[x], lv[y])) == PointLocation::Inside),
                forall|y: int|
                    0 <= y < ib ==> !(list_adjacent(lv, lv[ia as int], #[trigger] lv[y])
                        && polygon_location(kv, midpoint_spec(lv[ia as int], lv[y]))
                        == PointLocation::Inside),
            decreases n - ib,
        {
            let a = &contacts[ia];
            let b = &contacts[ib];
            assert(lv[ia as int] == a@ && lv[ib as int] == b@);
            assert(in_list(lv, a@));
            assert(in_list(lv, b@));
            if lex_less(a, b) {
                let mut between = false;
                let mut ic: usize = 0;
                while ic < n
                    invariant
                        lv == exact_values(contacts@),
                        n == contacts@.len(),
                        ic <= n,
                        lv[ia as int] == a@,
                        lv[ib as int] == b@,
                        between == exists|k: int|
                            0 <= k < ic && lex_lt(a@, #[trigger] lv[k]) && lex_lt(lv[k], b@),
                    decreases n - ic,
                {
                    let c = &contacts[ic];
                    assert(lv[ic as int] == c@);
                    if lex_less(a, c) && lex_less(c, b) {
                        between = true;
                    }
                    ic = ic + 1;
                }
                if !between {
                    let middle = ExactPoint::midpoint_of(a, b);
                    if exact_point_in_polygon(&middle, container) == PointLocation::Inside {
                        assert(list_adjacent(lv, a@, b@));
                        return true;
                    }
                }
            }
            ib = ib + 1;
        }
        ia = ia + 1;
    }
    proof {
        assert forall|a: (int, int), b: (int, int)|
            #[trigger] list_adjacent(lv, a, b) implies polygon_location(kv, midpoint_spec(a, b))
            != PointLocation::Inside by {
            let x = choose|k: int| 0 <= k < lv.len() && #[trigger] lv[k] == a;
            let y = choose|k: int| 0 <= k < lv.len() && #[trigger] lv[k] == b;
            assert(lv[x] == a && lv[y] == b);
        }
    }
    false
}

/// Contacts and listed points coincide, so adjacency coincides.
proof fn lemma_adjacent_contacts(
    e0: (int, int),
    e1: (int, int),
    container: Seq<Seq<(int, int)>>,
    list: Seq<(int, int)>,
)
    requires
        forall|c: (int, int)| #[trigger] is_contact(e0, e1, container, c) == in_list(list, c),
    ensures
        edge_has_inside_span(e0, e1, container) == exists|a: (int, int), b: (int, int)|
            #[trigger] list_adjacent(list, a, b) && polygon_location(container, midpoint_spec(a, b))
                == PointLocation::Inside,
{
    assert forall|a: (int, int), b: (int, int)|
        #[trigger] adjacent_contacts(e0, e1, container, a, b) == list_adjacent(list, a, b) by {
        if adjacent_contacts(e0, e1, container, a, b) && !list_adjacent(list, a, b) {
            let k = choose|k: int|
                0 <= k < list.len() && lex_lt(a, #[trigger] list[k]) && lex_lt(list[k], b);
            assert(in_list(list, list[k]));
            assert(is_contact(e0, e1, container, list[k]));
        }
        if list_adjacent(list, a, b) && !adjacent_contacts(e0, e1, container, a, b) {
            let c = choose|c: (int, int)|
                #[trigger] is_contact(e0, e1, container, c) && lex_lt(a, c) && lex_lt(c, b);
            assert(in_list(list, c));
            let k = choose|k: int| 0 <= k < list.len() && #[trigger] list[k] == c;
            assert(lex_lt(a, list[k]) && lex_lt(list[k], b));
        }
    }
    if edge_has_inside_span(e0, e1, container) {
        let (a, b) = choose|a: (int, int), b: (int, int)|
            #[trigger] adjacent_contacts(e0, e1, container, a, b) && polygon_location(
                container,
                midpoint_spec(a, b),
            ) == PointLocation::Inside;
        assert(list_adjacent(list, a, b));
    }
    if exists|a: (int, int), b: (int, int)|
        #[trigger] list_adjacent(list, a, b) && polygon_location(container, midpoint_spec(a, b))
            == PointLocation::Inside {
        let (a, b) = choose|a: (int, int), b: (int, int)|
            #[trigger] list_adjacent(list, a, b) && polygon_location(container, midpoint_spec(a, b))
                == PointLocation::Inside;
        assert(adjacent_contacts(e0, e1, container, a, b));
    }
}

/// Some exterior edge of `candidate` has a span strictly inside `container`.
fn exterior_has_point_inside(
    candidate: &Vec<Vec<ExactPoint>>,
    container: &Vec<Vec<ExactPoint>>,
) -> (inside: bool)
    requires
        candidate@.len() >= 1,
        container@.len() >= 1,
    ensures
        inside == exterior_has_point_inside_spec(nested_values(candidate@), nested_values(container@)),
{
    let ghost cv = nested_values(candidate@);
    let ghost kv = nested_values(container@);
    let exterior = &candidate[0];
    let ghost ev = exact_values(exterior@);
    assert(ev == cv[0]);
    let mut i: usize = 0;
    while i + 1 < exterior.len()
        invariant
            cv == nested_values(candidate@),
            kv == nested_values(container@),
            container@.len() >= 1,
            ev == exact_values(exterior@),
            ev == cv[0],
            i == 0 || i < exterior.len(),
            forall|j: int| 0 <= j < i ==> !#[trigger] edge_has_inside_span(ev[j], ev[j + 1], kv),
        decreases exterior.len() - i,
    {
        let e0 = &exterior[i];
        let e1 = &exterior[i + 1];
        assert(ev[i as int] == e0@ && ev[i + 1] == e1@);
        let contacts = edge_contacts(e0, e1, container);
        proof {
            lemma_adjacent_contacts(e0@, e1@, kv, exact_values(contacts@));
        }
        if span_inside(&contacts, container) {
            assert(edge_has_inside_span(ev[i as int], ev[i + 1], kv));
            return true;
        }
        i = i + 1;
    }
    false
}

/// Why two components are not disjoint, if they are not.
fn validate_disjoint_polygons(first: &Vec<Vec<ExactPoint>>, second: &Vec<Vec<ExactPoint>>) -> (result:
    Result<(), SpatialIoError>)
    requires
        first@.len() >= 1,
        second@.len() >= 1,
    ensures
        match result {
            Ok(()) => disjoint_failure(nested_values(first@), nested_values(second@)) is None,
            Err(SpatialIoError::InvalidGeometry(m)) => disjoint_failure(
                nested_values(first@),
                nested_values(second@),
            ) == Some(m@),
            Err(_) => false,
        },
{
    match polygons_boundary_relation(first, second) {
        SegmentRelation::Cross | SegmentRelation::Overlap => {
            return Err(invalid("multipolygon components may not cross or share boundary segments"));
        },
        SegmentRelation::Disjoint | SegmentRelation::Touch => {},
    }
    if exterior_has_point_inside(first, second) || exterior_has_point_inside(second, first) {
        return Err(invalid("multipolygon component interiors must be disjoint"));
    }
    Ok(())
}

/// A non-empty collection of polygons with disjoint interiors.
#[derive(Debug)]
pub struct MultiPolygon {
    polygons: Vec<Polygon>,
}

impl Clone for MultiPolygon {
    fn clone(&self) -> (result: Self)
        ensures
            result.components().len() == self.components().len(),
            forall|k: int|
                0 <= k < self.components().len() ==> (#[trigger] result.components()[k]).shell().positions()
                    == self.components()[k].shell().positions() && same_ring_positions(
                    result.components()[k].holes(),
                    self.components()[k].holes(),
                ),
            polygons_values(result.components()) == polygons_values(self.components()),
    {
        proof {
            use_type_invariant(self);
        }
        let mut polygons: Vec<Polygon> = Vec::new();
        let mut i: usize = 0;
        while i < self.polygons.len()
            invariant
                i <= self.polygons@.len(),
                polygons@.len() == i,
                forall|k: int|
                    0 <= k < i ==> (#[trigger] polygons@[k]).shell().positions()
                        == self.polygons@[k].shell().positions() && same_ring_positions(
                        polygons@[k].holes(),
                        self.polygons@[k].holes(),
                    ) && polygons@[k].ring_values() == self.polygons@[k].ring_values(),
            decreases self.polygons.len() - i,
        {
            polygons.push(self.polygons[i].clone());
            i = i + 1;
        }
        assert(polygons_values(polygons@) =~= polygons_values(self.polygons@));
        MultiPolygon { polygons }
    }
}

impl PartialEq for MultiPolygon {
    fn eq(&self, other: &MultiPolygon) -> (equal: bool) {
        let a = &self.polygons;
        let b = &other.polygons;
        if a.len() != b.len() {
            assert(polygons_values(a@).len() != polygons_values(b@).len());
            return false;
        }
        let mut i: usize = 0;
        while i < a.len()
            invariant
                *a == self.polygons,
                *b == other.polygons,
                a@.len() == b@.len(),
                i <= a@.len(),
                forall|k: int| 0 <= k < i ==> (#[trigger] a@[k]).ring_values() == b@[k].ring_values(),
            decreases a.len() - i,
        {
            if a[i] != b[i] {
                assert(polygons_values(self.components())[i as int] != polygons_values(other.components())[i as int]);
                return false;
            }
            i = i + 1;
        }
        assert(polygons_values(a@) =~= polygons_values(b@));
        true
    }
}

impl vstd::std_specs::cmp::PartialEqSpecImpl for MultiPolygon {
    open spec fn obeys_eq_spec() -> bool {
        true
    }

    open spec fn eq_spec(&self, other: &MultiPolygon) -> bool {
        polygons_values(self.components()) == polygons_values(other.components())
    }
}

impl MultiPolygon {
    #[verifier::type_invariant]
    spec fn valid_multipolygon(self) -> bool {
        multipolygon_rejection(polygons_values(self.polygons@)) is None
    }

    /// The components in caller order.
    pub closed spec fn components(self) -> Seq<Polygon> {
        self.polygons@
    }

    /// Creates a multipart polygon while preserving caller order.
    ///
    /// Component interiors must be disjoint. Isolated boundary-point contact
    /// is accepted, while boundary crossing, shared boundary segments,
    /// overlap, and containment are rejected.
    pub fn new(polygons: Vec<Polygon>) -> (result: Result<MultiPolygon, SpatialIoError>)
        ensures
            result is Ok <==> multipolygon_rejection(polygons_values(polygons@)) is None,
            match result {
                Ok(multi) => multi.components() == polygons@,
                Err(SpatialIoError::InvalidGeometry(m)) => multipolygon_rejection(
                    polygons_values(polygons@),
                ) == Some(m@),
                Err(_) => false,
            },
            result is Ok ==> components_pairwise_clear(polygons_values(polygons@)),
    {
        proof {
            if multipolygon_rejection(polygons_values(polygons@)) is None {
                valid_multipolygon_components_are_pairwise_clear(polygons_values(polygons@));
            }
        }
        let ghost pv = polygons_values(polygons@);
        if polygons.len() == 0 {
            return Err(invalid("a multipolygon requires at least one polygon"));
        }
        let mut exact: Vec<Vec<Vec<ExactPoint>>> = Vec::new();
        let mut k: usize = 0;
        while k < polygons.len()
            invariant
                k <= polygons.len(),
                exact@.len() == k,
                forall|j: int|
                    0 <= j < k ==> #[trigger] nested_values(exact@[j]@) == polygons@[j].ring_values(),
                forall|j: int| 0 <= j < k ==> #[trigger] exact@[j]@.len() >= 1,
            decreases polygons.len() - k,
        {
            exact.push(polygon_exact(&polygons[k]));
            k = k + 1;
        }
        let n = exact.len();
        let mut f: usize = 0;
        while f < n
            invariant
                pv == polygons_values(polygons@),
                n == exact@.len(),
                n == pv.len(),
                forall|j: int| 0 <= j < n ==> #[trigger] nested_values(exact@[j]@) == pv[j],
                forall|j: int| 0 <= j < n ==> #[trigger] exact@[j]@.len() >= 1,
                f <= n,
                first_pair_failure(pv, f as int, f + 1) == first_pair_failure(pv, 0, 1),
            decreases n - f,
        {
            let mut s: usize = f + 1;
            while s < n
                invariant
                    pv == polygons_values(polygons@),
                    n == exact@.len(),
                    n == pv.len(),
                    forall|j: int| 0 <= j < n ==> #[trigger] nested_values(exact@[j]@) == pv[j],
                    forall|j: int| 0 <= j < n ==> #[trigger] exact@[j]@.len() >= 1,
                    f < n,
                    f < s <= n,
                    first_pair_failure(pv, f as int, s as int) == first_pair_failure(pv, 0, 1),
                decreases n - s,
            {
                validate_disjoint_polygons(&exact[f], &exact[s])?;
                s = s + 1;
            }
            f = f + 1;
        }
        Ok(MultiPolygon { polygons })
    }

    /// Returns component polygons in caller order.
    pub fn polygons(&self) -> (polygons: &[Polygon])
        ensures
            polygons@ == self.components(),
            polygons@.len() >= 1,
            multipolygon_rejection(polygons_values(polygons@)) is None,
    {
        proof {
            use_type_invariant(self);
        }
        self.polygons.as_slice()
    }
}

} // verus!
