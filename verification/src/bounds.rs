//! Exact axis-aligned bounds of geometry vertices.

use crate::binary64::{binary64_value, is_finite_bits, lemma_order_key, order_key};
use crate::model::Point2;
use crate::wkb::{nested_positions, parts_nonempty, ring_list_positions};
use vstd::prelude::*;

verus! {

/// `[xmin, ymin, xmax, ymax]` as binary64 encodings.
#[derive(Debug, Clone, Copy)]
pub struct Bounds {
    /// Least x.
    pub xmin: u64,
    /// Least y.
    pub ymin: u64,
    /// Greatest x.
    pub xmax: u64,
    /// Greatest y.
    pub ymax: u64,
}

/// `vertex` lies within `bounds`.
pub open spec fn within(bounds: Bounds, vertex: (int, int)) -> bool {
    &&& binary64_value(bounds.xmin) <= vertex.0 <= binary64_value(bounds.xmax)
    &&& binary64_value(bounds.ymin) <= vertex.1 <= binary64_value(bounds.ymax)
}

/// `bounds` are the exact least and greatest coordinates of the vertices
/// for which `has` holds: they contain every such vertex and each limit is
/// attained by one.
pub open spec fn bounds_of(bounds: Bounds, has: spec_fn((int, int)) -> bool) -> bool {
    &&& is_finite_bits(bounds.xmin) && is_finite_bits(bounds.ymin)
    &&& is_finite_bits(bounds.xmax) && is_finite_bits(bounds.ymax)
    &&& forall|v: (int, int)| #[trigger] has(v) ==> within(bounds, v)
    &&& exists|v: (int, int)| #[trigger] has(v) && v.0 == binary64_value(bounds.xmin)
    &&& exists|v: (int, int)| #[trigger] has(v) && v.1 == binary64_value(bounds.ymin)
    &&& exists|v: (int, int)| #[trigger] has(v) && v.0 == binary64_value(bounds.xmax)
    &&& exists|v: (int, int)| #[trigger] has(v) && v.1 == binary64_value(bounds.ymax)
}

/// Vertices in either set.
pub open spec fn union_set(
    first: spec_fn((int, int)) -> bool,
    second: spec_fn((int, int)) -> bool,
) -> spec_fn((int, int)) -> bool {
    |v: (int, int)| first(v) || second(v)
}

/// The single vertex `vertex`.
pub open spec fn singleton_set(vertex: (int, int)) -> spec_fn((int, int)) -> bool {
    |v: (int, int)| v == vertex
}

/// Vertices of the first `n` members of an indexed family of vertex sets.
pub open spec fn union_upto(
    family: spec_fn(int) -> spec_fn((int, int)) -> bool,
    n: int,
) -> spec_fn((int, int)) -> bool {
    |v: (int, int)| exists|i: int| 0 <= i < n && #[trigger] family(i)(v)
}

/// Each position as a vertex set of its own.
pub open spec fn point_family(points: Seq<Point2>) -> spec_fn(int) -> spec_fn((int, int)) -> bool {
    |i: int| singleton_set(points[i]@)
}

/// Vertices of a list of positions.
pub open spec fn points_vertices(points: Seq<Point2>) -> spec_fn((int, int)) -> bool {
    union_upto(point_family(points), points.len() as int)
}

/// Each ring as a vertex set of its own.
pub open spec fn ring_family(rings: Seq<Seq<Point2>>) -> spec_fn(int) -> spec_fn((int, int)) -> bool {
    |r: int| points_vertices(rings[r])
}

/// Vertices of a list of rings.
pub open spec fn rings_vertices(rings: Seq<Seq<Point2>>) -> spec_fn((int, int)) -> bool {
    union_upto(ring_family(rings), rings.len() as int)
}

/// Each part as a vertex set of its own.
pub open spec fn part_family(parts: Seq<Seq<Seq<Point2>>>) -> spec_fn(int) -> spec_fn((int, int)) -> bool {
    |k: int| rings_vertices(parts[k])
}

/// Vertices of a list of parts.
pub open spec fn parts_vertices(parts: Seq<Seq<Seq<Point2>>>) -> spec_fn((int, int)) -> bool {
    union_upto(part_family(parts), parts.len() as int)
}

/// Bounds are determined by the vertex set alone.
proof fn lemma_bounds_same_set(
    bounds: Bounds,
    first: spec_fn((int, int)) -> bool,
    second: spec_fn((int, int)) -> bool,
)
    requires
        bounds_of(bounds, first),
        forall|v: (int, int)| #![trigger first(v)] #![trigger second(v)] first(v) == second(v),
    ensures
        bounds_of(bounds, second),
{
    assert forall|v: (int, int)| #[trigger] second(v) implies within(bounds, v) by {
        assert(first(v));
    }
    let a = choose|v: (int, int)| #[trigger] first(v) && v.0 == binary64_value(bounds.xmin);
    let b = choose|v: (int, int)| #[trigger] first(v) && v.1 == binary64_value(bounds.ymin);
    let c = choose|v: (int, int)| #[trigger] first(v) && v.0 == binary64_value(bounds.xmax);
    let d = choose|v: (int, int)| #[trigger] first(v) && v.1 == binary64_value(bounds.ymax);
    assert(second(a) && second(b) && second(c) && second(d));
}

/// The lesser of two finite encodings by value.
fn lesser(a: u64, b: u64) -> (result: u64)
    requires
        is_finite_bits(a),
        is_finite_bits(b),
    ensures
        result == a || result == b,
        binary64_value(result) <= binary64_value(a),
        binary64_value(result) <= binary64_value(b),
{
    proof {
        lemma_order_key(a, b);
        lemma_order_key(b, a);
    }
    if order_key(b) < order_key(a) {
        b
    } else {
        a
    }
}

/// The greater of two finite encodings by value.
fn greater(a: u64, b: u64) -> (result: u64)
    requires
        is_finite_bits(a),
        is_finite_bits(b),
    ensures
        result == a || result == b,
        binary64_value(result) >= binary64_value(a),
        binary64_value(result) >= binary64_value(b),
{
    proof {
        lemma_order_key(a, b);
        lemma_order_key(b, a);
    }
    if order_key(a) < order_key(b) {
        b
    } else {
        a
    }
}

/// Bounds of the union of two vertex sets.
fn combine(
    a: Bounds,
    b: Bounds,
    Ghost(has_a): Ghost<spec_fn((int, int)) -> bool>,
    Ghost(has_b): Ghost<spec_fn((int, int)) -> bool>,
) -> (result: Bounds)
    requires
        bounds_of(a, has_a),
        bounds_of(b, has_b),
    ensures
        bounds_of(result, union_set(has_a, has_b)),
{
    let result = Bounds {
        xmin: lesser(a.xmin, b.xmin),
        ymin: lesser(a.ymin, b.ymin),
        xmax: greater(a.xmax, b.xmax),
        ymax: greater(a.ymax, b.ymax),
    };
    proof {
        let both = union_set(has_a, has_b);
        assert forall|v: (int, int)| #[trigger] both(v) implies within(result, v) by {
            if has_a(v) {
                assert(within(a, v));
            } else {
                assert(within(b, v));
            }
        }
        if result.xmin == a.xmin {
            let w = choose|v: (int, int)| #[trigger] has_a(v) && v.0 == binary64_value(a.xmin);
            assert(both(w));
        } else {
            let w = choose|v: (int, int)| #[trigger] has_b(v) && v.0 == binary64_value(b.xmin);
            assert(both(w));
        }
        if result.ymin == a.ymin {
            let w = choose|v: (int, int)| #[trigger] has_a(v) && v.1 == binary64_value(a.ymin);
            assert(both(w));
        } else {
            let w = choose|v: (int, int)| #[trigger] has_b(v) && v.1 == binary64_value(b.ymin);
            assert(both(w));
        }
        if result.xmax == a.xmax {
            let w = choose|v: (int, int)| #[trigger] has_a(v) && v.0 == binary64_value(a.xmax);
            assert(both(w));
        } else {
            let w = choose|v: (int, int)| #[trigger] has_b(v) && v.0 == binary64_value(b.xmax);
            assert(both(w));
        }
        if result.ymax == a.ymax {
            let w = choose|v: (int, int)| #[trigger] has_a(v) && v.1 == binary64_value(a.ymax);
            assert(both(w));
        } else {
            let w = choose|v: (int, int)| #[trigger] has_b(v) && v.1 == binary64_value(b.ymax);
            assert(both(w));
        }
    }
    result
}

/// Bounds of a single point.
fn point_bounds(point: Point2) -> (result: Bounds)
    ensures
        bounds_of(result, singleton_set(point@)),
{
    let x = point.x();
    let y = point.y();
    let result = Bounds { xmin: x, ymin: y, xmax: x, ymax: y };
    assert(singleton_set(point@)(point@));
    result
}

/// Folds the bounds of the members of a family into the bounds of their union.
pub fn fold_bounds(
    all: &Vec<Bounds>,
    Ghost(family): Ghost<spec_fn(int) -> spec_fn((int, int)) -> bool>,
) -> (result: Bounds)
    requires
        all@.len() >= 1,
        forall|i: int| 0 <= i < all@.len() ==> bounds_of(#[trigger] all@[i], family(i)),
    ensures
        bounds_of(result, union_upto(family, all@.len() as int)),
{
    let mut result = all[0];
    proof {
        assert forall|v: (int, int)| #[trigger] family(0)(v) == union_upto(family, 1)(v) by {
            if union_upto(family, 1)(v) {
                let k = choose|k: int| 0 <= k < 1 && #[trigger] family(k)(v);
                assert(k == 0);
            }
        }
        assert(bounds_of(all@[0], family(0)));
        lemma_bounds_same_set(result, family(0), union_upto(family, 1));
    }
    let mut i: usize = 1;
    while i < all.len()
        invariant
            1 <= i <= all@.len(),
            forall|j: int| 0 <= j < all@.len() ==> bounds_of(#[trigger] all@[j], family(j)),
            bounds_of(result, union_upto(family, i as int)),
        decreases all.len() - i,
    {
        let ghost prefix = union_upto(family, i as int);
        let ghost member = family(i as int);
        assert(bounds_of(all@[i as int], member));
        result = combine(result, all[i], Ghost(prefix), Ghost(member));
        proof {
            let longer = union_upto(family, i + 1);
            assert forall|v: (int, int)| #[trigger] union_set(prefix, member)(v) == longer(v) by {
                if prefix(v) {
                    let k = choose|k: int| 0 <= k < i && #[trigger] family(k)(v);
                    assert(0 <= k < i + 1 && family(k)(v));
                }
                if member(v) {
                    assert(family(i as int)(v));
                }
                if longer(v) {
                    let k = choose|k: int| 0 <= k < i + 1 && #[trigger] family(k)(v);
                    if k < i {
                        assert(prefix(v));
                    }
                }
            }
            lemma_bounds_same_set(result, union_set(prefix, member), longer);
        }
        i = i + 1;
    }
    result
}

/// Exact bounds of non-empty positions.
pub fn points_bounds(points: &Vec<Point2>) -> (result: Bounds)
    requires
        points@.len() >= 1,
    ensures
        bounds_of(result, points_vertices(points@)),
{
    let mut all: Vec<Bounds> = Vec::new();
    let mut i: usize = 0;
    while i < points.len()
        invariant
            i <= points@.len(),
            all@.len() == i,
            forall|j: int| 0 <= j < i ==> bounds_of(#[trigger] all@[j], point_family(points@)(j)),
        decreases points.len() - i,
    {
        all.push(point_bounds(points[i]));
        i = i + 1;
    }
    fold_bounds(&all, Ghost(point_family(points@)))
}

/// Exact bounds of non-empty rings.
pub fn rings_bounds(rings: &Vec<Vec<Point2>>) -> (result: Bounds)
    requires
        rings@.len() >= 1,
        forall|r: int| 0 <= r < rings@.len() ==> (#[trigger] rings@[r])@.len() >= 1,
    ensures
        bounds_of(result, rings_vertices(ring_list_positions(rings@))),
{
    let ghost positions = ring_list_positions(rings@);
    let mut all: Vec<Bounds> = Vec::new();
    let mut r: usize = 0;
    while r < rings.len()
        invariant
            positions == ring_list_positions(rings@),
            forall|j: int| 0 <= j < rings@.len() ==> (#[trigger] rings@[j])@.len() >= 1,
            r <= rings@.len(),
            all@.len() == r,
            forall|j: int| 0 <= j < r ==> bounds_of(#[trigger] all@[j], ring_family(positions)(j)),
        decreases rings.len() - r,
    {
        let next = points_bounds(&rings[r]);
        assert(positions[r as int] == rings@[r as int]@);
        all.push(next);
        r = r + 1;
    }
    fold_bounds(&all, Ghost(ring_family(positions)))
}

/// Exact bounds of the vertices of non-empty parts.
pub fn parts_bounds(parts: &Vec<Vec<Vec<Point2>>>) -> (result: Bounds)
    requires
        parts_nonempty(nested_positions(parts@)),
    ensures
        bounds_of(result, parts_vertices(nested_positions(parts@))),
{
    let ghost positions = nested_positions(parts@);
    let mut all: Vec<Bounds> = Vec::new();
    let mut k: usize = 0;
    while k < parts.len()
        invariant
            positions == nested_positions(parts@),
            parts_nonempty(positions),
            k <= parts@.len(),
            all@.len() == k,
            forall|j: int| 0 <= j < k ==> bounds_of(#[trigger] all@[j], part_family(positions)(j)),
        decreases parts.len() - k,
    {
        assert(positions[k as int] == ring_list_positions(parts@[k as int]@));
        assert forall|r: int| 0 <= r < parts@[k as int]@.len() implies (#[trigger] parts@[k as int]@[r])@.len() >= 1 by {
            assert(positions[k as int][r] == parts@[k as int]@[r]@);
        }
        let next = rings_bounds(&parts[k]);
        all.push(next);
        k = k + 1;
    }
    fold_bounds(&all, Ghost(part_family(positions)))
}

/// The exact bounds of a vertex set are unique: any two bounds of one set
/// denote the same four values.
pub proof fn bounds_are_unique(first: Bounds, second: Bounds, has: spec_fn((int, int)) -> bool)
    requires
        bounds_of(first, has),
        bounds_of(second, has),
    ensures
        binary64_value(first.xmin) == binary64_value(second.xmin),
        binary64_value(first.ymin) == binary64_value(second.ymin),
        binary64_value(first.xmax) == binary64_value(second.xmax),
        binary64_value(first.ymax) == binary64_value(second.ymax),
{
    let a = choose|v: (int, int)| #[trigger] has(v) && v.0 == binary64_value(first.xmin);
    let b = choose|v: (int, int)| #[trigger] has(v) && v.0 == binary64_value(second.xmin);
    assert(within(second, a) && within(first, b));
    let c = choose|v: (int, int)| #[trigger] has(v) && v.1 == binary64_value(first.ymin);
    let d = choose|v: (int, int)| #[trigger] has(v) && v.1 == binary64_value(second.ymin);
    assert(within(second, c) && within(first, d));
    let e = choose|v: (int, int)| #[trigger] has(v) && v.0 == binary64_value(first.xmax);
    let f = choose|v: (int, int)| #[trigger] has(v) && v.0 == binary64_value(second.xmax);
    assert(within(second, e) && within(first, f));
    let g = choose|v: (int, int)| #[trigger] has(v) && v.1 == binary64_value(first.ymax);
    let h = choose|v: (int, int)| #[trigger] has(v) && v.1 == binary64_value(second.ymax);
    assert(within(second, g) && within(first, h));
}

} // verus!
