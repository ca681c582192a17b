//! Bookkeeping of deterministic tolerance-bounded cubic flattening.
//!
//! Flattening subdivides each cubic depth first, left half before right,
//! until a piece is flat enough, and appends the end point of every flat
//! piece unless it repeats the last vertex, so no vertex repeats its
//! predecessor and path seams appear once. A line that collapses onto its
//! start point within tolerance keeps that single vertex; it is finished as
//! a two-vertex, zero-length line. Whether a piece is flat enough and its
//! halves are computed in binary64 arithmetic by the caller; this module
//! keeps the work list, the vertices, the depth limit and the count.

use crate::binary64::{binary64_value, is_finite, is_finite_bits, lemma_order_key, order_key};
use crate::error::SpatialIoError;
use crate::model::{CubicBezier, CubicPath, LineString, Point2};
use vstd::prelude::*;

verus! {

/// Deepest subdivision a piece may undergo before flattening fails closed.
pub const MAX_SUBDIVISION_DEPTH: u8 = 32;

/// Stable identity of the flattening profile.
pub open spec fn flatten_profile_identity() -> Seq<char> {
    "recursive_convex_hull_bound_v1"@
}

/// Options for deterministic cubic subdivision.
#[derive(Debug, Clone, Copy, PartialEq, Eq, Structural)]
pub struct FlattenOptions {
    tolerance: u64,
}

impl FlattenOptions {
    #[verifier::type_invariant]
    spec fn positive_finite(self) -> bool {
        is_finite_bits(self.tolerance) && binary64_value(self.tolerance) > 0
    }

    /// Encoding of the tolerance.
    pub closed spec fn tolerance_bits(self) -> u64 {
        self.tolerance
    }

    /// Creates options with a finite, positive tolerance (its binary64
    /// encoding) in input units.
    pub fn new(tolerance: u64) -> (result: Result<Self, SpatialIoError>)
        ensures
            result is Ok <==> is_finite_bits(tolerance) && binary64_value(tolerance) > 0,
            match result {
                Ok(options) => options.tolerance_bits() == tolerance,
                Err(error) => error == SpatialIoError::InvalidTolerance(tolerance),
            },
    {
        if !is_finite(tolerance) {
            return Err(SpatialIoError::InvalidTolerance(tolerance));
        }
        proof {
            lemma_order_key(0, tolerance);
        }
        if order_key(tolerance) <= 0 {
            return Err(SpatialIoError::InvalidTolerance(tolerance));
        }
        Ok(FlattenOptions { tolerance })
    }

    /// Returns the effective tolerance encoding.
    pub fn tolerance(self) -> (tolerance: u64)
        ensures
            tolerance == self.tolerance_bits(),
            is_finite_bits(tolerance),
            binary64_value(tolerance) > 0,
    {
        proof {
            use_type_invariant(&self);
        }
        self.tolerance
    }
}

/// Derived linework and its conversion provenance.
#[derive(Debug, PartialEq)]
pub struct DerivedLineString {
    /// Resulting portable `LineString`.
    pub line: LineString,
    /// Source primitive identities in path order.
    pub source_primitive_ids: Vec<String>,
    /// Stable conversion-profile identity.
    pub profile_id: String,
    /// Effective tolerance (binary64 encoding) in the input coordinate space.
    pub tolerance: u64,
    /// Number of De Casteljau subdivision operations.
    pub subdivision_count: u64,
}

/// No vertex repeats its predecessor.
pub open spec fn no_consecutive_repeats(points: Seq<Point2>) -> bool {
    forall|i: int| 0 <= i < points.len() - 1 ==> (#[trigger] points[i])@ != points[i + 1]@
}

/// `points` with `point` appended unless it equals the last vertex.
pub open spec fn append_distinct(points: Seq<Point2>, point: Point2) -> Seq<Point2> {
    if points.len() > 0 && points.last()@ == point@ {
        points
    } else {
        points.push(point)
    }
}

/// The vertices of the finished line: a single vertex is repeated, giving a
/// zero-length line; otherwise the vertices as they are.
pub open spec fn finished_positions(points: Seq<Point2>) -> Seq<Point2> {
    if points.len() == 1 {
        points.push(points[0])
    } else {
        points
    }
}

/// The work of flattening one cubic or one cubic path: the vertices so far,
/// the pieces still to test (the last one next) with their depths, and the
/// number of subdivisions.
#[derive(Debug)]
pub struct FlattenWork {
    points: Vec<Point2>,
    pending: Vec<(CubicBezier, u8)>,
    subdivisions: u64,
}

impl FlattenWork {
    #[verifier::type_invariant]
    spec fn well_formed(self) -> bool {
        &&& self.points@.len() >= 1
        &&& no_consecutive_repeats(self.points@)
        &&& forall|i: int| 0 <= i < self.pending@.len() ==> (#[trigger] self.pending@[i]).1 <= MAX_SUBDIVISION_DEPTH
    }

    /// Subdivisions performed so far.
    pub fn subdivisions(&self) -> (count: u64)
        ensures
            count == self.subdivision_count(),
    {
        self.subdivisions
    }

    /// Moves the work out, leaving a placeholder that starts at its last vertex.
    fn take(&mut self) -> (work: FlattenWork)
        ensures
            work == *old(self),
            work.well_formed(),
    {
        proof {
            use_type_invariant(&*self);
        }
        let last = self.points[self.points.len() - 1];
        let mut work = FlattenWork::start(last);
        std::mem::swap(self, &mut work);
        work
    }

    /// Vertices emitted so far.
    pub closed spec fn vertices(self) -> Seq<Point2> {
        self.points@
    }

    /// Pieces still to test, the last one next, with their depths.
    pub closed spec fn pieces(self) -> Seq<(CubicBezier, u8)> {
        self.pending@
    }

    /// Subdivisions performed so far.
    pub closed spec fn subdivision_count(self) -> u64 {
        self.subdivisions
    }

    /// Starts flattening at `first`, with no pieces yet.
    pub fn start(first: Point2) -> (work: FlattenWork)
        ensures
            work.vertices() == seq![first],
            work.pieces().len() == 0,
            work.subdivision_count() == 0,
    {
        let mut points: Vec<Point2> = Vec::new();
        points.push(first);
        FlattenWork { points, pending: Vec::new(), subdivisions: 0 }
    }

    /// Queues a whole cubic at depth zero.
    pub fn push_cubic(&mut self, cubic: CubicBezier)
        ensures
            final(self).vertices() == old(self).vertices(),
            final(self).pieces() == old(self).pieces().push((cubic, 0u8)),
            final(self).subdivision_count() == old(self).subdivision_count(),
    {
        proof {
            use_type_invariant(&*self);
        }
        let FlattenWork { points, mut pending, subdivisions } = self.take();
        pending.push((cubic, 0u8));
        *self = FlattenWork { points, pending, subdivisions };
    }

    /// The next piece to test and its depth, if any.
    pub fn current(&self) -> (piece: Option<(CubicBezier, u8)>)
        ensures
            match piece {
                Some(p) => self.pieces().len() > 0 && p == self.pieces().last(),
                None => self.pieces().len() == 0,
            },
            piece matches Some(p) ==> p.1 <= MAX_SUBDIVISION_DEPTH,
    {
        proof {
            use_type_invariant(self);
        }
        if self.pending.len() == 0 {
            None
        } else {
            Some(self.pending[self.pending.len() - 1])
        }
    }

    /// The next piece is flat enough: it is dropped and its end point
    /// appended unless it repeats the last vertex.
    pub fn accept_flat(&mut self)
        requires
            old(self).pieces().len() > 0,
        ensures
            final(self).pieces() == old(self).pieces().drop_last(),
            final(self).vertices() == append_distinct(old(self).vertices(), old(self).pieces().last().0.p3),
            final(self).subdivision_count() == old(self).subdivision_count(),
            no_consecutive_repeats(final(self).vertices()),
    {
        proof {
            use_type_invariant(&*self);
        }
        let FlattenWork { mut points, mut pending, subdivisions } = self.take();
        let ghost old_points = points@;
        let ghost old_pending = pending@;
        let (piece, _depth) = pending.pop().unwrap();
        assert(pending@ =~= old_pending.drop_last());
        let last = points[points.len() - 1];
        if last != piece.p3 {
            points.push(piece.p3);
            assert forall|i: int| 0 <= i < points@.len() - 1 implies (#[trigger] points@[i])@ != points@[i + 1]@ by {
                if i < old_points.len() - 1 {
                    assert(points@[i] == old_points[i]);
                    assert(points@[i + 1] == old_points[i + 1]);
                }
            }
        }
        *self = FlattenWork { points, pending, subdivisions };
    }

    /// Whether the next piece may still be subdivided: flattening fails
    /// closed with [`SpatialIoError::SubdivisionLimit`] at the depth limit.
    pub fn check_depth(&self) -> (result: Result<(), SpatialIoError>)
        requires
            self.pieces().len() > 0,
        ensures
            match result {
                Ok(()) => self.pieces().last().1 < MAX_SUBDIVISION_DEPTH,
                Err(error) => self.pieces().last().1 == MAX_SUBDIVISION_DEPTH && error
                    == SpatialIoError::SubdivisionLimit { max_depth: MAX_SUBDIVISION_DEPTH },
            },
    {
        proof {
            use_type_invariant(self);
        }
        let (_piece, depth) = self.pending[self.pending.len() - 1];
        if depth == MAX_SUBDIVISION_DEPTH {
            Err(SpatialIoError::SubdivisionLimit { max_depth: MAX_SUBDIVISION_DEPTH })
        } else {
            Ok(())
        }
    }

    /// The next piece is replaced by its two halves one level deeper, the
    /// left half next, and one subdivision is counted.
    pub fn subdivide(&mut self, left: CubicBezier, right: CubicBezier)
        requires
            old(self).pieces().len() > 0,
            old(self).pieces().last().1 < MAX_SUBDIVISION_DEPTH,
            old(self).subdivision_count() < u64::MAX,
        ensures
            ({
                let depth = (old(self).pieces().last().1 + 1) as u8;
                final(self).pieces() == old(self).pieces().drop_last().push((right, depth)).push(
                    (left, depth),
                )
            }),
            final(self).vertices() == old(self).vertices(),
            final(self).subdivision_count() == old(self).subdivision_count() + 1,
    {
        proof {
            use_type_invariant(&*self);
        }
        let FlattenWork { points, mut pending, subdivisions } = self.take();
        let ghost old_pending = pending@;
        let (_piece, depth) = pending.pop().unwrap();
        pending.push((right, depth + 1));
        pending.push((left, depth + 1));
        assert(pending@ =~= old_pending.drop_last().push((right, (depth + 1) as u8)).push((left, (depth + 1) as u8)));
        *self = FlattenWork { points, pending, subdivisions: subdivisions + 1 };
    }

    /// The vertices as a `LineString` with its provenance; a single vertex
    /// gives the zero-length line that repeats it.
    pub fn finish(self, source_primitive_ids: Vec<String>, options: FlattenOptions) -> (derived:
        DerivedLineString)
        ensures
            derived.line.positions() == finished_positions(self.vertices()),
            derived.source_primitive_ids@ == source_primitive_ids@,
            derived.profile_id@ == flatten_profile_identity(),
            derived.tolerance == options.tolerance_bits(),
            derived.subdivision_count == self.subdivision_count(),
    {
        proof {
            use_type_invariant(&self);
        }
        let subdivision_count = self.subdivisions;
        let mut points = self.points;
        if points.len() == 1 {
            let only = points[0];
            points.push(only);
        }
        let line = match LineString::new(points) {
            Ok(line) => line,
            Err(_) => vstd::pervasive::unreached(),
        };
        DerivedLineString {
            line,
            source_primitive_ids,
            profile_id: String::from_str("recursive_convex_hull_bound_v1"),
            tolerance: options.tolerance(),
            subdivision_count,
        }
    }
}

/// Checks that a path has one source identity per segment.
pub fn check_source_ids(path: &CubicPath, source_primitive_ids: &Vec<String>) -> (result: Result<
    (),
    SpatialIoError,
>)
    ensures
        match result {
            Ok(()) => source_primitive_ids@.len() == path.segment_list().len(),
            Err(SpatialIoError::InvalidGeometry(m)) => source_primitive_ids@.len()
                != path.segment_list().len() && m@
                == "source primitive id count must match cubic segment count"@,
            Err(_) => false,
        },
{
    if source_primitive_ids.len() != path.segments().len() {
        return Err(
            SpatialIoError::InvalidGeometry(
                String::from_str("source primitive id count must match cubic segment count"),
            ),
        );
    }
    Ok(())
}

} // verus!
