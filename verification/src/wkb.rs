//! Little-endian OGC WKB encoding of linework and validated polygons.

use crate::error::SpatialIoError;
use crate::model::{GeometryV1, Point2};
use crate::topology::{LinearRing, Polygon};
use vstd::arithmetic::div_mod::lemma_div_denominator;
use vstd::prelude::*;

verus! {

/// Geometry types that the `GeoParquet` writer accepts.
#[derive(Debug, Clone, Copy, PartialEq, Eq, Structural)]
pub enum GeometryKind {
    /// One `LineString`.
    LineString,
    /// One polygon.
    Polygon,
    /// A multipart polygon.
    MultiPolygon,
}

/// Positions of every ring of a polygon, exterior first.
pub open spec fn polygon_positions(polygon: Polygon) -> Seq<Seq<Point2>> {
    seq![polygon.shell().positions()] + polygon.holes().map_values(|r: LinearRing| r.positions())
}

/// A writable geometry as parts, each part a list of rings, each ring a list
/// of positions. A `LineString` is one part with one ring, a polygon one part.
pub open spec fn geometry_parts(geometry: GeometryV1) -> Option<(GeometryKind, Seq<Seq<Seq<Point2>>>)> {
    match geometry {
        GeometryV1::LineString(line) => Some(
            (GeometryKind::LineString, seq![seq![line.positions()]]),
        ),
        GeometryV1::Polygon(polygon) => Some((GeometryKind::Polygon, seq![polygon_positions(polygon)])),
        GeometryV1::MultiPolygon(multi) => Some(
            (
                GeometryKind::MultiPolygon,
                multi.components().map_values(|p: Polygon| polygon_positions(p)),
            ),
        ),
        _ => None,
    }
}

fn ring_positions(ring: &LinearRing) -> (positions: Vec<Point2>)
    ensures
        positions@ == ring.positions(),
        positions@.len() >= 4,
{
    let points = ring.points();
    let mut positions: Vec<Point2> = Vec::new();
    let mut i: usize = 0;
    while i < points.len()
        invariant
            points@ == ring.positions(),
            i <= points@.len(),
            positions@ == points@.subrange(0, i as int),
        decreases points.len() - i,
    {
        positions.push(points[i]);
        i = i + 1;
        assert(positions@ =~= points@.subrange(0, i as int));
    }
    assert(positions@ =~= points@);
    positions
}

fn polygon_rings(polygon: &Polygon) -> (rings: Vec<Vec<Point2>>)
    ensures
        ring_list_positions(rings@) == polygon_positions(*polygon),
        rings@.len() >= 1,
        forall|r: int| 0 <= r < rings@.len() ==> (#[trigger] rings@[r])@.len() >= 1,
{
    let mut rings: Vec<Vec<Point2>> = Vec::new();
    rings.push(ring_positions(polygon.exterior()));
    let holes = polygon.interiors();
    let ghost expected = polygon_positions(*polygon);
    let mut k: usize = 0;
    while k < holes.len()
        invariant
            holes@ == polygon.holes(),
            expected == polygon_positions(*polygon),
            k <= holes@.len(),
            rings@.len() == k + 1,
            forall|j: int| 0 <= j < k + 1 ==> #[trigger] rings@[j]@ == expected[j],
            forall|j: int| 0 <= j < k + 1 ==> (#[trigger] rings@[j])@.len() >= 1,
        decreases holes.len() - k,
    {
        rings.push(ring_positions(&holes[k]));
        k = k + 1;
    }
    assert(ring_list_positions(rings@) =~= expected);
    rings
}

/// Every part holds a ring and every ring a position.
pub open spec fn parts_nonempty(parts: Seq<Seq<Seq<Point2>>>) -> bool {
    &&& parts.len() >= 1
    &&& forall|k: int| 0 <= k < parts.len() ==> (#[trigger] parts[k]).len() >= 1
    &&& forall|k: int, r: int|
        0 <= k < parts.len() && 0 <= r < parts[k].len() ==> (#[trigger] parts[k][r]).len() >= 1
}

/// The parts of a writable geometry, or `None` for other geometry types.
pub fn parts_of(geometry: &GeometryV1) -> (result: Option<(GeometryKind, Vec<Vec<Vec<Point2>>>)>)
    ensures
        match (result, geometry_parts(*geometry)) {
            (Some((kind, parts)), Some((expected_kind, expected))) => kind == expected_kind
                && nested_positions(parts@) == expected && parts_nonempty(expected) && (kind
                == GeometryKind::LineString ==> parts@.len() == 1 && parts@[0]@.len() == 1) && (
            kind == GeometryKind::Polygon ==> parts@.len() == 1),
            (None, None) => true,
            _ => false,
        },
{
    match geometry {
        GeometryV1::LineString(line) => {
            let points = line.points();
            let mut positions: Vec<Point2> = Vec::new();
            let mut i: usize = 0;
            while i < points.len()
                invariant
                    points@ == line.positions(),
                    i <= points@.len(),
                    positions@ == points@.subrange(0, i as int),
                decreases points.len() - i,
            {
                positions.push(points[i]);
                i = i + 1;
                assert(positions@ =~= points@.subrange(0, i as int));
            }
            assert(positions@ =~= points@);
            let mut ring: Vec<Vec<Point2>> = Vec::new();
            ring.push(positions);
            assert(ring_list_positions(ring@) =~= seq![line.positions()]);
            let mut parts: Vec<Vec<Vec<Point2>>> = Vec::new();
            parts.push(ring);
            assert(nested_positions(parts@) =~= seq![seq![line.positions()]]);
            Some((GeometryKind::LineString, parts))
        },
        GeometryV1::Polygon(polygon) => {
            let mut parts: Vec<Vec<Vec<Point2>>> = Vec::new();
            parts.push(polygon_rings(polygon));
            assert(nested_positions(parts@) =~= seq![polygon_positions(*polygon)]);
            Some((GeometryKind::Polygon, parts))
        },
        GeometryV1::MultiPolygon(multi) => {
            let polygons = multi.polygons();
            let ghost expected = multi.components().map_values(|p: Polygon| polygon_positions(p));
            let mut parts: Vec<Vec<Vec<Point2>>> = Vec::new();
            let mut k: usize = 0;
            while k < polygons.len()
                invariant
                    polygons@ == multi.components(),
                    expected == multi.components().map_values(|p: Polygon| polygon_positions(p)),
                    k <= polygons@.len(),
                    parts@.len() == k,
                    forall|j: int| 0 <= j < k ==> (#[trigger] parts@[j])@.len() >= 1,
                    forall|j: int, r: int|
                        0 <= j < k && 0 <= r < parts@[j]@.len() ==> (#[trigger] parts@[j]@[r])@.len() >= 1,
                    forall|j: int|
                        0 <= j < k ==> #[trigger] ring_list_positions(parts@[j]@)
                            == expected[j],
                decreases polygons.len() - k,
            {
                parts.push(polygon_rings(&polygons[k]));
                k = k + 1;
            }
            assert(nested_positions(parts@) =~= expected);
            Some((GeometryKind::MultiPolygon, parts))
        },
        _ => None,
    }
}

/// Positions of executable rings.
pub open spec fn ring_list_positions(rings: Seq<Vec<Point2>>) -> Seq<Seq<Point2>> {
    rings.map_values(|r: Vec<Point2>| r@)
}

/// Positions of nested executable parts.
pub open spec fn nested_positions(parts: Seq<Vec<Vec<Point2>>>) -> Seq<Seq<Seq<Point2>>> {
    parts.map_values(|part: Vec<Vec<Point2>>| ring_list_positions(part@))
}

// ---------------------------------------------------------------------------
// Byte layout
// ---------------------------------------------------------------------------

/// `256^i`.
pub open spec fn byte_weight(i: nat) -> nat
    decreases i,
{
    if i == 0 {
        1
    } else {
        256 * byte_weight((i - 1) as nat)
    }
}

/// The `n` low-order bytes of `value`, least significant first.
pub open spec fn le_bytes(value: nat, n: nat) -> Seq<u8> {
    Seq::new(n, |i: int| ((value / byte_weight(i as nat)) % 256) as u8)
}

/// A position: its x then y encodings, eight little-endian bytes each.
pub open spec fn point_wkb(point: Point2) -> Seq<u8> {
    le_bytes(point.x_bits() as nat, 8) + le_bytes(point.y_bits() as nat, 8)
}

/// Consecutive positions.
pub open spec fn points_wkb(points: Seq<Point2>) -> Seq<u8>
    decreases points.len(),
{
    if points.len() == 0 {
        seq![]
    } else {
        points_wkb(points.drop_last()) + point_wkb(points.last())
    }
}

/// A ring or `LineString` body: a four-byte count then the positions.
pub open spec fn ring_wkb(points: Seq<Point2>) -> Seq<u8> {
    le_bytes(points.len(), 4) + points_wkb(points)
}

/// Consecutive ring bodies.
pub open spec fn rings_wkb(rings: Seq<Seq<Point2>>) -> Seq<u8>
    decreases rings.len(),
{
    if rings.len() == 0 {
        seq![]
    } else {
        rings_wkb(rings.drop_last()) + ring_wkb(rings.last())
    }
}

/// A complete little-endian polygon record.
pub open spec fn polygon_wkb(rings: Seq<Seq<Point2>>) -> Seq<u8> {
    seq![1u8] + le_bytes(3, 4) + le_bytes(rings.len(), 4) + rings_wkb(rings)
}

/// Consecutive polygon records.
pub open spec fn polygons_wkb(parts: Seq<Seq<Seq<Point2>>>) -> Seq<u8>
    decreases parts.len(),
{
    if parts.len() == 0 {
        seq![]
    } else {
        polygons_wkb(parts.drop_last()) + polygon_wkb(parts.last())
    }
}

/// The little-endian WKB record of a writable geometry.
pub open spec fn geometry_wkb(kind: GeometryKind, parts: Seq<Seq<Seq<Point2>>>) -> Seq<u8> {
    match kind {
        GeometryKind::LineString => seq![1u8] + le_bytes(2, 4) + ring_wkb(parts[0][0]),
        GeometryKind::Polygon => polygon_wkb(parts[0]),
        GeometryKind::MultiPolygon => seq![1u8] + le_bytes(6, 4) + le_bytes(parts.len(), 4)
            + polygons_wkb(parts),
    }
}

/// Every count written by [`geometry_wkb`] fits in four bytes.
pub open spec fn counts_fit(parts: Seq<Seq<Seq<Point2>>>) -> bool {
    &&& parts.len() <= u32::MAX
    &&& forall|k: int| 0 <= k < parts.len() ==> (#[trigger] parts[k]).len() <= u32::MAX
    &&& forall|k: int, r: int|
        0 <= k < parts.len() && 0 <= r < parts[k].len() ==> (#[trigger] parts[k][r]).len()
            <= u32::MAX
}

fn push_le(out: &mut Vec<u8>, value: u64, n: usize)
    requires
        n <= 8,
    ensures
        final(out)@ == old(out)@ + le_bytes(value as nat, n as nat),
{
    let ghost start = old(out)@;
    let mut rest = value;
    let mut i: usize = 0;
    assert(byte_weight(0) == 1);
    assert(le_bytes(value as nat, 0) =~= Seq::<u8>::empty());
    while i < n
        invariant
            i <= n <= 8,
            out@ == start + le_bytes(value as nat, i as nat),
            rest == value as nat / byte_weight(i as nat),
        decreases n - i,
    {
        out.push((rest % 256) as u8);
        proof {
            assert(byte_weight((i + 1) as nat) == 256 * byte_weight(i as nat));
            assert(byte_weight(i as nat) > 0) by {
                lemma_byte_weight_positive(i as nat);
            }
            lemma_div_denominator(value as int, byte_weight(i as nat) as int, 256);
            assert(out@ =~= start + le_bytes(value as nat, (i + 1) as nat));
        }
        rest = rest / 256;
        i = i + 1;
    }
}

proof fn lemma_byte_weight_positive(i: nat)
    ensures
        byte_weight(i) > 0,
    decreases i,
{
    if i > 0 {
        lemma_byte_weight_positive((i - 1) as nat);
    }
}

fn push_points(out: &mut Vec<u8>, points: &Vec<Point2>)
    ensures
        final(out)@ == old(out)@ + points_wkb(points@),
{
    let ghost start = old(out)@;
    let mut i: usize = 0;
    while i < points.len()
        invariant
            i <= points@.len(),
            out@ == start + points_wkb(points@.subrange(0, i as int)),
        decreases points.len() - i,
    {
        let point = points[i];
        push_le(out, point.x(), 8);
        push_le(out, point.y(), 8);
        proof {
            let prefix = points@.subrange(0, i + 1);
            assert(prefix.drop_last() =~= points@.subrange(0, i as int));
            assert(prefix.last() == point);
            assert(out@ =~= start + points_wkb(prefix));
        }
        i = i + 1;
    }
    assert(points@.subrange(0, points@.len() as int) =~= points@);
}

fn push_rings(out: &mut Vec<u8>, rings: &Vec<Vec<Point2>>)
    requires
        forall|r: int| 0 <= r < rings@.len() ==> (#[trigger] rings@[r])@.len() <= u32::MAX,
    ensures
        final(out)@ == old(out)@ + rings_wkb(ring_list_positions(rings@)),
{
    let ghost start = old(out)@;
    let ghost all = ring_list_positions(rings@);
    let mut i: usize = 0;
    while i < rings.len()
        invariant
            all == ring_list_positions(rings@),
            forall|r: int| 0 <= r < rings@.len() ==> (#[trigger] rings@[r])@.len() <= u32::MAX,
            i <= rings@.len(),
            out@ == start + rings_wkb(all.subrange(0, i as int)),
        decreases rings.len() - i,
    {
        let ring = &rings[i];
        push_le(out, ring.len() as u64, 4);
        push_points(out, ring);
        proof {
            let prefix = all.subrange(0, i + 1);
            assert(prefix.drop_last() =~= all.subrange(0, i as int));
            assert(prefix.last() == ring@);
            assert(out@ =~= start + rings_wkb(prefix));
        }
        i = i + 1;
    }
    assert(all.subrange(0, all.len() as int) =~= all);
}

fn push_polygon(out: &mut Vec<u8>, rings: &Vec<Vec<Point2>>)
    requires
        rings@.len() <= u32::MAX,
        forall|r: int| 0 <= r < rings@.len() ==> (#[trigger] rings@[r])@.len() <= u32::MAX,
    ensures
        final(out)@ == old(out)@ + polygon_wkb(ring_list_positions(rings@)),
{
    let ghost start = old(out)@;
    out.push(1u8);
    push_le(out, 3, 4);
    push_le(out, rings.len() as u64, 4);
    push_rings(out, rings);
    assert(out@ =~= start + polygon_wkb(ring_list_positions(rings@)));
}

/// Encodes parts of the given kind as one little-endian WKB record.
///
/// Fails when a count does not fit the format's four-byte fields.
pub fn encode_wkb(kind: GeometryKind, parts: &Vec<Vec<Vec<Point2>>>) -> (result: Result<
    Vec<u8>,
    SpatialIoError,
>)
    requires
        kind == GeometryKind::LineString ==> parts@.len() == 1 && parts@[0]@.len() == 1,
        kind == GeometryKind::Polygon ==> parts@.len() == 1,
    ensures
        match result {
            Ok(bytes) => counts_fit(nested_positions(parts@)) && bytes@ == geometry_wkb(
                kind,
                nested_positions(parts@),
            ),
            Err(SpatialIoError::Wkb(m)) => !counts_fit(nested_positions(parts@)) && m@
                == "a WKB count exceeds four bytes"@,
            Err(_) => false,
        },
{
    let ghost np = nested_positions(parts@);
    if parts.len() > 0xffff_ffff {
        return Err(SpatialIoError::Wkb("a WKB count exceeds four bytes".to_owned()));
    }
    let mut k: usize = 0;
    while k < parts.len()
        invariant
            np == nested_positions(parts@),
            k <= parts@.len(),
            parts@.len() <= u32::MAX,
            forall|j: int| 0 <= j < k ==> (#[trigger] np[j]).len() <= u32::MAX,
            forall|j: int, r: int|
                0 <= j < k && 0 <= r < np[j].len() ==> (#[trigger] np[j][r]).len() <= u32::MAX,
        decreases parts.len() - k,
    {
        let part = &parts[k];
        assert(np[k as int] == ring_list_positions(part@));
        if part.len() > 0xffff_ffff {
            return Err(SpatialIoError::Wkb("a WKB count exceeds four bytes".to_owned()));
        }
        let mut r: usize = 0;
        while r < part.len()
            invariant
                np == nested_positions(parts@),
                k < parts@.len(),
                np[k as int] == ring_list_positions(part@),
                r <= part@.len(),
                forall|q: int| 0 <= q < r ==> (#[trigger] np[k as int][q]).len() <= u32::MAX,
            decreases part.len() - r,
        {
            assert(np[k as int][r as int] == part@[r as int]@);
            if part[r].len() > 0xffff_ffff {
                return Err(SpatialIoError::Wkb("a WKB count exceeds four bytes".to_owned()));
            }
            r = r + 1;
        }
        k = k + 1;
    }
    assert(counts_fit(np));
    let mut out: Vec<u8> = Vec::new();
    match kind {
        GeometryKind::LineString => {
            out.push(1u8);
            push_le(&mut out, 2, 4);
            let ring = &parts[0][0];
            assert(np[0][0] == ring@);
            push_le(&mut out, ring.len() as u64, 4);
            push_points(&mut out, ring);
            assert(out@ =~= geometry_wkb(kind, np));
        },
        GeometryKind::Polygon => {
            assert(forall|r: int| 0 <= r < parts@[0]@.len() ==> (#[trigger] parts@[0]@[r])@ == np[0][r]);
            push_polygon(&mut out, &parts[0]);
            assert(ring_list_positions(parts@[0]@) =~= np[0]);
            assert(out@ =~= geometry_wkb(kind, np));
        },
        GeometryKind::MultiPolygon => {
            out.push(1u8);
            push_le(&mut out, 6, 4);
            push_le(&mut out, parts.len() as u64, 4);
            let ghost start = out@;
            let mut j: usize = 0;
            while j < parts.len()
                invariant
                    np == nested_positions(parts@),
                    counts_fit(np),
                    j <= parts@.len(),
                    out@ == start + polygons_wkb(np.subrange(0, j as int)),
                decreases parts.len() - j,
            {
                let part = &parts[j];
                assert(np[j as int] == ring_list_positions(part@));
                assert(forall|r: int| 0 <= r < part@.len() ==> (#[trigger] part@[r])@ == np[j as int][r]);
                push_polygon(&mut out, part);
                proof {
                    let prefix = np.subrange(0, j + 1);
                    assert(prefix.drop_last() =~= np.subrange(0, j as int));
                    assert(out@ =~= start + polygons_wkb(prefix));
                }
                j = j + 1;
            }
            assert(np.subrange(0, np.len() as int) =~= np);
            assert(out@ =~= geometry_wkb(kind, np));
        },
    }
    Ok(out)
}

} // verus!
