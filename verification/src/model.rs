//! Crate-owned geometry, feature, and attribute contracts.

use crate::binary64::{binary64_value, is_finite, is_finite_bits, lemma_order_key, order_key};
use crate::error::SpatialIoError;
use crate::reference::SpatialReference;
use crate::text::{find_slot, lemma_insert_sorted, lemma_sorted_unique, string_keys, strictly_sorted, text_bytes};
use crate::topology::{MultiPolygon, Polygon};
use vstd::prelude::*;

verus! {

/// A finite two-dimensional coordinate, held as two binary64 encodings.
#[derive(Debug, Clone, Copy)]
pub struct Point2 {
    x: u64,
    y: u64,
}

impl Point2 {
    #[verifier::type_invariant]
    spec fn finite_coordinates(self) -> bool {
        is_finite_bits(self.x) && is_finite_bits(self.y)
    }

    /// Encoding of the x coordinate.
    pub closed spec fn x_bits(self) -> u64 {
        self.x
    }

    /// Encoding of the y coordinate.
    pub closed spec fn y_bits(self) -> u64 {
        self.y
    }

    /// Creates a point after rejecting non-finite coordinates.
    ///
    /// Arguments are binary64 encodings (`f64::to_bits`).
    pub fn new(x: u64, y: u64) -> (result: Result<Self, SpatialIoError>)
        ensures
            match result {
                Ok(point) => point.x_bits() == x && point.y_bits() == y,
                Err(SpatialIoError::NonFinite { field, value }) => {
                    if !is_finite_bits(x) {
                        field@ == "x"@ && value == x
                    } else {
                        !is_finite_bits(y) && field@ == "y"@ && value == y
                    }
                },
                Err(_) => false,
            },
            result is Ok <==> is_finite_bits(x) && is_finite_bits(y),
    {
        validate_finite("x", x)?;
        validate_finite("y", y)?;
        Ok(Point2 { x, y })
    }

    /// Returns the encoding of the x coordinate.
    pub fn x(self) -> (bits: u64)
        ensures
            bits == self.x_bits(),
            is_finite_bits(bits),
    {
        proof {
            use_type_invariant(&self);
        }
        self.x
    }

    /// Returns the encoding of the y coordinate.
    pub fn y(self) -> (bits: u64)
        ensures
            bits == self.y_bits(),
            is_finite_bits(bits),
    {
        proof {
            use_type_invariant(&self);
        }
        self.y
    }
}

impl View for Point2 {
    type V = (int, int);

    /// Exact coordinates in units of `2^-1075`.
    open spec fn view(&self) -> (int, int) {
        (binary64_value(self.x_bits()), binary64_value(self.y_bits()))
    }
}

impl PartialEq for Point2 {
    fn eq(&self, other: &Point2) -> (equal: bool) {
        let ax = self.x();
        let ay = self.y();
        let bx = other.x();
        let by = other.y();
        proof {
            lemma_order_key(ax, bx);
            lemma_order_key(ay, by);
        }
        order_key(ax) == order_key(bx) && order_key(ay) == order_key(by)
    }
}

impl vstd::std_specs::cmp::PartialEqSpecImpl for Point2 {
    open spec fn obeys_eq_spec() -> bool {
        true
    }

    open spec fn eq_spec(&self, other: &Point2) -> bool {
        self@ == other@
    }
}

/// Rejects a non-finite encoding for the named field.
pub fn validate_finite(field: &str, value: u64) -> (result: Result<(), SpatialIoError>)
    ensures
        match result {
            Ok(()) => is_finite_bits(value),
            Err(SpatialIoError::NonFinite { field: f, value: v }) => !is_finite_bits(value)
                && f@ == field@ && v == value,
            Err(_) => false,
        },
{
    if is_finite(value) {
        Ok(())
    } else {
        Err(SpatialIoError::NonFinite { field: field.to_owned(), value })
    }
}


/// One cubic Bézier segment with endpoints `p0` and `p3`.
#[derive(Debug, Clone, Copy, PartialEq)]
pub struct CubicBezier {
    /// Start point.
    pub p0: Point2,
    /// First control point.
    pub p1: Point2,
    /// Second control point.
    pub p2: Point2,
    /// End point.
    pub p3: Point2,
}

impl CubicBezier {
    /// Creates a cubic from four finite points.
    pub fn new(p0: Point2, p1: Point2, p2: Point2, p3: Point2) -> (cubic: CubicBezier)
        ensures
            cubic == (CubicBezier { p0, p1, p2, p3 }),
    {
        CubicBezier { p0, p1, p2, p3 }
    }
}

/// Why segments do not form a cubic path, if they do not.
pub open spec fn cubic_path_rejection(segments: Seq<CubicBezier>) -> Option<Seq<char>> {
    if segments.len() == 0 {
        Some("a cubic path must contain at least one segment"@)
    } else if exists|i: int|
        0 <= i < segments.len() - 1 && (#[trigger] segments[i]).p3@ != segments[i + 1].p0@ {
        Some("cubic path segments must share exact endpoints"@)
    } else {
        None
    }
}

/// An ordered, connected sequence of cubic Bézier segments.
#[derive(Debug, PartialEq)]
pub struct CubicPath {
    segments: Vec<CubicBezier>,
}

impl CubicPath {
    #[verifier::type_invariant]
    spec fn connected(self) -> bool {
        cubic_path_rejection(self.segments@) is None
    }

    /// The segments in order.
    pub closed spec fn segment_list(self) -> Seq<CubicBezier> {
        self.segments@
    }

    /// Creates a non-empty path and verifies exact endpoint connectivity.
    pub fn new(segments: Vec<CubicBezier>) -> (result: Result<CubicPath, SpatialIoError>)
        ensures
            result is Ok <==> cubic_path_rejection(segments@) is None,
            match result {
                Ok(path) => path.segment_list() == segments@,
                Err(SpatialIoError::InvalidGeometry(m)) => cubic_path_rejection(segments@) == Some(
                    m@,
                ),
                Err(_) => false,
            },
    {
        if segments.len() == 0 {
            return Err(
                SpatialIoError::InvalidGeometry(
                    "a cubic path must contain at least one segment".to_owned(),
                ),
            );
        }
        let mut i: usize = 0;
        while i + 1 < segments.len()
            invariant
                segments@.len() >= 1,
                i < segments@.len(),
                forall|k: int| 0 <= k < i ==> (#[trigger] segments@[k]).p3@ == segments@[k + 1].p0@,
            decreases segments.len() - i,
        {
            if segments[i].p3 != segments[i + 1].p0 {
                assert(segments@[i as int].p3@ != segments@[i + 1].p0@);
                return Err(
                    SpatialIoError::InvalidGeometry(
                        "cubic path segments must share exact endpoints".to_owned(),
                    ),
                );
            }
            i = i + 1;
        }
        Ok(CubicPath { segments })
    }

    /// Returns the ordered segments.
    pub fn segments(&self) -> (segments: &[CubicBezier])
        ensures
            segments@ == self.segment_list(),
            cubic_path_rejection(segments@) is None,
    {
        proof {
            use_type_invariant(self);
        }
        self.segments.as_slice()
    }
}

impl Clone for CubicPath {
    fn clone(&self) -> (result: Self)
        ensures
            result.segment_list() == self.segment_list(),
    {
        proof {
            use_type_invariant(self);
        }
        let segments = self.segments.clone();
        assert(segments@ =~= self.segments@);
        CubicPath { segments }
    }
}

/// A `LineString` containing at least two finite points.
#[derive(Debug, PartialEq)]
pub struct LineString {
    points: Vec<Point2>,
}

impl LineString {
    #[verifier::type_invariant]
    spec fn long_enough(self) -> bool {
        self.points@.len() >= 2
    }

    /// The points in order.
    pub closed spec fn positions(self) -> Seq<Point2> {
        self.points@
    }

    /// Creates a `LineString` after validating its minimum size.
    pub fn new(points: Vec<Point2>) -> (result: Result<LineString, SpatialIoError>)
        ensures
            result is Ok <==> points@.len() >= 2,
            match result {
                Ok(line) => line.positions() == points@,
                Err(SpatialIoError::InvalidGeometry(m)) => m@
                    == "a LineString must contain at least two points"@,
                Err(_) => false,
            },
    {
        if points.len() < 2 {
            return Err(
                SpatialIoError::InvalidGeometry(
                    "a LineString must contain at least two points".to_owned(),
                ),
            );
        }
        Ok(LineString { points })
    }

    /// Returns the ordered points.
    pub fn points(&self) -> (points: &[Point2])
        ensures
            points@ == self.positions(),
            points@.len() >= 2,
    {
        proof {
            use_type_invariant(self);
        }
        self.points.as_slice()
    }

    /// Applies a point mapping while preserving order; the first mapping
    /// error is returned.
    pub fn try_map<F: Fn(Point2) -> Result<Point2, SpatialIoError>>(&self, map: F) -> (result:
        Result<LineString, SpatialIoError>)
        requires
            forall|p: Point2| map.requires((p,)),
        ensures
            match result {
                Ok(line) => line.positions().len() == self.positions().len() && forall|i: int|
                    0 <= i < self.positions().len() ==> map.ensures(
                        (#[trigger] self.positions()[i],),
                        Ok(line.positions()[i]),
                    ),
                Err(error) => exists|i: int|
                    0 <= i < self.positions().len() && map.ensures(
                        (#[trigger] self.positions()[i],),
                        Err(error),
                    ) && maps_first(map, self.positions(), i),
            },
    {
        proof {
            use_type_invariant(self);
        }
        let mut mapped: Vec<Point2> = Vec::new();
        let mut i: usize = 0;
        while i < self.points.len()
            invariant
                forall|p: Point2| map.requires((p,)),
                i <= self.points@.len(),
                self.points@.len() >= 2,
                mapped@.len() == i,
                forall|k: int|
                    0 <= k < i ==> map.ensures((#[trigger] self.points@[k],), Ok(mapped@[k])),
            decreases self.points.len() - i,
        {
            let point = self.points[i];
            match map(point) {
                Ok(image) => {
                    mapped.push(image);
                },
                Err(error) => {
                    assert(map.ensures((self.positions()[i as int],), Err(error)));
                    let ghost images = mapped@;
                    assert(images.len() == i && forall|j: int|
                        0 <= j < i ==> map.ensures((#[trigger] self.positions()[j],), Ok(images[j])));
                    assert(maps_first(map, self.positions(), i as int));
                    return Err(error);
                },
            }
            i = i + 1;
        }
        LineString::new(mapped)
    }
}

/// `map` can map each of the first `count` points without error: there are
/// images it may return for them.
pub open spec fn maps_first<F: Fn(Point2) -> Result<Point2, SpatialIoError>>(
    map: F,
    points: Seq<Point2>,
    count: int,
) -> bool {
    exists|images: Seq<Point2>|
        #![trigger images.len()]
        images.len() == count && forall|j: int|
            0 <= j < count ==> map.ensures((#[trigger] points[j],), Ok(images[j]))
}

impl Clone for LineString {
    fn clone(&self) -> (result: Self)
        ensures
            result.positions() == self.positions(),
    {
        proof {
            use_type_invariant(self);
        }
        let points = self.points.clone();
        assert(points@ =~= self.points@);
        LineString { points }
    }
}

/// Initial, versioned geometry carrier.
#[derive(Debug, PartialEq)]
pub enum GeometryV1 {
    /// One point.
    Point(Point2),
    /// One `LineString`.
    LineString(LineString),
    /// Multiple independent `LineString` values.
    MultiLineString(Vec<LineString>),
    /// Exact source cubic geometry requiring a conversion profile for WKB.
    CubicPath(CubicPath),
    /// One topology-validated polygon with explicit shell and holes.
    Polygon(Polygon),
    /// Multiple topology-validated polygons with explicit grouping.
    MultiPolygon(MultiPolygon),
}

/// Supported deterministic scalar attribute values.
#[derive(Debug, Clone, PartialEq)]
pub enum AttributeValue {
    /// Explicit null.
    Null,
    /// Boolean value.
    Bool(bool),
    /// Signed 64-bit integer.
    I64(i64),
    /// Unsigned 64-bit integer.
    U64(u64),
    /// Floating-point value as a binary64 encoding; writers reject non-finite values.
    F64(u64),
    /// Binary bytes.
    Bytes(Vec<u8>),
    /// UTF-8 text.
    String(String),
}

/// Declared logical type for one scalar attribute column.
#[derive(Debug, Clone, Copy, PartialEq, Eq, Structural)]
pub enum AttributeType {
    /// Boolean.
    Bool,
    /// Signed 64-bit integer.
    I64,
    /// Unsigned 64-bit integer.
    U64,
    /// 64-bit floating point.
    F64,
    /// Binary bytes.
    Bytes,
    /// UTF-8 text.
    String,
}

/// Ordered schema declaration for one feature attribute.
#[derive(Debug, Clone, PartialEq, Eq)]
pub struct AttributeFieldV1 {
    /// Stable non-empty column name.
    pub name: String,
    /// Declared scalar type, including when every value is null.
    pub value_type: AttributeType,
    /// Whether null or missing values are permitted.
    pub nullable: bool,
}

/// Typed scalar attributes keyed by name, kept in byte order of their names
/// with each name present at most once.
#[derive(Debug, PartialEq)]
pub struct AttributeMap {
    names: Vec<String>,
    values: Vec<AttributeValue>,
}

impl AttributeMap {
    #[verifier::type_invariant]
    spec fn well_formed(self) -> bool {
        &&& self.names@.len() == self.values@.len()
        &&& strictly_sorted(string_keys(self.names@))
    }

    /// Entry names in increasing byte order.
    pub closed spec fn entry_names(self) -> Seq<String> {
        self.names@
    }

    /// Entry values, aligned with [`AttributeMap::entry_names`].
    pub closed spec fn entry_values(self) -> Seq<AttributeValue> {
        self.values@
    }

    /// The value stored under a name's bytes, if any.
    pub open spec fn lookup(self, key: Seq<u8>) -> Option<AttributeValue> {
        lookup_in(string_keys(self.entry_names()), self.entry_values(), key)
    }

    /// An empty map.
    pub fn new() -> (map: AttributeMap)
        ensures
            map.entry_names().len() == 0,
            map.entry_values().len() == 0,
    {
        AttributeMap { names: Vec::new(), values: Vec::new() }
    }

    /// Inserts or replaces the value stored under `name`.
    pub fn insert(&mut self, name: String, value: AttributeValue)
        ensures
            strictly_sorted(string_keys(final(self).entry_names())),
            final(self).entry_names().len() == final(self).entry_values().len(),
            forall|key: Seq<u8>|
                #[trigger] final(self).lookup(key) == if key == text_bytes(name@) {
                    Some(value)
                } else {
                    old(self).lookup(key)
                },
    {
        proof {
            use_type_invariant(&*self);
        }
        let ghost old_names = self.names@;
        let ghost old_values = self.values@;
        let ghost key = text_bytes(name@);
        let ghost oks = string_keys(old_names);
        let mut taken = AttributeMap::new();
        std::mem::swap(self, &mut taken);
        let AttributeMap { names: mut names, values: mut values } = taken;
        assert(names@ == old_names && values@ == old_values);
        let (index, found) = find_slot(&names, name.as_str());
        if found {
            values.set(index, value);
            *self = AttributeMap { names, values };
            proof {
                let ks = string_keys(self.names@);
                assert(ks == oks);
                assert forall|q: Seq<u8>| #[trigger] self.lookup(q) == if q == key {
                    Some(value)
                } else {
                    old(self).lookup(q)
                } by {
                    if q == key {
                        lemma_lookup_in(ks, self.values@, q, index as int);
                    } else if exists|k: int| 0 <= k < ks.len() && #[trigger] ks[k] == q {
                        let k = choose|k: int| 0 <= k < ks.len() && #[trigger] ks[k] == q;
                        assert(k != index);
                        lemma_lookup_in(ks, self.values@, q, k);
                        lemma_lookup_in(oks, old_values, q, k);
                    } else {
                        lemma_lookup_absent(ks, self.values@, q);
                        lemma_lookup_absent(oks, old_values, q);
                    }
                }
            }
        } else {
            proof {
                lemma_insert_sorted(oks, key, index as int);
            }
            names.insert(index, name);
            values.insert(index, value);
            assert(string_keys(names@) =~= oks.insert(index as int, key));
            *self = AttributeMap { names, values };
            proof {
                let ks = string_keys(self.names@);
                assert forall|q: Seq<u8>| #[trigger] self.lookup(q) == if q == key {
                    Some(value)
                } else {
                    old(self).lookup(q)
                } by {
                    if q == key {
                        assert(ks[index as int] == q);
                        lemma_lookup_in(ks, self.values@, q, index as int);
                    } else {
                        if exists|k: int| 0 <= k < ks.len() && #[trigger] ks[k] == q {
                            let k = choose|k: int| 0 <= k < ks.len() && #[trigger] ks[k] == q;
                            assert(k != index);
                            let m = if k < index {
                                k
                            } else {
                                k - 1
                            };
                            assert(oks[m] == q);
                            lemma_lookup_in(ks, self.values@, q, k);
                            lemma_lookup_in(oks, old_values, q, m);
                            assert(self.values@[k] == old_values[m]);
                        }
                        if exists|k: int| 0 <= k < oks.len() && #[trigger] oks[k] == q {
                            let k = choose|k: int| 0 <= k < oks.len() && #[trigger] oks[k] == q;
                            if k < index {
                                assert(ks[k] == q);
                            } else {
                                assert(ks[k + 1] == q);
                            }
                        } else {
                            lemma_lookup_absent(oks, old_values, q);
                            assert forall|k: int| 0 <= k < ks.len() implies ks[k] != q by {
                                if k < index {
                                    assert(ks[k] == oks[k]);
                                } else if k > index {
                                    assert(ks[k] == oks[k - 1]);
                                }
                            }
                            lemma_lookup_absent(ks, self.values@, q);
                        }
                    }
                }
            }
        }
    }

    /// The value stored under `name`, if any.
    pub fn get(&self, name: &str) -> (value: Option<&AttributeValue>)
        ensures
            match value {
                Some(v) => self.lookup(text_bytes(name@)) == Some(*v),
                None => self.lookup(text_bytes(name@)) is None,
            },
    {
        proof {
            use_type_invariant(self);
        }
        let (index, found) = find_slot(&self.names, name);
        if found {
            proof {
                lemma_lookup_in(string_keys(self.names@), self.values@, text_bytes(name@), index as int);
            }
            Some(&self.values[index])
        } else {
            proof {
                let ks = string_keys(self.names@);
                let q = text_bytes(name@);
                assert forall|k: int| 0 <= k < ks.len() implies ks[k] != q by {
                    if ks[k] == q {
                        assert(exists|j: int| 0 <= j < ks.len() && #[trigger] ks[j] == q);
                    }
                }
                lemma_lookup_absent(ks, self.values@, q);
            }
            None
        }
    }

    /// Entry names in increasing byte order.
    pub fn names(&self) -> (names: &[String])
        ensures
            names@ == self.entry_names(),
            strictly_sorted(string_keys(names@)),
    {
        proof {
            use_type_invariant(self);
        }
        self.names.as_slice()
    }

    /// Entry values aligned with [`AttributeMap::names`].
    pub fn values(&self) -> (values: &[AttributeValue])
        ensures
            values@ == self.entry_values(),
            values@.len() == self.entry_names().len(),
    {
        proof {
            use_type_invariant(self);
        }
        self.values.as_slice()
    }
}

/// The first index at or after `i` whose key is `key`, or `-1`.
pub open spec fn key_index_from(keys: Seq<Seq<u8>>, key: Seq<u8>, i: int) -> int
    decreases keys.len() - i,
{
    if i < 0 || i >= keys.len() {
        -1
    } else if keys[i] == key {
        i
    } else {
        key_index_from(keys, key, i + 1)
    }
}

/// The value aligned with `key` among `keys`, if `key` occurs.
pub open spec fn lookup_in(keys: Seq<Seq<u8>>, values: Seq<AttributeValue>, key: Seq<u8>) -> Option<
    AttributeValue,
> {
    let k = key_index_from(keys, key, 0);
    if k >= 0 {
        Some(values[k])
    } else {
        None
    }
}

proof fn lemma_key_index_from(keys: Seq<Seq<u8>>, key: Seq<u8>, index: int, i: int)
    requires
        strictly_sorted(keys),
        0 <= i <= index < keys.len(),
        keys[index] == key,
    ensures
        key_index_from(keys, key, i) == index,
    decreases index - i,
{
    if keys[i] == key {
        lemma_sorted_unique(keys, i, index);
    } else {
        lemma_key_index_from(keys, key, index, i + 1);
    }
}

proof fn lemma_key_index_absent(keys: Seq<Seq<u8>>, key: Seq<u8>, i: int)
    requires
        0 <= i,
        forall|k: int| 0 <= k < keys.len() ==> keys[k] != key,
    ensures
        key_index_from(keys, key, i) == -1,
    decreases keys.len() - i,
{
    if i < keys.len() {
        lemma_key_index_absent(keys, key, i + 1);
    }
}

/// Among distinct keys, lookup finds the value aligned with the key.
pub proof fn lemma_lookup_in(keys: Seq<Seq<u8>>, values: Seq<AttributeValue>, key: Seq<u8>, index: int)
    requires
        strictly_sorted(keys),
        0 <= index < keys.len(),
        keys[index] == key,
    ensures
        lookup_in(keys, values, key) == Some(values[index]),
{
    lemma_key_index_from(keys, key, index, 0);
}

/// Lookup of an absent key finds nothing.
pub proof fn lemma_lookup_absent(keys: Seq<Seq<u8>>, values: Seq<AttributeValue>, key: Seq<u8>)
    requires
        forall|k: int| 0 <= k < keys.len() ==> keys[k] != key,
    ensures
        lookup_in(keys, values, key) is None,
{
    lemma_key_index_absent(keys, key, 0);
}

/// One stable feature and its source provenance.
#[derive(Debug, PartialEq)]
pub struct FeatureV1 {
    /// Stable feature identity.
    pub feature_id: String,
    /// Stable source primitive identity.
    pub source_primitive_id: String,
    /// Geometry in the collection coordinate space.
    pub geometry: GeometryV1,
    /// Typed scalar attributes in deterministic name order.
    pub attributes: AttributeMap,
    /// Optional producer-defined grouping identity.
    pub group_id: Option<String>,
    /// Conversion profile that produced a derived geometry.
    pub conversion_profile_id: Option<String>,
    /// Effective conversion tolerance (binary64 encoding) in collection units.
    pub conversion_tolerance: Option<u64>,
}

/// An ordered feature collection sharing one spatial reference.
#[derive(Debug, PartialEq)]
pub struct FeatureCollectionV1 {
    /// Spatial reference shared by every feature.
    pub spatial_reference: SpatialReference,
    /// Explicit attribute columns in deterministic output order.
    pub attribute_schema: Vec<AttributeFieldV1>,
    /// Features in stable output order.
    pub features: Vec<FeatureV1>,
}

} // verus!
