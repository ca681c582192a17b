//! Primitive-neutral spatial conversion contracts.
//!
//! Coordinates are carried as their IEEE 754 binary64 encodings and every
//! geometric predicate is decided exactly on the values those encodings
//! denote. Validated rings, polygons and multipolygons, typed attribute
//! schemas, coordinate spaces, and the row content of `GeoParquet` output are
//! all decided here; reading and writing files is left to the caller.

pub mod area;
pub mod binary64;
pub mod bounds;
pub mod error;
pub mod exact;
pub mod flatten;
pub mod geoparquet;
pub mod geotiff;
pub mod intersection;
pub mod model;
pub mod reference;
pub mod reversal;
pub mod separation;
pub mod similarity;
pub mod text;
pub mod topology;
pub mod wkb;

pub use bounds::Bounds;
pub use error::SpatialIoError;
pub use exact::{determinant_sign, orientation, ExactPoint};
pub use flatten::{check_source_ids, DerivedLineString, FlattenOptions, FlattenWork};
pub use geoparquet::{
    attest_bytes, plan_geoparquet, resolve_crs, validate_feature_metadata, GeoParquetPlan,
    GeoParquetWriteOptions, ResolvedCrs,
};
pub use geotiff::{
    geotiff_reference_from, GeoTiffCrsKind, GeoTiffMetadata, GeoTiffReference, RasterTypeCode,
    ReaderTransform, TransformationTag,
};
pub use model::{
    validate_finite, AttributeFieldV1, AttributeMap, AttributeType, AttributeValue, CubicBezier,
    CubicPath, FeatureCollectionV1, FeatureV1, GeometryV1, LineString, Point2,
};
pub use reference::{
    Affine2D, AxisDirection, CoordinateSpace, Crs, PixelAnchor, PixelOrigin, RasterInterpretation,
    SpatialReference,
};
pub use topology::{stronger, LinearRing, MultiPolygon, Polygon, RingWinding, SegmentRelation};
pub use wkb::{encode_wkb, parts_of, GeometryKind};
