//! Error contract.

use vstd::prelude::*;

verus! {

/// Errors returned by spatial conversion and format preparation.
///
/// Floating-point payloads are carried as binary64 encodings.
#[derive(Debug, PartialEq, Eq)]
pub enum SpatialIoError {
    /// A coordinate or scalar was not finite.
    NonFinite {
        /// Field containing the value.
        field: String,
        /// Encoding of the invalid value.
        value: u64,
    },
    /// An approximation tolerance was not finite and positive (its encoding).
    InvalidTolerance(u64),
    /// A geometry did not satisfy its structural or topological contract.
    InvalidGeometry(String),
    /// A source primitive cannot be converted by the selected profile.
    UnsupportedPrimitive(String),
    /// Attribute values for a named column were incompatible with the schema.
    IncompatibleAttribute {
        /// Attribute name.
        name: String,
    },
    /// A required affine transform was absent.
    MissingAffine,
    /// An affine transform was singular or non-finite.
    InvalidAffine(String),
    /// A required CRS was absent.
    MissingCrs,
    /// A CRS could not be represented faithfully.
    UnsupportedCrs(String),
    /// A PROJJSON value was invalid.
    InvalidProjJson(String),
    /// Cubic subdivision reached its fail-closed resource limit.
    SubdivisionLimit {
        /// Maximum permitted recursive depth.
        max_depth: u8,
    },
    /// `GeoTIFF` reference input failed.
    GeoTiff {
        /// Input path.
        path: String,
        /// Dependency error text.
        message: String,
    },
    /// WKB encoding failed.
    Wkb(String),
    /// `GeoParquet` construction failed.
    GeoParquet(String),
    /// Atomic artifact publication failed.
    Publication {
        /// Destination path.
        path: String,
        /// I/O failure description.
        message: String,
    },
}

} // verus!
