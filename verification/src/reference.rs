//! Coordinate-space, affine, and CRS contracts.

use crate::binary64::{binary64_value, is_finite_bits};
use crate::error::SpatialIoError;
use crate::exact::{determinant_sign, sign_of};
use crate::model::validate_finite;
use vstd::arithmetic::mul::{lemma_mul_is_associative, lemma_mul_is_commutative};
use vstd::prelude::*;

verus! {

/// Origin convention for pixel coordinates.
#[derive(Debug, Clone, Copy, PartialEq, Eq, Structural)]
pub enum PixelOrigin {
    /// Origin at the top-left of the image.
    TopLeft,
    /// Origin at the bottom-left of the image.
    BottomLeft,
}

/// Direction in which y coordinates increase.
#[derive(Debug, Clone, Copy, PartialEq, Eq, Structural)]
pub enum AxisDirection {
    /// Y increases downwards.
    Down,
    /// Y increases upwards.
    Up,
}

/// Meaning of an integer-valued pixel coordinate.
#[derive(Debug, Clone, Copy, PartialEq, Eq, Structural)]
pub enum PixelAnchor {
    /// Integer coordinates denote pixel grid corners.
    Corner,
    /// Integer coordinates denote pixel centers.
    Center,
}

/// `GeoTIFF` raster-space interpretation retained from source metadata.
#[derive(Debug, Clone, Copy, PartialEq, Eq, Structural)]
pub enum RasterInterpretation {
    /// Pixels represent areas.
    PixelIsArea,
    /// Pixels represent sample points.
    PixelIsPoint,
}

/// Crate-owned coordinate reference system identity.
#[derive(Debug, Clone, PartialEq, Eq)]
pub enum Crs {
    /// EPSG authority code.
    Epsg(u32),
    /// Caller-provided, validated PROJJSON object.
    ProjJson(String),
    /// Explicitly unknown or local CRS.
    Unknown,
}

/// What `serde_json` makes of a text: `Ok(true)` when it parses to a JSON
/// object, `Ok(false)` when it parses to another JSON value, and otherwise
/// the text of the parse error.
pub uninterp spec fn json_root_object(text: Seq<char>) -> Result<bool, Seq<char>>;

/// Parses `text` with `serde_json::from_str::<serde_json::Value>` and reports
/// `serde_json::Value::is_object` of the result, or the parse error's
/// `to_string`. The result is [`json_root_object`] of the text.
#[verifier::external_body]
pub(crate) fn parse_json_root(text: &str) -> (result: Result<bool, String>)
    ensures
        match (result, json_root_object(text@)) {
            (Ok(object), Ok(expected)) => object == expected,
            (Err(message), Err(expected)) => message@ == expected,
            _ => false,
        },
{
    match serde_json::from_str::<serde_json::Value>(text) {
        Ok(value) => Ok(value.is_object()),
        Err(error) => Err(error.to_string()),
    }
}

impl Crs {
    /// Creates a nonzero EPSG authority identity.
    pub fn epsg(code: u32) -> (result: Result<Crs, SpatialIoError>)
        ensures
            match result {
                Ok(Crs::Epsg(c)) => c == code && code != 0,
                Err(SpatialIoError::UnsupportedCrs(m)) => code == 0 && m@
                    == "EPSG code must be greater than zero"@,
                _ => false,
            },
    {
        if code == 0 {
            return Err(SpatialIoError::UnsupportedCrs("EPSG code must be greater than zero".to_owned()));
        }
        Ok(Crs::Epsg(code))
    }

    /// Decides a PROJJSON identity from what parsing its text produced.
    pub fn projjson_from_parse(value: String, parsed: Result<bool, String>) -> (result: Result<
        Crs,
        SpatialIoError,
    >)
        ensures
            match parsed {
                Ok(true) => result matches Ok(Crs::ProjJson(v)) && v@ == value@,
                Ok(false) => result matches Err(SpatialIoError::InvalidProjJson(m)) && m@
                    == "the root value must be an object"@,
                Err(message) => result matches Err(SpatialIoError::InvalidProjJson(m)) && m@
                    == message@,
            },
    {
        match parsed {
            Ok(true) => Ok(Crs::ProjJson(value)),
            Ok(false) => Err(SpatialIoError::InvalidProjJson("the root value must be an object".to_owned())),
            Err(message) => Err(SpatialIoError::InvalidProjJson(message)),
        }
    }

    /// Validates that a string contains a JSON object before retaining it.
    pub fn projjson(value: String) -> (result: Result<Crs, SpatialIoError>)
        ensures
            match json_root_object(value@) {
                Ok(true) => result matches Ok(Crs::ProjJson(v)) && v@ == value@,
                Ok(false) => result matches Err(SpatialIoError::InvalidProjJson(m)) && m@
                    == "the root value must be an object"@,
                Err(message) => result matches Err(SpatialIoError::InvalidProjJson(m)) && m@
                    == message,
            },
    {
        let parsed = parse_json_root(value.as_str());
        Crs::projjson_from_parse(value, parsed)
    }
}

/// Coordinate-space meaning for a feature collection.
#[derive(Debug, Clone, PartialEq, Eq)]
pub enum CoordinateSpace {
    /// Image or canvas pixel coordinates.
    Pixel {
        /// Pixel origin.
        origin: PixelOrigin,
        /// Y-axis direction.
        y_axis: AxisDirection,
        /// Pixel anchoring used by the geometry producer.
        anchor: PixelAnchor,
    },
    /// Cartesian coordinates with a caller-defined unit and no assigned CRS.
    Local {
        /// Unit name, such as `millimetre` or `canvas_unit`.
        unit: String,
    },
    /// World coordinates with an explicit CRS.
    Georeferenced {
        /// Coordinate reference system.
        crs: Crs,
    },
}

/// Exact six-coefficient affine mapping input `(x, y)` to output `(x, y)`,
/// each coefficient held as a binary64 encoding.
#[derive(Debug, Clone, Copy, PartialEq, Eq, Structural)]
pub struct Affine2D {
    /// Output x origin.
    pub origin_x: u64,
    /// X contribution to output x.
    pub x_scale: u64,
    /// Y contribution to output x.
    pub x_skew: u64,
    /// Output y origin.
    pub origin_y: u64,
    /// X contribution to output y.
    pub y_skew: u64,
    /// Y contribution to output y.
    pub y_scale: u64,
}

/// The linear component `[[x_scale, x_skew], [y_skew, y_scale]]` is singular.
pub open spec fn singular_spec(x_scale: int, x_skew: int, y_skew: int, y_scale: int) -> bool {
    sign_of(x_scale * y_scale - x_skew * y_skew) == 0
}

/// What building `affine` returns: the affine itself when it is valid, and
/// otherwise the first non-finite coefficient or the singular linear part.
pub open spec fn affine_outcome(result: Result<Affine2D, SpatialIoError>, affine: Affine2D) -> bool {
    &&& result is Ok <==> affine.is_valid()
    &&& match result {
        Ok(built) => built == affine,
        Err(SpatialIoError::NonFinite { field, value }) => affine.first_non_finite() == Some(
            (field@, value),
        ),
        Err(SpatialIoError::InvalidAffine(m)) => affine.first_non_finite() is None && m@
            == "linear component is singular"@,
        Err(_) => false,
    }
}

impl Affine2D {
    /// All six coefficients are finite and the linear component is invertible.
    pub open spec fn is_valid(self) -> bool {
        &&& is_finite_bits(self.origin_x)
        &&& is_finite_bits(self.x_scale)
        &&& is_finite_bits(self.x_skew)
        &&& is_finite_bits(self.origin_y)
        &&& is_finite_bits(self.y_skew)
        &&& is_finite_bits(self.y_scale)
        &&& !singular_spec(
            binary64_value(self.x_scale),
            binary64_value(self.x_skew),
            binary64_value(self.y_skew),
            binary64_value(self.y_scale),
        )
    }

    /// The name and encoding of the first non-finite coefficient, in
    /// declaration order.
    pub open spec fn first_non_finite(self) -> Option<(Seq<char>, u64)> {
        if !is_finite_bits(self.origin_x) {
            Some(("origin_x"@, self.origin_x))
        } else if !is_finite_bits(self.x_scale) {
            Some(("x_scale"@, self.x_scale))
        } else if !is_finite_bits(self.x_skew) {
            Some(("x_skew"@, self.x_skew))
        } else if !is_finite_bits(self.origin_y) {
            Some(("origin_y"@, self.origin_y))
        } else if !is_finite_bits(self.y_skew) {
            Some(("y_skew"@, self.y_skew))
        } else if !is_finite_bits(self.y_scale) {
            Some(("y_scale"@, self.y_scale))
        } else {
            None
        }
    }

    /// Checks that every coefficient is finite and the linear component is
    /// exactly invertible.
    pub fn validate(&self) -> (result: Result<(), SpatialIoError>)
        ensures
            result is Ok <==> self.is_valid(),
            match result {
                Ok(()) => true,
                Err(SpatialIoError::NonFinite { field, value }) => self.first_non_finite() == Some(
                    (field@, value),
                ),
                Err(SpatialIoError::InvalidAffine(m)) => self.first_non_finite() is None && m@
                    == "linear component is singular"@,
                Err(_) => false,
            },
    {
        validate_finite("origin_x", self.origin_x)?;
        validate_finite("x_scale", self.x_scale)?;
        validate_finite("x_skew", self.x_skew)?;
        validate_finite("origin_y", self.origin_y)?;
        validate_finite("y_skew", self.y_skew)?;
        validate_finite("y_scale", self.y_scale)?;
        if determinant_sign(self.x_scale, self.x_skew, self.y_skew, self.y_scale) == 0 {
            return Err(SpatialIoError::InvalidAffine("linear component is singular".to_owned()));
        }
        Ok(())
    }

    /// Creates a finite, invertible affine transform from coefficient encodings.
    pub fn new(
        origin_x: u64,
        x_scale: u64,
        x_skew: u64,
        origin_y: u64,
        y_skew: u64,
        y_scale: u64,
    ) -> (result: Result<Affine2D, SpatialIoError>)
        ensures
            affine_outcome(result, Affine2D { origin_x, x_scale, x_skew, origin_y, y_skew, y_scale }),
    {
        let affine = Affine2D { origin_x, x_scale, x_skew, origin_y, y_skew, y_scale };
        affine.validate()?;
        Ok(affine)
    }
}

/// Whether an affine is singular does not depend on the unit of its linear
/// component: scaling all four linear coefficients by one nonzero factor
/// keeps an invertible affine invertible and a singular one singular.
pub proof fn singularity_is_independent_of_units(
    x_scale: int,
    x_skew: int,
    y_skew: int,
    y_scale: int,
    factor: int,
)
    requires
        factor != 0,
    ensures
        singular_spec(factor * x_scale, factor * x_skew, factor * y_skew, factor * y_scale)
            == singular_spec(x_scale, x_skew, y_skew, y_scale),
{
    let d = x_scale * y_scale - x_skew * y_skew;
    let ff = factor * factor;
    assert((factor * x_scale) * (factor * y_scale) == ff * (x_scale * y_scale)) by {
        lemma_mul_is_associative(factor, x_scale, factor * y_scale);
        lemma_mul_is_associative(x_scale, factor, y_scale);
        lemma_mul_is_commutative(x_scale, factor);
        lemma_mul_is_associative(factor, x_scale, y_scale);
        lemma_mul_is_associative(factor, factor, x_scale * y_scale);
    }
    assert((factor * x_skew) * (factor * y_skew) == ff * (x_skew * y_skew)) by {
        lemma_mul_is_associative(factor, x_skew, factor * y_skew);
        lemma_mul_is_associative(x_skew, factor, y_skew);
        lemma_mul_is_commutative(x_skew, factor);
        lemma_mul_is_associative(factor, x_skew, y_skew);
        lemma_mul_is_associative(factor, factor, x_skew * y_skew);
    }
    assert(ff * (x_scale * y_scale) - ff * (x_skew * y_skew) == ff * d) by (nonlinear_arith)
        requires
            d == x_scale * y_scale - x_skew * y_skew,
    ;
    assert(ff > 0) by (nonlinear_arith)
        requires
            factor != 0,
            ff == factor * factor,
    ;
    assert((ff * d == 0) == (d == 0)) by (nonlinear_arith)
        requires
            ff > 0,
    ;
}

/// Coordinate-space declaration plus optional input-to-world affine.
#[derive(Debug, Clone, PartialEq)]
pub struct SpatialReference {
    /// Meaning of geometry coordinates.
    pub coordinate_space: CoordinateSpace,
    /// Optional affine to another declared space.
    pub affine: Option<Affine2D>,
    /// Optional source raster interpretation.
    pub raster_interpretation: Option<RasterInterpretation>,
}

} // verus!
