//! Spatial reference of a local `GeoTIFF`, decided from the metadata its
//! reader decodes.

use crate::binary64::{is_finite, is_finite_bits};
use crate::error::SpatialIoError;
use crate::reference::{affine_outcome, Affine2D, Crs, RasterInterpretation};
use crate::text::{decimal, decimal_text};
use vstd::prelude::*;

verus! {

/// Which georeferencing tags one image file directory holds.
#[derive(Debug, Clone, Copy, PartialEq, Eq, Structural)]
pub struct DirectoryTags {
    /// `GeoKeyDirectoryTag` is present.
    pub geo_key_directory: bool,
    /// `ModelTransformationTag` is present.
    pub model_transformation: bool,
    /// `ModelTiepointTag` is present.
    pub model_tiepoint: bool,
    /// `ModelPixelScaleTag` is present.
    pub model_pixel_scale: bool,
}

/// A directory that places the image by a transformation, or by a tie point
/// with a pixel scale.
pub open spec fn places_image(tags: DirectoryTags) -> bool {
    tags.model_transformation || (tags.model_tiepoint && tags.model_pixel_scale)
}

/// The index of the first directory that holds `tags` satisfying `wanted`.
pub open spec fn first_where(directories: Seq<DirectoryTags>, wanted: spec_fn(DirectoryTags) -> bool) -> Option<int> {
    if exists|i: int| 0 <= i < directories.len() && wanted(#[trigger] directories[i]) {
        Some(
            choose|i: int|
                0 <= i < directories.len() && wanted(#[trigger] directories[i]) && forall|k: int|
                    0 <= k < i ==> !wanted(#[trigger] directories[k]),
        )
    } else {
        None
    }
}

/// The directory the metadata is read from: the first holding a GeoKey
/// directory, else the first that places the image, else none.
pub open spec fn metadata_directory_spec(directories: Seq<DirectoryTags>) -> Option<int> {
    match first_where(directories, |tags: DirectoryTags| tags.geo_key_directory) {
        Some(index) => Some(index),
        None => first_where(directories, |tags: DirectoryTags| places_image(tags)),
    }
}

/// The first directory holding a GeoKey directory (`geo_keys`) or placing
/// the image (otherwise), found by a scan.
fn scan_first(directories: &Vec<DirectoryTags>, geo_keys: bool) -> (found: Option<usize>)
    ensures
        match found {
            Some(index) => index < directories@.len() && (if geo_keys {
                directories@[index as int].geo_key_directory
            } else {
                places_image(directories@[index as int])
            }) && forall|k: int|
                0 <= k < index ==> !(if geo_keys {
                    (#[trigger] directories@[k]).geo_key_directory
                } else {
                    places_image(directories@[k])
                }),
            None => forall|k: int|
                0 <= k < directories@.len() ==> !(if geo_keys {
                    (#[trigger] directories@[k]).geo_key_directory
                } else {
                    places_image(directories@[k])
                }),
        },
{
    let mut i: usize = 0;
    while i < directories.len()
        invariant
            i <= directories@.len(),
            forall|k: int|
                0 <= k < i ==> !(if geo_keys {
                    (#[trigger] directories@[k]).geo_key_directory
                } else {
                    places_image(directories@[k])
                }),
        decreases directories.len() - i,
    {
        let tags = directories[i];
        let hit = if geo_keys {
            tags.geo_key_directory
        } else {
            tags.model_transformation || (tags.model_tiepoint && tags.model_pixel_scale)
        };
        if hit {
            return Some(i);
        }
        i = i + 1;
    }
    None
}

/// The directory the metadata is read from: the first holding a GeoKey
/// directory, else the first that places the image, else none.
pub fn metadata_directory(directories: &Vec<DirectoryTags>) -> (index: Option<usize>)
    ensures
        match (index, metadata_directory_spec(directories@)) {
            (Some(i), Some(j)) => i as int == j,
            (None, None) => true,
            _ => false,
        },
{
    match scan_first(directories, true) {
        Some(index) => {
            proof {
                lemma_first_where(directories@, |tags: DirectoryTags| tags.geo_key_directory, index as int);
            }
            Some(index)
        },
        None => {
            proof {
                assert(!exists|i: int| 0 <= i < directories@.len() && (|tags: DirectoryTags| tags.geo_key_directory)(#[trigger] directories@[i]));
            }
            match scan_first(directories, false) {
                Some(index) => {
                    proof {
                        lemma_first_where(directories@, |tags: DirectoryTags| places_image(tags), index as int);
                    }
                    Some(index)
                },
                None => {
                    proof {
                        assert(!exists|i: int| 0 <= i < directories@.len() && (|tags: DirectoryTags| places_image(tags))(#[trigger] directories@[i]));
                    }
                    None
                },
            }
        },
    }
}

/// An index satisfying `wanted` with no earlier one is the first.
proof fn lemma_first_where(directories: Seq<DirectoryTags>, wanted: spec_fn(DirectoryTags) -> bool, index: int)
    requires
        0 <= index < directories.len(),
        wanted(directories[index]),
        forall|k: int| 0 <= k < index ==> !wanted(#[trigger] directories[k]),
    ensures
        first_where(directories, wanted) == Some(index),
{
    let chosen = choose|i: int|
        0 <= i < directories.len() && wanted(#[trigger] directories[i]) && forall|k: int|
            0 <= k < i ==> !wanted(#[trigger] directories[k]);
    assert(0 <= index < directories.len() && wanted(directories[index]));
    if chosen < index {
        assert(!wanted(directories[chosen]));
    }
    if chosen > index {
        assert(!wanted(directories[index]));
    }
}

/// The raster-type key as the reader decodes it.
#[derive(Debug, Clone, Copy, PartialEq, Eq, Structural)]
pub enum RasterTypeCode {
    /// Code 1: pixels represent areas.
    PixelIsArea,
    /// Code 2: pixels represent sample points.
    PixelIsPoint,
    /// Any other code.
    Unknown(u16),
}

/// Which CRS keys the reader found.
#[derive(Debug, Clone, Copy, PartialEq, Eq, Structural)]
pub enum GeoTiffCrsKind {
    /// No usable CRS keys.
    Unspecified,
    /// A horizontal-only CRS.
    Horizontal,
    /// A vertical-only CRS.
    Vertical,
    /// A compound horizontal and vertical CRS.
    Compound,
}

/// The `ModelTransformation` tag of the metadata directory.
#[derive(Debug, Clone)]
pub enum TransformationTag {
    /// The tag is absent.
    Absent,
    /// The tag is present but holds no floating-point values.
    Unreadable,
    /// The tag's values as binary64 encodings.
    Values(Vec<u64>),
}

/// The reader's pixel-to-model transform.
#[derive(Debug, Clone, Copy)]
pub struct ReaderTransform {
    /// The six coefficients as the reader reports them.
    pub affine: Affine2D,
    /// `origin_x - (0.5 * x_scale + 0.5 * x_skew)` in binary64 arithmetic:
    /// the output x of the corner of the first pixel when pixels are points.
    pub corner_origin_x: u64,
    /// `origin_y - (0.5 * y_skew + 0.5 * y_scale)` in binary64 arithmetic.
    pub corner_origin_y: u64,
}

/// Spatial metadata decoded from a `GeoTIFF`.
#[derive(Debug, Clone)]
pub struct GeoTiffMetadata {
    /// Source path supplied by the caller.
    pub path: String,
    /// Image width in pixels.
    pub width: u32,
    /// Image height in pixels.
    pub height: u32,
    /// Number of storage-domain bands.
    pub band_count: u32,
    /// GDAL nodata text, when present.
    pub nodata: Option<String>,
    /// Pixel-to-model transform, when present.
    pub transform: Option<ReaderTransform>,
    /// Raster-type key.
    pub raster_type: RasterTypeCode,
    /// `ModelTransformation` tag of the directory holding the geo keys.
    pub transformation: TransformationTag,
    /// CRS keys present.
    pub crs_kind: GeoTiffCrsKind,
    /// EPSG code of the CRS, when the keys name one.
    pub epsg: Option<u32>,
}

/// Crate-owned spatial metadata of a local `GeoTIFF`.
#[derive(Debug, Clone, PartialEq)]
pub struct GeoTiffReference {
    /// Image width in pixels.
    pub width: u32,
    /// Image height in pixels.
    pub height: u32,
    /// Number of storage-domain bands.
    pub band_count: u32,
    /// GDAL nodata text, when present.
    pub nodata: Option<String>,
    /// Exact, corner-normalized six-coefficient affine.
    pub affine: Affine2D,
    /// The file's own `GeoTIFF` raster-space interpretation.
    pub raster_interpretation: RasterInterpretation,
    /// Supported horizontal CRS identity.
    pub crs: Crs,
    /// Stable adapter provenance.
    pub adapter_id: String,
    /// Source path supplied by the caller.
    pub source_path: String,
}

/// The adapter identity recorded in every reference.
pub open spec fn adapter_identity() -> Seq<char> {
    "geotiff_reader_0_7_reference_v2"@
}

/// Why a `ModelTransformation` tag cannot be used, if it cannot.
pub open spec fn transformation_failure(tag: TransformationTag) -> Option<Seq<char>> {
    match tag {
        TransformationTag::Absent => None,
        TransformationTag::Unreadable => Some("invalid ModelTransformation matrix"@),
        TransformationTag::Values(values) => if values@.len() != 16 {
            Some("invalid ModelTransformation matrix"@)
        } else if exists|i: int| 0 <= i < 16 && !is_finite_bits(#[trigger] values@[i]) {
            Some("non-finite ModelTransformation matrix"@)
        } else {
            None
        },
    }
}

/// The transform moved to pixel corners.
pub open spec fn corner_affine(transform: ReaderTransform) -> Affine2D {
    Affine2D {
        origin_x: transform.corner_origin_x,
        origin_y: transform.corner_origin_y,
        ..transform.affine
    }
}

/// `result` is a `GeoTiff` error for `path` with the given message.
pub open spec fn geotiff_error(
    result: Result<GeoTiffReference, SpatialIoError>,
    path: Seq<char>,
    message: Seq<char>,
) -> bool {
    result matches Err(SpatialIoError::GeoTiff { path: p, message: m }) && p@ == path && m@
        == message
}

/// What the CRS keys make of a reference whose affine and interpretation
/// are settled.
pub open spec fn crs_stage(
    result: Result<GeoTiffReference, SpatialIoError>,
    metadata: GeoTiffMetadata,
    affine: Affine2D,
    interpretation: RasterInterpretation,
) -> bool {
    match metadata.crs_kind {
        GeoTiffCrsKind::Compound => result matches Err(SpatialIoError::UnsupportedCrs(m)) && m@
            == "compound horizontal/vertical GeoTIFF CRS is not yet supported"@,
        GeoTiffCrsKind::Vertical => result matches Err(SpatialIoError::UnsupportedCrs(m)) && m@
            == "vertical-only GeoTIFF CRS cannot georeference 2D linework"@,
        GeoTiffCrsKind::Unspecified => result matches Err(SpatialIoError::MissingCrs),
        GeoTiffCrsKind::Horizontal => match metadata.epsg {
            None => result matches Err(SpatialIoError::MissingCrs),
            Some(0) => result matches Err(SpatialIoError::UnsupportedCrs(m)) && m@
                == "EPSG code must be greater than zero"@,
            Some(code) => result matches Ok(reference) && reference.width == metadata.width
                && reference.height == metadata.height && reference.band_count
                == metadata.band_count && reference.nodata == metadata.nodata && reference.affine
                == affine && reference.raster_interpretation == interpretation
                && reference.crs == Crs::Epsg(code) && reference.adapter_id@ == adapter_identity()
                && reference.source_path@ == metadata.path@,
        },
    }
}

/// What reading a `GeoTIFF`'s spatial reference returns: the first failure
/// among a missing or invalid affine, an unknown raster type, an unusable
/// `ModelTransformation` tag, an invalid point-to-corner shift and an
/// unsupported or missing CRS, or the reference.
pub open spec fn geotiff_outcome(
    result: Result<GeoTiffReference, SpatialIoError>,
    metadata: GeoTiffMetadata,
) -> bool {
    match metadata.transform {
        None => result matches Err(SpatialIoError::MissingAffine),
        Some(transform) => if !transform.affine.is_valid() {
            result matches Err(error) && affine_outcome(Err(error), transform.affine)
        } else {
            match metadata.raster_type {
                RasterTypeCode::Unknown(code) => geotiff_error(
                    result,
                    metadata.path@,
                    "unsupported raster type code "@ + decimal_text(code as nat),
                ),
                _ => {
                    let interpretation = if metadata.raster_type == RasterTypeCode::PixelIsPoint {
                        RasterInterpretation::PixelIsPoint
                    } else {
                        RasterInterpretation::PixelIsArea
                    };
                    let shifted = interpretation == RasterInterpretation::PixelIsPoint
                        && metadata.transformation matches TransformationTag::Values(_);
                    match transformation_failure(metadata.transformation) {
                        Some(message) => geotiff_error(result, metadata.path@, message),
                        None => if shifted && !corner_affine(transform).is_valid() {
                            result matches Err(error) && affine_outcome(
                                Err(error),
                                corner_affine(transform),
                            )
                        } else {
                            crs_stage(
                                result,
                                metadata,
                                if shifted {
                                    corner_affine(transform)
                                } else {
                                    transform.affine
                                },
                                interpretation,
                            )
                        },
                    }
                },
            }
        },
    }
}

fn all_finite(values: &Vec<u64>) -> (finite: bool)
    ensures
        finite == forall|j: int| 0 <= j < values@.len() ==> is_finite_bits(#[trigger] values@[j]),
{
    let mut i: usize = 0;
    while i < values.len()
        invariant
            i <= values@.len(),
            forall|j: int| 0 <= j < i ==> is_finite_bits(#[trigger] values@[j]),
        decreases values.len() - i,
    {
        if !is_finite(values[i]) {
            return false;
        }
        i = i + 1;
    }
    true
}

fn geotiff_failure(path: &String, message: String) -> (error: SpatialIoError)
    ensures
        error matches SpatialIoError::GeoTiff { path: p, message: m } && p@ == path@ && m@
            == message@,
{
    SpatialIoError::GeoTiff { path: path.clone(), message }
}

/// Decides the spatial reference of a `GeoTIFF` from its decoded metadata.
///
/// The affine must be finite and invertible; a point-anchored raster whose
/// directory carries a `ModelTransformation` tag is moved to pixel corners;
/// only a horizontal CRS with a nonzero EPSG code is accepted.
pub fn geotiff_reference_from(metadata: GeoTiffMetadata) -> (result: Result<
    GeoTiffReference,
    SpatialIoError,
>)
    ensures
        geotiff_outcome(result, metadata),
{
    let transform = match metadata.transform {
        Some(transform) => transform,
        None => return Err(SpatialIoError::MissingAffine),
    };
    let raw = transform.affine;
    let mut affine = Affine2D::new(
        raw.origin_x,
        raw.x_scale,
        raw.x_skew,
        raw.origin_y,
        raw.y_skew,
        raw.y_scale,
    )?;
    let interpretation = match metadata.raster_type {
        RasterTypeCode::PixelIsArea => RasterInterpretation::PixelIsArea,
        RasterTypeCode::PixelIsPoint => RasterInterpretation::PixelIsPoint,
        RasterTypeCode::Unknown(code) => {
            let mut message = String::from_str("unsupported raster type code ");
            message.append(decimal(code as u64).as_str());
            return Err(geotiff_failure(&metadata.path, message));
        },
    };
    match &metadata.transformation {
        TransformationTag::Absent => {},
        TransformationTag::Unreadable => {
            return Err(
                geotiff_failure(
                    &metadata.path,
                    String::from_str("invalid ModelTransformation matrix"),
                ),
            );
        },
        TransformationTag::Values(values) => {
            if values.len() != 16 {
                return Err(
                    geotiff_failure(
                        &metadata.path,
                        String::from_str("invalid ModelTransformation matrix"),
                    ),
                );
            }
            if !all_finite(values) {
                return Err(
                    geotiff_failure(
                        &metadata.path,
                        String::from_str("non-finite ModelTransformation matrix"),
                    ),
                );
            }
            if interpretation == RasterInterpretation::PixelIsPoint {
                affine = Affine2D::new(
                    transform.corner_origin_x,
                    raw.x_scale,
                    raw.x_skew,
                    transform.corner_origin_y,
                    raw.y_skew,
                    raw.y_scale,
                )?;
            }
        },
    }
    match metadata.crs_kind {
        GeoTiffCrsKind::Horizontal => {},
        GeoTiffCrsKind::Compound => {
            return Err(
                SpatialIoError::UnsupportedCrs(
                    String::from_str("compound horizontal/vertical GeoTIFF CRS is not yet supported"),
                ),
            );
        },
        GeoTiffCrsKind::Vertical => {
            return Err(
                SpatialIoError::UnsupportedCrs(
                    String::from_str("vertical-only GeoTIFF CRS cannot georeference 2D linework"),
                ),
            );
        },
        GeoTiffCrsKind::Unspecified => return Err(SpatialIoError::MissingCrs),
    }
    let code = match metadata.epsg {
        Some(code) => code,
        None => return Err(SpatialIoError::MissingCrs),
    };
    let crs = Crs::epsg(code)?;
    Ok(
        GeoTiffReference {
            width: metadata.width,
            height: metadata.height,
            band_count: metadata.band_count,
            nodata: metadata.nodata,
            affine,
            raster_interpretation: interpretation,
            crs,
            adapter_id: String::from_str("geotiff_reader_0_7_reference_v2"),
            source_path: metadata.path,
        },
    )
}

} // verus!
