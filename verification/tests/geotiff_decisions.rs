use spatial_io::geotiff::{metadata_directory, DirectoryTags};
use spatial_io::{
    geotiff_reference_from, Affine2D, Crs, GeoTiffCrsKind, GeoTiffMetadata, RasterInterpretation,
    RasterTypeCode, ReaderTransform, SpatialIoError, TransformationTag,
};

fn bits(values: [f64; 6]) -> Affine2D {
    Affine2D {
        origin_x: values[0].to_bits(),
        x_scale: values[1].to_bits(),
        x_skew: values[2].to_bits(),
        origin_y: values[3].to_bits(),
        y_skew: values[4].to_bits(),
        y_scale: values[5].to_bits(),
    }
}

fn reader_transform(values: [f64; 6]) -> ReaderTransform {
    ReaderTransform {
        affine: bits(values),
        corner_origin_x: (values[0] - (0.5 * values[1] + 0.5 * values[2])).to_bits(),
        corner_origin_y: (values[3] - (0.5 * values[4] + 0.5 * values[5])).to_bits(),
    }
}

fn metadata(values: [f64; 6], raster_type: RasterTypeCode, transformation: TransformationTag) -> GeoTiffMetadata {
    GeoTiffMetadata {
        path: "area.tif".to_owned(),
        width: 4,
        height: 3,
        band_count: 1,
        nodata: Some("255".to_owned()),
        transform: Some(reader_transform(values)),
        raster_type,
        transformation,
        crs_kind: GeoTiffCrsKind::Horizontal,
        epsg: Some(32_618),
    }
}

fn coefficients(affine: Affine2D) -> [f64; 6] {
    [
        f64::from_bits(affine.origin_x),
        f64::from_bits(affine.x_scale),
        f64::from_bits(affine.x_skew),
        f64::from_bits(affine.origin_y),
        f64::from_bits(affine.y_skew),
        f64::from_bits(affine.y_scale),
    ]
}

fn matrix(values: [f64; 6]) -> TransformationTag {
    let mut entries = vec![0.0f64; 16];
    entries[0] = values[1];
    entries[1] = values[2];
    entries[3] = values[0];
    entries[4] = values[4];
    entries[5] = values[5];
    entries[7] = values[3];
    entries[15] = 1.0;
    TransformationTag::Values(entries.into_iter().map(f64::to_bits).collect())
}

#[test]
fn north_up_area_reference_keeps_reader_values() {
    let values = [100.0, 2.0, 0.0, 200.0, 0.0, -3.0];
    let reference = geotiff_reference_from(metadata(
        values,
        RasterTypeCode::PixelIsArea,
        TransformationTag::Absent,
    ))
    .unwrap();
    assert_eq!((reference.width, reference.height), (4, 3));
    assert_eq!(reference.band_count, 1);
    assert_eq!(reference.nodata.as_deref(), Some("255"));
    assert_eq!(reference.raster_interpretation, RasterInterpretation::PixelIsArea);
    assert_eq!(reference.crs, Crs::Epsg(32_618));
    assert_eq!(coefficients(reference.affine), values);
    assert_eq!(reference.adapter_id, "geotiff_reader_0_7_reference_v2");
    assert_eq!(reference.source_path, "area.tif");
}

#[test]
fn point_rasters_shift_to_corners_only_with_a_matrix() {
    let values = [10.0, 2.0, 0.0, 20.0, 0.0, -4.0];
    let tiepoint = geotiff_reference_from(metadata(
        values,
        RasterTypeCode::PixelIsPoint,
        TransformationTag::Absent,
    ))
    .unwrap();
    assert_eq!(tiepoint.raster_interpretation, RasterInterpretation::PixelIsPoint);
    assert_eq!(coefficients(tiepoint.affine), values);
    let shifted = geotiff_reference_from(metadata(
        values,
        RasterTypeCode::PixelIsPoint,
        matrix(values),
    ))
    .unwrap();
    assert_eq!(coefficients(shifted.affine), [9.0, 2.0, 0.0, 22.0, 0.0, -4.0]);
    let area = geotiff_reference_from(metadata(values, RasterTypeCode::PixelIsArea, matrix(values)))
        .unwrap();
    assert_eq!(coefficients(area.affine), values);
}

#[test]
fn unusable_matrices_and_raster_types_are_rejected() {
    let values = [10.0, 2.0, 0.25, 20.0, -0.5, -3.0];
    let mut non_finite = matrix(values);
    if let TransformationTag::Values(entries) = &mut non_finite {
        entries[2] = f64::NAN.to_bits();
    }
    assert_eq!(
        geotiff_reference_from(metadata(values, RasterTypeCode::PixelIsPoint, non_finite)),
        Err(SpatialIoError::GeoTiff {
            path: "area.tif".to_owned(),
            message: "non-finite ModelTransformation matrix".to_owned()
        })
    );
    assert_eq!(
        geotiff_reference_from(metadata(
            values,
            RasterTypeCode::PixelIsArea,
            TransformationTag::Values(vec![0; 15])
        )),
        Err(SpatialIoError::GeoTiff {
            path: "area.tif".to_owned(),
            message: "invalid ModelTransformation matrix".to_owned()
        })
    );
    assert_eq!(
        geotiff_reference_from(metadata(
            values,
            RasterTypeCode::PixelIsArea,
            TransformationTag::Unreadable
        )),
        Err(SpatialIoError::GeoTiff {
            path: "area.tif".to_owned(),
            message: "invalid ModelTransformation matrix".to_owned()
        })
    );
    assert_eq!(
        geotiff_reference_from(metadata(
            values,
            RasterTypeCode::Unknown(7),
            TransformationTag::Absent
        )),
        Err(SpatialIoError::GeoTiff {
            path: "area.tif".to_owned(),
            message: "unsupported raster type code 7".to_owned()
        })
    );
    let rotated = geotiff_reference_from(metadata(
        values,
        RasterTypeCode::PixelIsArea,
        TransformationTag::Absent,
    ))
    .unwrap();
    assert_eq!(coefficients(rotated.affine)[2], 0.25);
    assert_eq!(coefficients(rotated.affine)[4], -0.5);
}

#[test]
fn affine_and_crs_failures_are_reported() {
    let mut missing = metadata(
        [0.0, 1.0, 0.0, 0.0, 0.0, 1.0],
        RasterTypeCode::PixelIsArea,
        TransformationTag::Absent,
    );
    missing.transform = None;
    assert_eq!(geotiff_reference_from(missing), Err(SpatialIoError::MissingAffine));
    assert_eq!(
        geotiff_reference_from(metadata(
            [0.0, 1.0, 2.0, 0.0, 2.0, 4.0],
            RasterTypeCode::PixelIsArea,
            TransformationTag::Absent
        )),
        Err(SpatialIoError::InvalidAffine("linear component is singular".to_owned()))
    );
    let valid = [0.0, 1.0, 0.0, 0.0, 0.0, 1.0];
    for (kind, expected) in [
        (
            GeoTiffCrsKind::Compound,
            SpatialIoError::UnsupportedCrs(
                "compound horizontal/vertical GeoTIFF CRS is not yet supported".to_owned(),
            ),
        ),
        (
            GeoTiffCrsKind::Vertical,
            SpatialIoError::UnsupportedCrs(
                "vertical-only GeoTIFF CRS cannot georeference 2D linework".to_owned(),
            ),
        ),
        (GeoTiffCrsKind::Unspecified, SpatialIoError::MissingCrs),
    ] {
        let mut value = metadata(valid, RasterTypeCode::PixelIsArea, TransformationTag::Absent);
        value.crs_kind = kind;
        assert_eq!(geotiff_reference_from(value), Err(expected));
    }
    let mut no_code = metadata(valid, RasterTypeCode::PixelIsArea, TransformationTag::Absent);
    no_code.epsg = None;
    assert_eq!(geotiff_reference_from(no_code), Err(SpatialIoError::MissingCrs));
    let mut zero = metadata(valid, RasterTypeCode::PixelIsArea, TransformationTag::Absent);
    zero.epsg = Some(0);
    assert_eq!(
        geotiff_reference_from(zero),
        Err(SpatialIoError::UnsupportedCrs(
            "EPSG code must be greater than zero".to_owned()
        ))
    );
}

fn tags(geo: bool, transformation: bool, tiepoint: bool, scale: bool) -> DirectoryTags {
    DirectoryTags {
        geo_key_directory: geo,
        model_transformation: transformation,
        model_tiepoint: tiepoint,
        model_pixel_scale: scale,
    }
}

#[test]
fn metadata_comes_from_the_first_geokey_directory_else_the_first_placed_image() {
    let bare = tags(false, false, false, false);
    let tie_only = tags(false, false, true, false);
    let placed = tags(false, false, true, true);
    let matrix = tags(false, true, false, false);
    let keyed = tags(true, false, false, false);
    assert_eq!(metadata_directory(&vec![bare, placed, keyed, keyed]), Some(2));
    assert_eq!(metadata_directory(&vec![bare, tie_only, placed, matrix]), Some(2));
    assert_eq!(metadata_directory(&vec![tie_only, matrix]), Some(1));
    assert_eq!(metadata_directory(&vec![bare, tie_only]), None);
    assert_eq!(metadata_directory(&Vec::new()), None);
}
