use spatial_io::geoparquet::{
    attribute_column, geoparquet_columns, provenance_columns, AttributeColumn, ColumnKind,
};
use spatial_io::{
    attest_bytes, plan_geoparquet, resolve_crs, validate_feature_metadata, AttributeFieldV1,
    AttributeMap, AttributeType, AttributeValue, AxisDirection, CoordinateSpace, Crs,
    FeatureCollectionV1, FeatureV1, GeoParquetWriteOptions, GeometryKind, GeometryV1, LineString,
    LinearRing, MultiPolygon, PixelAnchor, PixelOrigin, Point2, Polygon, SpatialIoError,
    SpatialReference,
};

fn point(x: f64, y: f64) -> Point2 {
    Point2::new(x.to_bits(), y.to_bits()).expect("finite fixture")
}

fn line(points: &[(f64, f64)]) -> LineString {
    LineString::new(points.iter().map(|&(x, y)| point(x, y)).collect()).unwrap()
}

fn rectangle(xmin: f64, ymin: f64, xmax: f64, ymax: f64) -> LinearRing {
    LinearRing::new(vec![
        point(xmin, ymin),
        point(xmax, ymin),
        point(xmax, ymax),
        point(xmin, ymax),
        point(xmin, ymin),
    ])
    .unwrap()
}

fn attributes(entries: Vec<(&str, AttributeValue)>) -> AttributeMap {
    let mut map = AttributeMap::new();
    for (name, value) in entries {
        map.insert(name.to_owned(), value);
    }
    map
}

fn feature(id: &str, geometry: GeometryV1, class_id: u64) -> FeatureV1 {
    FeatureV1 {
        feature_id: id.to_owned(),
        source_primitive_id: format!("source-{id}"),
        geometry,
        attributes: attributes(vec![("class_id", AttributeValue::U64(class_id))]),
        group_id: Some("fixture".to_owned()),
        conversion_profile_id: Some("recursive_convex_hull_bound_v1".to_owned()),
        conversion_tolerance: Some(0.25f64.to_bits()),
    }
}

fn class_schema() -> Vec<AttributeFieldV1> {
    vec![AttributeFieldV1 {
        name: "class_id".to_owned(),
        value_type: AttributeType::U64,
        nullable: false,
    }]
}

fn collection(coordinate_space: CoordinateSpace, features: Vec<FeatureV1>) -> FeatureCollectionV1 {
    FeatureCollectionV1 {
        spatial_reference: SpatialReference {
            coordinate_space,
            affine: None,
            raster_interpretation: None,
        },
        attribute_schema: class_schema(),
        features,
    }
}

fn pixel_space() -> CoordinateSpace {
    CoordinateSpace::Pixel {
        origin: PixelOrigin::TopLeft,
        y_axis: AxisDirection::Down,
        anchor: PixelAnchor::Corner,
    }
}

fn bbox_values(bounds: spatial_io::Bounds) -> [f64; 4] {
    [
        f64::from_bits(bounds.xmin),
        f64::from_bits(bounds.ymin),
        f64::from_bits(bounds.xmax),
        f64::from_bits(bounds.ymax),
    ]
}

#[test]
fn local_linework_plan_has_rows_bounds_and_null_crs() {
    let local = collection(
        CoordinateSpace::Local {
            unit: "canvas_unit".to_owned(),
        },
        vec![
            feature(
                "a",
                GeometryV1::LineString(line(&[(0.0, 0.0), (2.0, 3.0)])),
                7,
            ),
            feature(
                "b",
                GeometryV1::LineString(line(&[(-1.0, 2.0), (4.0, 5.0)])),
                9,
            ),
        ],
    );
    let plan = plan_geoparquet(&local).unwrap();
    assert_eq!(plan.feature_count, 2);
    assert_eq!(bbox_values(plan.bbox), [-1.0, 0.0, 4.0, 5.0]);
    assert_eq!(bbox_values(plan.row_bounds[0]), [0.0, 0.0, 2.0, 3.0]);
    assert_eq!(bbox_values(plan.row_bounds[1]), [-1.0, 2.0, 4.0, 5.0]);
    assert_eq!(plan.geometry_types, vec![GeometryKind::LineString]);
    assert_eq!(plan.crs.projjson, None);
    assert_eq!(plan.crs.identity, "local:canvas_unit:null");
    assert_eq!(
        plan.conversion_profile_ids,
        vec!["recursive_convex_hull_bound_v1".to_owned()]
    );
    for (index, coordinates) in [[(0.0, 0.0), (2.0, 3.0)], [(-1.0, 2.0), (4.0, 5.0)]]
        .iter()
        .enumerate()
    {
        let geometry = geo_types::LineString::from(coordinates.to_vec());
        let mut expected = Vec::new();
        wkb::writer::write_line_string(
            &mut expected,
            &geometry,
            &wkb::writer::WriteOptions::default(),
        )
        .unwrap();
        assert_eq!(plan.geometries[index], expected);
    }
}

#[test]
fn polygon_rows_match_the_wkb_writer_and_list_present_types() {
    let polygon = Polygon::new(
        rectangle(0.0, 0.0, 10.0, 10.0),
        vec![rectangle(2.0, 2.0, 4.0, 4.0)],
    )
    .unwrap();
    let multipart = MultiPolygon::new(vec![
        Polygon::new(rectangle(11.0, 0.0, 12.0, 1.0), vec![]).unwrap(),
        Polygon::new(rectangle(13.0, 2.0, 14.0, 3.0), vec![]).unwrap(),
    ])
    .unwrap();
    let plan = plan_geoparquet(&collection(
        pixel_space(),
        vec![
            feature("polygon", GeometryV1::Polygon(polygon), 1),
            feature("multipolygon", GeometryV1::MultiPolygon(multipart), 2),
        ],
    ))
    .unwrap();
    assert_eq!(bbox_values(plan.bbox), [0.0, 0.0, 14.0, 10.0]);
    assert_eq!(
        plan.geometry_types,
        vec![GeometryKind::Polygon, GeometryKind::MultiPolygon]
    );
    assert_eq!(plan.crs.identity, "pixel:null");
    assert_eq!(plan.crs.projjson, None);

    let square = |xmin: f64, ymin: f64, xmax: f64, ymax: f64| {
        geo_types::LineString::from(vec![
            (xmin, ymin),
            (xmax, ymin),
            (xmax, ymax),
            (xmin, ymax),
            (xmin, ymin),
        ])
    };
    let expected_polygon = geo_types::Polygon::new(
        square(0.0, 0.0, 10.0, 10.0),
        vec![square(2.0, 2.0, 4.0, 4.0)],
    );
    let mut expected = Vec::new();
    wkb::writer::write_polygon(
        &mut expected,
        &expected_polygon,
        &wkb::writer::WriteOptions::default(),
    )
    .unwrap();
    assert_eq!(plan.geometries[0], expected);
    assert_eq!(u32::from_le_bytes(plan.geometries[0][1..5].try_into().unwrap()), 3);

    let expected_multi = geo_types::MultiPolygon::new(vec![
        geo_types::Polygon::new(square(11.0, 0.0, 12.0, 1.0), vec![]),
        geo_types::Polygon::new(square(13.0, 2.0, 14.0, 3.0), vec![]),
    ]);
    let mut expected = Vec::new();
    wkb::writer::write_multi_polygon(
        &mut expected,
        &expected_multi,
        &wkb::writer::WriteOptions::default(),
    )
    .unwrap();
    assert_eq!(plan.geometries[1], expected);
    assert_eq!(u32::from_le_bytes(plan.geometries[1][5..9].try_into().unwrap()), 2);
}

#[test]
fn empty_and_unwritable_collections_are_rejected() {
    assert_eq!(
        plan_geoparquet(&collection(pixel_space(), Vec::new())).unwrap_err(),
        SpatialIoError::InvalidGeometry("GeoParquet output requires at least one feature".to_owned())
    );
    let point_feature = feature("p", GeometryV1::Point(point(1.0, 2.0)), 1);
    assert_eq!(
        plan_geoparquet(&collection(pixel_space(), vec![point_feature])).unwrap_err(),
        SpatialIoError::UnsupportedPrimitive(
            "GeoParquet writer accepts LineString, Polygon and MultiPolygon, got Point".to_owned()
        )
    );
}

#[test]
fn conflicting_attribute_types_are_rejected_before_rows() {
    let mut first = feature("a", GeometryV1::LineString(line(&[(0.0, 0.0), (1.0, 1.0)])), 7);
    first
        .attributes
        .insert("mixed".to_owned(), AttributeValue::U64(1));
    let mut second = feature("b", GeometryV1::LineString(line(&[(1.0, 1.0), (2.0, 2.0)])), 8);
    second
        .attributes
        .insert("mixed".to_owned(), AttributeValue::String("one".to_owned()));
    let mut conflicting = collection(pixel_space(), vec![first, second]);
    assert_eq!(
        validate_feature_metadata(&conflicting),
        Err(SpatialIoError::IncompatibleAttribute {
            name: "mixed".to_owned()
        })
    );
    conflicting.attribute_schema.push(AttributeFieldV1 {
        name: "mixed".to_owned(),
        value_type: AttributeType::U64,
        nullable: false,
    });
    assert_eq!(
        plan_geoparquet(&conflicting).unwrap_err(),
        SpatialIoError::IncompatibleAttribute {
            name: "mixed".to_owned()
        }
    );
}

#[test]
fn schema_declarations_must_be_unique_named_and_unreserved() {
    let base = || {
        collection(
            pixel_space(),
            vec![feature(
                "a",
                GeometryV1::LineString(line(&[(0.0, 0.0), (1.0, 1.0)])),
                7,
            )],
        )
    };
    for rejected in ["", "geometry", "bbox", "feature_id", "conversion_tolerance", "class_id"] {
        let mut value = base();
        value.attribute_schema.push(AttributeFieldV1 {
            name: rejected.to_owned(),
            value_type: AttributeType::Bool,
            nullable: true,
        });
        assert_eq!(
            validate_feature_metadata(&value),
            Err(SpatialIoError::IncompatibleAttribute {
                name: rejected.to_owned()
            })
        );
    }
    let mut nullable = base();
    nullable.attribute_schema.push(AttributeFieldV1 {
        name: "maximum_deviation".to_owned(),
        value_type: AttributeType::F64,
        nullable: true,
    });
    assert_eq!(validate_feature_metadata(&nullable), Ok(()));
    nullable.attribute_schema[1].nullable = false;
    assert_eq!(
        validate_feature_metadata(&nullable),
        Err(SpatialIoError::IncompatibleAttribute {
            name: "maximum_deviation".to_owned()
        })
    );
}

#[test]
fn feature_values_are_checked_in_order() {
    let mut value = collection(
        pixel_space(),
        vec![feature(
            "a",
            GeometryV1::LineString(line(&[(0.0, 0.0), (1.0, 1.0)])),
            7,
        )],
    );
    value.features[0].conversion_tolerance = Some(0.0f64.to_bits());
    assert_eq!(
        validate_feature_metadata(&value),
        Err(SpatialIoError::InvalidTolerance(0.0f64.to_bits()))
    );
    value.features[0].conversion_tolerance = None;
    value.attribute_schema.push(AttributeFieldV1 {
        name: "score".to_owned(),
        value_type: AttributeType::F64,
        nullable: true,
    });
    value.features[0]
        .attributes
        .insert("score".to_owned(), AttributeValue::F64(f64::NAN.to_bits()));
    assert_eq!(
        validate_feature_metadata(&value),
        Err(SpatialIoError::NonFinite {
            field: "attribute".to_owned(),
            value: f64::NAN.to_bits()
        })
    );
    value.features[0]
        .attributes
        .insert("score".to_owned(), AttributeValue::Null);
    assert_eq!(validate_feature_metadata(&value), Ok(()));
    value.features[0]
        .attributes
        .insert("class_id".to_owned(), AttributeValue::I64(7));
    assert_eq!(
        validate_feature_metadata(&value),
        Err(SpatialIoError::IncompatibleAttribute {
            name: "class_id".to_owned()
        })
    );
}

#[test]
fn crs_resolution_names_each_space() {
    assert_eq!(resolve_crs(&pixel_space()).unwrap().identity, "pixel:null");
    let unknown = resolve_crs(&CoordinateSpace::Georeferenced { crs: Crs::Unknown }).unwrap();
    assert_eq!(unknown.identity, "unknown:null");
    assert_eq!(unknown.projjson, None);
    let epsg = resolve_crs(&CoordinateSpace::Georeferenced {
        crs: Crs::Epsg(32_618),
    })
    .unwrap();
    assert_eq!(epsg.identity, "EPSG:32618");
    let text = epsg.projjson.expect("explicit crs");
    let parsed: serde_json::Value = serde_json::from_str(&text).unwrap();
    assert_eq!(parsed["id"]["authority"], "EPSG");
    assert_eq!(parsed["id"]["code"], 32_618);
    assert_eq!(
        resolve_crs(&CoordinateSpace::Georeferenced {
            crs: Crs::Epsg(3_000_000_000),
        })
        .unwrap_err(),
        SpatialIoError::UnsupportedCrs("EPSG:3000000000 exceeds i32".to_owned())
    );
    assert_eq!(
        resolve_crs(&CoordinateSpace::Georeferenced { crs: Crs::Epsg(1) }).unwrap_err(),
        SpatialIoError::UnsupportedCrs("EPSG:1: unknown EPSG code: 1".to_owned())
    );
    let custom = resolve_crs(&CoordinateSpace::Georeferenced {
        crs: Crs::ProjJson("{\"name\":\"custom\"}".to_owned()),
    })
    .unwrap();
    assert_eq!(custom.identity, "projjson");
    assert_eq!(custom.projjson.as_deref(), Some("{\"name\":\"custom\"}"));
}

#[test]
fn crs_resolution_from_lookup_results() {
    let found = spatial_io::geoparquet::epsg_resolution_from(
        4326,
        Ok("{}".to_owned()),
        Ok(true),
    )
    .unwrap();
    assert_eq!(found.identity, "EPSG:4326");
    assert_eq!(found.projjson.as_deref(), Some("{}"));
    assert_eq!(
        spatial_io::geoparquet::epsg_resolution_from(7, Err("missing".to_owned()), Ok(false))
            .unwrap_err(),
        SpatialIoError::UnsupportedCrs("EPSG:7: missing".to_owned())
    );
    assert_eq!(
        spatial_io::geoparquet::epsg_resolution_from(
            7,
            Ok("{".to_owned()),
            Err("bad".to_owned())
        )
        .unwrap_err(),
        SpatialIoError::InvalidProjJson("bad".to_owned())
    );
    assert_eq!(
        spatial_io::geoparquet::projjson_resolution(&"[]".to_owned(), Ok(false)).unwrap_err(),
        SpatialIoError::InvalidProjJson("the root value must be an object".to_owned())
    );
}

#[test]
fn profiles_are_distinct_and_sorted() {
    let mut features = Vec::new();
    for (index, profile) in ["zeta", "alpha", "zeta", "beta"].iter().enumerate() {
        let mut value = feature(
            &format!("f{index}"),
            GeometryV1::LineString(line(&[(0.0, 0.0), (1.0, 1.0)])),
            1,
        );
        value.conversion_profile_id = Some((*profile).to_owned());
        features.push(value);
    }
    features[1].conversion_profile_id = None;
    let plan = plan_geoparquet(&collection(pixel_space(), features)).unwrap();
    assert_eq!(plan.conversion_profile_ids, vec!["beta".to_owned(), "zeta".to_owned()]);
}

#[test]
fn attestation_is_lowercase_sha256() {
    let (length, digest) = attest_bytes(b"abc");
    assert_eq!(length, 3);
    assert_eq!(
        digest,
        "ba7816bf8f01cfea414140de5dae2223b00361a396177a9cb410ff61f20015ad"
    );
    let (empty_length, empty_digest) = attest_bytes(b"");
    assert_eq!(empty_length, 0);
    assert_eq!(
        empty_digest,
        "e3b0c44298fc1c149afbf4c8996fb92427ae41e4649b934ca495991b7852b855"
    );
}

#[test]
fn write_options_default_to_no_clobber() {
    assert!(!GeoParquetWriteOptions::default().overwrite);
}

#[test]
fn attribute_columns_follow_feature_order_and_keep_nulls() {
    let mut features = vec![
        feature("a", GeometryV1::LineString(line(&[(0.0, 0.0), (1.0, 1.0)])), 7),
        feature("b", GeometryV1::LineString(line(&[(1.0, 1.0), (2.0, 2.0)])), 9),
        feature("c", GeometryV1::LineString(line(&[(2.0, 2.0), (3.0, 3.0)])), 11),
    ];
    features[0]
        .attributes
        .insert("label".to_owned(), AttributeValue::String("first".to_owned()));
    features[1]
        .attributes
        .insert("label".to_owned(), AttributeValue::Null);
    features[2]
        .attributes
        .insert("blob".to_owned(), AttributeValue::Bytes(vec![1, 2, 3]));
    let class = AttributeFieldV1 {
        name: "class_id".to_owned(),
        value_type: AttributeType::U64,
        nullable: false,
    };
    assert_eq!(
        attribute_column(&features, &class),
        AttributeColumn::U64(vec![Some(7), Some(9), Some(11)])
    );
    let label = AttributeFieldV1 {
        name: "label".to_owned(),
        value_type: AttributeType::String,
        nullable: true,
    };
    assert_eq!(
        attribute_column(&features, &label),
        AttributeColumn::String(vec![Some("first".to_owned()), None, None])
    );
    let blob = AttributeFieldV1 {
        name: "blob".to_owned(),
        value_type: AttributeType::Bytes,
        nullable: true,
    };
    assert_eq!(
        attribute_column(&features, &blob),
        AttributeColumn::Bytes(vec![None, None, Some(vec![1, 2, 3])])
    );
    let deviation = AttributeFieldV1 {
        name: "maximum_deviation".to_owned(),
        value_type: AttributeType::F64,
        nullable: true,
    };
    assert_eq!(
        attribute_column(&features, &deviation),
        AttributeColumn::F64(vec![None, None, None])
    );
}

#[test]
fn column_layout_follows_declaration_order() {
    let schema = vec![
        AttributeFieldV1 {
            name: "score".to_owned(),
            value_type: AttributeType::F64,
            nullable: true,
        },
        AttributeFieldV1 {
            name: "class_id".to_owned(),
            value_type: AttributeType::U64,
            nullable: false,
        },
    ];
    let layout: Vec<(String, ColumnKind, bool)> = geoparquet_columns(&schema)
        .into_iter()
        .map(|column| (column.name, column.kind, column.nullable))
        .collect();
    assert_eq!(
        layout,
        vec![
            ("feature_id".to_owned(), ColumnKind::Utf8, false),
            ("source_primitive_id".to_owned(), ColumnKind::Utf8, false),
            ("group_id".to_owned(), ColumnKind::Utf8, true),
            ("conversion_profile_id".to_owned(), ColumnKind::Utf8, true),
            ("conversion_tolerance".to_owned(), ColumnKind::Float64, true),
            ("score".to_owned(), ColumnKind::Attribute(AttributeType::F64), true),
            ("class_id".to_owned(), ColumnKind::Attribute(AttributeType::U64), false),
            ("geometry".to_owned(), ColumnKind::Wkb, false),
            ("bbox".to_owned(), ColumnKind::BoundsStruct, false),
        ]
    );
}

#[test]
fn provenance_columns_copy_each_feature_and_leave_absent_values_null() {
    let first = feature("a", GeometryV1::LineString(line(&[(0.0, 0.0), (1.0, 1.0)])), 1);
    let mut second = feature("b", GeometryV1::LineString(line(&[(1.0, 1.0), (2.0, 2.0)])), 2);
    second.group_id = None;
    second.conversion_profile_id = None;
    second.conversion_tolerance = None;
    let columns = provenance_columns(&vec![first, second]);
    assert_eq!(columns.feature_ids, ["a", "b"]);
    assert_eq!(columns.source_primitive_ids, ["source-a", "source-b"]);
    assert_eq!(columns.group_ids, [Some("fixture".to_owned()), None]);
    assert_eq!(
        columns.conversion_profile_ids,
        [Some("recursive_convex_hull_bound_v1".to_owned()), None]
    );
    assert_eq!(columns.conversion_tolerances, [Some(0.25f64.to_bits()), None]);
}
