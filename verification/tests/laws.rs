use spatial_io::{
    plan_geoparquet, AttributeFieldV1, AttributeMap, AttributeType, AttributeValue,
    CoordinateSpace, Crs, FeatureCollectionV1, FeatureV1, GeometryV1, LinearRing, MultiPolygon,
    Point2, Polygon, RingWinding, SegmentRelation, SpatialReference,
};

fn points(coordinates: &[(f64, f64)]) -> Vec<Point2> {
    coordinates
        .iter()
        .map(|&(x, y)| Point2::new(x.to_bits(), y.to_bits()).unwrap())
        .collect()
}

fn reversed(positions: &[Point2]) -> Vec<Point2> {
    positions.iter().copied().rev().collect()
}

#[test]
fn reversing_a_valid_ring_flips_its_winding() {
    let l_shape = points(&[
        (0.0, 0.0),
        (3.0, 0.0),
        (3.0, 1.0),
        (1.0, 1.0),
        (1.0, 3.0),
        (0.0, 3.0),
        (0.0, 0.0),
    ]);
    let forward = LinearRing::new(l_shape.clone()).unwrap();
    let backward = LinearRing::new(reversed(&l_shape)).unwrap();
    assert_eq!(forward.winding(), RingWinding::CounterClockwise);
    assert_eq!(backward.winding(), RingWinding::Clockwise);
}

#[test]
fn polygon_roles_accept_either_winding() {
    let shell = points(&[(0.0, 0.0), (10.0, 0.0), (10.0, 10.0), (0.0, 10.0), (0.0, 0.0)]);
    let hole = points(&[(2.0, 2.0), (4.0, 2.0), (4.0, 4.0), (2.0, 4.0), (2.0, 2.0)]);
    for shell_positions in [shell.clone(), reversed(&shell)] {
        for hole_positions in [hole.clone(), reversed(&hole)] {
            let polygon = Polygon::new(
                LinearRing::new(shell_positions.clone()).unwrap(),
                vec![LinearRing::new(hole_positions.clone()).unwrap()],
            );
            assert!(polygon.is_ok());
        }
    }
    let outside = points(&[(12.0, 2.0), (14.0, 2.0), (14.0, 4.0), (12.0, 4.0), (12.0, 2.0)]);
    for hole_positions in [outside.clone(), reversed(&outside)] {
        assert!(Polygon::new(
            LinearRing::new(reversed(&shell)).unwrap(),
            vec![LinearRing::new(hole_positions).unwrap()],
        )
        .is_err());
    }
}

#[test]
fn ring_validity_survives_translation_and_scaling() {
    let base = [(0.0, 0.0), (4.0, 0.0), (2.0, 1.0), (4.0, 4.0), (0.0, 4.0), (0.0, 0.0)];
    let bow_tie = [(0.0, 0.0), (4.0, 4.0), (0.0, 5.0), (4.0, 0.0), (0.0, 0.0)];
    for (offset, scale) in [(0.0, 1.0), (-7.5, 2.0), (1e12, 0.25), (0.0, 2f64.powi(-300))] {
        let moved = |shape: &[(f64, f64)]| {
            shape
                .iter()
                .map(|&(x, y)| (x * scale + offset, y * scale + offset))
                .collect::<Vec<_>>()
        };
        let ring = LinearRing::new(points(&moved(&base))).unwrap();
        assert_eq!(ring.winding(), RingWinding::CounterClockwise);
        assert!(LinearRing::new(points(&moved(&bow_tie))).is_err());
    }
}

#[test]
fn preparing_a_collection_twice_gives_identical_rows() {
    let square = |x: f64| {
        Polygon::new(
            LinearRing::new(points(&[
                (x, 0.0),
                (x + 1.0, 0.0),
                (x + 1.0, 1.0),
                (x, 1.0),
                (x, 0.0),
            ]))
            .unwrap(),
            vec![],
        )
        .unwrap()
    };
    let mut attributes = AttributeMap::new();
    attributes.insert("label".to_owned(), AttributeValue::String("x".to_owned()));
    let collection = FeatureCollectionV1 {
        spatial_reference: SpatialReference {
            coordinate_space: CoordinateSpace::Georeferenced { crs: Crs::Unknown },
            affine: None,
            raster_interpretation: None,
        },
        attribute_schema: vec![AttributeFieldV1 {
            name: "label".to_owned(),
            value_type: AttributeType::String,
            nullable: false,
        }],
        features: vec![FeatureV1 {
            feature_id: "m".to_owned(),
            source_primitive_id: "s".to_owned(),
            geometry: GeometryV1::MultiPolygon(
                MultiPolygon::new(vec![square(0.0), square(3.0)]).unwrap(),
            ),
            attributes,
            group_id: None,
            conversion_profile_id: None,
            conversion_tolerance: None,
        }],
    };
    let first = plan_geoparquet(&collection).unwrap();
    let second = plan_geoparquet(&collection).unwrap();
    assert_eq!(first.geometries, second.geometries);
    assert_eq!(first.crs.identity, "unknown:null");
    assert_eq!(first.crs.identity, second.crs.identity);
    assert!(first.conversion_profile_ids.is_empty());
    assert_eq!(
        [first.bbox.xmin, first.bbox.ymin, first.bbox.xmax, first.bbox.ymax],
        [0f64.to_bits(), 0f64.to_bits(), 4f64.to_bits(), 1f64.to_bits()]
    );
}

#[test]
fn deserialization_cannot_bypass_ring_validation() {
    let open = points(&[(0.0, 0.0), (4.0, 0.0), (4.0, 4.0), (0.0, 4.0)]);
    assert!(LinearRing::try_from_parts(open, RingWinding::CounterClockwise).is_err());
    let closed = points(&[(0.0, 0.0), (4.0, 0.0), (4.0, 4.0), (0.0, 4.0), (0.0, 0.0)]);
    assert_eq!(
        LinearRing::try_from_parts(closed.clone(), RingWinding::Clockwise),
        Err(spatial_io::SpatialIoError::InvalidGeometry(
            "serialized linear ring winding does not match its coordinates".to_owned()
        ))
    );
    let ring = LinearRing::try_from_parts(closed.clone(), RingWinding::CounterClockwise).unwrap();
    assert_eq!(ring.points(), closed);
}

fn exact(x: f64, y: f64) -> spatial_io::ExactPoint {
    spatial_io::ExactPoint::from_point(Point2::new(x.to_bits(), y.to_bits()).unwrap())
}

fn relation(segments: [(f64, f64); 4]) -> SegmentRelation {
    let [a, b, c, d] = segments.map(|(x, y)| exact(x, y));
    spatial_io::topology::segment_relation(&a, &b, &c, &d)
}

#[test]
fn segments_are_disjoint_exactly_when_they_share_no_point() {
    // Crossing at the non-integer point (0.5, 0.5).
    assert_eq!(relation([(0.0, 0.0), (1.0, 1.0), (0.0, 1.0), (1.0, 0.0)]), SegmentRelation::Cross);
    // Sharing one end.
    assert_eq!(relation([(0.0, 0.0), (1.0, 1.0), (1.0, 1.0), (3.0, 0.0)]), SegmentRelation::Touch);
    // An end in the middle of the other segment.
    assert_eq!(relation([(0.0, 0.0), (2.0, 0.0), (1.0, 0.0), (1.0, 5.0)]), SegmentRelation::Touch);
    // Collinear, sharing a stretch.
    assert_eq!(relation([(0.0, 0.0), (2.0, 2.0), (1.0, 1.0), (3.0, 3.0)]), SegmentRelation::Overlap);
    // Collinear with a gap, and parallel with overlapping boxes.
    assert_eq!(relation([(0.0, 0.0), (1.0, 0.0), (2.0, 0.0), (3.0, 0.0)]), SegmentRelation::Disjoint);
    assert_eq!(relation([(0.0, 0.0), (2.0, 1.0), (0.0, 0.5), (2.0, 1.5)]), SegmentRelation::Disjoint);
}

#[test]
fn triangle_winding_follows_its_area() {
    // Twice the shoelace area of (0,0), (4,0), (0,3) is 24 > 0.
    let triangle = points(&[(0.0, 0.0), (4.0, 0.0), (0.0, 3.0), (0.0, 0.0)]);
    let ring = LinearRing::new(triangle.clone()).unwrap();
    assert_eq!(ring.winding(), RingWinding::CounterClockwise);
    let reversed_ring = LinearRing::new(reversed(&triangle)).unwrap();
    assert_eq!(reversed_ring.winding(), RingWinding::Clockwise);
    // Three collinear vertices enclose no area.
    assert!(LinearRing::new(points(&[(0.0, 0.0), (1.0, 1.0), (2.0, 2.0), (0.0, 0.0)])).is_err());
}
