use spatial_io::{
    check_source_ids, CubicBezier, CubicPath, FlattenOptions, FlattenWork, Point2, SpatialIoError,
};

fn point(x: f64, y: f64) -> Point2 {
    Point2::new(x.to_bits(), y.to_bits()).expect("finite fixture")
}

#[test]
fn rejects_invalid_tolerance_and_disconnected_paths() {
    assert!(FlattenOptions::new(0.0f64.to_bits()).is_err());
    assert!(FlattenOptions::new(f64::NAN.to_bits()).is_err());
    let disconnected = CubicPath::new(vec![
        CubicBezier::new(
            point(0.0, 0.0),
            point(0.0, 0.0),
            point(1.0, 0.0),
            point(1.0, 0.0),
        ),
        CubicBezier::new(
            point(2.0, 0.0),
            point(2.0, 0.0),
            point(3.0, 0.0),
            point(3.0, 0.0),
        ),
    ]);
    assert!(disconnected.is_err());
}

#[test]
fn tolerance_must_be_finite_and_positive() {
    for rejected in [0.0, -0.0, -1.0, f64::INFINITY, f64::NEG_INFINITY] {
        assert_eq!(
            FlattenOptions::new(rejected.to_bits()),
            Err(SpatialIoError::InvalidTolerance(rejected.to_bits()))
        );
    }
    let options = FlattenOptions::new(0.25f64.to_bits()).unwrap();
    assert_eq!(options.tolerance(), 0.25f64.to_bits());
    assert!(FlattenOptions::new(f64::from_bits(1).to_bits()).is_ok());
}

fn straight(x0: f64, x3: f64) -> CubicBezier {
    CubicBezier::new(
        point(x0, 0.0),
        point(x0 + 1.0, 0.0),
        point(x3 - 1.0, 0.0),
        point(x3, 0.0),
    )
}

#[test]
fn flat_pieces_append_seams_once() {
    let first = straight(0.0, 3.0);
    let second = straight(3.0, 6.0);
    let path = CubicPath::new(vec![first, second]).unwrap();
    let ids = vec!["first".to_owned(), "second".to_owned()];
    check_source_ids(&path, &ids).unwrap();
    let mut work = FlattenWork::start(path.segments()[0].p0);
    for cubic in path.segments() {
        work.push_cubic(*cubic);
        while let Some((_piece, _depth)) = work.current() {
            work.accept_flat();
        }
    }
    let options = FlattenOptions::new(0.01f64.to_bits()).unwrap();
    let derived = work.finish(ids, options);
    assert_eq!(
        derived.line.points(),
        &[point(0.0, 0.0), point(3.0, 0.0), point(6.0, 0.0)]
    );
    assert_eq!(derived.source_primitive_ids, ["first", "second"]);
    assert_eq!(derived.profile_id, "recursive_convex_hull_bound_v1");
    assert_eq!(derived.tolerance, 0.01f64.to_bits());
    assert_eq!(derived.subdivision_count, 0);
}

#[test]
fn closed_cubic_keeps_a_zero_length_line() {
    let anchor = point(10.0, 20.0);
    let closed = CubicBezier::new(anchor, point(10.25, 20.0), point(10.0, 20.25), anchor);
    let mut work = FlattenWork::start(anchor);
    work.push_cubic(closed);
    work.accept_flat();
    let options = FlattenOptions::new(0.5f64.to_bits()).unwrap();
    let derived = work.finish(Vec::new(), options);
    assert_eq!(derived.line.points(), &[anchor, anchor]);
    assert_eq!(derived.subdivision_count, 0);
}

#[test]
fn closed_path_keeps_a_zero_length_line() {
    let anchor = point(10.0, 20.0);
    let path = CubicPath::new(vec![CubicBezier::new(
        anchor,
        point(10.25, 20.0),
        point(10.0, 20.25),
        anchor,
    )])
    .unwrap();
    let ids = vec!["closed".to_owned()];
    check_source_ids(&path, &ids).unwrap();
    let mut work = FlattenWork::start(path.segments()[0].p0);
    for cubic in path.segments() {
        work.push_cubic(*cubic);
        while work.current().is_some() {
            work.accept_flat();
        }
    }
    let derived = work
        .finish(ids, FlattenOptions::new(0.5f64.to_bits()).unwrap());
    assert_eq!(derived.line.points(), &[anchor, anchor]);
    assert_eq!(derived.subdivision_count, 0);
    assert_eq!(derived.source_primitive_ids, ["closed"]);
}

#[test]
fn subdivision_is_depth_first_and_fails_closed_at_the_limit() {
    let cubic = straight(0.0, 8.0);
    let left = straight(0.0, 4.0);
    let right = straight(4.0, 8.0);
    let mut work = FlattenWork::start(cubic.p0);
    work.push_cubic(cubic);
    assert!(work.check_depth().is_ok());
    work.subdivide(left, right);
    assert_eq!(work.current(), Some((left, 1)));
    work.accept_flat();
    assert_eq!(work.current(), Some((right, 1)));
    work.accept_flat();
    assert_eq!(work.current(), None);
    let derived = work
        .finish(vec!["curve".to_owned()], FlattenOptions::new(1f64.to_bits()).unwrap());
    assert_eq!(
        derived.line.points(),
        &[point(0.0, 0.0), point(4.0, 0.0), point(8.0, 0.0)]
    );
    assert_eq!(derived.subdivision_count, 1);

    let mut deep = FlattenWork::start(cubic.p0);
    deep.push_cubic(cubic);
    for _ in 0..32 {
        assert!(deep.check_depth().is_ok());
        deep.subdivide(left, right);
    }
    assert_eq!(
        deep.check_depth(),
        Err(SpatialIoError::SubdivisionLimit { max_depth: 32 })
    );
}

#[test]
fn source_ids_must_match_segments() {
    let path = CubicPath::new(vec![straight(0.0, 3.0)]).unwrap();
    match check_source_ids(&path, &Vec::new()) {
        Err(SpatialIoError::InvalidGeometry(message)) => {
            assert_eq!(message, "source primitive id count must match cubic segment count");
        }
        other => panic!("unexpected {other:?}"),
    }
}

#[test]
fn a_closed_first_piece_leaves_no_repeated_seam() {
    let anchor = point(0.0, 0.0);
    let loop_back = CubicBezier::new(anchor, point(0.25, 0.0), point(0.0, 0.25), anchor);
    let onward = straight(0.0, 3.0);
    let mut work = FlattenWork::start(anchor);
    for cubic in [loop_back, onward] {
        work.push_cubic(cubic);
        while work.current().is_some() {
            work.accept_flat();
        }
    }
    let derived = work.finish(Vec::new(), FlattenOptions::new(0.5f64.to_bits()).unwrap());
    assert_eq!(derived.line.points(), &[anchor, point(3.0, 0.0)]);
}
