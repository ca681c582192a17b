use spatial_io::{Affine2D, Crs, Point2, SpatialIoError};

fn affine(
    origin_x: f64,
    x_scale: f64,
    x_skew: f64,
    origin_y: f64,
    y_skew: f64,
    y_scale: f64,
) -> Result<Affine2D, SpatialIoError> {
    Affine2D::new(
        origin_x.to_bits(),
        x_scale.to_bits(),
        x_skew.to_bits(),
        origin_y.to_bits(),
        y_skew.to_bits(),
        y_scale.to_bits(),
    )
}

#[test]
fn rejects_invalid_points_and_projjson() {
    assert!(Point2::new(f64::NAN.to_bits(), 0.0f64.to_bits()).is_err());
    assert!(Crs::projjson("[]".to_owned()).is_err());
    assert!(Crs::epsg(0).is_err());
}

#[test]
fn rejects_singular_affines() {
    assert!(affine(0.0, 1.0, 2.0, 0.0, 2.0, 4.0).is_err());
}

#[test]
fn affine_invertibility_is_independent_of_units() {
    // Applying the affine to a point is binary64 arithmetic outside the
    // library; invertibility is decided exactly here.
    for scale in [1e-200, 1e-9, 1., 1e200] {
        assert!(affine(0., scale, 0., 0., 0., -scale).is_ok());
        assert!(affine(0., scale, 2. * scale, 0., 2. * scale, 4. * scale).is_err());
    }
    assert!(affine(0., 1.1, 1.1, 0., 1.1, 1.1).is_err());
    assert!(affine(0., 1., 1., 0., 1., f64::from_bits(1f64.to_bits() + 1)).is_ok());
}

#[test]
fn affine_reports_first_non_finite_coefficient() {
    match affine(0.0, 1.0, f64::INFINITY, f64::NAN, 0.0, 1.0) {
        Err(SpatialIoError::NonFinite { field, value }) => {
            assert_eq!(field, "x_skew");
            assert_eq!(value, f64::INFINITY.to_bits());
        }
        other => panic!("unexpected {other:?}"),
    }
    match affine(0.0, 1.0, 2.0, 0.0, 2.0, 4.0) {
        Err(SpatialIoError::InvalidAffine(message)) => {
            assert_eq!(message, "linear component is singular");
        }
        other => panic!("unexpected {other:?}"),
    }
}

#[test]
fn mutated_affine_fails_validation() {
    let mut value = affine(0., 1., 0., 0., 0., 1.).unwrap();
    assert!(value.validate().is_ok());
    value.y_scale = 0f64.to_bits();
    assert!(matches!(value.validate(), Err(SpatialIoError::InvalidAffine(_))));
    value.y_scale = f64::INFINITY.to_bits();
    assert!(matches!(value.validate(), Err(SpatialIoError::NonFinite { .. })));
}

#[test]
fn point_errors_name_the_coordinate() {
    match Point2::new(1f64.to_bits(), f64::NEG_INFINITY.to_bits()) {
        Err(SpatialIoError::NonFinite { field, value }) => {
            assert_eq!(field, "y");
            assert_eq!(value, f64::NEG_INFINITY.to_bits());
        }
        other => panic!("unexpected {other:?}"),
    }
    let point = Point2::new((-0.0f64).to_bits(), 2.5f64.to_bits()).unwrap();
    assert_eq!(point.x(), (-0.0f64).to_bits());
    assert_eq!(point.y(), 2.5f64.to_bits());
    assert_eq!(point, Point2::new(0.0f64.to_bits(), 2.5f64.to_bits()).unwrap());
}

#[test]
fn crs_constructors_keep_valid_identities() {
    assert_eq!(Crs::epsg(32_618).unwrap(), Crs::Epsg(32_618));
    match Crs::epsg(0) {
        Err(SpatialIoError::UnsupportedCrs(message)) => {
            assert_eq!(message, "EPSG code must be greater than zero");
        }
        other => panic!("unexpected {other:?}"),
    }
    assert_eq!(
        Crs::projjson("{\"type\":\"ProjectedCRS\"}".to_owned()).unwrap(),
        Crs::ProjJson("{\"type\":\"ProjectedCRS\"}".to_owned())
    );
    match Crs::projjson("[]".to_owned()) {
        Err(SpatialIoError::InvalidProjJson(message)) => {
            assert_eq!(message, "the root value must be an object");
        }
        other => panic!("unexpected {other:?}"),
    }
    assert!(matches!(
        Crs::projjson("{".to_owned()),
        Err(SpatialIoError::InvalidProjJson(_))
    ));
}

#[test]
fn exact_determinant_sign_sees_one_ulp() {
    let one = 1f64.to_bits();
    let next = f64::from_bits(1f64.to_bits() + 1).to_bits();
    assert_eq!(spatial_io::determinant_sign(one, one, one, one), 0);
    assert_eq!(spatial_io::determinant_sign(one, one, one, next), 1);
    assert_eq!(spatial_io::determinant_sign(next, one, one, one), 1);
    assert_eq!(spatial_io::determinant_sign(one, next, one, one), -1);
}
