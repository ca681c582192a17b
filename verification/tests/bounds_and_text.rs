use spatial_io::bounds::{parts_bounds, points_bounds};
use spatial_io::text::{decimal, sorted_distinct, text_equal, text_less};
use spatial_io::{AttributeMap, AttributeValue, Point2};

fn point(x: f64, y: f64) -> Point2 {
    Point2::new(x.to_bits(), y.to_bits()).expect("finite fixture")
}

#[test]
fn bounds_are_exact_minima_and_maxima() {
    let points = vec![point(3.0, -2.0), point(-1.5, 4.0), point(2.0, 1e300)];
    let bounds = points_bounds(&points);
    assert_eq!(f64::from_bits(bounds.xmin), -1.5);
    assert_eq!(f64::from_bits(bounds.ymin), -2.0);
    assert_eq!(f64::from_bits(bounds.xmax), 3.0);
    assert_eq!(f64::from_bits(bounds.ymax), 1e300);
    let tiny = f64::from_bits(1);
    let parts = vec![
        vec![vec![point(0.0, 0.0), point(tiny, -tiny)]],
        vec![vec![point(-tiny, 5.0)], vec![point(7.0, 0.5)]],
    ];
    let bounds = parts_bounds(&parts);
    assert_eq!(f64::from_bits(bounds.xmin), -tiny);
    assert_eq!(f64::from_bits(bounds.ymin), -tiny);
    assert_eq!(f64::from_bits(bounds.xmax), 7.0);
    assert_eq!(f64::from_bits(bounds.ymax), 5.0);
}

#[test]
fn decimal_text_matches_display() {
    for value in [0u64, 7, 10, 32_618, 3_000_000_000, u64::MAX] {
        assert_eq!(decimal(value), value.to_string());
    }
}

#[test]
fn text_order_is_byte_order() {
    assert!(text_less("alpha", "beta"));
    assert!(!text_less("beta", "alpha"));
    assert!(text_less("a", "ab"));
    assert!(text_less("Z", "a"));
    assert!(text_equal("same", "same"));
    assert!(!text_equal("same", "Same"));
    let distinct = sorted_distinct(&vec![
        "zeta".to_owned(),
        "alpha".to_owned(),
        "zeta".to_owned(),
        "é".to_owned(),
        "beta".to_owned(),
    ]);
    assert_eq!(distinct, vec!["alpha", "beta", "zeta", "é"]);
}

#[test]
fn attribute_map_reads_back_what_was_written() {
    let mut map = AttributeMap::new();
    map.insert("b".to_owned(), AttributeValue::I64(-4));
    map.insert("a".to_owned(), AttributeValue::Bool(true));
    map.insert("b".to_owned(), AttributeValue::String("x".to_owned()));
    assert_eq!(map.get("a"), Some(&AttributeValue::Bool(true)));
    assert_eq!(map.get("b"), Some(&AttributeValue::String("x".to_owned())));
    assert_eq!(map.get("c"), None);
    assert_eq!(map.names(), &["a".to_owned(), "b".to_owned()]);
    assert_eq!(map.values().len(), 2);
}
