use geodist::GeoCoordinate;

#[test]
fn literal_pair_exact() {
    let c = GeoCoordinate::from_text("42.3541165, -71.0693514").unwrap();
    assert_eq!(c.lat_nano, 42_354_116_500);
    assert_eq!(c.lng_nano, -71_069_351_400);
}

#[test]
fn literal_pair_whitespace() {
    let c = GeoCoordinate::from_text("  39.152501 ,\t-84.412977  ").unwrap();
    assert_eq!(c.lat_nano, 39_152_501_000);
    assert_eq!(c.lng_nano, -84_412_977_000);
}

#[test]
fn literal_pair_sign_and_dot_forms() {
    let c = GeoCoordinate::from_text("+1.5,.5").unwrap();
    assert_eq!(c.lat_nano, 1_500_000_000);
    assert_eq!(c.lng_nano, 500_000_000);
    let d = GeoCoordinate::from_text("1.,-2").unwrap();
    assert_eq!(d.lat_nano, 1_000_000_000);
    assert_eq!(d.lng_nano, -2_000_000_000);
}

#[test]
fn literal_pair_truncates_past_nine_digits() {
    let c = GeoCoordinate::from_text("0.0000000001, 0").unwrap();
    assert_eq!(c.lat_nano, 0);
    assert_eq!(c.lng_nano, 0);
}

#[test]
fn malformed_no_comma() {
    assert!(GeoCoordinate::from_text("abc").is_none());
}

#[test]
fn malformed_empty() {
    assert!(GeoCoordinate::from_text("").is_none());
}

#[test]
fn malformed_two_points() {
    assert!(GeoCoordinate::from_text("1..2,3").is_none());
}

#[test]
fn malformed_overflowing_degrees() {
    assert!(GeoCoordinate::from_text("10000000000,0").is_none());
}

#[test]
fn largest_representable_degrees() {
    let c = GeoCoordinate::from_text("9223372036.854775807, -9223372036.854775807").unwrap();
    assert_eq!(c.lat_nano, i64::MAX);
    assert_eq!(c.lng_nano, -i64::MAX);
    assert!(GeoCoordinate::from_text("9223372036.854775808, 0").is_none());
}

#[test]
fn token_parses() {
    let c = GeoCoordinate::from_text("8826085a4dfffff");
    assert!(c.is_some());
}

#[test]
fn token_repeat_identical() {
    let c1 = GeoCoordinate::from_text("8826085a4dfffff").unwrap();
    let c2 = GeoCoordinate::from_text("8826085a4dfffff").unwrap();
    assert_eq!(c1, c2);
}

#[test]
fn token_and_numeric_index_agree() {
    let by_token = GeoCoordinate::from_text("8826085a4dfffff").unwrap();
    let by_index = GeoCoordinate::from_text("613158626388869119").unwrap();
    assert_eq!(by_token, by_index);
}
