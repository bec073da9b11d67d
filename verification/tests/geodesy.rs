use qsoripper::geodesy::{
    endpoint_samples, maidenhead_to_geopoint, resolve_sample_count, validate_point, GeoPoint,
    GeodesyError, GridPoint, DEFAULT_SAMPLE_COUNT, MAX_SAMPLE_COUNT,
};

fn pt(lat: f64, lon: f64) -> GeoPoint {
    GeoPoint { latitude_bits: lat.to_bits(), longitude_bits: lon.to_bits() }
}

fn degrees(p: GridPoint) -> (f64, f64) {
    (p.latitude_480ths as f64 / 480.0, p.longitude_480ths as f64 / 480.0)
}

#[test]
fn validate_accepts_normal_points() {
    assert!(validate_point(&pt(0.0, 0.0)).is_ok());
    assert!(validate_point(&pt(89.999, 179.999)).is_ok());
    assert!(validate_point(&pt(-90.0, -180.0)).is_ok());
}

#[test]
fn validate_rejects_out_of_range_or_nan() {
    assert!(matches!(validate_point(&pt(91.0, 0.0)), Err(GeodesyError::LatitudeOutOfRange(_))));
    assert!(matches!(validate_point(&pt(0.0, 181.0)), Err(GeodesyError::LongitudeOutOfRange(_))));
    assert!(matches!(validate_point(&pt(f64::NAN, 0.0)), Err(GeodesyError::LatitudeOutOfRange(_))));
    assert!(matches!(
        validate_point(&pt(0.0, f64::INFINITY)),
        Err(GeodesyError::LongitudeOutOfRange(_))
    ));
}

#[test]
fn validate_reports_the_offending_value_and_checks_latitude_first() {
    let bad = 95.5f64;
    assert_eq!(validate_point(&pt(bad, 500.0)), Err(GeodesyError::LatitudeOutOfRange(bad.to_bits())));
    assert_eq!(validate_point(&pt(-0.0, -180.0)), Ok(()));
    assert_eq!(
        validate_point(&pt(0.0, f64::NEG_INFINITY)),
        Err(GeodesyError::LongitudeOutOfRange(f64::NEG_INFINITY.to_bits()))
    );
}

#[test]
fn maidenhead_4char_center() {
    let (lat, lon) = degrees(maidenhead_to_geopoint("CN87").unwrap());
    assert!((lon - (-123.0)).abs() < 1e-6, "lon={}", lon);
    assert!((lat - 47.5).abs() < 1e-6, "lat={}", lat);
}

#[test]
fn maidenhead_6char_center_in_4char_cell() {
    let (lat4, lon4) = degrees(maidenhead_to_geopoint("CN87").unwrap());
    let (lat6, lon6) = degrees(maidenhead_to_geopoint("CN87wn").unwrap());
    assert!((lon6 - lon4).abs() < 2.0);
    assert!((lat6 - lat4).abs() < 1.0);
}

#[test]
fn maidenhead_case_insensitive() {
    let (ulat, ulon) = degrees(maidenhead_to_geopoint("CN87WN").unwrap());
    let (llat, llon) = degrees(maidenhead_to_geopoint("cn87wn").unwrap());
    assert!((ulat - llat).abs() < 1e-9);
    assert!((ulon - llon).abs() < 1e-9);
}

#[test]
fn maidenhead_8char_center_in_6char_cell() {
    let (lat6, lon6) = degrees(maidenhead_to_geopoint("CN87wn").unwrap());
    let (lat8, lon8) = degrees(maidenhead_to_geopoint("CN87wn46").unwrap());
    assert!((lon8 - lon6).abs() < (2.0 / 24.0));
    assert!((lat8 - lat6).abs() < (1.0 / 24.0));
}

#[test]
fn maidenhead_rejects_bad_input() {
    assert!(matches!(maidenhead_to_geopoint(""), Err(GeodesyError::InvalidMaidenhead(_))));
    assert!(matches!(maidenhead_to_geopoint("CN8"), Err(GeodesyError::InvalidMaidenhead(_))));
    assert!(matches!(maidenhead_to_geopoint("ZZ87"), Err(GeodesyError::InvalidMaidenhead(_))));
    assert!(matches!(maidenhead_to_geopoint("CNAB"), Err(GeodesyError::InvalidMaidenhead(_))));
}

#[test]
fn maidenhead_error_messages_name_the_fault() {
    let message = |locator: &str| match maidenhead_to_geopoint(locator) {
        Err(GeodesyError::InvalidMaidenhead(m)) => m,
        other => panic!("expected an error, got {:?}", other),
    };
    assert_eq!(message("CN8"), "expected 4, 6, or 8 characters, got 3");
    assert_eq!(message("ZZ87"), "bad field char Z");
    assert_eq!(message("CNAB"), "bad square digit A");
    assert_eq!(message("CN87zz"), "bad subsquare char Z");
    assert_eq!(message("CN87wnXY"), "bad extended digit X");
}

#[test]
fn maidenhead_ignores_surrounding_whitespace_and_gives_exact_centres() {
    assert_eq!(
        maidenhead_to_geopoint("  cn87wn46 \n"),
        Ok(GridPoint { latitude_480ths: 47 * 480 + 13 * 20 + 6 * 2 + 1, longitude_480ths: -124 * 480 + 22 * 40 + 4 * 4 + 2 })
    );
    assert_eq!(maidenhead_to_geopoint("AA00"), Ok(GridPoint { latitude_480ths: -90 * 480 + 240, longitude_480ths: -180 * 480 + 480 }));
}

#[test]
fn resolve_sample_count_behaviour() {
    assert_eq!(resolve_sample_count(0).unwrap(), DEFAULT_SAMPLE_COUNT);
    assert_eq!(resolve_sample_count(2).unwrap(), 2);
    assert_eq!(resolve_sample_count(64).unwrap(), 64);
    assert_eq!(resolve_sample_count(MAX_SAMPLE_COUNT).unwrap(), MAX_SAMPLE_COUNT);
    assert!(matches!(resolve_sample_count(1), Err(GeodesyError::SampleCountOutOfRange(1))));
    assert!(matches!(
        resolve_sample_count(MAX_SAMPLE_COUNT + 1),
        Err(GeodesyError::SampleCountOutOfRange(_))
    ));
}

#[test]
fn endpoint_samples_split_at_the_midpoint() {
    let a = pt(10.0, 20.0);
    let b = pt(-10.0, -160.0);
    assert_eq!(endpoint_samples(a, b, 0), vec![a, b]);
    assert_eq!(endpoint_samples(a, b, 5), vec![a, a, b, b, b]);
    assert_eq!(endpoint_samples(a, b, 4), vec![a, a, b, b]);
}
