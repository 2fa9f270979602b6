use coordinates_suite::Pair;
use coordinates_suite::convert::ParseOutcome;
use coordinates_suite::session::ConversionMode;
use coordinates_suite::session::CoordinatesSuite;
use coordinates_suite::session::Hemisphere;

fn pair(x: i64, y: i64) -> Pair {
    Pair { x, y }
}

fn close(a: i64, b: i64, tol: i64) -> bool {
    (a - b).abs() <= tol
}

#[test]
fn forward_projection_matches_reference_point() {
    // Capetown: lat -33.92487, lon 18.42406 -> zone 34, southern northing
    let mut s = CoordinatesSuite::new();
    s.coords_geo = vec![pair(18_424060, -33_924870)];
    assert!(s.compute_utm_coords().is_ok());
    assert_eq!(s.utm_zone, 34);
    assert_eq!(s.hemisphere, Hemisphere::South);
    // easting 261878, northing 6243186, within a meter
    assert!(close(s.coords_utm[0].x, 261878_000000, 1_000000));
    assert!(close(s.coords_utm[0].y, 6243186_000000, 1_000000));
}

#[test]
fn inverse_projection_matches_reference_point() {
    let mut s = CoordinatesSuite::new();
    s.coords_utm = vec![pair(313784_000000, 5427057_000000)];
    s.utm_zone = 60;
    s.hemisphere = Hemisphere::South;
    assert!(s.compute_geo_coords().is_ok());
    // lat -41.28646, lon 174.77624, within 1e-4 degrees
    assert!(close(s.coords_geo[0].y, -41_286460, 100));
    assert!(close(s.coords_geo[0].x, 174_776240, 100));
}

#[test]
fn round_trip_is_close_within_tolerance() {
    let mut s = CoordinatesSuite::new();
    let lon = -869147i64;
    let lat = 41_651285i64;
    s.coords_geo = vec![pair(lon, lat)];
    assert!(s.compute_utm_coords().is_ok());
    assert_eq!(s.hemisphere, Hemisphere::North);
    assert!(s.compute_geo_coords().is_ok());
    // within 1e-4 degrees = 100 micro-degrees
    assert!(close(s.coords_geo[0].x, lon, 100));
    assert!(close(s.coords_geo[0].y, lat, 100));
}

#[test]
fn zone_and_hemisphere_come_from_first_point() {
    let mut s = CoordinatesSuite::new();
    s.coords_geo = vec![pair(2_000000, 45_000000), pair(9_000000, 46_000000)];
    assert!(s.compute_utm_coords().is_ok());
    assert_eq!(s.utm_zone, 31);
    assert_eq!(s.hemisphere, Hemisphere::North);

    let mut t = CoordinatesSuite::new();
    t.coords_geo = vec![pair(2_000000, -20_000000)];
    assert!(t.compute_utm_coords().is_ok());
    assert_eq!(t.hemisphere, Hemisphere::South);
}

#[test]
fn empty_projected_set_fails_silently() {
    let mut s = CoordinatesSuite::new();
    let before = s.coords_geo.clone();
    assert!(s.compute_geo_coords().is_err());
    assert_eq!(s.coords_geo, before);
}

#[test]
fn out_of_domain_point_fails_whole_batch() {
    let mut s = CoordinatesSuite::new();
    s.coords_geo = vec![pair(174_000000, -41_000000)];
    s.coords_utm = vec![
        pair(313784_000000, 5427057_000000),
        // easting of 50 meters is outside the inverse projection's domain
        pair(50_000000, 5427057_000000),
    ];
    s.utm_zone = 60;
    s.hemisphere = Hemisphere::South;
    let before = s.coords_geo.clone();
    assert!(s.compute_geo_coords().is_err());
    // all-or-nothing: the geographic list is untouched
    assert_eq!(s.coords_geo, before);
}

#[test]
fn bad_zone_fails_whole_batch() {
    let mut s = CoordinatesSuite::new();
    s.coords_utm = vec![pair(313784_000000, 5427057_000000)];
    s.utm_zone = 0;
    let before = s.coords_geo.clone();
    assert!(s.compute_geo_coords().is_err());
    assert_eq!(s.coords_geo, before);
}

#[test]
fn parse_coordinates_classifies_geographic_text() {
    let mut s = CoordinatesSuite::new();
    // pasted as latitude longitude
    let outcome = s.parse_coordinates("45.0 2.0");
    assert_eq!(outcome, ParseOutcome::Converted);
    assert_eq!(s.conversion_mode, ConversionMode::LatLontoUTM);
    // stored geographic pairs are [longitude, latitude]
    assert_eq!(s.coords_geo, vec![pair(2_000000, 45_000000)]);
    assert_eq!(s.utm_zone, 31);
    assert_eq!(s.hemisphere, Hemisphere::North);
    assert_eq!(s.coords_utm.len(), 1);
}

#[test]
fn parse_coordinates_classifies_projected_text() {
    let mut s = CoordinatesSuite::new();
    s.utm_zone = 60;
    s.hemisphere = Hemisphere::South;
    let outcome = s.parse_coordinates("313784 5427057");
    assert_eq!(outcome, ParseOutcome::Converted);
    assert_eq!(s.conversion_mode, ConversionMode::UTMtoLatLon);
    assert_eq!(s.coords_utm, vec![pair(313784_000000, 5427057_000000)]);
    assert_eq!(s.coords_geo.len(), 1);
    assert!(close(s.coords_geo[0].y, -41_286460, 100));
}

#[test]
fn parse_coordinates_leaves_state_on_empty_text() {
    let mut s = CoordinatesSuite::new();
    s.coords_geo = vec![pair(1, 2)];
    s.utm_zone = 42;
    let outcome = s.parse_coordinates("nothing numeric");
    assert_eq!(outcome, ParseOutcome::Empty);
    assert_eq!(s.coords_geo, vec![pair(1, 2)]);
    assert_eq!(s.utm_zone, 42);
    assert_eq!(s.conversion_mode, ConversionMode::LatLontoUTM);
}

#[test]
fn parse_coordinates_reports_failed_conversion() {
    let mut s = CoordinatesSuite::new();
    s.coords_geo = vec![pair(7, 8)];
    // second value above 1000 classifies as projected, but an easting of
    // 500 meters has no inverse: the conversion fails and the prior
    // geographic list stays
    let outcome = s.parse_coordinates("500 5427057");
    assert_eq!(outcome, ParseOutcome::Failed);
    assert_eq!(s.conversion_mode, ConversionMode::UTMtoLatLon);
    assert_eq!(s.coords_utm, vec![pair(500_000000, 5427057_000000)]);
    assert_eq!(s.coords_geo, vec![pair(7, 8)]);
}

#[test]
fn mode_labels_match() {
    assert_eq!(ConversionMode::UTMtoLatLon.label(), "UTM to Lat/Lon");
    assert_eq!(ConversionMode::LatLontoUTM.label(), "Lat/Lon to UTM");
    assert_eq!(Hemisphere::North.label(), "North");
    assert_eq!(Hemisphere::South.label(), "South");
}
