use coordinates_suite::Pair;
use coordinates_suite::session::CoordinatesSuite;
use coordinates_suite::viewport::DEFAULT_LAT;
use coordinates_suite::viewport::DEFAULT_LON;
use coordinates_suite::viewport::SINGLE_POINT_ZOOM;

fn pair(x: i64, y: i64) -> Pair {
    Pair { x, y }
}

fn with_geo(points: Vec<Pair>) -> CoordinatesSuite {
    let mut s = CoordinatesSuite::new();
    s.coords_geo = points;
    s
}

#[test]
fn single_point_always_gets_fixed_zoom() {
    let s = with_geo(vec![pair(2_000000, 45_000000)]);
    assert_eq!(s.calculate_zoom_level(), SINGLE_POINT_ZOOM);
    let t = with_geo(vec![pair(-179_999999, 89_000000)]);
    assert_eq!(t.calculate_zoom_level(), SINGLE_POINT_ZOOM);
}

#[test]
fn zoom_levels_for_known_ranges() {
    // latitude range 0.01 degrees: padded range 13000, first tile below is
    // 11000 micro-degrees at index 15
    let s = with_geo(vec![pair(0, 0), pair(0, 10000)]);
    assert_eq!(s.calculate_zoom_level(), 15);
    // latitude range 1 degree: padded 1300000, first tile below is 703000
    // at index 9
    let t = with_geo(vec![pair(0, 0), pair(0, 1_000000)]);
    assert_eq!(t.calculate_zoom_level(), 9);
    // a range wider than the whole table
    let u = with_geo(vec![pair(-180_000000, 0), pair(179_000000, 0)]);
    assert_eq!(u.calculate_zoom_level(), 0);
}

#[test]
fn tighter_range_zooms_in_at_least_as_far() {
    let narrow = with_geo(vec![pair(0, 0), pair(0, 10000)]);
    let wide = with_geo(vec![pair(0, 0), pair(0, 1_000000)]);
    assert!(narrow.calculate_zoom_level() >= wide.calculate_zoom_level());
}

#[test]
fn degenerate_range_defaults_to_zero() {
    // two identical points: range 0 exceeds no tile
    let s = with_geo(vec![pair(5_000000, 5_000000), pair(5_000000, 5_000000)]);
    assert_eq!(s.calculate_zoom_level(), 0);
}

#[test]
fn viewport_center_is_the_mean() {
    let s = with_geo(vec![pair(30_000000, 10_000000), pair(50_000000, 20_000000)]);
    let v = s.move_map_to_points();
    assert_eq!(v.lon, 40_000000);
    assert_eq!(v.lat, 15_000000);
}

#[test]
fn empty_set_gets_default_center() {
    let s = CoordinatesSuite::new();
    let v = s.move_map_to_points();
    assert_eq!(v.lon, DEFAULT_LON);
    assert_eq!(v.lat, DEFAULT_LAT);
    assert_eq!(v.zoom, 0);
}

#[test]
fn viewport_of_single_point_centers_on_it() {
    let s = with_geo(vec![pair(2_250000, 45_500000)]);
    let v = s.move_map_to_points();
    assert_eq!(v.lon, 2_250000);
    assert_eq!(v.lat, 45_500000);
    assert_eq!(v.zoom, SINGLE_POINT_ZOOM);
}

#[test]
fn markup_export_matches_exact_layout() {
    let mut s = CoordinatesSuite::new();
    s.coords_geo = vec![pair(1_500000, -2_000000)];
    let expected = "<?xml version=\"1.0\" encoding=\"UTF-8\"?>\n            <kml xmlns=\"http://www.opengis.net/kml/2.2\">\n                <Document>\n                    <name>Coordinates</name>\n                    <Placemark>\n                        <Point>\n                            <coordinates>1.5,-2,0</coordinates>\n                        </Point>\n                    </Placemark>\n                </Document>\n            </kml>";
    assert_eq!(s.export_kmz(), expected);
}

#[test]
fn empty_delimited_export_is_exactly_the_header() {
    let s = CoordinatesSuite::new();
    assert_eq!(s.export_csv_utm(), "Easting\tNorthing\n");
    assert_eq!(s.export_csv_latlon(), "Latitude\tLongitude\n");
}

#[test]
fn delimited_exports_render_rows() {
    let mut s = CoordinatesSuite::new();
    s.coords_utm = vec![pair(500000_000000, 4612345_123456)];
    s.coords_geo = vec![pair(-869147, 41_651285)];
    assert_eq!(s.export_csv_utm(), "Easting\tNorthing\n500000\t4612345.123456\n");
    assert_eq!(s.export_csv_latlon(), "Latitude\tLongitude\n41.651285\t-0.869147\n");
}

#[test]
fn clipboard_texts_render_lines_without_header() {
    let mut s = CoordinatesSuite::new();
    s.coords_geo = vec![pair(-869147, 41_650000), pair(2_000000, 45_000000)];
    s.coords_utm = vec![pair(1_500000, 2_000000)];
    assert_eq!(s.geo_clipboard_text(), "41.65\t-0.869147\n45\t2");
    assert_eq!(s.utm_clipboard_text(), "1.5\t2");
}

#[test]
fn markup_export_wraps_one_placemark_per_point() {
    let mut s = CoordinatesSuite::new();
    s.coords_geo = vec![pair(-869147, 41_650000)];
    let kml = s.export_kmz();
    assert!(kml.starts_with("<?xml version=\"1.0\" encoding=\"UTF-8\"?>"));
    assert!(kml.contains("<name>Coordinates</name>"));
    assert!(kml.contains("<coordinates>-0.869147,41.65,0</coordinates>"));
    assert!(kml.ends_with("</kml>"));
    assert_eq!(kml.matches("<Placemark>").count(), 1);
}

#[test]
fn markup_export_of_empty_set_has_no_placemark() {
    let s = CoordinatesSuite::new();
    let kml = s.export_kmz();
    assert_eq!(kml.matches("<Placemark>").count(), 0);
    assert!(kml.contains("<name>Coordinates</name>"));
}

#[test]
fn scaled_values_print_with_trimmed_fractions() {
    let mut s = CoordinatesSuite::new();
    s.coords_geo = vec![
        pair(0, 42_000000),
        pair(1_200000, -1_200000),
        pair(500, -500),
    ];
    assert_eq!(
        s.geo_clipboard_text(),
        "42\t0\n-1.2\t1.2\n-0.0005\t0.0005"
    );
}
