use coordinates_suite::Pair;
use coordinates_suite::extract::parse_number_pairs;
use coordinates_suite::session::ConversionMode;
use coordinates_suite::session::classify;
use coordinates_suite::session::zone_number;

fn pair(x: i64, y: i64) -> Pair {
    Pair { x, y }
}

#[test]
fn extraction_is_deterministic() {
    let text = "some 41.65 text -0.87 with 12,5 numbers 3e2";
    let a = parse_number_pairs(text);
    let b = parse_number_pairs(text);
    assert_eq!(a, b);
}

#[test]
fn odd_token_count_drops_trailing_token() {
    let pairs = parse_number_pairs("1 2 3");
    assert_eq!(pairs, vec![pair(1_000000, 2_000000)]);
}

#[test]
fn comma_and_point_extract_equally() {
    let a = parse_number_pairs("41,65 -0,87");
    let b = parse_number_pairs("41.65 -0.87");
    assert_eq!(a, b);
    assert_eq!(a, vec![pair(41_650000, -870000)]);
}

#[test]
fn tokens_survive_surrounding_text() {
    let pairs = parse_number_pairs("lat: 45.5; lon: 2.25 (approx)");
    assert_eq!(pairs, vec![pair(45_500000, 2_250000)]);
}

#[test]
fn exponents_are_read() {
    let pairs = parse_number_pairs("1e3 2.5e-2");
    assert_eq!(pairs, vec![pair(1000_000000, 25000)]);
}

#[test]
fn unparseable_tokens_are_skipped() {
    // the middle token overflows the representable range and is skipped,
    // so the remaining three values pair up as two then one dropped
    let pairs = parse_number_pairs("1.5 99999999999999999999999 2 4");
    assert_eq!(pairs, vec![pair(1_500000, 2_000000)]);
}

#[test]
fn second_separator_starts_a_new_token() {
    // "12.34.56" reads as the token 12.34 and then the token 56
    let pairs = parse_number_pairs("12.34.56");
    assert_eq!(pairs, vec![pair(12_340000, 56_000000)]);
}

#[test]
fn bare_exponent_marker_is_not_part_of_a_token() {
    let pairs = parse_number_pairs("1.5e 2e+");
    assert_eq!(pairs, vec![pair(1_500000, 2_000000)]);
}

#[test]
fn empty_text_extracts_nothing() {
    assert_eq!(parse_number_pairs(""), vec![]);
    assert_eq!(parse_number_pairs("no numbers here"), vec![]);
}

#[test]
fn single_value_makes_no_pair() {
    assert_eq!(parse_number_pairs("1,2"), vec![]);
}

#[test]
fn negative_signs_attach_to_tokens() {
    let pairs = parse_number_pairs("-41.65 +0.87");
    assert_eq!(pairs, vec![pair(-41_650000, 870000)]);
}

#[test]
fn classifier_threshold_is_strict_on_magnitude() {
    assert_eq!(classify(&pair(0, 1000_010000)), ConversionMode::UTMtoLatLon);
    assert_eq!(classify(&pair(0, 999_990000)), ConversionMode::LatLontoUTM);
    assert_eq!(classify(&pair(0, 1000_000000)), ConversionMode::LatLontoUTM);
    assert_eq!(classify(&pair(0, -1000_010000)), ConversionMode::UTMtoLatLon);
}

#[test]
fn zone_numbers_follow_standard_bands() {
    // longitude 2.0 east of Greenwich lies in zone 31
    assert_eq!(zone_number(45_000000, 2_000000), 31);
    assert_eq!(zone_number(0, 0), 31);
    assert_eq!(zone_number(-33_924870, 18_424060), 34);
}

#[test]
fn zone_numbers_follow_regional_exceptions() {
    // south-western Norway is folded into zone 32
    assert_eq!(zone_number(57_000000, 4_000000), 32);
    // Svalbard bands
    assert_eq!(zone_number(75_000000, 10_000000), 33);
    assert_eq!(zone_number(75_000000, 8_000000), 31);
    assert_eq!(zone_number(75_000000, 30_000000), 35);
    assert_eq!(zone_number(75_000000, 40_000000), 37);
}
