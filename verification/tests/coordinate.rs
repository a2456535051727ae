use gnafr::coordinate::parse_coordinate;

#[test]
fn reads_whole_and_fraction() {
    assert_eq!(parse_coordinate("-33.8"), Some(-3_380_000_000));
    assert_eq!(parse_coordinate("151.2"), Some(15_120_000_000));
    assert_eq!(parse_coordinate("-37.81361234"), Some(-3_781_361_234));
    assert_eq!(parse_coordinate("0"), Some(0));
    assert_eq!(parse_coordinate("-0"), Some(0));
    assert_eq!(parse_coordinate("007"), Some(700_000_000));
}

#[test]
fn reads_sign_and_open_ends() {
    assert_eq!(parse_coordinate("+1.5"), Some(150_000_000));
    assert_eq!(parse_coordinate(".5"), Some(50_000_000));
    assert_eq!(parse_coordinate("5."), Some(500_000_000));
    assert_eq!(parse_coordinate("-.25"), Some(-25_000_000));
    assert_eq!(parse_coordinate("0.00000001"), Some(1));
}

#[test]
fn refuses_what_is_no_number() {
    assert_eq!(parse_coordinate(""), None);
    assert_eq!(parse_coordinate("-"), None);
    assert_eq!(parse_coordinate("+"), None);
    assert_eq!(parse_coordinate("."), None);
    assert_eq!(parse_coordinate("-."), None);
    assert_eq!(parse_coordinate("abc"), None);
    assert_eq!(parse_coordinate("1.2.3"), None);
    assert_eq!(parse_coordinate("--1"), None);
    assert_eq!(parse_coordinate("1-"), None);
    assert_eq!(parse_coordinate(" 1"), None);
    assert_eq!(parse_coordinate("1 "), None);
    assert_eq!(parse_coordinate("1e5"), None);
    assert_eq!(parse_coordinate("inf"), None);
    assert_eq!(parse_coordinate("NaN"), None);
    assert_eq!(parse_coordinate("1,5"), None);
}

#[test]
fn refuses_more_fraction_digits_than_held() {
    assert_eq!(parse_coordinate("1.12345678"), Some(112_345_678));
    assert_eq!(parse_coordinate("1.123456789"), None);
    assert_eq!(parse_coordinate("1.000000000"), None);
}

#[test]
fn refuses_what_is_too_large() {
    assert_eq!(parse_coordinate("92233720368.54775807"), Some(i64::MAX));
    assert_eq!(parse_coordinate("-92233720368.54775807"), Some(-i64::MAX));
    assert_eq!(parse_coordinate("92233720368.54775808"), None);
    assert_eq!(parse_coordinate("92233720369"), None);
    assert_eq!(parse_coordinate("99999999999999999999999999999999"), None);
    assert_eq!(parse_coordinate("00000000000000000000000000000001"), Some(100_000_000));
}
