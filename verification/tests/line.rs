use gnafr::line::{decode_line, Axis, LineError, Required, FIELDS_PER_LINE};

fn sample_fields() -> Vec<String> {
    let mut fields = vec![String::new(); FIELDS_PER_LINE];
    fields[0] = "GANSW1".to_string();
    fields[1] = "2024-01-01".to_string();
    fields[2] = "UNIT 3, 123 MAIN ST, SYDNEY NSW 2000".to_string();
    fields[5] = "UNIT".to_string();
    fields[6] = "3".to_string();
    fields[9] = "123".to_string();
    fields[12] = "MAIN".to_string();
    fields[13] = "STREET".to_string();
    fields[15] = "SYDNEY".to_string();
    fields[16] = "NSW".to_string();
    fields[17] = "2000".to_string();
    fields[21] = "GANSW0".to_string();
    fields[23] = "GANSW9".to_string();
    fields[25] = "151.2".to_string();
    fields[26] = "-33.8".to_string();
    fields
}

fn with(at: usize, value: &str) -> String {
    let mut fields = sample_fields();
    fields[at] = value.to_string();
    fields.join("|")
}

#[test]
fn decodes_every_attribute_from_its_position() {
    let mut fields: Vec<String> = Vec::new();
    for i in 0..FIELDS_PER_LINE {
        fields.push(format!("f{}", i));
    }
    fields[25] = "1.5".to_string();
    fields[26] = "-2.25".to_string();
    let a = decode_line(&fields.join("|")).unwrap();
    assert_eq!(a.id, "f0");
    assert_eq!(a.display, "f2");
    assert_eq!(a.site_name.as_deref(), Some("f3"));
    assert_eq!(a.building_name.as_deref(), Some("f4"));
    assert_eq!(a.flat_type.as_deref(), Some("f5"));
    assert_eq!(a.flat_number.as_deref(), Some("f6"));
    assert_eq!(a.level_type.as_deref(), Some("f7"));
    assert_eq!(a.level_number.as_deref(), Some("f8"));
    assert_eq!(a.number_first.as_deref(), Some("f9"));
    assert_eq!(a.number_last.as_deref(), Some("f10"));
    assert_eq!(a.lot_number.as_deref(), Some("f11"));
    assert_eq!(a.street_name, "f12");
    assert_eq!(a.street_type.as_deref(), Some("f13"));
    assert_eq!(a.street_suffix.as_deref(), Some("f14"));
    assert_eq!(a.locality, "f15");
    assert_eq!(a.state, "f16");
    assert_eq!(a.postcode, "f17");
    assert_eq!(a.alias_of.as_deref(), Some("f21"));
    assert_eq!(a.child_of.as_deref(), Some("f23"));
    assert_eq!(a.longitude, 150_000_000);
    assert_eq!(a.latitude, -225_000_000);
}

#[test]
fn longitude_stands_before_latitude() {
    let a = decode_line(&sample_fields().join("|")).unwrap();
    assert_eq!(a.latitude, -3_380_000_000);
    assert_eq!(a.longitude, 15_120_000_000);
}

#[test]
fn empty_optional_fields_are_absent() {
    let a = decode_line(&sample_fields().join("|")).unwrap();
    assert_eq!(a.site_name, None);
    assert_eq!(a.building_name, None);
    assert_eq!(a.level_type, None);
    assert_eq!(a.level_number, None);
    assert_eq!(a.number_last, None);
    assert_eq!(a.lot_number, None);
    assert_eq!(a.street_suffix, None);
    assert_eq!(a.flat_type.as_deref(), Some("UNIT"));
    assert_eq!(a.alias_of.as_deref(), Some("GANSW0"));
    let b = decode_line(&with(21, "")).unwrap();
    assert_eq!(b.alias_of, None);
    let c = decode_line(&with(23, "")).unwrap();
    assert_eq!(c.child_of, None);
}

#[test]
fn empty_required_fields_fail() {
    assert_eq!(decode_line(&with(0, "")), Err(LineError::Missing(Required::Id)));
    assert_eq!(decode_line(&with(2, "")), Err(LineError::Missing(Required::Display)));
    assert_eq!(decode_line(&with(12, "")), Err(LineError::Missing(Required::StreetName)));
    assert_eq!(decode_line(&with(15, "")), Err(LineError::Missing(Required::Locality)));
    assert_eq!(decode_line(&with(16, "")), Err(LineError::Missing(Required::State)));
    assert_eq!(decode_line(&with(17, "")), Err(LineError::Missing(Required::Postcode)));
}

#[test]
fn wrong_field_count_fails() {
    let mut short = sample_fields();
    short.pop();
    assert_eq!(decode_line(&short.join("|")), Err(LineError::FieldCount { found: 26 }));
    let mut long = sample_fields();
    long.push("x".to_string());
    assert_eq!(decode_line(&long.join("|")), Err(LineError::FieldCount { found: 28 }));
    assert_eq!(decode_line(""), Err(LineError::FieldCount { found: 1 }));
}

#[test]
fn unreadable_coordinates_fail() {
    assert_eq!(decode_line(&with(26, "south")), Err(LineError::Coordinate(Axis::Latitude)));
    assert_eq!(decode_line(&with(26, "")), Err(LineError::Coordinate(Axis::Latitude)));
    assert_eq!(decode_line(&with(25, "1e2")), Err(LineError::Coordinate(Axis::Longitude)));
    assert_eq!(decode_line(&with(25, "")), Err(LineError::Coordinate(Axis::Longitude)));
}

#[test]
fn first_fault_is_reported() {
    let mut fields = sample_fields();
    fields[2] = String::new();
    fields[16] = String::new();
    fields[26] = "x".to_string();
    fields[25] = "y".to_string();
    assert_eq!(decode_line(&fields.join("|")), Err(LineError::Missing(Required::Display)));
    fields[2] = "d".to_string();
    assert_eq!(decode_line(&fields.join("|")), Err(LineError::Missing(Required::State)));
    fields[16] = "NSW".to_string();
    assert_eq!(decode_line(&fields.join("|")), Err(LineError::Coordinate(Axis::Latitude)));
    fields[26] = "1".to_string();
    assert_eq!(decode_line(&fields.join("|")), Err(LineError::Coordinate(Axis::Longitude)));
    fields.pop();
    assert_eq!(decode_line(&fields.join("|")), Err(LineError::FieldCount { found: 26 }));
}
