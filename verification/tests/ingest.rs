use gnafr::ingest::{ingest_compressed, ingest_text, IngestError};
use gnafr::line::{Axis, LineError, Required};

const HEADER: &str = "ID|DATE|DISPLAY|SITE|BUILDING|FLAT_TYPE|FLAT_NUMBER|LEVEL_TYPE|LEVEL_NUMBER|FIRST|LAST|LOT|STREET|TYPE|SUFFIX|LOCALITY|STATE|POSTCODE|A|B|C|ALIAS|D|CHILD|E|LONGITUDE|LATITUDE";

fn record(id: &str, alias_of: &str, longitude: &str, latitude: &str) -> String {
    format!(
        "{}||{} MAIN ST||||||||||MAIN|ST||SYDNEY|NSW|2000||||{}||||{}|{}",
        id, id, alias_of, longitude, latitude
    )
}

fn extract(lines: &[String]) -> Vec<u8> {
    let mut text = String::from(HEADER);
    for line in lines {
        text.push('\n');
        text.push_str(line);
    }
    text.push('\n');
    text.into_bytes()
}

fn ids(data: &[u8]) -> Vec<String> {
    let store = ingest_text(data).unwrap();
    store.records().iter().map(|a| a.id.clone()).collect()
}

#[test]
fn header_is_passed_over() {
    let data = extract(&[record("A1", "", "151.2", "-33.8"), record("A2", "A1", "151.3", "-33.9")]);
    assert_eq!(ids(&data), vec!["A1", "A2"]);
    assert_eq!(ids(HEADER.as_bytes()), Vec::<String>::new());
    assert_eq!(ids(b""), Vec::<String>::new());
    assert_eq!(ids(b"\n"), Vec::<String>::new());
}

#[test]
fn header_is_not_read_at_all() {
    let mut data = vec![0xff, 0xfe, b'|', b'\n'];
    data.extend_from_slice(record("A1", "", "1", "2").as_bytes());
    assert_eq!(ids(&data), vec!["A1"]);
}

#[test]
fn last_line_may_lack_its_line_feed() {
    let mut data = extract(&[record("A1", "", "1", "2"), record("A2", "", "3", "4")]);
    data.pop();
    assert_eq!(ids(&data), vec!["A1", "A2"]);
}

#[test]
fn carriage_returns_end_lines_too() {
    let text = format!("{}\r\n{}\r\n{}", HEADER, record("A1", "", "1", "2"), record("A2", "", "3", "4.5"));
    let store = ingest_text(text.as_bytes()).unwrap();
    assert_eq!(store.len(), 2);
    assert_eq!(store.records()[1].latitude, 450_000_000);
}

#[test]
fn records_hold_what_their_lines_spell() {
    let data = extract(&[record("A1", "", "151.2", "-33.8"), record("A2", "A1", "151.3", "-33.9")]);
    let store = ingest_text(&data).unwrap();
    let second = store.lookup("A2").unwrap();
    assert_eq!(second.id, "A2");
    assert_eq!(second.display, "A2 MAIN ST");
    assert_eq!(second.street_name, "MAIN");
    assert_eq!(second.street_type.as_deref(), Some("ST"));
    assert_eq!(second.locality, "SYDNEY");
    assert_eq!(second.state, "NSW");
    assert_eq!(second.postcode, "2000");
    assert_eq!(second.alias_of.as_deref(), Some("A1"));
    assert_eq!(second.child_of, None);
    assert_eq!(second.site_name, None);
    assert_eq!(second.longitude, 15_130_000_000);
    assert_eq!(second.latitude, -3_390_000_000);
    assert_eq!(store.lookup("A1").unwrap().alias_of, None);
}

#[test]
fn a_line_that_is_no_address_fails_the_extract() {
    let data = extract(&[record("A1", "", "1", "2"), "A2|too|short".to_string(), record("A3", "", "1", "2")]);
    assert_eq!(
        ingest_text(&data).err(),
        Some(IngestError::Line { line: 2, error: LineError::FieldCount { found: 3 } })
    );
    let data = extract(&[record("", "", "1", "2")]);
    assert_eq!(
        ingest_text(&data).err(),
        Some(IngestError::Line { line: 1, error: LineError::Missing(Required::Id) })
    );
    let data = extract(&[record("A1", "", "1", "2"), record("A2", "", "east", "2")]);
    assert_eq!(
        ingest_text(&data).err(),
        Some(IngestError::Line { line: 2, error: LineError::Coordinate(Axis::Longitude) })
    );
}

#[test]
fn an_empty_line_fails_the_extract() {
    let mut data = extract(&[record("A1", "", "1", "2")]);
    data.push(b'\n');
    assert_eq!(
        ingest_text(&data).err(),
        Some(IngestError::Line { line: 2, error: LineError::FieldCount { found: 1 } })
    );
}

#[test]
fn a_repeated_id_fails_the_extract() {
    let data = extract(&[record("A1", "", "1", "2"), record("A2", "", "1", "2"), record("A1", "", "5", "6")]);
    assert_eq!(ingest_text(&data).err(), Some(IngestError::DuplicateId { line: 3 }));
}

#[test]
fn a_line_that_is_not_utf8_fails_the_extract() {
    let mut data = extract(&[record("A1", "", "1", "2")]);
    data.extend_from_slice(b"A2|\xff\xfe|rest\n");
    assert_eq!(ingest_text(&data).err(), Some(IngestError::Encoding { line: 2 }));
}

#[test]
fn first_faulty_line_is_reported() {
    let mut data = extract(&[record("A1", "", "1", "2"), "short".to_string()]);
    data.extend_from_slice(b"\xff\n");
    data.extend_from_slice(record("A1", "", "1", "2").as_bytes());
    assert_eq!(
        ingest_text(&data).err(),
        Some(IngestError::Line { line: 2, error: LineError::FieldCount { found: 1 } })
    );
}

#[test]
fn text_beyond_ascii_is_kept() {
    let line = "A1||12 RUE DE L'\u{c9}GLISE||||||||||\u{c9}GLISE|RUE||M\u{dc}NCHEN|NSW|2000||||||||1|2";
    let data = extract(&[line.to_string()]);
    let store = ingest_text(&data).unwrap();
    assert_eq!(store.records()[0].street_name, "\u{c9}GLISE");
    assert_eq!(store.records()[0].locality, "M\u{dc}NCHEN");
}

#[test]
fn compressed_extract_is_decompressed_first() {
    let data = extract(&[record("A1", "", "151.2", "-33.8"), record("A2", "A1", "151.3", "-33.9")]);
    let packed = zstd::stream::encode_all(&data[..], 3).unwrap();
    assert!(packed != data);
    let store = ingest_compressed(&packed).unwrap();
    assert_eq!(store.len(), 2);
    assert_eq!(store.lookup("A2").unwrap().alias_of.as_deref(), Some("A1"));
    assert_eq!(store.lookup("A1").unwrap().latitude, -3_380_000_000);
}

#[test]
fn compressed_extract_reports_the_faults_of_its_text() {
    let data = extract(&[record("A1", "", "1", "2"), record("A1", "", "1", "2")]);
    let packed = zstd::stream::encode_all(&data[..], 3).unwrap();
    assert_eq!(ingest_compressed(&packed).err(), Some(IngestError::DuplicateId { line: 2 }));
}

#[test]
fn data_that_is_no_zstd_stream_fails() {
    let data = extract(&[record("A1", "", "1", "2")]);
    assert_eq!(ingest_compressed(&data).err(), Some(IngestError::Compression));
    let packed = zstd::stream::encode_all(&data[..], 3).unwrap();
    assert_eq!(ingest_compressed(&packed[..packed.len() - 3]).err(), Some(IngestError::Compression));
}
