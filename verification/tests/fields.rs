use gnafr::fields::split_fields;
use gnafr::line::e;

#[test]
fn empty_field_is_absent() {
    assert_eq!(e(""), None);
    assert_eq!(e("x"), Some("x"));
    assert_eq!(e(" "), Some(" "));
}

#[test]
fn splits_at_every_separator() {
    assert_eq!(split_fields("a|b||c"), vec!["a", "b", "", "c"]);
    assert_eq!(split_fields("abc"), vec!["abc"]);
    assert_eq!(split_fields(""), vec![""]);
    assert_eq!(split_fields("|"), vec!["", ""]);
    assert_eq!(split_fields("a|"), vec!["a", ""]);
    assert_eq!(split_fields("|a"), vec!["", "a"]);
}

#[test]
fn split_keeps_text_beyond_ascii() {
    assert_eq!(split_fields("caf\u{e9}|\u{6771}\u{4eac}"), vec!["caf\u{e9}", "\u{6771}\u{4eac}"]);
}

#[test]
fn split_fields_rejoin_to_the_line() {
    let line = "A1||3 Main St|||x|";
    assert_eq!(split_fields(line).join("|"), line);
}
