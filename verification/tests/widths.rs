use tabular::width_string::WidthString;

#[test]
fn empty_string_has_width_zero() {
    let ws = WidthString::new("");
    assert_eq!(ws.width(), 0);
    assert_eq!(ws.as_str(), "");
}

#[test]
fn ascii_width_is_character_count() {
    let ws = WidthString::new("hello");
    assert_eq!(ws.width(), 5);
    assert_eq!(ws.as_str(), "hello");
}

#[test]
fn east_asian_wide_characters_count_double() {
    let ws = WidthString::new("日本");
    assert_eq!(ws.width(), 4);
    assert_eq!(ws.as_str(), "日本");
}

#[test]
fn display_values_are_rendered_to_text() {
    let ws = WidthString::new(1234);
    assert_eq!(ws.as_str(), "1234");
    assert_eq!(ws.width(), 4);
    let measured = WidthString::from_str("1234");
    assert_eq!(measured.as_str(), "1234");
    assert_eq!(measured.width(), 4);
}
