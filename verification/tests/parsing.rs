use tabular::Error;
use tabular::Table;
use tabular::column_spec::ColumnSpec;
use tabular::column_spec::parse_row_spec;
use tabular::column_spec::row_spec_to_string;

#[test]
fn column_count_and_segments() {
    let (tokens, count) = parse_row_spec("{:>}  ({:<}) {:<}").unwrap();
    assert_eq!(count, 3);
    assert_eq!(
        tokens,
        vec![
            ColumnSpec::Right,
            ColumnSpec::Literal("  (".to_string()),
            ColumnSpec::Left,
            ColumnSpec::Literal(") ".to_string()),
            ColumnSpec::Left,
        ]
    );
}

#[test]
fn unrecognized_specifier_fails() {
    assert_eq!(
        parse_row_spec("{:?}").unwrap_err(),
        Error::BadColumnSpec(":?".to_string())
    );
    assert!(Table::new_safe("{:?}").is_err());
}

#[test]
fn unclosed_specifier_fails() {
    assert_eq!(
        parse_row_spec("{").unwrap_err(),
        Error::UnclosedColumnSpec("".to_string())
    );
    assert_eq!(
        parse_row_spec("{:").unwrap_err(),
        Error::UnclosedColumnSpec(":".to_string())
    );
    assert_eq!(
        parse_row_spec("{:<").unwrap_err(),
        Error::UnclosedColumnSpec(":<".to_string())
    );
    assert_eq!(
        parse_row_spec("{:>").unwrap_err(),
        Error::UnclosedColumnSpec(":>".to_string())
    );
    assert!(Table::new_safe("{").is_err());
}

#[test]
fn dangling_close_brace_fails() {
    assert_eq!(parse_row_spec("}").unwrap_err(), Error::UnexpectedRightBrace);
    assert_eq!(parse_row_spec("a}b").unwrap_err(), Error::UnexpectedRightBrace);
    assert!(Table::new_safe("}").is_err());
}

#[test]
fn unexpected_character_fails() {
    assert_eq!(
        parse_row_spec("{a").unwrap_err(),
        Error::UnexpectedCharacter('a')
    );
    assert_eq!(
        parse_row_spec("{:<x}").unwrap_err(),
        Error::UnexpectedCharacter('x')
    );
    assert_eq!(
        parse_row_spec("{:>y}").unwrap_err(),
        Error::UnexpectedCharacter('y')
    );
}

#[test]
fn doubled_braces_are_literals() {
    let (tokens, count) = parse_row_spec("}}").unwrap();
    assert_eq!(count, 0);
    assert_eq!(tokens, vec![ColumnSpec::Literal("}".to_string())]);

    let (tokens, count) = parse_row_spec("{{x}}").unwrap();
    assert_eq!(count, 0);
    assert_eq!(tokens, vec![ColumnSpec::Literal("{x}".to_string())]);
}

#[test]
fn serialize_escapes_braces() {
    let (tokens, _) = parse_row_spec("{{x}}{:<}").unwrap();
    assert_eq!(
        tokens,
        vec![
            ColumnSpec::Literal("{x}".to_string()),
            ColumnSpec::Left,
        ]
    );
    assert_eq!(row_spec_to_string(&tokens), "{{x}}{:<}");
}

#[test]
fn parse_serialize_round_trip() {
    let templates = [
        "{:>}  ({:<}) {:<}",
        "{{x}}{:<}",
        "plain text",
        "",
        "{:<}{:>}",
        "a {{ b }} c {:>} d",
    ];
    for template in templates {
        let (tokens, count) = parse_row_spec(template).unwrap();
        let rewritten = row_spec_to_string(&tokens);
        let (tokens2, count2) = parse_row_spec(&rewritten).unwrap();
        assert_eq!(tokens, tokens2);
        assert_eq!(count, count2);
    }
}
