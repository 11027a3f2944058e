use sbom_insight::identifier::{Field, ParsedUri, SoftwareIdentifier, FIELDS};

fn value(token: &str) -> Field {
    Field::Value(token.to_string())
}

fn fields(id: &SoftwareIdentifier) -> Vec<Field> {
    (0..FIELDS).map(|i| id.field(i).clone()).collect()
}

fn all_any() -> [Field; 9] {
    [
        Field::Any,
        Field::Any,
        Field::Any,
        Field::Any,
        Field::Any,
        Field::Any,
        Field::Any,
        Field::Any,
        Field::Any,
    ]
}

#[test]
fn parse_reads_the_attributes_in_their_order() {
    let id = SoftwareIdentifier::parse("cpe:/a:apache:struts:2.3.15").unwrap();
    assert_eq!(
        fields(&id),
        vec![
            value("a"),
            value("apache"),
            value("struts"),
            value("2.3.15"),
            Field::Any,
            Field::Any,
            Field::Any,
            Field::Any,
            Field::Any,
            Field::Any,
            Field::Any,
        ]
    );
    assert_eq!(id.text(), "cpe:/a:apache:struts:2.3.15:*:*:*");
}

#[test]
fn parse_normalizes_first() {
    let id = SoftwareIdentifier::parse("cpe:/a:apache:*").unwrap();
    assert_eq!(id.field(1), &value("apache"));
    assert_eq!(id.field(2), &Field::Any);
    assert_eq!(id.text(), "cpe:/a:apache:*:*:*:*:*");
    let same = SoftwareIdentifier::parse("cpe:/a:apache").unwrap();
    assert_eq!(id, same);
}

#[test]
fn parse_reads_language_and_packed_edition() {
    let id =
        SoftwareIdentifier::parse("cpe:/a:hp:insight_diagnostics:7.4.0.1570:-:~~online~win2003~x64~:en-us")
            .unwrap();
    assert_eq!(
        fields(&id),
        vec![
            value("a"),
            value("hp"),
            value("insight_diagnostics"),
            value("7.4.0.1570"),
            Field::NotApplicable,
            Field::Any,
            value("en-US"),
            value("online"),
            value("win2003"),
            value("x64"),
            Field::Any,
        ]
    );
}

#[test]
fn parse_decodes_percent_escapes() {
    let id = SoftwareIdentifier::parse("cpe:/a:foo%21:bar").unwrap();
    assert_eq!(id.field(1), &value("foo!"));
}

#[test]
fn an_empty_part_stands_for_any_value() {
    let id = SoftwareIdentifier::parse("cpe:/:microsoft:internet_explorer").unwrap();
    assert_eq!(id.field(0), &Field::Any);
    assert_eq!(id.field(1), &value("microsoft"));
    let starred = SoftwareIdentifier::parse("cpe:/*:microsoft:internet_explorer").unwrap();
    assert_eq!(starred.field(0), &Field::Any);
}

#[test]
fn the_bare_prefix_is_all_any() {
    let id = SoftwareIdentifier::parse("cpe:/").unwrap();
    for i in 0..FIELDS {
        assert_eq!(id.field(i), &Field::Any);
    }
}

#[test]
fn parse_rejects_a_wrong_prefix() {
    let error = SoftwareIdentifier::parse("pkg:/a:apache").unwrap_err();
    assert_eq!(error.message, "invalid prefix for `pkg:/a:apache`");
}

#[test]
fn parse_rejects_an_unknown_part() {
    let error = SoftwareIdentifier::parse("cpe:/x:apache").unwrap_err();
    assert_eq!(error.message, "Invalid CPE type \"x\"");
}

#[test]
fn parse_rejects_an_invalid_attribute() {
    assert!(SoftwareIdentifier::parse("cpe:/a:apa che").is_err());
}

#[test]
fn parse_rejects_an_empty_language_in_the_middle() {
    assert!(SoftwareIdentifier::parse("cpe:/a:b:c:d:e:f::").is_err());
}

#[test]
fn from_parsed_reads_tokens() {
    let mut components = all_any();
    components[0] = value("vendor");
    components[1] = Field::NotApplicable;
    components[2] = Field::Value(String::new());
    components[8] = value("other");
    let id = SoftwareIdentifier::from_parsed(ParsedUri {
        part: "o".to_string(),
        components,
        language: Some("de".to_string()),
        rendered: "shown".to_string(),
    });
    assert_eq!(
        fields(&id),
        vec![
            value("o"),
            value("vendor"),
            Field::NotApplicable,
            Field::Any,
            Field::Any,
            Field::Any,
            value("de"),
            Field::Any,
            Field::Any,
            Field::Any,
            value("other"),
        ]
    );
    assert_eq!(id.text(), "shown");
}

#[test]
fn from_parsed_reads_the_word_for_any_and_the_empty_token() {
    for part in ["ANY", ""] {
        let id = SoftwareIdentifier::from_parsed(ParsedUri {
            part: part.to_string(),
            components: all_any(),
            language: Some(String::new()),
            rendered: String::new(),
        });
        assert_eq!(id.field(0), &Field::Any);
        assert_eq!(id.field(6), &Field::Any);
    }
    let id = SoftwareIdentifier::from_parsed(ParsedUri {
        part: "any".to_string(),
        components: all_any(),
        language: None,
        rendered: String::new(),
    });
    assert_eq!(id.field(0), &value("any"));
    assert_eq!(id.field(6), &Field::Any);
}
