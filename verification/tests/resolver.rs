use sbom_insight::identifier::{Field, ParsedUri, SoftwareIdentifier};
use sbom_insight::resolver::{
    field_matches, parse_all, resolve_cpes, resolve_parsed, targets_of, Candidate,
};

fn parsed(text: &str) -> SoftwareIdentifier {
    SoftwareIdentifier::parse(text).unwrap()
}

fn candidate(text: &str) -> Candidate {
    Candidate { source: text.to_string(), identifier: parsed(text) }
}

fn strings(texts: &[&str]) -> Vec<String> {
    texts.iter().map(|t| t.to_string()).collect()
}

fn value(token: &str) -> Field {
    Field::Value(token.to_string())
}

#[test]
fn version_wildcard_on_the_right_matches() {
    let left = parsed("cpe:/a:apache:struts:2.3.15");
    let right = parsed("cpe:/a:apache:*");
    assert!(sbom_insight::resolver::matches(&left, &right));
}

#[test]
fn vendor_mismatch_does_not_match() {
    let left = parsed("cpe:/a:apache:struts:2.3.15");
    let right = parsed("cpe:/a:eclipse:*");
    assert!(!sbom_insight::resolver::matches(&left, &right));
}

#[test]
fn resolve_reports_a_hit_with_its_target() {
    let resolution = resolve_cpes(
        strings(&["cpe:/a:apache:struts:2.3.15"]),
        strings(&["cpe:/a:apache:struts:*"]),
    );
    assert_eq!(resolution.hits, 1);
    assert_eq!(resolution.misses, 0);
    assert_eq!(resolution.report.len(), 1);
    assert_eq!(resolution.report[0].source, "cpe:/a:apache:struts:2.3.15");
    assert_eq!(resolution.report[0].targets, strings(&["cpe:/a:apache:struts:*:*:*:*"]));
    assert!(resolution.rejected.is_empty());
}

#[test]
fn resolve_reports_a_miss() {
    let resolution = resolve_cpes(
        strings(&["cpe:/a:apache:struts:2.3.15"]),
        strings(&["cpe:/a:eclipse:jetty:*"]),
    );
    assert_eq!(resolution.hits, 0);
    assert_eq!(resolution.misses, 1);
    assert_eq!(resolution.report.len(), 1);
    assert_eq!(resolution.report[0].source, "cpe:/a:apache:struts:2.3.15");
    assert!(resolution.report[0].targets.is_empty());
}

#[test]
fn an_identifier_of_wildcards_matches_everything() {
    let any = parsed("cpe:/");
    for text in ["cpe:/a:apache:struts:2.3.15", "cpe:/o:linux:kernel:-", "cpe:/", "cpe:/h:x:y:z:u:e:en"] {
        assert!(sbom_insight::resolver::matches(&any, &parsed(text)));
        assert!(sbom_insight::resolver::matches(&parsed(text), &any));
    }
}

#[test]
fn an_identifier_matches_its_copy() {
    for text in ["cpe:/a:hp:insight:7.4:sp1:~pro~online~win2003~x64~oth:en", "cpe:/a:apache:struts"] {
        assert!(sbom_insight::resolver::matches(&parsed(text), &parsed(text)));
    }
}

#[test]
fn matching_is_not_transitive() {
    let left = parsed("cpe:/a:apache:struts");
    let middle = parsed("cpe:/a:apache");
    let right = parsed("cpe:/a:apache:tomcat");
    assert!(sbom_insight::resolver::matches(&left, &middle));
    assert!(sbom_insight::resolver::matches(&middle, &right));
    assert!(!sbom_insight::resolver::matches(&left, &right));
}

#[test]
fn the_last_attribute_decides_too() {
    let components = |other: Field| {
        [
            Field::Any,
            Field::Any,
            Field::Any,
            Field::Any,
            Field::Any,
            Field::Any,
            Field::Any,
            Field::Any,
            other,
        ]
    };
    let make = |other: Field| {
        SoftwareIdentifier::from_parsed(ParsedUri {
            part: "a".to_string(),
            components: components(other),
            language: None,
            rendered: String::new(),
        })
    };
    assert!(!sbom_insight::resolver::matches(&make(value("x")), &make(value("y"))));
    assert!(sbom_insight::resolver::matches(&make(value("x")), &make(value("x"))));
    assert!(sbom_insight::resolver::matches(&make(value("x")), &make(Field::Any)));
}

#[test]
fn attributes_are_compatible_by_wildcard_or_equality() {
    assert!(field_matches(&Field::Any, &value("a")));
    assert!(field_matches(&value("a"), &Field::Any));
    assert!(field_matches(&Field::Any, &Field::Any));
    assert!(field_matches(&Field::Any, &Field::NotApplicable));
    assert!(field_matches(&Field::NotApplicable, &Field::Any));
    assert!(field_matches(&Field::NotApplicable, &Field::NotApplicable));
    assert!(field_matches(&value("a"), &value("a")));
    assert!(!field_matches(&value("a"), &value("b")));
    assert!(!field_matches(&value("a"), &value("A")));
    assert!(!field_matches(&value("-"), &Field::NotApplicable));
    assert!(!field_matches(&Field::NotApplicable, &value("-")));
}

#[test]
fn texts_that_are_no_identifiers_count_for_nothing() {
    let resolution = resolve_cpes(
        strings(&["nonsense", "cpe:/a:apache:struts:2.3.15", "cpe:/z:bad"]),
        strings(&["cpe:/a:apache", "also nonsense"]),
    );
    assert_eq!(resolution.hits, 1);
    assert_eq!(resolution.misses, 0);
    assert_eq!(resolution.report.len(), 1);
    let rejected: Vec<&str> = resolution.rejected.iter().map(|r| r.source.as_str()).collect();
    assert_eq!(rejected, vec!["nonsense", "cpe:/z:bad", "also nonsense"]);
    assert_eq!(resolution.rejected[0].error.message, "invalid prefix for `nonsense`");
}

#[test]
fn each_source_gets_a_row_with_all_its_targets_in_order() {
    let resolution = resolve_cpes(
        strings(&["cpe:/a:apache:struts:2.3.15", "cpe:/a:eclipse:jetty:9", "cpe:/o:linux"]),
        strings(&["cpe:/a:apache:*", "cpe:/a:eclipse:jetty:*", "cpe:/a:*:struts", "cpe:/a"]),
    );
    assert_eq!(resolution.hits, 2);
    assert_eq!(resolution.misses, 1);
    assert_eq!(resolution.report.len(), 3);
    assert_eq!(
        resolution.report[0].targets,
        strings(&["cpe:/a:apache:*:*:*:*:*", "cpe:/a:*:struts:*:*:*:*", "cpe:/a:*:*:*:*:*:*"])
    );
    assert_eq!(
        resolution.report[1].targets,
        strings(&["cpe:/a:eclipse:jetty:*:*:*:*", "cpe:/a:*:*:*:*:*:*"])
    );
    assert!(resolution.report[2].targets.is_empty());
}

#[test]
fn resolving_nothing_gives_nothing() {
    let resolution = resolve_cpes(Vec::new(), strings(&["cpe:/a:apache"]));
    assert_eq!((resolution.hits, resolution.misses), (0, 0));
    assert!(resolution.report.is_empty());
    let resolution = resolve_cpes(strings(&["cpe:/a:apache"]), Vec::new());
    assert_eq!((resolution.hits, resolution.misses), (0, 1));
}

#[test]
fn parse_all_keeps_the_order_within_each_kind() {
    let (accepted, rejected) = parse_all(&strings(&["cpe:/a:b", "bad", "cpe:/o:c", "worse"]));
    let sources: Vec<&str> = accepted.iter().map(|c| c.source.as_str()).collect();
    assert_eq!(sources, vec!["cpe:/a:b", "cpe:/o:c"]);
    let sources: Vec<&str> = rejected.iter().map(|r| r.source.as_str()).collect();
    assert_eq!(sources, vec!["bad", "worse"]);
}

#[test]
fn resolve_parsed_counts_hits_and_misses() {
    let sources = vec![candidate("cpe:/a:apache:struts"), candidate("cpe:/h:cisco")];
    let targets = vec![candidate("cpe:/a:apache"), candidate("cpe:/a")];
    let (hits, misses, report) = resolve_parsed(&sources, &targets);
    assert_eq!((hits, misses), (1, 1));
    assert_eq!(report[0].source, "cpe:/a:apache:struts");
    assert_eq!(report[0].targets.len(), 2);
    assert_eq!(report[1].source, "cpe:/h:cisco");
    assert!(report[1].targets.is_empty());
    assert_eq!(
        targets_of(&sources[0].identifier, &targets),
        strings(&["cpe:/a:apache:*:*:*:*:*", "cpe:/a:*:*:*:*:*:*"])
    );
}
