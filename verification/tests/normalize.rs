use sbom_insight::normalize::fixup_cpe;

fn fixed(raw: &str) -> String {
    fixup_cpe(raw.to_string())
}

#[test]
fn wildcards_are_taken_out() {
    assert_eq!(fixed("cpe:/a:apache:*:2.3"), "cpe:/a:apache::2.3");
    assert_eq!(fixed("cpe:/a:*apache*:struts"), "cpe:/a:apache:struts");
}

#[test]
fn one_trailing_separator_is_taken_off() {
    assert_eq!(fixed("cpe:/a:apache:"), "cpe:/a:apache");
    assert_eq!(fixed("cpe:/a:apache:*"), "cpe:/a:apache");
}

#[test]
fn only_one_trailing_separator_goes() {
    assert_eq!(fixed("cpe:/a:apache:*:*"), "cpe:/a:apache:");
    assert_eq!(fixed("a:::"), "a::");
}

#[test]
fn text_without_wildcard_or_trailing_separator_stays() {
    assert_eq!(fixed("cpe:/a:apache:struts:2.3.15"), "cpe:/a:apache:struts:2.3.15");
}

#[test]
fn empty_and_degenerate_texts() {
    assert_eq!(fixed(""), "");
    assert_eq!(fixed("*"), "");
    assert_eq!(fixed(":"), "");
    assert_eq!(fixed("***:"), "");
    assert_eq!(fixed("*:*"), "");
}

#[test]
fn characters_beyond_ascii_are_kept() {
    assert_eq!(fixed("cpe:/a:b\u{fc}cher*:\u{4e2d}\u{6587}:"), "cpe:/a:b\u{fc}cher:\u{4e2d}\u{6587}");
}

#[test]
fn a_second_pass_changes_nothing_where_no_separator_trails() {
    for raw in ["cpe:/a:apache:*", "cpe:/a:apache:struts:2.3.15", "", "*", "x:*:y"] {
        let once = fixed(raw);
        assert!(!once.ends_with(':'));
        assert_eq!(fixed(&once), once);
    }
}

#[test]
fn a_second_pass_takes_one_more_separator_where_one_trails() {
    let once = fixed("cpe:/a:apache:*:*");
    assert_eq!(once, "cpe:/a:apache:");
    assert_eq!(fixed(&once), "cpe:/a:apache");
}
