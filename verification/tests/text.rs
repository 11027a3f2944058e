use sbom_insight::text::{compare, same_text, Order};

#[test]
fn compare_orders_by_bytes() {
    assert_eq!(compare("a", "b"), Order::Before);
    assert_eq!(compare("b", "a"), Order::After);
    assert_eq!(compare("abc", "abc"), Order::Same);
    assert_eq!(compare("", ""), Order::Same);
}

#[test]
fn a_prefix_comes_first() {
    assert_eq!(compare("", "a"), Order::Before);
    assert_eq!(compare("ab", "abc"), Order::Before);
    assert_eq!(compare("abc", "ab"), Order::After);
}

#[test]
fn upper_case_comes_before_lower_case() {
    assert_eq!(compare("Z", "a"), Order::Before);
    assert_eq!(compare("NO-CPE", "cpe:/a"), Order::Before);
}

#[test]
fn characters_beyond_ascii_come_after() {
    assert_eq!(compare("z", "\u{e9}"), Order::Before);
    assert_eq!(compare("\u{e9}", "\u{4e2d}"), Order::Before);
    assert_eq!(compare("\u{4e2d}", "\u{1f600}"), Order::Before);
}

#[test]
fn compare_agrees_with_the_order_of_strings() {
    let texts = ["", "a", "A", "ab", "b", "\u{e9}", "z\u{e9}", "cpe:/a:x", "cpe:/a:y", "cpe:/a"];
    for left in texts {
        for right in texts {
            let expected = if left < right {
                Order::Before
            } else if left == right {
                Order::Same
            } else {
                Order::After
            };
            assert_eq!(compare(left, right), expected);
        }
    }
}

#[test]
fn same_text_is_equality() {
    assert!(same_text("cpe22Type", "cpe22Type"));
    assert!(!same_text("cpe22Type", "cpe23Type"));
    assert!(!same_text("a", "ab"));
    assert!(same_text("", ""));
}
