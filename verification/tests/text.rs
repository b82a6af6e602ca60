use cbz_converter::text::{join_text, same_text, trimmed, xml_escape};

#[test]
fn trim_follows_unicode_whitespace() {
    assert_eq!(trimmed("\u{3000} a b \u{85}\t\n"), "a b");
    assert_eq!(trimmed("\u{200b}x"), "\u{200b}x");
    assert_eq!(trimmed("   "), "");
    assert_eq!(trimmed(""), "");
}

#[test]
fn escape_all_markup_characters() {
    assert_eq!(
        xml_escape("a&b<c>d\"e'f"),
        "a&amp;b&lt;c&gt;d&quot;e&apos;f"
    );
    assert_eq!(xml_escape("plain 한글"), "plain 한글");
    assert!(!xml_escape("<<>>\"'").contains(['<', '>', '"', '\'']));
}

#[test]
fn join_and_compare() {
    let v = vec!["a".to_string(), "b".to_string(), "c".to_string()];
    assert_eq!(join_text(&v, ", "), "a, b, c");
    assert_eq!(join_text(&Vec::new(), ", "), "");
    assert!(same_text("가나", "가나"));
    assert!(!same_text("가나", "가"));
}
