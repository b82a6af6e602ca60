use cbz_converter::comicinfo_import::{imported_from_nodes, parse, XmlNode};
use cbz_converter::models::ComicInfoField;

#[test]
fn parses_fields_and_series() {
    let xml = r#"<?xml version="1.0"?>
<ComicInfo>
  <Title>Ep 1</Title>
  <Series>My Work</Series>
  <Writer>Kim</Writer>
  <Publisher>Munhak</Publisher>
  <Manga>YesAndRightToLeft</Manga>
  <Tags>SF, Fantasy</Tags>
  <PageCount>20</PageCount>
  <Pages><Page Image="0" /></Pages>
</ComicInfo>"#;
    let imported = parse(xml).unwrap();
    assert_eq!(imported.series.as_deref(), Some("My Work"));

    let got: Vec<(ComicInfoField, &str)> = imported
        .preset
        .iter()
        .map(|pf| (pf.field, pf.value.as_str()))
        .collect();
    assert!(got.contains(&(ComicInfoField::Title, "Ep 1")));
    assert!(got.contains(&(ComicInfoField::Publisher, "Munhak")));
    assert!(got.contains(&(ComicInfoField::Manga, "YesAndRightToLeft")));
    assert!(got.contains(&(ComicInfoField::Tags, "SF, Fantasy")));
    assert_eq!(got.len(), 4);
}

#[test]
fn entities_unescaped() {
    let xml = r#"<ComicInfo><Publisher>Tom &amp; Jerry</Publisher></ComicInfo>"#;
    let imported = parse(xml).unwrap();
    assert_eq!(imported.preset[0].value, "Tom & Jerry");
}

#[test]
fn malformed_document_is_an_error() {
    assert!(parse("<ComicInfo><Title>x</ComicInfo>").is_err());
    assert!(parse("").is_err());
}

fn node(is_element: bool, tag: &str, text: Option<&str>) -> XmlNode {
    XmlNode {
        is_element,
        tag: tag.to_string(),
        text: text.map(|t| t.to_string()),
    }
}

#[test]
fn nodes_to_preset_rows() {
    let imported = imported_from_nodes(vec![
        node(false, "", Some("\n  ")),
        node(true, "Genre", Some("  Action  ")),
        node(true, "Series", Some("First")),
        node(true, "Writer", Some("Kim")),
        node(true, "Unknown", Some("x")),
        node(true, "Notes", Some("   ")),
        node(true, "Notes", None),
        node(true, "Series", Some(" Second ")),
        node(true, "Pages", Some("p")),
        node(true, "PageCount", Some("3")),
        node(true, "Web", Some("https://example.com")),
    ]);
    assert_eq!(imported.series.as_deref(), Some("Second"));
    assert_eq!(imported.preset.len(), 2);
    assert_eq!(imported.preset[0].field, ComicInfoField::Genre);
    assert_eq!(imported.preset[0].value, "Action");
    assert_eq!(imported.preset[1].field, ComicInfoField::Web);
    assert_eq!(imported.preset[1].value, "https://example.com");
}

#[test]
fn empty_root_imports_nothing() {
    let imported = parse("<ComicInfo/>").unwrap();
    assert!(imported.preset.is_empty());
    assert!(imported.series.is_none());
}

#[test]
fn every_written_tag_reads_back() {
    for f in ComicInfoField::all() {
        let xml = format!("<ComicInfo><{0}>v</{0}></ComicInfo>", f.xml_tag());
        let imported = parse(&xml).unwrap();
        assert_eq!(imported.preset.len(), 1);
        assert_eq!(imported.preset[0].field, f);
        assert_eq!(imported.preset[0].value, "v");
    }
}
