use cbz_converter::metadata::build_comic_info_xml;
use cbz_converter::models::{ComicInfoField, PageRule, PageType, ParsedMetadata, PresetField};

fn rule(position: i32, page_type: PageType) -> PageRule {
    PageRule {
        position,
        end: None,
        page_type,
        double_page: false,
    }
}

fn meta() -> ParsedMetadata {
    ParsedMetadata {
        author: vec!["Author".into()],
        series: "Title".into(),
        title: "Title".into(),
        tags: vec!["SF".into(), "Fantasy".into()],
    }
}

fn pf(field: ComicInfoField, value: &str) -> PresetField {
    PresetField {
        field,
        value: value.into(),
    }
}

#[test]
fn empty_preset_emits_core_fields() {
    let xml = build_comic_info_xml(&meta(), &[], 0, &[]);
    assert!(xml.contains("<Title>Title</Title>"));
    assert!(xml.contains("<Writer>Author</Writer>"));
    assert!(xml.contains("<Tags>SF, Fantasy</Tags>"));
    assert!(!xml.contains("<Manga>"));
}

#[test]
fn preset_field_emitted() {
    let preset = vec![
        pf(ComicInfoField::Publisher, "Munhak"),
        pf(ComicInfoField::Manga, "YesAndRightToLeft"),
    ];
    let xml = build_comic_info_xml(&meta(), &preset, 0, &[]);
    assert!(xml.contains("<Publisher>Munhak</Publisher>"));
    assert!(xml.contains("<Manga>YesAndRightToLeft</Manga>"));
}

#[test]
fn tags_merge_dedup() {
    let preset = vec![pf(ComicInfoField::Tags, "Fantasy, Webtoon")];
    let xml = build_comic_info_xml(&meta(), &preset, 0, &[]);
    assert!(xml.contains("<Tags>SF, Fantasy, Webtoon</Tags>"));
}

#[test]
fn empty_value_skipped() {
    let preset = vec![pf(ComicInfoField::Publisher, "")];
    let xml = build_comic_info_xml(&meta(), &preset, 0, &[]);
    assert!(!xml.contains("<Publisher>"));
}

#[test]
fn xml_escaped() {
    let m = ParsedMetadata {
        author: vec![],
        series: String::new(),
        title: "Tom & <Jerry>".into(),
        tags: vec![],
    };
    let xml = build_comic_info_xml(&m, &[], 0, &[]);
    assert!(xml.contains("<Title>Tom &amp; &lt;Jerry&gt;</Title>"));
}

#[test]
fn series_emitted() {
    let m = ParsedMetadata {
        author: vec![],
        series: "Work".into(),
        title: "Ep 1".into(),
        tags: vec![],
    };
    let xml = build_comic_info_xml(&m, &[], 0, &[]);
    assert!(xml.contains("<Series>Work</Series>"));
    assert!(xml.contains("<Title>Ep 1</Title>"));
}

#[test]
fn placeholder_substituted() {
    let preset = vec![pf(ComicInfoField::CoverArtist, "{author}")];
    let xml = build_comic_info_xml(&meta(), &preset, 0, &[]);
    assert!(xml.contains("<CoverArtist>Author</CoverArtist>"));
}

#[test]
fn placeholder_multi_author() {
    let m = ParsedMetadata {
        author: vec!["A".into(), "B".into()],
        series: String::new(),
        title: "T".into(),
        tags: vec![],
    };
    let preset = vec![pf(ComicInfoField::Publisher, "by {author}")];
    let xml = build_comic_info_xml(&m, &preset, 0, &[]);
    assert!(xml.contains("<Publisher>by A, B</Publisher>"));
}

#[test]
fn enum_value_not_substituted() {
    let preset = vec![pf(ComicInfoField::Manga, "Yes")];
    let xml = build_comic_info_xml(&meta(), &preset, 0, &[]);
    assert!(xml.contains("<Manga>Yes</Manga>"));
}

#[test]
fn mixed_literal_placeholder() {
    let preset = vec![pf(ComicInfoField::Publisher, "art by {author}")];
    let xml = build_comic_info_xml(&meta(), &preset, 0, &[]);
    assert!(xml.contains("<Publisher>art by Author</Publisher>"));
}

#[test]
fn roles_default_to_author() {
    let m = ParsedMetadata {
        author: vec!["Kim".into()],
        series: String::new(),
        title: "T".into(),
        tags: vec![],
    };
    let xml = build_comic_info_xml(&m, &[], 0, &[]);
    for tag in [
        "Penciller",
        "Inker",
        "Colorist",
        "Letterer",
        "CoverArtist",
        "Editor",
    ] {
        assert!(
            xml.contains(&format!("<{tag}>Kim</{tag}>")),
            "missing author default for {tag}"
        );
    }
}

#[test]
fn roles_no_author_not_emitted() {
    let m = ParsedMetadata {
        author: vec![],
        series: String::new(),
        title: "T".into(),
        tags: vec![],
    };
    let xml = build_comic_info_xml(&m, &[], 0, &[]);
    assert!(!xml.contains("<Penciller>"));
    assert!(!xml.contains("<CoverArtist>"));
}

#[test]
fn role_preset_overrides_author() {
    let m = ParsedMetadata {
        author: vec!["Kim".into()],
        series: String::new(),
        title: "T".into(),
        tags: vec![],
    };
    let preset = vec![pf(ComicInfoField::CoverArtist, "Lee")];
    let xml = build_comic_info_xml(&m, &preset, 0, &[]);
    assert!(xml.contains("<CoverArtist>Lee</CoverArtist>"));
    assert!(!xml.contains("<CoverArtist>Kim</CoverArtist>"));
    assert!(xml.contains("<Penciller>Kim</Penciller>"));
}

#[test]
fn canonical_order() {
    let preset = vec![
        pf(ComicInfoField::Manga, "Yes"),
        pf(ComicInfoField::Publisher, "P"),
    ];
    let xml = build_comic_info_xml(&meta(), &preset, 0, &[]);
    let pub_pos = xml.find("<Publisher>").unwrap();
    let manga_pos = xml.find("<Manga>").unwrap();
    assert!(pub_pos < manga_pos);
}

#[test]
fn page_info_no_rules_is_plain() {
    let xml = build_comic_info_xml(&meta(), &[], 3, &[]);
    assert!(xml.contains("<PageCount>3</PageCount>"));
    assert!(xml.contains("<Page Image=\"0\" />"));
    assert!(xml.contains("<Page Image=\"1\" />"));
    assert!(xml.contains("<Page Image=\"2\" />"));
    assert!(xml.contains("</Pages>"));
}

#[test]
fn page_rules_assign_types() {
    let rules = vec![
        rule(1, PageType::FrontCover),
        rule(2, PageType::InnerCover),
        rule(-1, PageType::BackCover),
    ];
    let xml = build_comic_info_xml(&meta(), &[], 5, &rules);
    assert!(xml.contains("<Page Image=\"0\" Type=\"FrontCover\" />"));
    assert!(xml.contains("<Page Image=\"1\" Type=\"InnerCover\" />"));
    assert!(xml.contains("<Page Image=\"2\" />"));
    assert!(xml.contains("<Page Image=\"3\" />"));
    assert!(xml.contains("<Page Image=\"4\" Type=\"BackCover\" />"));
}

#[test]
fn page_rule_double_page() {
    let rules = vec![PageRule {
        position: 3,
        end: None,
        page_type: PageType::Story,
        double_page: true,
    }];
    let xml = build_comic_info_xml(&meta(), &[], 4, &rules);
    assert!(xml.contains("<Page Image=\"2\" Type=\"Story\" DoublePage=\"true\" />"));
    assert!(xml.contains("<Page Image=\"0\" />"));
}

#[test]
fn page_rule_out_of_range_ignored() {
    let rules = vec![rule(10, PageType::Editorial)];
    let xml = build_comic_info_xml(&meta(), &[], 3, &rules);
    assert!(!xml.contains("Editorial"));
    assert!(xml.contains("<Page Image=\"2\" />"));
}

#[test]
fn no_page_info_when_zero() {
    let xml = build_comic_info_xml(&meta(), &[], 0, &[]);
    assert!(!xml.contains("<PageCount>"));
    assert!(!xml.contains("<Pages>"));
}

#[test]
fn whole_document_exact() {
    let m = ParsedMetadata {
        author: vec!["Kim".into()],
        series: "S".into(),
        title: "T".into(),
        tags: vec![],
    };
    let preset = vec![pf(ComicInfoField::Manga, "Yes")];
    let rules = vec![PageRule {
        position: 2,
        end: Some(-1),
        page_type: PageType::Story,
        double_page: false,
    }];
    let xml = build_comic_info_xml(&m, &preset, 3, &rules);
    let expected = "<?xml version=\"1.0\" encoding=\"utf-8\"?>\n<ComicInfo xmlns:xsi=\"http://www.w3.org/2001/XMLSchema-instance\"\n           xmlns:xsd=\"http://www.w3.org/2001/XMLSchema\">\n  <Title>T</Title>\n  <Series>S</Series>\n  <Writer>Kim</Writer>\n  <Penciller>Kim</Penciller>\n  <Inker>Kim</Inker>\n  <Colorist>Kim</Colorist>\n  <Letterer>Kim</Letterer>\n  <CoverArtist>Kim</CoverArtist>\n  <Editor>Kim</Editor>\n  <Manga>Yes</Manga>\n  <PageCount>3</PageCount>\n  <Pages>\n    <Page Image=\"0\" />\n    <Page Image=\"1\" Type=\"Story\" />\n    <Page Image=\"2\" Type=\"Story\" />\n  </Pages>\n</ComicInfo>\n";
    assert_eq!(xml, expected);
}

#[test]
fn later_rule_wins() {
    let rules = vec![
        rule(1, PageType::FrontCover),
        PageRule {
            position: 1,
            end: Some(2),
            page_type: PageType::Preview,
            double_page: true,
        },
    ];
    let xml = build_comic_info_xml(&meta(), &[], 2, &rules);
    assert!(xml.contains("<Page Image=\"0\" Type=\"Preview\" DoublePage=\"true\" />"));
    assert!(xml.contains("<Page Image=\"1\" Type=\"Preview\" DoublePage=\"true\" />"));
    assert!(!xml.contains("FrontCover"));
}

#[test]
fn title_placeholder_in_preset() {
    let preset = vec![pf(ComicInfoField::Summary, "{title} by {author}")];
    let xml = build_comic_info_xml(&meta(), &preset, 0, &[]);
    assert!(xml.contains("<Summary>Title by Author</Summary>"));
}

#[test]
fn many_pages_decimal() {
    let xml = build_comic_info_xml(&meta(), &[], 12, &[]);
    assert!(xml.contains("<PageCount>12</PageCount>"));
    assert!(xml.contains("<Page Image=\"11\" />"));
}

#[test]
fn series_placeholder_in_preset() {
    let m = ParsedMetadata {
        author: vec![],
        series: "Work".into(),
        title: "Ep 1".into(),
        tags: vec![],
    };
    let preset = vec![
        pf(ComicInfoField::Summary, "{series}"),
        pf(ComicInfoField::Notes, "{series}: {title}"),
    ];
    let xml = build_comic_info_xml(&m, &preset, 0, &[]);
    assert!(xml.contains("<Summary>Work</Summary>"));
    assert!(xml.contains("<Notes>Work: Ep 1</Notes>"));
    assert!(!xml.contains("{series}"));
}

#[test]
fn series_placeholder_in_preset_tags() {
    let preset = vec![pf(ComicInfoField::Tags, "{series}, Extra")];
    let xml = build_comic_info_xml(&meta(), &preset, 0, &[]);
    assert!(xml.contains("<Tags>SF, Fantasy, Title, Extra</Tags>"));
}
