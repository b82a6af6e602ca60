use cbz_converter::models::{ComicInfoField, EditedFields, PageType, ParsedMetadata};
use cbz_converter::parser::FormatPattern;
use cbz_converter::settings::{apply_reparse, apply_series_override, AppSettings};

fn meta(author: &[&str], series: &str, title: &str) -> ParsedMetadata {
    ParsedMetadata {
        author: author.iter().map(|a| a.to_string()).collect(),
        series: series.into(),
        title: title.into(),
        tags: vec![],
    }
}

#[test]
fn default_settings() {
    let s = AppSettings::default();
    assert_eq!(s.format_template, "[{author}] {series} ({tags})");
    assert_eq!(s.preset.len(), 1);
    assert_eq!(s.preset[0].field, ComicInfoField::Manga);
    assert_eq!(s.preset[0].value, "YesAndRightToLeft");
    assert_eq!(s.page_rules.len(), 1);
    assert_eq!(s.page_rules[0].position, 1);
    assert!(s.page_rules[0].end.is_none());
    assert!(s.page_rules[0].page_type == PageType::FrontCover);
    assert!(!s.page_rules[0].double_page);
    assert!(s.preset_series.is_empty());
    assert!(s.tag_library.is_empty() && s.genre_library.is_empty());
}

#[test]
fn manual_edits_win_on_reparse() {
    let mut m = meta(&["Manual"], "Manual Series", "Old Title");
    let parsed = FormatPattern::compile("{title} by {author}").parse("New by Parsed");
    apply_reparse(
        &mut m,
        EditedFields {
            author: true,
            series: false,
        },
        parsed,
    );
    assert_eq!(m.author, vec!["Manual"]);
    assert_eq!(m.series, "New");
    assert_eq!(m.title, "Old Title");
}

#[test]
fn unedited_fields_follow_reparse() {
    let mut m = meta(&["A"], "S", "T");
    let parsed = meta(&["B"], "S2", "T2");
    apply_reparse(&mut m, EditedFields::default(), parsed);
    assert_eq!(m.author, vec!["B"]);
    assert_eq!(m.series, "S2");
    assert_eq!(m.title, "T");
}

#[test]
fn series_override_when_not_blank() {
    let mut m = meta(&[], "Folder", "T");
    apply_series_override(&mut m, "  Global  ");
    assert_eq!(m.series, "Global");
    let mut m = meta(&[], "Folder", "T");
    apply_series_override(&mut m, "   ");
    assert_eq!(m.series, "Folder");
}

#[test]
fn default_settings_template_reads_series() {
    let s = AppSettings::default();
    let p = cbz_converter::parser::FormatPattern::compile(&s.format_template);
    let m = p.parse("[Author] Series (trailing)");
    assert_eq!(m.author, vec!["Author"]);
    assert_eq!(m.series, "Series");
}
