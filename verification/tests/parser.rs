use cbz_converter::models::ParsedMetadata;
use cbz_converter::parser::FormatPattern;

fn pat() -> FormatPattern {
    FormatPattern::compile("[{author}] {title} ({tags})")
}

#[test]
fn full() {
    // Tags are no longer parsed; the trailing region is consumed/discarded.
    let m = pat().parse("[Author] Title (SF,Fantasy)");
    assert_eq!(m.author, vec!["Author"]);
    assert_eq!(m.title, "Title");
    assert!(m.tags.is_empty());
}

#[test]
fn series_and_title_filled() {
    let m = pat().parse("[Author] Title (SF)");
    assert_eq!(m.title, "Title");
    assert_eq!(m.series, "Title");
}

#[test]
fn title_not_polluted_by_tags() {
    let m = pat().parse("[A] Title (SF, Fantasy)");
    assert_eq!(m.title, "Title");
    assert_eq!(m.series, "Title");
    assert!(m.tags.is_empty());
}

#[test]
fn multi_author() {
    let m = pat().parse("[Author1, Author2] Title (SF)");
    assert_eq!(m.author, vec!["Author1", "Author2"]);
    assert_eq!(m.title, "Title");
    assert!(m.tags.is_empty());
}

#[test]
fn no_author() {
    let m = pat().parse("Title (Complete)");
    assert!(m.author.is_empty());
    assert_eq!(m.title, "Title");
    assert!(m.tags.is_empty());
}

#[test]
fn no_tags() {
    let m = pat().parse("[Author] Title");
    assert_eq!(m.author, vec!["Author"]);
    assert_eq!(m.title, "Title");
    assert!(m.tags.is_empty());
}

#[test]
fn title_only() {
    let m = pat().parse("Title");
    assert_eq!(m.title, "Title");
    assert!(m.author.is_empty());
    assert!(m.tags.is_empty());
}

#[test]
fn format_full() {
    let p = pat();
    let m = ParsedMetadata {
        author: vec!["Author".into()],
        series: "Title".into(),
        title: "Title".into(),
        tags: vec![],
    };
    assert_eq!(p.format(&m), "[Author] Title");
}

#[test]
fn format_multi_author() {
    let p = pat();
    let m = ParsedMetadata {
        author: vec!["Author1".into(), "Author2".into()],
        series: "Title".into(),
        title: "Title".into(),
        tags: vec![],
    };
    assert_eq!(p.format(&m), "[Author1,Author2] Title");
}

#[test]
fn format_no_author() {
    let p = pat();
    let m = ParsedMetadata {
        author: vec![],
        series: "Title".into(),
        title: "Title".into(),
        tags: vec![],
    };
    assert_eq!(p.format(&m), "Title");
}

#[test]
fn compile_keeps_template() {
    let p = FormatPattern::compile("{title} - {author} [{tags}]");
    assert_eq!(p.template(), "{title} - {author} [{tags}]");
    let d = FormatPattern::default();
    assert_eq!(d.template(), "[{author}] {title} ({tags})");
}

#[test]
fn series_placeholder_reads_series() {
    let p = FormatPattern::compile("[{author}] {series} ({tags})");
    let m = p.parse("[Author] Series (trailing)");
    assert_eq!(m.author, vec!["Author"]);
    assert_eq!(m.series, "Series");
    assert_eq!(m.title, "");
    assert!(m.tags.is_empty());
}

#[test]
fn unknown_placeholder_is_literal() {
    // `{volume}` is not a placeholder: it must appear verbatim in the name.
    let p = FormatPattern::compile("[{author}] {volume} {series}");
    let m = p.parse("[Kim] {volume} Work");
    assert_eq!(m.author, vec!["Kim"]);
    assert_eq!(m.series, "Work");
    assert_eq!(m.title, "");
}

#[test]
fn series_template_formats_series() {
    let p = FormatPattern::compile("[{author}] {series} ({tags})");
    let m = ParsedMetadata {
        author: vec!["A".into()],
        series: "Work".into(),
        title: "Ep".into(),
        tags: vec![],
    };
    let name = p.format(&m);
    assert_eq!(name, "[A] Work");
    let back = p.parse(&name);
    assert_eq!(back.author, vec!["A"]);
    assert_eq!(back.series, "Work");
    assert_eq!(back.title, "");
}

#[test]
fn author_list_trimmed_and_empties_dropped() {
    let m = pat().parse("[ A , ,B ,] T");
    assert_eq!(m.author, vec!["A", "B"]);
    assert_eq!(m.title, "T");
}

#[test]
fn title_first_template() {
    let p = FormatPattern::compile("{title} by {author}");
    let m = p.parse("Great Work by Lee, Park");
    assert_eq!(m.title, "Great Work");
    assert_eq!(m.series, "Great Work");
    assert_eq!(m.author, vec!["Lee", "Park"]);
}

#[test]
fn unicode_names() {
    let m = pat().parse("[김작가] 제목 (판타지)");
    assert_eq!(m.author, vec!["김작가"]);
    assert_eq!(m.title, "제목");
}

#[test]
fn format_trims_result() {
    let p = FormatPattern::compile("  {title}  ");
    let m = ParsedMetadata {
        author: vec![],
        series: String::new(),
        title: "X".into(),
        tags: vec![],
    };
    assert_eq!(p.format(&m), "X");
}

#[test]
fn default_template_round_trip() {
    let p = FormatPattern::default();
    let m = ParsedMetadata {
        author: vec!["A One".into(), "B".into()],
        series: "Other".into(),
        title: "Some Title [v2]".into(),
        tags: vec!["SF".into()],
    };
    let name = p.format(&m);
    assert_eq!(name, "[A One,B] Some Title [v2]");
    let back = p.parse(&name);
    assert_eq!(back.author, vec!["A One", "B"]);
    assert_eq!(back.title, "Some Title [v2]");
    assert_eq!(back.series, "Some Title [v2]");
    assert!(back.tags.is_empty());
}

#[test]
fn default_template_round_trip_without_authors() {
    let p = FormatPattern::default();
    let m = ParsedMetadata {
        author: vec![],
        series: String::new(),
        title: "Plain".into(),
        tags: vec![],
    };
    let name = p.format(&m);
    assert_eq!(name, "Plain");
    let back = p.parse(&name);
    assert!(back.author.is_empty());
    assert_eq!(back.title, "Plain");
    assert_eq!(back.series, "Plain");
}
