use cbz_converter::models::{
    ComicInfoField, EditedFields, PageRule, PageType, ParsedMetadata,
};

#[test]
fn field_tags_and_labels() {
    assert_eq!(ComicInfoField::Title.xml_tag(), "Title");
    assert_eq!(ComicInfoField::LanguageISO.xml_tag(), "LanguageISO");
    assert_eq!(ComicInfoField::GTIN.label(), "GTIN");
    assert_eq!(ComicInfoField::all().len(), 40);
}

#[test]
fn field_order_is_canonical_position() {
    let all = ComicInfoField::all();
    for (i, f) in all.iter().enumerate() {
        assert_eq!(f.order(), i);
    }
    assert_eq!(ComicInfoField::Title.order(), 0);
    assert_eq!(ComicInfoField::Publisher.order(), 19);
    assert_eq!(ComicInfoField::GTIN.order(), 39);
}

#[test]
fn allowed_values_and_defaults() {
    assert_eq!(
        ComicInfoField::Manga.allowed_values().unwrap(),
        &["Unknown", "No", "Yes", "YesAndRightToLeft"]
    );
    assert_eq!(ComicInfoField::BlackAndWhite.allowed_values().unwrap().len(), 3);
    assert_eq!(ComicInfoField::AgeRating.allowed_values().unwrap().len(), 15);
    assert!(ComicInfoField::Publisher.allowed_values().is_none());
    assert_eq!(ComicInfoField::Manga.default_value(), "Unknown");
    assert_eq!(ComicInfoField::Publisher.default_value(), "");
}

#[test]
fn multiline_fields() {
    assert!(ComicInfoField::Summary.multiline());
    assert!(ComicInfoField::ScanInformation.multiline());
    assert!(!ComicInfoField::Title.multiline());
    assert!(!ComicInfoField::Manga.multiline());
}

#[test]
fn from_xml_tag_inverts_xml_tag() {
    for f in ComicInfoField::all() {
        assert_eq!(ComicInfoField::from_xml_tag(f.xml_tag()), Some(f));
    }
    assert_eq!(ComicInfoField::from_xml_tag("Series"), None);
    assert_eq!(ComicInfoField::from_xml_tag("title"), None);
}

#[test]
fn page_type_values() {
    assert_eq!(PageType::FrontCover.xml_value(), "FrontCover");
    assert_eq!(PageType::Deleted.label(), "Deleted");
    assert_eq!(PageType::all().len(), 11);
}

fn single(position: i32) -> PageRule {
    PageRule {
        position,
        end: None,
        page_type: PageType::Story,
        double_page: false,
    }
}

fn range(position: i32, end: i32) -> PageRule {
    PageRule {
        position,
        end: Some(end),
        page_type: PageType::Story,
        double_page: false,
    }
}

#[test]
fn single_positions_resolve_strictly() {
    assert_eq!(single(1).resolve_indices(5), vec![0]);
    assert_eq!(single(5).resolve_indices(5), vec![4]);
    assert_eq!(single(6).resolve_indices(5), Vec::<usize>::new());
    assert_eq!(single(-1).resolve_indices(5), vec![4]);
    assert_eq!(single(-5).resolve_indices(5), vec![0]);
    assert_eq!(single(-6).resolve_indices(5), Vec::<usize>::new());
    assert_eq!(single(0).resolve_indices(5), Vec::<usize>::new());
    assert_eq!(single(1).resolve_indices(0), Vec::<usize>::new());
}

#[test]
fn ranges_clamp_and_order() {
    assert_eq!(range(3, 999).resolve_indices(5), vec![2, 3, 4]);
    assert_eq!(range(-1, 2).resolve_indices(5), vec![1, 2, 3, 4]);
    assert_eq!(range(-100, 1).resolve_indices(3), vec![0]);
    assert_eq!(range(0, 2).resolve_indices(5), Vec::<usize>::new());
    assert_eq!(range(1, 2).resolve_indices(0), Vec::<usize>::new());
    assert_eq!(range(2, 2).resolve_indices(5), vec![1]);
}

#[test]
fn defaults_are_empty() {
    let m = ParsedMetadata::default();
    assert!(m.author.is_empty() && m.tags.is_empty());
    assert_eq!(m.title, "");
    assert_eq!(m.series, "");
    let e = EditedFields::default();
    assert!(!e.author && !e.series);
}
