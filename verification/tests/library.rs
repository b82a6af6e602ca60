use cbz_converter::library::{
    add_library_value, change_field, commit_library_edit, rename_in_preset, sort_preset_rows,
    split_csv, toggle_chip,
};
use cbz_converter::models::{ComicInfoField, PresetField};

fn pf(field: ComicInfoField, value: &str) -> PresetField {
    PresetField {
        field,
        value: value.into(),
    }
}

#[test]
fn csv_split_on_commas_and_newlines() {
    assert_eq!(split_csv(" a, b\nc ,, \n d "), vec!["a", "b", "c", "d"]);
    assert!(split_csv("").is_empty());
    assert!(split_csv(" , \n").is_empty());
}

#[test]
fn rename_applies_to_field_rows_and_dedups() {
    let mut preset = vec![
        pf(ComicInfoField::Tags, "SF, Fantasy, Sci-Fi"),
        pf(ComicInfoField::Genre, "SF"),
    ];
    let renames = vec![("Sci-Fi".to_string(), "SF".to_string())];
    rename_in_preset(&mut preset, ComicInfoField::Tags, &renames);
    assert_eq!(preset[0].value, "SF, Fantasy");
    assert_eq!(preset[1].value, "SF");
}

#[test]
fn renames_chain_in_order() {
    let mut preset = vec![pf(ComicInfoField::Genre, "a\nb")];
    let renames = vec![
        ("a".to_string(), "b".to_string()),
        ("b".to_string(), "c".to_string()),
    ];
    rename_in_preset(&mut preset, ComicInfoField::Genre, &renames);
    assert_eq!(preset[0].value, "c");
}

#[test]
fn no_renames_changes_nothing() {
    let mut preset = vec![pf(ComicInfoField::Tags, " x ,x")];
    rename_in_preset(&mut preset, ComicInfoField::Tags, &[]);
    assert_eq!(preset[0].value, " x ,x");
}

#[test]
fn chips_toggle() {
    assert_eq!(toggle_chip("SF, Fantasy", "Fantasy"), "SF");
    assert_eq!(toggle_chip("SF", "Fantasy"), "SF, Fantasy");
    assert_eq!(toggle_chip("", "Drama"), "Drama");
    assert_eq!(toggle_chip("Drama,\nDrama", "Drama"), "");
    let once = toggle_chip("A, B", "C");
    assert_eq!(toggle_chip(&once, "C"), "A, B");
}

#[test]
fn library_edit_commit() {
    let mut item = "  New  ".to_string();
    assert_eq!(
        commit_library_edit(&mut item, "Old".to_string()),
        Some(("Old".to_string(), "New".to_string()))
    );
    assert_eq!(item, "New");
    let mut item = "   ".to_string();
    assert_eq!(commit_library_edit(&mut item, "Old".to_string()), None);
    assert_eq!(item, "Old");
    let mut item = " Old".to_string();
    assert_eq!(commit_library_edit(&mut item, "Old".to_string()), None);
    assert_eq!(item, " Old");
}

#[test]
fn library_add() {
    let mut lib = vec!["SF".to_string()];
    add_library_value(&mut lib, "  Drama ");
    add_library_value(&mut lib, "SF");
    add_library_value(&mut lib, "   ");
    assert_eq!(lib, vec!["SF", "Drama"]);
}

#[test]
fn preset_rows_sorted_stably() {
    let mut preset = vec![
        pf(ComicInfoField::Manga, "Yes"),
        pf(ComicInfoField::Publisher, "P1"),
        pf(ComicInfoField::Title, "T"),
        pf(ComicInfoField::Publisher, "P2"),
    ];
    sort_preset_rows(&mut preset);
    let got: Vec<(ComicInfoField, &str)> =
        preset.iter().map(|p| (p.field, p.value.as_str())).collect();
    assert_eq!(
        got,
        vec![
            (ComicInfoField::Title, "T"),
            (ComicInfoField::Publisher, "P1"),
            (ComicInfoField::Publisher, "P2"),
            (ComicInfoField::Manga, "Yes"),
        ]
    );
}

#[test]
fn switching_field_resets_disallowed_value() {
    let mut row = pf(ComicInfoField::Publisher, "Munhak");
    change_field(&mut row, ComicInfoField::Manga);
    assert_eq!(row.field, ComicInfoField::Manga);
    assert_eq!(row.value, "Unknown");
    let mut row = pf(ComicInfoField::Manga, "Yes");
    change_field(&mut row, ComicInfoField::BlackAndWhite);
    assert_eq!(row.value, "Yes");
    change_field(&mut row, ComicInfoField::Notes);
    assert_eq!(row.value, "Yes");
    let mut row = pf(ComicInfoField::Notes, "free");
    change_field(&mut row, ComicInfoField::Notes);
    assert_eq!(row.value, "free");
}
