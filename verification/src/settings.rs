//! The persistent settings and the rules for keeping per-folder metadata
//! when the template changes or a conversion starts.
use vstd::prelude::*;
use crate::models::{ComicInfoField, PageRule, PageType, ParsedMetadata, PresetField};
use crate::text::{trim, trim_bounds, chars_of, string_of_range};

verus! {

/// The settings kept between runs.
pub struct AppSettings {
    pub format_template: String,
    pub preset: Vec<PresetField>,
    pub page_rules: Vec<PageRule>,
    /// Global Series set in the preset. When it is not blank it overrides
    /// the per-folder value for every archive.
    pub preset_series: String,
    /// Saved tag vocabulary picked from in the preset Tags field.
    pub tag_library: Vec<String>,
    /// Saved genre vocabulary picked from in the preset Genre field.
    pub genre_library: Vec<String>,
}

impl Default for AppSettings {
    /// The template `[{author}] {series} ({tags})`, a `Manga` preset row of
    /// `YesAndRightToLeft`, and a rule marking the first page as the front
    /// cover; nothing else.
    fn default() -> (r: Self)
        ensures
            r.format_template@ == "[{author}] {series} ({tags})"@,
            r.format_template@ == crate::parser::settings_template(),
            r.preset.deep_view() == seq![(ComicInfoField::Manga, "YesAndRightToLeft"@)],
            r.page_rules@ == seq![
                PageRule {
                    position: 1,
                    end: None,
                    page_type: PageType::FrontCover,
                    double_page: false,
                },
            ],
            r.preset_series@.len() == 0,
            r.tag_library@.len() == 0,
            r.genre_library@.len() == 0,
    {
        proof {
            reveal_strlit("[{author}] {series} ({tags})");
        }
        assert("[{author}] {series} ({tags})"@ =~= crate::parser::settings_template());
        let preset = vec![
            PresetField { field: ComicInfoField::Manga, value: "YesAndRightToLeft".to_owned() },
        ];
        assert(preset.deep_view() =~= seq![(ComicInfoField::Manga, "YesAndRightToLeft"@)]);
        let page_rules = vec![
            PageRule { position: 1, end: None, page_type: PageType::FrontCover, double_page: false },
        ];
        assert(page_rules@ =~= seq![
            PageRule { position: 1, end: None, page_type: PageType::FrontCover, double_page: false },
        ]);
        AppSettings {
            format_template: "[{author}] {series} ({tags})".to_owned(),
            preset,
            page_rules,
            preset_series: String::new(),
            tag_library: Vec::new(),
            genre_library: Vec::new(),
        }
    }
}

/// Applies a re-parse of the folder name to an entry's metadata. Manual edits
/// win: a field the user edited keeps its value, the others take the newly
/// parsed one; the tags always follow the parse and the title is left alone.
pub fn apply_reparse(meta: &mut ParsedMetadata, edited: crate::models::EditedFields, parsed: ParsedMetadata)
    ensures
        final(meta)@.author == (if edited.author {
            old(meta)@.author
        } else {
            parsed@.author
        }),
        final(meta)@.series == (if edited.series {
            old(meta)@.series
        } else {
            parsed@.series
        }),
        final(meta)@.tags == parsed@.tags,
        final(meta)@.title == old(meta)@.title,
{
    let ParsedMetadata { author, series, title: _, tags } = parsed;
    if !edited.author {
        meta.author = author;
    }
    if !edited.series {
        meta.series = series;
    }
    meta.tags = tags;
}

/// The series a conversion writes: the global preset series, trimmed, when
/// it is not blank; the folder's own series otherwise.
pub fn apply_series_override(meta: &mut ParsedMetadata, preset_series: &str)
    ensures
        final(meta)@.series == (if trim(preset_series@).len() > 0 {
            trim(preset_series@)
        } else {
            old(meta)@.series
        }),
        final(meta)@.author == old(meta)@.author,
        final(meta)@.title == old(meta)@.title,
        final(meta)@.tags == old(meta)@.tags,
{
    let v = chars_of(preset_series);
    let (a, b) = trim_bounds(&v, 0, v.len());
    assert(v@.subrange(0, v.len() as int) =~= v@);
    if a < b {
        meta.series = string_of_range(&v, a, b);
    }
}

} // verus!
