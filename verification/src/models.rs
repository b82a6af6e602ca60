//! The data model: ComicInfo.xml fields, page types, page rules and the
//! per-folder metadata.
use vstd::prelude::*;
use crate::text::same_text;

verus! {

/// ComicInfo.xml fields that can be configured via the global preset.
/// `Series` and `Writer` are not among them: they come from the per-folder
/// name parsing and manual edits.
#[derive(Clone, Copy, Debug, PartialEq, Eq, Structural, Hash)]
pub enum ComicInfoField {
    Title,
    Number,
    Count,
    Volume,
    AlternateSeries,
    AlternateNumber,
    AlternateCount,
    Summary,
    Notes,
    Year,
    Month,
    Day,
    Penciller,
    Inker,
    Colorist,
    Letterer,
    CoverArtist,
    Editor,
    Translator,
    Publisher,
    Imprint,
    Genre,
    Tags,
    Web,
    LanguageISO,
    Format,
    BlackAndWhite,
    Manga,
    Characters,
    Teams,
    Locations,
    ScanInformation,
    StoryArc,
    StoryArcNumber,
    SeriesGroup,
    AgeRating,
    CommunityRating,
    MainCharacterOrTeam,
    Review,
    GTIN,
}

/// Every field, in canonical ComicInfo.xml element order.
pub open spec fn all_fields() -> Seq<ComicInfoField> {
    seq![
        ComicInfoField::Title,
        ComicInfoField::Number,
        ComicInfoField::Count,
        ComicInfoField::Volume,
        ComicInfoField::AlternateSeries,
        ComicInfoField::AlternateNumber,
        ComicInfoField::AlternateCount,
        ComicInfoField::Summary,
        ComicInfoField::Notes,
        ComicInfoField::Year,
        ComicInfoField::Month,
        ComicInfoField::Day,
        ComicInfoField::Penciller,
        ComicInfoField::Inker,
        ComicInfoField::Colorist,
        ComicInfoField::Letterer,
        ComicInfoField::CoverArtist,
        ComicInfoField::Editor,
        ComicInfoField::Translator,
        ComicInfoField::Publisher,
        ComicInfoField::Imprint,
        ComicInfoField::Genre,
        ComicInfoField::Tags,
        ComicInfoField::Web,
        ComicInfoField::LanguageISO,
        ComicInfoField::Format,
        ComicInfoField::BlackAndWhite,
        ComicInfoField::Manga,
        ComicInfoField::Characters,
        ComicInfoField::Teams,
        ComicInfoField::Locations,
        ComicInfoField::ScanInformation,
        ComicInfoField::StoryArc,
        ComicInfoField::StoryArcNumber,
        ComicInfoField::SeriesGroup,
        ComicInfoField::AgeRating,
        ComicInfoField::CommunityRating,
        ComicInfoField::MainCharacterOrTeam,
        ComicInfoField::Review,
        ComicInfoField::GTIN,
    ]
}

impl ComicInfoField {
    /// The position of the field in canonical ComicInfo.xml order.
    pub open spec fn position(self) -> nat {
        match self {
            ComicInfoField::Title => 0,
            ComicInfoField::Number => 1,
            ComicInfoField::Count => 2,
            ComicInfoField::Volume => 3,
            ComicInfoField::AlternateSeries => 4,
            ComicInfoField::AlternateNumber => 5,
            ComicInfoField::AlternateCount => 6,
            ComicInfoField::Summary => 7,
            ComicInfoField::Notes => 8,
            ComicInfoField::Year => 9,
            ComicInfoField::Month => 10,
            ComicInfoField::Day => 11,
            ComicInfoField::Penciller => 12,
            ComicInfoField::Inker => 13,
            ComicInfoField::Colorist => 14,
            ComicInfoField::Letterer => 15,
            ComicInfoField::CoverArtist => 16,
            ComicInfoField::Editor => 17,
            ComicInfoField::Translator => 18,
            ComicInfoField::Publisher => 19,
            ComicInfoField::Imprint => 20,
            ComicInfoField::Genre => 21,
            ComicInfoField::Tags => 22,
            ComicInfoField::Web => 23,
            ComicInfoField::LanguageISO => 24,
            ComicInfoField::Format => 25,
            ComicInfoField::BlackAndWhite => 26,
            ComicInfoField::Manga => 27,
            ComicInfoField::Characters => 28,
            ComicInfoField::Teams => 29,
            ComicInfoField::Locations => 30,
            ComicInfoField::ScanInformation => 31,
            ComicInfoField::StoryArc => 32,
            ComicInfoField::StoryArcNumber => 33,
            ComicInfoField::SeriesGroup => 34,
            ComicInfoField::AgeRating => 35,
            ComicInfoField::CommunityRating => 36,
            ComicInfoField::MainCharacterOrTeam => 37,
            ComicInfoField::Review => 38,
            ComicInfoField::GTIN => 39,
        }
    }

    /// The XML element name of the field.
    pub open spec fn tag_text(self) -> Seq<char> {
        match self {
            ComicInfoField::Title => "Title"@,
            ComicInfoField::Number => "Number"@,
            ComicInfoField::Count => "Count"@,
            ComicInfoField::Volume => "Volume"@,
            ComicInfoField::AlternateSeries => "AlternateSeries"@,
            ComicInfoField::AlternateNumber => "AlternateNumber"@,
            ComicInfoField::AlternateCount => "AlternateCount"@,
            ComicInfoField::Summary => "Summary"@,
            ComicInfoField::Notes => "Notes"@,
            ComicInfoField::Year => "Year"@,
            ComicInfoField::Month => "Month"@,
            ComicInfoField::Day => "Day"@,
            ComicInfoField::Penciller => "Penciller"@,
            ComicInfoField::Inker => "Inker"@,
            ComicInfoField::Colorist => "Colorist"@,
            ComicInfoField::Letterer => "Letterer"@,
            ComicInfoField::CoverArtist => "CoverArtist"@,
            ComicInfoField::Editor => "Editor"@,
            ComicInfoField::Translator => "Translator"@,
            ComicInfoField::Publisher => "Publisher"@,
            ComicInfoField::Imprint => "Imprint"@,
            ComicInfoField::Genre => "Genre"@,
            ComicInfoField::Tags => "Tags"@,
            ComicInfoField::Web => "Web"@,
            ComicInfoField::LanguageISO => "LanguageISO"@,
            ComicInfoField::Format => "Format"@,
            ComicInfoField::BlackAndWhite => "BlackAndWhite"@,
            ComicInfoField::Manga => "Manga"@,
            ComicInfoField::Characters => "Characters"@,
            ComicInfoField::Teams => "Teams"@,
            ComicInfoField::Locations => "Locations"@,
            ComicInfoField::ScanInformation => "ScanInformation"@,
            ComicInfoField::StoryArc => "StoryArc"@,
            ComicInfoField::StoryArcNumber => "StoryArcNumber"@,
            ComicInfoField::SeriesGroup => "SeriesGroup"@,
            ComicInfoField::AgeRating => "AgeRating"@,
            ComicInfoField::CommunityRating => "CommunityRating"@,
            ComicInfoField::MainCharacterOrTeam => "MainCharacterOrTeam"@,
            ComicInfoField::Review => "Review"@,
            ComicInfoField::GTIN => "GTIN"@,
        }
    }

    /// For fields whose value is an enumeration in the ComicInfo schema,
    /// the allowed values; `None` for free text.
    pub open spec fn allowed(self) -> Option<Seq<Seq<char>>> {
        match self {
            ComicInfoField::Manga => Some(seq!["Unknown"@, "No"@, "Yes"@, "YesAndRightToLeft"@]),
            ComicInfoField::BlackAndWhite => Some(seq!["Unknown"@, "No"@, "Yes"@]),
            ComicInfoField::AgeRating => Some(
                seq![
                    "Unknown"@,
                    "Everyone"@,
                    "Everyone 10+"@,
                    "Teen"@,
                    "Mature 17+"@,
                    "Adults Only 18+"@,
                    "G"@,
                    "PG"@,
                    "M"@,
                    "MA15+"@,
                    "R18+"@,
                    "X18+"@,
                    "Rating Pending"@,
                    "Kids to Adults"@,
                    "Early Childhood"@,
                ],
            ),
            _ => None,
        }
    }

    /// Whether the value is edited in a multi-line box.
    pub open spec fn is_multiline(self) -> bool {
        match self {
            ComicInfoField::Summary | ComicInfoField::Notes | ComicInfoField::Review
            | ComicInfoField::Web | ComicInfoField::Tags | ComicInfoField::Genre
            | ComicInfoField::Characters | ComicInfoField::Teams | ComicInfoField::Locations
            | ComicInfoField::StoryArc | ComicInfoField::AlternateSeries
            | ComicInfoField::SeriesGroup | ComicInfoField::ScanInformation => true,
            _ => false,
        }
    }

    /// The value a new row of this field starts with: the first allowed
    /// value of an enumerated field, empty otherwise.
    pub open spec fn default_text(self) -> Seq<char> {
        match self.allowed() {
            Some(vals) => if vals.len() > 0 { vals[0] } else { Seq::<char>::empty() },
            None => Seq::<char>::empty(),
        }
    }

    /// Every field, in canonical ComicInfo.xml element order.
    pub fn all() -> (v: Vec<ComicInfoField>)
        ensures
            v@ == all_fields(),
    {
        let v = vec![
            ComicInfoField::Title,
            ComicInfoField::Number,
            ComicInfoField::Count,
            ComicInfoField::Volume,
            ComicInfoField::AlternateSeries,
            ComicInfoField::AlternateNumber,
            ComicInfoField::AlternateCount,
            ComicInfoField::Summary,
            ComicInfoField::Notes,
            ComicInfoField::Year,
            ComicInfoField::Month,
            ComicInfoField::Day,
            ComicInfoField::Penciller,
            ComicInfoField::Inker,
            ComicInfoField::Colorist,
            ComicInfoField::Letterer,
            ComicInfoField::CoverArtist,
            ComicInfoField::Editor,
            ComicInfoField::Translator,
            ComicInfoField::Publisher,
            ComicInfoField::Imprint,
            ComicInfoField::Genre,
            ComicInfoField::Tags,
            ComicInfoField::Web,
            ComicInfoField::LanguageISO,
            ComicInfoField::Format,
            ComicInfoField::BlackAndWhite,
            ComicInfoField::Manga,
            ComicInfoField::Characters,
            ComicInfoField::Teams,
            ComicInfoField::Locations,
            ComicInfoField::ScanInformation,
            ComicInfoField::StoryArc,
            ComicInfoField::StoryArcNumber,
            ComicInfoField::SeriesGroup,
            ComicInfoField::AgeRating,
            ComicInfoField::CommunityRating,
            ComicInfoField::MainCharacterOrTeam,
            ComicInfoField::Review,
            ComicInfoField::GTIN,
        ];
        assert(v@ =~= all_fields());
        v
    }

    /// XML element name (also used as the selector label).
    pub fn xml_tag(self) -> (r: &'static str)
        ensures
            r@ == self.tag_text(),
    {
        match self {
            ComicInfoField::Title => "Title",
            ComicInfoField::Number => "Number",
            ComicInfoField::Count => "Count",
            ComicInfoField::Volume => "Volume",
            ComicInfoField::AlternateSeries => "AlternateSeries",
            ComicInfoField::AlternateNumber => "AlternateNumber",
            ComicInfoField::AlternateCount => "AlternateCount",
            ComicInfoField::Summary => "Summary",
            ComicInfoField::Notes => "Notes",
            ComicInfoField::Year => "Year",
            ComicInfoField::Month => "Month",
            ComicInfoField::Day => "Day",
            ComicInfoField::Penciller => "Penciller",
            ComicInfoField::Inker => "Inker",
            ComicInfoField::Colorist => "Colorist",
            ComicInfoField::Letterer => "Letterer",
            ComicInfoField::CoverArtist => "CoverArtist",
            ComicInfoField::Editor => "Editor",
            ComicInfoField::Translator => "Translator",
            ComicInfoField::Publisher => "Publisher",
            ComicInfoField::Imprint => "Imprint",
            ComicInfoField::Genre => "Genre",
            ComicInfoField::Tags => "Tags",
            ComicInfoField::Web => "Web",
            ComicInfoField::LanguageISO => "LanguageISO",
            ComicInfoField::Format => "Format",
            ComicInfoField::BlackAndWhite => "BlackAndWhite",
            ComicInfoField::Manga => "Manga",
            ComicInfoField::Characters => "Characters",
            ComicInfoField::Teams => "Teams",
            ComicInfoField::Locations => "Locations",
            ComicInfoField::ScanInformation => "ScanInformation",
            ComicInfoField::StoryArc => "StoryArc",
            ComicInfoField::StoryArcNumber => "StoryArcNumber",
            ComicInfoField::SeriesGroup => "SeriesGroup",
            ComicInfoField::AgeRating => "AgeRating",
            ComicInfoField::CommunityRating => "CommunityRating",
            ComicInfoField::MainCharacterOrTeam => "MainCharacterOrTeam",
            ComicInfoField::Review => "Review",
            ComicInfoField::GTIN => "GTIN",
        }
    }

    pub fn label(self) -> (r: &'static str)
        ensures
            r@ == self.tag_text(),
    {
        self.xml_tag()
    }

    /// For fields whose value is an enumeration in the ComicInfo schema, the
    /// allowed values. `None` means free text.
    pub fn allowed_values(self) -> (r: Option<&'static [&'static str]>)
        ensures
            match self.allowed() {
                Some(vals) => r matches Some(v) && v.deep_view() == vals,
                None => r is None,
            },
    {
        match self {
            ComicInfoField::Manga => {
                let v: &'static [&'static str] = &["Unknown", "No", "Yes", "YesAndRightToLeft"];
                assert(v.deep_view() =~= self.allowed().unwrap());
                Some(v)
            },
            ComicInfoField::BlackAndWhite => {
                let v: &'static [&'static str] = &["Unknown", "No", "Yes"];
                assert(v.deep_view() =~= self.allowed().unwrap());
                Some(v)
            },
            ComicInfoField::AgeRating => {
                let v: &'static [&'static str] = &[
                    "Unknown",
                    "Everyone",
                    "Everyone 10+",
                    "Teen",
                    "Mature 17+",
                    "Adults Only 18+",
                    "G",
                    "PG",
                    "M",
                    "MA15+",
                    "R18+",
                    "X18+",
                    "Rating Pending",
                    "Kids to Adults",
                    "Early Childhood",
                ];
                assert(v.deep_view() =~= self.allowed().unwrap());
                Some(v)
            },
            _ => None,
        }
    }

    /// Whether the free-text value input should be a multi-line, wrapping box
    /// (long values like URLs, tag lists, summaries) rather than a single line.
    pub fn multiline(self) -> (r: bool)
        ensures
            r == self.is_multiline(),
    {
        match self {
            ComicInfoField::Summary | ComicInfoField::Notes | ComicInfoField::Review
            | ComicInfoField::Web | ComicInfoField::Tags | ComicInfoField::Genre
            | ComicInfoField::Characters | ComicInfoField::Teams | ComicInfoField::Locations
            | ComicInfoField::StoryArc | ComicInfoField::AlternateSeries
            | ComicInfoField::SeriesGroup | ComicInfoField::ScanInformation => true,
            _ => false,
        }
    }

    /// Canonical ComicInfo position of this field, used to keep preset rows
    /// sorted in the order the elements are written.
    pub fn order(self) -> (r: usize)
        ensures
            r == self.position(),
            r < all_fields().len(),
            all_fields()[r as int] == self,
    {
        let all = Self::all();
        let mut i: usize = 0;
        while i < all.len()
            invariant
                all@ == all_fields(),
                i <= all.len(),
                forall|j: int| 0 <= j < i ==> all@[j] != self,
            decreases all.len() - i,
        {
            if all[i] == self {
                proof {
                    lemma_position(self);
                    lemma_positions_distinct(i as int, self.position() as int);
                }
                return i;
            }
            i = i + 1;
        }
        proof {
            lemma_position(self);
            assert(all@[self.position() as int] == self);
        }
        usize::MAX
    }

    /// Default value for a newly added row of this field: first allowed value
    /// for enumerated fields, empty otherwise.
    pub fn default_value(self) -> (r: String)
        ensures
            r@ == self.default_text(),
    {
        match self.allowed_values() {
            Some(vals) => {
                if vals.len() > 0 {
                    assert(vals.deep_view()[0] == vals@[0]@);
                    vals[0].to_owned()
                } else {
                    String::new()
                }
            },
            None => String::new(),
        }
    }

    /// The field whose element name is `tag`, if any: the first one in
    /// canonical order.
    pub fn from_xml_tag(tag: &str) -> (r: Option<ComicInfoField>)
        ensures
            r == field_named(tag@),
            match r {
                Some(f) => f.tag_text() == tag@ && forall|g: ComicInfoField|
                    g.position() < f.position() ==> g.tag_text() != tag@,
                None => forall|g: ComicInfoField| g.tag_text() != tag@,
            },
    {
        proof {
            lemma_field_named(tag@, 0);
        }
        let all = Self::all();
        let mut i: usize = 0;
        while i < all.len()
            invariant
                all@ == all_fields(),
                i <= all.len(),
                field_named(tag@) == field_named_from(tag@, i as int),
            decreases all.len() - i,
        {
            let f = all[i];
            if same_text(f.xml_tag(), tag) {
                proof {
                    assert(field_named_from(tag@, i as int) == Some(f));
                    lemma_field_named(tag@, 0);
                    assert forall|g: ComicInfoField| g.position() < f.position() implies g.tag_text()
                        != tag@ by {
                        assert(0 <= g.position());
                    }
                }
                return Some(f);
            }
            i = i + 1;
        }
        assert(field_named_from(tag@, i as int) is None);
        None
    }
}

/// The first field, from position `k` on, whose element name is `tag`.
pub open spec fn field_named_from(tag: Seq<char>, k: int) -> Option<ComicInfoField>
    decreases all_fields().len() - k,
{
    if k < 0 || k >= all_fields().len() {
        None
    } else if all_fields()[k].tag_text() == tag {
        Some(all_fields()[k])
    } else {
        field_named_from(tag, k + 1)
    }
}

/// The first field in canonical order whose element name is `tag`.
pub open spec fn field_named(tag: Seq<char>) -> Option<ComicInfoField> {
    field_named_from(tag, 0)
}

/// What `field_named_from` finds is the first match from `k` on.
pub proof fn lemma_field_named(tag: Seq<char>, k: int)
    requires
        0 <= k,
    ensures
        match field_named_from(tag, k) {
            Some(f) => f.tag_text() == tag && k <= f.position() && forall|g: ComicInfoField|
                k <= g.position() < f.position() ==> g.tag_text() != tag,
            None => forall|g: ComicInfoField| k <= g.position() ==> g.tag_text() != tag,
        },
    decreases all_fields().len() - k,
{
    if k < all_fields().len() {
        lemma_field_named(tag, k + 1);
        lemma_position(all_fields()[k]);
        lemma_positions_distinct(k, all_fields()[k].position() as int);
        assert forall|g: ComicInfoField| g.position() == k implies g == all_fields()[k] by {
            lemma_position(g);
        }
    } else {
        assert forall|g: ComicInfoField| k <= g.position() implies g.tag_text() != tag by {
            lemma_position(g);
        }
    }
}

/// Each field stands in the canonical list at its position.
pub proof fn lemma_position(f: ComicInfoField)
    ensures
        f.position() < all_fields().len(),
        all_fields()[f.position() as int] == f,
        all_fields().len() == 40,
{
}

/// The canonical list holds no field twice.
pub proof fn lemma_positions_distinct(i: int, j: int)
    requires
        0 <= i < all_fields().len(),
        0 <= j < all_fields().len(),
        all_fields()[i] == all_fields()[j],
    ensures
        i == j,
{
    lemma_position(all_fields()[i]);
    assert(all_fields()[i].position() == i);
    assert(all_fields()[j].position() == j);
}

/// No two fields share an element name.
#[verifier::rlimit(50)]
pub proof fn lemma_tags_distinct(f: ComicInfoField, g: ComicInfoField)
    requires
        f != g,
    ensures
        f.tag_text() != g.tag_text(),
{
    reveal_strlit("Title");
    reveal_strlit("Number");
    reveal_strlit("Count");
    reveal_strlit("Volume");
    reveal_strlit("AlternateSeries");
    reveal_strlit("AlternateNumber");
    reveal_strlit("AlternateCount");
    reveal_strlit("Summary");
    reveal_strlit("Notes");
    reveal_strlit("Year");
    reveal_strlit("Month");
    reveal_strlit("Day");
    reveal_strlit("Penciller");
    reveal_strlit("Inker");
    reveal_strlit("Colorist");
    reveal_strlit("Letterer");
    reveal_strlit("CoverArtist");
    reveal_strlit("Editor");
    reveal_strlit("Translator");
    reveal_strlit("Publisher");
    reveal_strlit("Imprint");
    reveal_strlit("Genre");
    reveal_strlit("Tags");
    reveal_strlit("Web");
    reveal_strlit("LanguageISO");
    reveal_strlit("Format");
    reveal_strlit("BlackAndWhite");
    reveal_strlit("Manga");
    reveal_strlit("Characters");
    reveal_strlit("Teams");
    reveal_strlit("Locations");
    reveal_strlit("ScanInformation");
    reveal_strlit("StoryArc");
    reveal_strlit("StoryArcNumber");
    reveal_strlit("SeriesGroup");
    reveal_strlit("AgeRating");
    reveal_strlit("CommunityRating");
    reveal_strlit("MainCharacterOrTeam");
    reveal_strlit("Review");
    reveal_strlit("GTIN");
    if f.tag_text() == g.tag_text() {
        assert(f.tag_text().len() == g.tag_text().len());
        assert(f.tag_text()[0] == g.tag_text()[0]);
        assert(f.tag_text()[1] == g.tag_text()[1]);
        assert(f.tag_text()[2] == g.tag_text()[2]);
        assert(f.tag_text()[3] == g.tag_text()[3]);
        assert(f.tag_text()[4] == g.tag_text()[4]);
        assert(f.tag_text()[5] == g.tag_text()[5]);
        assert(f.tag_text()[6] == g.tag_text()[6]);
        assert(f.tag_text()[7] == g.tag_text()[7]);
        assert(f.tag_text()[8] == g.tag_text()[8]);
        assert(f.tag_text()[9] == g.tag_text()[9]);
        assert(f.tag_text()[10] == g.tag_text()[10]);
        assert(f.tag_text()[11] == g.tag_text()[11]);
        assert(f.tag_text()[12] == g.tag_text()[12]);
        assert(f.tag_text()[13] == g.tag_text()[13]);
        assert(f.tag_text()[14] == g.tag_text()[14]);
        assert(f.tag_text()[15] == g.tag_text()[15]);
        assert(f.tag_text()[16] == g.tag_text()[16]);
        assert(f.tag_text()[17] == g.tag_text()[17]);
        assert(f.tag_text()[18] == g.tag_text()[18]);
    }
}

/// No field's element name is one the importer treats apart: `Series`,
/// `Writer`, `PageCount` or `Pages`.
#[verifier::rlimit(50)]
pub proof fn lemma_tag_not_special(f: ComicInfoField, t: Seq<char>)
    requires
        t == seq!['S', 'e', 'r', 'i', 'e', 's'] || t == seq!['W', 'r', 'i', 't', 'e', 'r'] || t
            == seq!['P', 'a', 'g', 'e', 'C', 'o', 'u', 'n', 't'] || t == seq!['P', 'a', 'g', 'e', 's'],
    ensures
        f.tag_text() != t,
{
    reveal_strlit("Title");
    reveal_strlit("Number");
    reveal_strlit("Count");
    reveal_strlit("Volume");
    reveal_strlit("AlternateSeries");
    reveal_strlit("AlternateNumber");
    reveal_strlit("AlternateCount");
    reveal_strlit("Summary");
    reveal_strlit("Notes");
    reveal_strlit("Year");
    reveal_strlit("Month");
    reveal_strlit("Day");
    reveal_strlit("Penciller");
    reveal_strlit("Inker");
    reveal_strlit("Colorist");
    reveal_strlit("Letterer");
    reveal_strlit("CoverArtist");
    reveal_strlit("Editor");
    reveal_strlit("Translator");
    reveal_strlit("Publisher");
    reveal_strlit("Imprint");
    reveal_strlit("Genre");
    reveal_strlit("Tags");
    reveal_strlit("Web");
    reveal_strlit("LanguageISO");
    reveal_strlit("Format");
    reveal_strlit("BlackAndWhite");
    reveal_strlit("Manga");
    reveal_strlit("Characters");
    reveal_strlit("Teams");
    reveal_strlit("Locations");
    reveal_strlit("ScanInformation");
    reveal_strlit("StoryArc");
    reveal_strlit("StoryArcNumber");
    reveal_strlit("SeriesGroup");
    reveal_strlit("AgeRating");
    reveal_strlit("CommunityRating");
    reveal_strlit("MainCharacterOrTeam");
    reveal_strlit("Review");
    reveal_strlit("GTIN");
    if f.tag_text() == t {
        assert(f.tag_text().len() == t.len());
        match f {
            ComicInfoField::Title => {
                assert(f.tag_text()[0] == t[0]);
                assert(f.tag_text()[1] == t[1]);
                assert(f.tag_text()[2] == t[2]);
                assert(f.tag_text()[3] == t[3]);
                assert(f.tag_text()[4] == t[4]);
            },
            ComicInfoField::Number => {
                assert(f.tag_text()[0] == t[0]);
                assert(f.tag_text()[1] == t[1]);
                assert(f.tag_text()[2] == t[2]);
                assert(f.tag_text()[3] == t[3]);
                assert(f.tag_text()[4] == t[4]);
                assert(f.tag_text()[5] == t[5]);
            },
            ComicInfoField::Count => {
                assert(f.tag_text()[0] == t[0]);
                assert(f.tag_text()[1] == t[1]);
                assert(f.tag_text()[2] == t[2]);
                assert(f.tag_text()[3] == t[3]);
                assert(f.tag_text()[4] == t[4]);
            },
            ComicInfoField::Volume => {
                assert(f.tag_text()[0] == t[0]);
                assert(f.tag_text()[1] == t[1]);
                assert(f.tag_text()[2] == t[2]);
                assert(f.tag_text()[3] == t[3]);
                assert(f.tag_text()[4] == t[4]);
                assert(f.tag_text()[5] == t[5]);
            },
            ComicInfoField::Notes => {
                assert(f.tag_text()[0] == t[0]);
                assert(f.tag_text()[1] == t[1]);
                assert(f.tag_text()[2] == t[2]);
                assert(f.tag_text()[3] == t[3]);
                assert(f.tag_text()[4] == t[4]);
            },
            ComicInfoField::Month => {
                assert(f.tag_text()[0] == t[0]);
                assert(f.tag_text()[1] == t[1]);
                assert(f.tag_text()[2] == t[2]);
                assert(f.tag_text()[3] == t[3]);
                assert(f.tag_text()[4] == t[4]);
            },
            ComicInfoField::Penciller => {
                assert(f.tag_text()[0] == t[0]);
                assert(f.tag_text()[1] == t[1]);
                assert(f.tag_text()[2] == t[2]);
                assert(f.tag_text()[3] == t[3]);
                assert(f.tag_text()[4] == t[4]);
                assert(f.tag_text()[5] == t[5]);
                assert(f.tag_text()[6] == t[6]);
                assert(f.tag_text()[7] == t[7]);
                assert(f.tag_text()[8] == t[8]);
            },
            ComicInfoField::Inker => {
                assert(f.tag_text()[0] == t[0]);
                assert(f.tag_text()[1] == t[1]);
                assert(f.tag_text()[2] == t[2]);
                assert(f.tag_text()[3] == t[3]);
                assert(f.tag_text()[4] == t[4]);
            },
            ComicInfoField::Editor => {
                assert(f.tag_text()[0] == t[0]);
                assert(f.tag_text()[1] == t[1]);
                assert(f.tag_text()[2] == t[2]);
                assert(f.tag_text()[3] == t[3]);
                assert(f.tag_text()[4] == t[4]);
                assert(f.tag_text()[5] == t[5]);
            },
            ComicInfoField::Publisher => {
                assert(f.tag_text()[0] == t[0]);
                assert(f.tag_text()[1] == t[1]);
                assert(f.tag_text()[2] == t[2]);
                assert(f.tag_text()[3] == t[3]);
                assert(f.tag_text()[4] == t[4]);
                assert(f.tag_text()[5] == t[5]);
                assert(f.tag_text()[6] == t[6]);
                assert(f.tag_text()[7] == t[7]);
                assert(f.tag_text()[8] == t[8]);
            },
            ComicInfoField::Genre => {
                assert(f.tag_text()[0] == t[0]);
                assert(f.tag_text()[1] == t[1]);
                assert(f.tag_text()[2] == t[2]);
                assert(f.tag_text()[3] == t[3]);
                assert(f.tag_text()[4] == t[4]);
            },
            ComicInfoField::Format => {
                assert(f.tag_text()[0] == t[0]);
                assert(f.tag_text()[1] == t[1]);
                assert(f.tag_text()[2] == t[2]);
                assert(f.tag_text()[3] == t[3]);
                assert(f.tag_text()[4] == t[4]);
                assert(f.tag_text()[5] == t[5]);
            },
            ComicInfoField::Manga => {
                assert(f.tag_text()[0] == t[0]);
                assert(f.tag_text()[1] == t[1]);
                assert(f.tag_text()[2] == t[2]);
                assert(f.tag_text()[3] == t[3]);
                assert(f.tag_text()[4] == t[4]);
            },
            ComicInfoField::Teams => {
                assert(f.tag_text()[0] == t[0]);
                assert(f.tag_text()[1] == t[1]);
                assert(f.tag_text()[2] == t[2]);
                assert(f.tag_text()[3] == t[3]);
                assert(f.tag_text()[4] == t[4]);
            },
            ComicInfoField::Locations => {
                assert(f.tag_text()[0] == t[0]);
                assert(f.tag_text()[1] == t[1]);
                assert(f.tag_text()[2] == t[2]);
                assert(f.tag_text()[3] == t[3]);
                assert(f.tag_text()[4] == t[4]);
                assert(f.tag_text()[5] == t[5]);
                assert(f.tag_text()[6] == t[6]);
                assert(f.tag_text()[7] == t[7]);
                assert(f.tag_text()[8] == t[8]);
            },
            ComicInfoField::AgeRating => {
                assert(f.tag_text()[0] == t[0]);
                assert(f.tag_text()[1] == t[1]);
                assert(f.tag_text()[2] == t[2]);
                assert(f.tag_text()[3] == t[3]);
                assert(f.tag_text()[4] == t[4]);
                assert(f.tag_text()[5] == t[5]);
                assert(f.tag_text()[6] == t[6]);
                assert(f.tag_text()[7] == t[7]);
                assert(f.tag_text()[8] == t[8]);
            },
            ComicInfoField::Review => {
                assert(f.tag_text()[0] == t[0]);
                assert(f.tag_text()[1] == t[1]);
                assert(f.tag_text()[2] == t[2]);
                assert(f.tag_text()[3] == t[3]);
                assert(f.tag_text()[4] == t[4]);
                assert(f.tag_text()[5] == t[5]);
            },
            _ => {},
        }
    }
}

/// Reading an element name back gives the field that wrote it.
pub proof fn lemma_tag_round_trip(f: ComicInfoField)
    ensures
        field_named(f.tag_text()) == Some(f),
{
    lemma_field_named(f.tag_text(), 0);
    lemma_position(f);
    match field_named(f.tag_text()) {
        Some(g) => {
            if g != f {
                lemma_tags_distinct(f, g);
            }
        },
        None => {},
    }
}

/// ComicInfo `<Page Type="...">` values. `Story` is the schema default.
#[derive(Clone, Copy, Debug, PartialEq, Eq, Structural, Hash)]
pub enum PageType {
    FrontCover,
    InnerCover,
    Roundup,
    Story,
    Advertisement,
    Editorial,
    Letters,
    Preview,
    BackCover,
    Other,
    Deleted,
}

/// Every page type, in the order the selector lists them.
pub open spec fn all_page_types() -> Seq<PageType> {
    seq![
        PageType::FrontCover,
        PageType::InnerCover,
        PageType::Roundup,
        PageType::Story,
        PageType::Advertisement,
        PageType::Editorial,
        PageType::Letters,
        PageType::Preview,
        PageType::BackCover,
        PageType::Other,
        PageType::Deleted,
    ]
}

impl PageType {
    /// The attribute value of the page type.
    pub open spec fn value_text(self) -> Seq<char> {
        match self {
            PageType::FrontCover => "FrontCover"@,
            PageType::InnerCover => "InnerCover"@,
            PageType::Roundup => "Roundup"@,
            PageType::Story => "Story"@,
            PageType::Advertisement => "Advertisement"@,
            PageType::Editorial => "Editorial"@,
            PageType::Letters => "Letters"@,
            PageType::Preview => "Preview"@,
            PageType::BackCover => "BackCover"@,
            PageType::Other => "Other"@,
            PageType::Deleted => "Deleted"@,
        }
    }

    /// Every page type, in the order the selector lists them.
    pub fn all() -> (v: Vec<PageType>)
        ensures
            v@ == all_page_types(),
    {
        let v = vec![
            PageType::FrontCover,
            PageType::InnerCover,
            PageType::Roundup,
            PageType::Story,
            PageType::Advertisement,
            PageType::Editorial,
            PageType::Letters,
            PageType::Preview,
            PageType::BackCover,
            PageType::Other,
            PageType::Deleted,
        ];
        assert(v@ =~= all_page_types());
        v
    }

    pub fn xml_value(self) -> (r: &'static str)
        ensures
            r@ == self.value_text(),
    {
        match self {
            PageType::FrontCover => "FrontCover",
            PageType::InnerCover => "InnerCover",
            PageType::Roundup => "Roundup",
            PageType::Story => "Story",
            PageType::Advertisement => "Advertisement",
            PageType::Editorial => "Editorial",
            PageType::Letters => "Letters",
            PageType::Preview => "Preview",
            PageType::BackCover => "BackCover",
            PageType::Other => "Other",
            PageType::Deleted => "Deleted",
        }
    }

    pub fn label(self) -> (r: &'static str)
        ensures
            r@ == self.value_text(),
    {
        self.xml_value()
    }
}

/// The per-folder metadata: authors, series, title and tags.
#[derive(Clone, Debug)]
pub struct ParsedMetadata {
    pub author: Vec<String>,
    pub series: String,
    pub title: String,
    pub tags: Vec<String>,
}

/// The mathematical value of a [`ParsedMetadata`].
pub struct MetaView {
    pub author: Seq<Seq<char>>,
    pub series: Seq<char>,
    pub title: Seq<char>,
    pub tags: Seq<Seq<char>>,
}

/// Metadata with nothing filled in.
pub open spec fn empty_meta() -> MetaView {
    MetaView {
        author: Seq::empty(),
        series: Seq::empty(),
        title: Seq::empty(),
        tags: Seq::empty(),
    }
}

impl View for ParsedMetadata {
    type V = MetaView;

    open spec fn view(&self) -> MetaView {
        MetaView {
            author: self.author.deep_view(),
            series: self.series@,
            title: self.title@,
            tags: self.tags.deep_view(),
        }
    }
}

impl Default for ParsedMetadata {
    fn default() -> (r: Self)
        ensures
            r@ == empty_meta(),
    {
        let r = ParsedMetadata {
            author: Vec::new(),
            series: String::new(),
            title: String::new(),
            tags: Vec::new(),
        };
        assert(r.author.deep_view() =~= Seq::<Seq<char>>::empty());
        assert(r.tags.deep_view() =~= Seq::<Seq<char>>::empty());
        r
    }
}

/// One preset row: a field and its value.
#[derive(Clone, Debug)]
pub struct PresetField {
    pub field: ComicInfoField,
    pub value: String,
}

impl View for PresetField {
    type V = (ComicInfoField, Seq<char>);

    open spec fn view(&self) -> (ComicInfoField, Seq<char>) {
        (self.field, self.value@)
    }
}

impl DeepView for PresetField {
    type V = (ComicInfoField, Seq<char>);

    open spec fn deep_view(&self) -> (ComicInfoField, Seq<char>) {
        (self.field, self.value@)
    }
}

/// Which per-folder fields the user has edited by hand, so that a re-parse
/// (on a change of the format template) does not overwrite them.
#[derive(Clone, Copy, Debug, PartialEq, Eq, Structural)]
pub struct EditedFields {
    pub author: bool,
    pub series: bool,
}

impl Default for EditedFields {
    fn default() -> (r: Self)
        ensures
            !r.author && !r.series,
    {
        EditedFields { author: false, series: false }
    }
}

/// Assigns page attributes to a page position or range. `position` is 1-based
/// (the range start); negative values count from the end (`-1` = last page).
/// `end` (when set) is the inclusive range end, resolved the same way; with
/// `end = None` the rule targets the single `position`. `double_page` maps to
/// the ComicInfo `<Page DoublePage="true">` attribute, independent of the type.
#[derive(Clone, Copy, Debug)]
pub struct PageRule {
    pub position: i32,
    pub end: Option<i32>,
    pub page_type: PageType,
    pub double_page: bool,
}

/// The page count as the rules see it: converted to `i32` as `as` does.
pub open spec fn pages_i32(page_count: usize) -> int {
    (page_count as i32) as int
}

/// The 0-based index of a 1-based (negative: from the end) position, before
/// any range check.
pub open spec fn raw_index(pos: i32, n: int) -> int {
    if pos > 0 {
        pos - 1
    } else {
        n + pos
    }
}

/// The 0-based page a position names in a book of `page_count` pages, if it
/// lies inside the book.
pub open spec fn resolved_position(pos: i32, page_count: usize) -> Option<int> {
    let n = pages_i32(page_count);
    if pos == 0 {
        None
    } else if 0 <= raw_index(pos, n) < n {
        Some(raw_index(pos, n))
    } else {
        None
    }
}

/// The 0-based page a range endpoint names, clamped into the book; `None`
/// for an empty book or the invalid position `0`.
pub open spec fn clamped_position(pos: i32, page_count: usize) -> Option<int> {
    let n = pages_i32(page_count);
    if n == 0 || pos == 0 {
        None
    } else {
        let idx = raw_index(pos, n);
        Some(if idx < 0 { 0 } else if idx > n - 1 { n - 1 } else { idx })
    }
}

/// Positions count pages from the front for 1, 2, … and from the back for
/// -1 (the last page), -2, …; `0` names no page. A range endpoint names the
/// same page as the position alone wherever that page lies in the book, and
/// is clamped to the first or last page beyond it.
pub proof fn lemma_positions_name_pages(pos: i32, page_count: usize)
    ensures
        1 <= pos <= pages_i32(page_count) ==> resolved_position(pos, page_count) == Some(pos - 1)
            && clamped_position(pos, page_count) == Some(pos - 1),
        -pages_i32(page_count) <= pos <= -1 ==> resolved_position(pos, page_count) == Some(
            pages_i32(page_count) + pos,
        ) && clamped_position(pos, page_count) == Some(pages_i32(page_count) + pos),
        pages_i32(page_count) > 0 && pos > pages_i32(page_count) ==> resolved_position(
            pos,
            page_count,
        ) is None && clamped_position(pos, page_count) == Some(pages_i32(page_count) - 1),
        pages_i32(page_count) > 0 && pos < -pages_i32(page_count) ==> resolved_position(
            pos,
            page_count,
        ) is None && clamped_position(pos, page_count) == Some(0int),
        pos == 0 ==> resolved_position(pos, page_count) is None && clamped_position(
            pos,
            page_count,
        ) is None,
        resolved_position(pos, page_count) matches Some(i) ==> clamped_position(pos, page_count)
            == Some(i),
{
}

/// Converting a page count to `i32` never makes it larger.
pub proof fn lemma_pages_i32_bound(page_count: usize)
    ensures
        pages_i32(page_count) <= page_count,
{
    let c = page_count as u64;
    assert((c as i32) as int <= c as int) by (bit_vector);
    assert((page_count as i32) == (c as i32)) by (bit_vector)
        requires c == page_count as u64;
}

/// The pages `lo..=hi`.
pub open spec fn index_range(lo: int, hi: int) -> Seq<usize> {
    Seq::new((hi - lo + 1) as nat, |k: int| (lo + k) as usize)
}

impl PageRule {
    /// The inputs on which resolving does not overflow `i32` nor clamp into
    /// an empty range.
    pub open spec fn resolvable(self, page_count: usize) -> bool {
        let n = pages_i32(page_count);
        match self.end {
            None => self.position < 0 ==> n + self.position >= i32::MIN,
            Some(e) => (self.position != 0 ==> n >= 0) && (e != 0 ==> n >= 0),
        }
    }

    /// The 0-based pages the rule targets in a book of `page_count` pages.
    pub open spec fn targets(self, page_count: usize) -> Seq<usize> {
        match self.end {
            None => match resolved_position(self.position, page_count) {
                Some(i) => seq![i as usize],
                None => Seq::empty(),
            },
            Some(e) => match (
                clamped_position(self.position, page_count),
                clamped_position(e, page_count),
            ) {
                (Some(a), Some(b)) => if a <= b {
                    index_range(a, b)
                } else {
                    index_range(b, a)
                },
                _ => Seq::empty(),
            },
        }
    }

    /// A range rule whose two ends lie in the book targets every page from
    /// the earlier of the pages they name to the later one, in order.
    pub proof fn lemma_range_targets(self, page_count: usize)
        requires
            self.end is Some,
            resolved_position(self.position, page_count) is Some,
            resolved_position(self.end->0, page_count) is Some,
        ensures
            ({
                let a = resolved_position(self.position, page_count)->0;
                let b = resolved_position(self.end->0, page_count)->0;
                let lo = if a <= b { a } else { b };
                let hi = if a <= b { b } else { a };
                &&& self.targets(page_count).len() == hi - lo + 1
                &&& forall|k: int|
                    0 <= k < self.targets(page_count).len() ==> #[trigger] self.targets(
                        page_count,
                    )[k] == lo + k
            }),
    {
        lemma_positions_name_pages(self.position, page_count);
        lemma_positions_name_pages(self.end->0, page_count);
    }

    /// Resolve a 1-based (negative = from end) position to a 0-based index
    /// for a book of `page_count` pages, or `None` if it falls outside.
    fn resolve_pos(pos: i32, page_count: usize) -> (r: Option<usize>)
        requires
            pos < 0 ==> pages_i32(page_count) + pos >= i32::MIN,
        ensures
            match resolved_position(pos, page_count) {
                Some(i) => r == Some(i as usize) && 0 <= i < pages_i32(page_count),
                None => r is None,
            },
    {
        let n = page_count as i32;
        let idx = if pos > 0 {
            pos - 1
        } else if pos < 0 {
            n + pos
        } else {
            return None;
        };
        if idx >= 0 && idx < n {
            Some(idx as usize)
        } else {
            None
        }
    }

    /// Clamp a 1-based (negative = from end) position into `[0, n-1]`, or
    /// `None` for an empty book or the invalid `0`. Used for range endpoints
    /// so that e.g. "3 to 999" means "3 to last".
    fn clamp_pos(pos: i32, page_count: usize) -> (r: Option<usize>)
        requires
            pos != 0 ==> pages_i32(page_count) >= 0,
        ensures
            match clamped_position(pos, page_count) {
                Some(i) => r == Some(i as usize) && 0 <= i < pages_i32(page_count),
                None => r is None,
            },
    {
        let n = page_count as i32;
        if n == 0 || pos == 0 {
            return None;
        }
        let idx = if pos > 0 {
            pos - 1
        } else {
            n + pos
        };
        let c = if idx < 0 {
            0
        } else if idx > n - 1 {
            n - 1
        } else {
            idx
        };
        Some(c as usize)
    }

    /// 0-based page indices this rule targets. With `end = None` this is the
    /// single (strictly in-range) `position`; with `end = Some(_)` it is the
    /// inclusive range between the two clamped endpoints.
    pub fn resolve_indices(&self, page_count: usize) -> (r: Vec<usize>)
        requires
            self.resolvable(page_count),
        ensures
            r@ == self.targets(page_count),
            forall|k: int| 0 <= k < r.len() ==> (#[trigger] r@[k]) < page_count,
    {
        match self.end {
            None => match Self::resolve_pos(self.position, page_count) {
                Some(i) => {
                    proof {
                        lemma_pages_i32_bound(page_count);
                    }
                    vec![i]
                },
                None => Vec::new(),
            },
            Some(e) => {
                let a = Self::clamp_pos(self.position, page_count);
                let b = Self::clamp_pos(e, page_count);
                match (a, b) {
                    (Some(a), Some(b)) => {
                        let (lo, hi) = if a <= b {
                            (a, b)
                        } else {
                            (b, a)
                        };
                        let mut v: Vec<usize> = Vec::new();
                        let mut i = lo;
                        proof {
                            lemma_pages_i32_bound(page_count);
                        }
                        loop
                            invariant_except_break
                                lo <= i <= hi,
                                v@ =~= Seq::new((i - lo) as nat, |k: int| (lo + k) as usize),
                            invariant
                                hi < pages_i32(page_count),
                            ensures
                                v@ =~= Seq::new((hi - lo + 1) as nat, |k: int| (lo + k) as usize),
                            decreases hi - i,
                        {
                            v.push(i);
                            if i == hi {
                                break ;
                            }
                            i = i + 1;
                        }
                        assert(v@ =~= index_range(lo as int, hi as int));
                        v
                    },
                    _ => Vec::new(),
                }
            },
        }
    }
}

} // verus!
