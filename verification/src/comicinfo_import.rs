//! Reading a ComicInfo.xml document back into preset rows: the fields the
//! preset knows become rows, `<Series>` becomes the series override.
use vstd::prelude::*;
use crate::models::{ComicInfoField, PresetField, field_named};
use crate::text::{trim, trimmed, same_text};

verus! {

/// Preset data extracted from a ComicInfo.xml document.
pub struct Imported {
    /// Recognised fields, ready to replace the current preset rows.
    pub preset: Vec<PresetField>,
    /// The `<Series>` value, if present: it maps to the global series
    /// override rather than to a preset row.
    pub series: Option<String>,
}

/// The mathematical value of an [`Imported`].
pub struct ImportedView {
    pub preset: Seq<(ComicInfoField, Seq<char>)>,
    pub series: Option<Seq<char>>,
}

impl View for Imported {
    type V = ImportedView;

    open spec fn view(&self) -> ImportedView {
        ImportedView {
            preset: self.preset.deep_view(),
            series: match self.series {
                Some(s) => Some(s@),
                None => None,
            },
        }
    }
}

/// A child node of the document's root element, as plain values: whether it
/// is an element, its tag name (empty for other nodes) and its text.
pub struct XmlNode {
    pub is_element: bool,
    pub tag: String,
    pub text: Option<String>,
}

impl DeepView for XmlNode {
    type V = (bool, Seq<char>, Option<Seq<char>>);

    open spec fn deep_view(&self) -> (bool, Seq<char>, Option<Seq<char>>) {
        (
            self.is_element,
            self.tag@,
            match self.text {
                Some(t) => Some(t@),
                None => None,
            },
        )
    }
}

/// What roxmltree makes of a document: the children of its root element,
/// or the text of its parse error.
pub uninterp spec fn xml_root_children(xml: Seq<char>) -> Result<
    Seq<(bool, Seq<char>, Option<Seq<char>>)>,
    Seq<char>,
>;

/// Parses `xml` with `roxmltree::Document::parse` and lists the children of
/// the root element (`Node::is_element`, `tag_name().name()`, `text()`), or
/// gives the parse error's text. The contract only ties the result to the
/// name `xml_root_children`; nothing about XML itself is stated.
#[verifier::external_body]
fn root_children(xml: &str) -> (r: Result<Vec<XmlNode>, String>)
    ensures
        match r {
            Ok(v) => xml_root_children(xml@) == Ok::<_, Seq<char>>(v.deep_view()),
            Err(e) => xml_root_children(xml@) == Err::<Seq<(bool, Seq<char>, Option<Seq<char>>)>, _>(e@),
        },
{
    let doc = roxmltree::Document::parse(xml).map_err(|e| e.to_string())?;
    let mut out = Vec::new();
    for n in doc.root_element().children() {
        let text = n.text().map(|t| t.to_string());
        out.push(XmlNode { is_element: n.is_element(), tag: n.tag_name().name().to_string(), text });
    }
    Ok(out)
}

/// `Series`
pub open spec fn series_tag() -> Seq<char> {
    seq!['S', 'e', 'r', 'i', 'e', 's']
}

/// Elements that carry per-folder or derived data and are never imported:
/// `Writer`, `PageCount` and `Pages`.
pub open spec fn is_skipped_tag(tag: Seq<char>) -> bool {
    ||| tag == seq!['W', 'r', 'i', 't', 'e', 'r']
    ||| tag == seq!['P', 'a', 'g', 'e', 'C', 'o', 'u', 'n', 't']
    ||| tag == seq!['P', 'a', 'g', 'e', 's']
}

/// The import after one more child: elements with a non-empty trimmed text
/// count; `Series` sets the override (the last one wins), the skipped tags
/// are ignored, and a tag that names a preset field adds a row.
pub open spec fn import_step(
    acc: ImportedView,
    node: (bool, Seq<char>, Option<Seq<char>>),
) -> ImportedView {
    let value = trim(
        match node.2 {
            Some(t) => t,
            None => Seq::empty(),
        },
    );
    if !node.0 || value.len() == 0 {
        acc
    } else if node.1 == series_tag() {
        ImportedView { series: Some(value), ..acc }
    } else if is_skipped_tag(node.1) {
        acc
    } else {
        match field_named(node.1) {
            Some(f) => ImportedView { preset: acc.preset.push((f, value)), ..acc },
            None => acc,
        }
    }
}

/// The import of the first `k` children.
pub open spec fn import_nodes(nodes: Seq<(bool, Seq<char>, Option<Seq<char>>)>, k: int) -> ImportedView
    decreases k,
{
    if k <= 0 {
        ImportedView { preset: Seq::empty(), series: None }
    } else {
        import_step(import_nodes(nodes, k - 1), nodes[k - 1])
    }
}

/// An element written for a preset field is read back as a row of that
/// field with the same value, when the value is trimmed and not empty.
pub proof fn lemma_import_field_element(acc: ImportedView, f: ComicInfoField, value: Seq<char>)
    requires
        value.len() > 0,
        trim(value) == value,
    ensures
        import_step(acc, (true, f.tag_text(), Some(value))) == (ImportedView {
            preset: acc.preset.push((f, value)),
            ..acc
        }),
{
    crate::models::lemma_tag_round_trip(f);
    crate::models::lemma_tag_not_special(f, series_tag());
    crate::models::lemma_tag_not_special(f, seq!['W', 'r', 'i', 't', 'e', 'r']);
    crate::models::lemma_tag_not_special(f, seq!['P', 'a', 'g', 'e', 'C', 'o', 'u', 'n', 't']);
    crate::models::lemma_tag_not_special(f, seq!['P', 'a', 'g', 'e', 's']);
}

/// Turns the children of a ComicInfo root element into preset rows and the
/// series override.
pub fn imported_from_nodes(nodes: Vec<XmlNode>) -> (r: Imported)
    ensures
        r@ == import_nodes(nodes.deep_view(), nodes.deep_view().len() as int),
{
    let ghost nv = nodes.deep_view();
    let mut preset: Vec<PresetField> = Vec::new();
    let mut series: Option<String> = None;
    let mut i: usize = 0;
    assert(preset.deep_view() =~= Seq::<(ComicInfoField, Seq<char>)>::empty());
    while i < nodes.len()
        invariant
            i <= nodes.len(),
            nv == nodes.deep_view(),
            (Imported { preset, series })@ == import_nodes(nv, i as int),
        decreases nodes.len() - i,
    {
        let node = &nodes[i];
        let ghost acc = (Imported { preset, series })@;
        if node.is_element {
            let value = match &node.text {
                Some(t) => trimmed(t.as_str()),
                None => trimmed(""),
            };
            proof {
                reveal_strlit("");
            }
            if !value.as_str().is_empty() {
                let tag = node.tag.as_str();
                assert("Series"@ == series_tag()) by {
                    reveal_strlit("Series");
                }
                assert("Writer"@ =~= seq!['W', 'r', 'i', 't', 'e', 'r']) by {
                    reveal_strlit("Writer");
                }
                assert("PageCount"@ =~= seq!['P', 'a', 'g', 'e', 'C', 'o', 'u', 'n', 't']) by {
                    reveal_strlit("PageCount");
                }
                assert("Pages"@ =~= seq!['P', 'a', 'g', 'e', 's']) by {
                    reveal_strlit("Pages");
                }
                if same_text(tag, "Series") {
                    series = Some(value);
                } else if same_text(tag, "Writer") || same_text(tag, "PageCount") || same_text(
                    tag,
                    "Pages",
                ) {
                } else {
                    match ComicInfoField::from_xml_tag(tag) {
                        Some(field) => {
                            let ghost v = value@;
                            let ghost before = preset.deep_view();
                            preset.push(PresetField { field, value });
                            assert(preset.deep_view() =~= before.push((field, v)));
                        },
                        None => {},
                    }
                }
            }
        }
        i = i + 1;
    }
    Imported { preset, series }
}

/// Parse ComicInfo.xml into preset rows. Elements matching a
/// `ComicInfoField` become preset rows; `<Series>` becomes the override;
/// `Writer`, `PageCount` and `Pages` are skipped (per-folder author and
/// derived page data). Empty values are dropped. A document that does not
/// parse gives the parser's error text.
pub fn parse(xml: &str) -> (r: Result<Imported, String>)
    ensures
        match xml_root_children(xml@) {
            Ok(nodes) => r matches Ok(imp) && imp@ == import_nodes(nodes, nodes.len() as int),
            Err(e) => r matches Err(msg) && msg@ == e,
        },
{
    match root_children(xml) {
        Ok(nodes) => Ok(imported_from_nodes(nodes)),
        Err(e) => Err(e),
    }
}

} // verus!
