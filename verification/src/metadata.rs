//! Building the ComicInfo.xml document of a comic archive from the
//! per-folder metadata, the global preset rows and the page rules.
use vstd::prelude::*;
use crate::models::{
    ComicInfoField, MetaView, PageRule, PageType, ParsedMetadata, PresetField, all_fields,
    lemma_position,
};
use crate::parser::{author_placeholder, series_placeholder, title_placeholder};
use crate::text::{
    xml_escaped, replace_all, join, split_at_chars, kept_pieces, decimal, chars_of, replace_text,
    join_text, push_escaped, push_decimal, split_trimmed, contains_text,
};

verus! {

/// `, ` — the separator of authors and tags in element text.
pub open spec fn list_sep() -> Seq<char> {
    seq![',', ' ']
}

/// The authors joined for element text.
pub open spec fn author_text(m: MetaView) -> Seq<char> {
    join(m.author, list_sep())
}

/// `  <tag>escaped value</tag>` and a line break; nothing for an empty value.
pub open spec fn element(tag: Seq<char>, value: Seq<char>) -> Seq<char> {
    if value.len() == 0 {
        Seq::empty()
    } else {
        seq![' ', ' ', '<'] + tag + seq!['>'] + xml_escaped(value) + seq!['<', '/'] + tag + seq![
            '>',
            '\n',
        ]
    }
}

/// A free-text preset value with the per-folder placeholders filled in:
/// `{author}` by the authors, then `{series}` by the series, then `{title}`
/// by the title.
pub open spec fn with_placeholders(value: Seq<char>, m: MetaView) -> Seq<char> {
    replace_all(
        replace_all(replace_all(value, author_placeholder(), author_text(m)), series_placeholder(), m.series),
        title_placeholder(),
        m.title,
    )
}

/// The value a preset row gives its element: free-text values have their
/// placeholders filled in, enumerated values stand as they are.
pub open spec fn row_value(row: (ComicInfoField, Seq<char>), m: MetaView) -> Seq<char> {
    if row.0.allowed() is None {
        with_placeholders(row.1, m)
    } else {
        row.1
    }
}

/// The creator roles that fall back to the author when the preset gives
/// them no value.
pub open spec fn is_creator_role(f: ComicInfoField) -> bool {
    ||| f == ComicInfoField::Penciller
    ||| f == ComicInfoField::Inker
    ||| f == ComicInfoField::Colorist
    ||| f == ComicInfoField::Letterer
    ||| f == ComicInfoField::CoverArtist
    ||| f == ComicInfoField::Editor
}

/// The elements the first `k` preset rows give field `f`, in row order.
pub open spec fn rows_text(
    f: ComicInfoField,
    rows: Seq<(ComicInfoField, Seq<char>)>,
    m: MetaView,
    k: int,
) -> Seq<char>
    decreases k,
{
    if k <= 0 {
        Seq::empty()
    } else {
        rows_text(f, rows, m, k - 1) + (if rows[k - 1].0 == f {
            element(f.tag_text(), row_value(rows[k - 1], m))
        } else {
            Seq::empty()
        })
    }
}

/// Some of the first `k` preset rows gives field `f` a non-empty value.
pub open spec fn emitted_upto(
    f: ComicInfoField,
    rows: Seq<(ComicInfoField, Seq<char>)>,
    m: MetaView,
    k: int,
) -> bool {
    exists|j: int| 0 <= j < k && rows[j].0 == f && #[trigger] row_value(rows[j], m).len() > 0
}

/// Everything written for field `f`: its preset rows, and for a creator role
/// that no row filled, the author.
pub open spec fn field_block(
    f: ComicInfoField,
    rows: Seq<(ComicInfoField, Seq<char>)>,
    m: MetaView,
) -> Seq<char> {
    rows_text(f, rows, m, rows.len() as int) + (if !emitted_upto(f, rows, m, rows.len() as int)
        && is_creator_role(f) && author_text(m).len() > 0 {
        element(f.tag_text(), author_text(m))
    } else {
        Seq::empty()
    })
}

/// The blocks of the first `k` fields in canonical order, Tags left out
/// (it is written with the merged tags).
pub open spec fn fields_text(rows: Seq<(ComicInfoField, Seq<char>)>, m: MetaView, k: int) -> Seq<
    char,
>
    decreases k,
{
    if k <= 0 {
        Seq::empty()
    } else {
        fields_text(rows, m, k - 1) + (if all_fields()[k - 1] == ComicInfoField::Tags {
            Seq::empty()
        } else {
            field_block(all_fields()[k - 1], rows, m)
        })
    }
}

/// The tag candidates of the first `k` preset rows: the comma-separated
/// items of every Tags row, placeholders filled in, trimmed, empty ones
/// dropped.
pub open spec fn preset_tags(rows: Seq<(ComicInfoField, Seq<char>)>, m: MetaView, k: int) -> Seq<
    Seq<char>,
>
    decreases k,
{
    if k <= 0 {
        Seq::empty()
    } else {
        preset_tags(rows, m, k - 1) + (if rows[k - 1].0 == ComicInfoField::Tags {
            kept_pieces(split_at_chars(with_placeholders(rows[k - 1].1, m), seq![',']))
        } else {
            Seq::empty()
        })
    }
}

/// `d` with `t` added at the end, unless `t` is empty or already in `d`.
pub open spec fn add_tag(d: Seq<Seq<char>>, t: Seq<char>) -> Seq<Seq<char>> {
    if t.len() == 0 || d.contains(t) {
        d
    } else {
        d.push(t)
    }
}

/// The non-empty items of `s` with repeats removed, each kept where it first
/// occurs.
pub open spec fn dedup_tags(s: Seq<Seq<char>>) -> Seq<Seq<char>>
    decreases s.len(),
{
    if s.len() == 0 {
        Seq::empty()
    } else {
        add_tag(dedup_tags(s.drop_last()), s.last())
    }
}

/// Folder-name tags first, then the preset's Tags values, with repeats and
/// empty items removed.
pub open spec fn merged_tags(m: MetaView, rows: Seq<(ComicInfoField, Seq<char>)>) -> Seq<
    Seq<char>,
> {
    dedup_tags(m.tags + preset_tags(rows, m, rows.len() as int))
}

/// The attributes of each page before any rule: no type, not double.
pub open spec fn blank_attrs(n: nat) -> Seq<(Option<PageType>, bool)> {
    Seq::new(n, |i: int| (None, false))
}

/// The attributes after applying `rule`: the pages it targets take its type
/// and double-page flag.
pub open spec fn apply_rule(
    attrs: Seq<(Option<PageType>, bool)>,
    rule: PageRule,
    page_count: usize,
) -> Seq<(Option<PageType>, bool)> {
    Seq::new(
        attrs.len(),
        |i: int|
            if rule.targets(page_count).contains(i as usize) {
                (Some(rule.page_type), rule.double_page)
            } else {
                attrs[i]
            },
    )
}

/// The attributes after the first `k` rules, applied in order.
pub open spec fn page_attrs(rules: Seq<PageRule>, page_count: usize, k: int) -> Seq<
    (Option<PageType>, bool),
>
    decreases k,
{
    if k <= 0 {
        blank_attrs(page_count as nat)
    } else {
        apply_rule(page_attrs(rules, page_count, k - 1), rules[k - 1], page_count)
    }
}

/// The `<Page .../>` line of page `i`.
pub open spec fn page_line(i: nat, a: (Option<PageType>, bool)) -> Seq<char> {
    "    <Page Image=\""@ + decimal(i) + "\""@ + (match a.0 {
        Some(t) => " Type=\""@ + t.value_text() + "\""@,
        None => Seq::empty(),
    }) + (if a.1 {
        " DoublePage=\"true\""@
    } else {
        Seq::empty()
    }) + " />\n"@
}

/// The lines of the first `k` pages.
pub open spec fn page_lines(attrs: Seq<(Option<PageType>, bool)>, k: int) -> Seq<char>
    decreases k,
{
    if k <= 0 {
        Seq::empty()
    } else {
        page_lines(attrs, k - 1) + page_line((k - 1) as nat, attrs[k - 1])
    }
}

/// The page count and the per-page list; nothing for a book without pages.
pub open spec fn pages_text(page_count: usize, rules: Seq<PageRule>) -> Seq<char> {
    if page_count == 0 {
        Seq::empty()
    } else {
        element("PageCount"@, decimal(page_count as nat)) + "  <Pages>\n"@ + page_lines(
            page_attrs(rules, page_count, rules.len() as int),
            page_count as int,
        ) + "  </Pages>\n"@
    }
}

/// The elements inside `<ComicInfo>`: title, series and writer from the
/// folder, the merged tags, the preset fields in canonical order, then the
/// page information.
pub open spec fn document_body(
    m: MetaView,
    rows: Seq<(ComicInfoField, Seq<char>)>,
    page_count: usize,
    rules: Seq<PageRule>,
) -> Seq<char> {
    element("Title"@, m.title) + element("Series"@, m.series) + element("Writer"@, author_text(m))
        + element("Tags"@, join(merged_tags(m, rows), list_sep())) + fields_text(
        rows,
        m,
        all_fields().len() as int,
    ) + pages_text(page_count, rules)
}

/// The XML declaration and the opening `<ComicInfo>` tag.
pub open spec fn document_head() -> Seq<char> {
    "<?xml version=\"1.0\" encoding=\"utf-8\"?>\n<ComicInfo xmlns:xsi=\"http://www.w3.org/2001/XMLSchema-instance\"\n           xmlns:xsd=\"http://www.w3.org/2001/XMLSchema\">\n"@
}

/// The whole ComicInfo.xml document.
pub open spec fn comic_info_document(
    m: MetaView,
    rows: Seq<(ComicInfoField, Seq<char>)>,
    page_count: usize,
    rules: Seq<PageRule>,
) -> Seq<char> {
    document_head() + document_body(m, rows, page_count, rules) + "</ComicInfo>\n"@
}

/// The preset rows as values.
pub open spec fn rows_view(preset: Seq<PresetField>) -> Seq<(ComicInfoField, Seq<char>)> {
    Seq::new(preset.len(), |i: int| preset[i]@)
}

/// Every page rule resolves without overflow in a book of `page_count` pages.
pub open spec fn rules_resolvable(rules: Seq<PageRule>, page_count: usize) -> bool {
    forall|k: int| 0 <= k < rules.len() ==> (#[trigger] rules[k]).resolvable(page_count)
}

/// Whether `f` falls back to the author.
fn creator_role(f: ComicInfoField) -> (r: bool)
    ensures
        r == is_creator_role(f),
{
    match f {
        ComicInfoField::Penciller | ComicInfoField::Inker | ComicInfoField::Colorist
        | ComicInfoField::Letterer | ComicInfoField::CoverArtist | ComicInfoField::Editor => true,
        _ => false,
    }
}

/// Replace per-folder placeholders in a free-text preset value: `{author}`
/// by the authors joined with `, `, then `{series}` by the series, then
/// `{title}` by the title.
fn apply_placeholders(value: &str, meta: &ParsedMetadata) -> (r: String)
    ensures
        r@ == with_placeholders(value@, meta@),
{
    let authors = join_text(&meta.author, ", ");
    let v = chars_of(value);
    let a = chars_of(authors.as_str());
    let sr = chars_of(meta.series.as_str());
    let t = chars_of(meta.title.as_str());
    let ap = vec!['{', 'a', 'u', 't', 'h', 'o', 'r', '}'];
    let sp = vec!['{', 's', 'e', 'r', 'i', 'e', 's', '}'];
    let tp = vec!['{', 't', 'i', 't', 'l', 'e', '}'];
    assert(ap@ =~= author_placeholder());
    assert(sp@ =~= series_placeholder());
    assert(tp@ =~= title_placeholder());
    assert(", "@ == list_sep()) by {
        reveal_strlit(", ");
    }
    let once = replace_text(&v, &ap, &a);
    let series_done = replace_text(&once, &sp, &sr);
    let twice = replace_text(&series_done, &tp, &t);
    let mut r = String::new();
    let mut i: usize = 0;
    while i < twice.len()
        invariant
            i <= twice.len(),
            r@ == twice@.take(i as int),
        decreases twice.len() - i,
    {
        r.push(twice[i]);
        assert(twice@.take(i + 1) =~= twice@.take(i as int).push(twice@[i as int]));
        i = i + 1;
    }
    assert(twice@.take(twice.len() as int) =~= twice@);
    r
}

/// Append `  <tag>escaped</tag>\n`, skipping empty values.
fn push_element(buf: &mut String, tag: &str, value: &str)
    ensures
        final(buf)@ == old(buf)@ + element(tag@, value@),
{
    if value.is_empty() {
        assert(old(buf)@ + element(tag@, value@) =~= old(buf)@);
        return;
    }
    let ghost start = buf@;
    buf.append("  <");
    buf.append(tag);
    buf.push('>');
    push_escaped(buf, value);
    buf.append("</");
    buf.append(tag);
    buf.append(">\n");
    proof {
        reveal_strlit("  <");
        reveal_strlit("</");
        reveal_strlit(">\n");
        assert(buf@ =~= start + element(tag@, value@));
    }
}

/// `out` with `t` added unless it is empty or already there.
fn add_unique(out: &mut Vec<String>, t: String)
    ensures
        final(out).deep_view() == add_tag(old(out).deep_view(), t@),
{
    if t.as_str().is_empty() {
        return;
    }
    if contains_text(out, &t) {
        return;
    }
    let ghost before = out.deep_view();
    out.push(t);
    assert(out.deep_view() =~= before.push(t@));
}

/// Folder-name tags first, then preset `Tags` values (comma-separated),
/// preserving order and removing exact-string duplicates and empties.
fn merge_tags(meta: &ParsedMetadata, preset: &[PresetField]) -> (r: Vec<String>)
    ensures
        r.deep_view() == merged_tags(meta@, rows_view(preset@)),
{
    let ghost rows = rows_view(preset@);
    let ghost m = meta@;
    let mut out: Vec<String> = Vec::new();
    let mut i: usize = 0;
    while i < meta.tags.len()
        invariant
            i <= meta.tags.len(),
            m == meta@,
            out.deep_view() == dedup_tags(m.tags.take(i as int)),
        decreases meta.tags.len() - i,
    {
        add_unique(&mut out, meta.tags[i].clone());
        assert(m.tags.take(i + 1).drop_last() =~= m.tags.take(i as int));
        i = i + 1;
    }
    assert(m.tags.take(meta.tags.len() as int) =~= m.tags);
    assert(m.tags + preset_tags(rows, m, 0) =~= m.tags);
    let commas = vec![','];
    let mut j: usize = 0;
    while j < preset.len()
        invariant
            j <= preset.len(),
            m == meta@,
            rows == rows_view(preset@),
            commas@ == seq![','],
            out.deep_view() == dedup_tags(m.tags + preset_tags(rows, m, j as int)),
        decreases preset.len() - j,
    {
        let ghost so_far = m.tags + preset_tags(rows, m, j as int);
        if preset[j].field == ComicInfoField::Tags {
            let value = apply_placeholders(preset[j].value.as_str(), meta);
            let vc = chars_of(value.as_str());
            let items = split_trimmed(&vc, 0, vc.len(), &commas);
            assert(vc@.subrange(0, vc.len() as int) =~= vc@);
            let ghost pieces = items.deep_view();
            let mut k: usize = 0;
            while k < items.len()
                invariant
                    k <= items.len(),
                    pieces == items.deep_view(),
                    out.deep_view() == dedup_tags(so_far + pieces.take(k as int)),
                decreases items.len() - k,
            {
                add_unique(&mut out, items[k].clone());
                assert((so_far + pieces.take(k + 1)).drop_last() =~= so_far + pieces.take(
                    k as int,
                ));
                k = k + 1;
            }
            assert(pieces.take(items.len() as int) =~= pieces);
            assert(so_far + pieces =~= m.tags + preset_tags(rows, m, j + 1));
        } else {
            assert(so_far =~= m.tags + preset_tags(rows, m, j + 1));
        }
        j = j + 1;
    }
    assert(rows.len() == preset.len());
    out
}

/// Some of the first `t` targets is page `p`.
spec fn covers(targets: Seq<usize>, t: int, p: int) -> bool {
    exists|q: int| 0 <= q < t && #[trigger] targets[q] == p as usize
}

/// The page attributes after every rule; later rules win when two target
/// the same page.
fn page_attributes(page_count: usize, page_rules: &[PageRule]) -> (r: Vec<
    (Option<PageType>, bool),
>)
    requires
        rules_resolvable(page_rules@, page_count),
    ensures
        r@ == page_attrs(page_rules@, page_count, page_rules@.len() as int),
        r@.len() == page_count,
{
    let mut attrs: Vec<(Option<PageType>, bool)> = Vec::new();
    let mut i: usize = 0;
    while i < page_count
        invariant
            i <= page_count,
            attrs@ == blank_attrs(i as nat),
        decreases page_count - i,
    {
        attrs.push((None, false));
        assert(attrs@ =~= blank_attrs((i + 1) as nat));
        i = i + 1;
    }
    let mut k: usize = 0;
    while k < page_rules.len()
        invariant
            k <= page_rules.len(),
            rules_resolvable(page_rules@, page_count),
            attrs@ == page_attrs(page_rules@, page_count, k as int),
            attrs@.len() == page_count,
        decreases page_rules.len() - k,
    {
        let rule = page_rules[k];
        assert(page_rules@[k as int].resolvable(page_count));
        let targets = rule.resolve_indices(page_count);
        let ghost before = attrs@;
        let mut t: usize = 0;
        while t < targets.len()
            invariant
                t <= targets.len(),
                attrs@.len() == page_count,
                targets@ == rule.targets(page_count),
                forall|q: int| 0 <= q < targets.len() ==> (#[trigger] targets@[q]) < page_count,
                forall|p: int|
                    0 <= p < page_count ==> #[trigger] attrs@[p] == (if covers(targets@, t as int, p) {
                        (Some(rule.page_type), rule.double_page)
                    } else {
                        before[p]
                    }),
            decreases targets.len() - t,
        {
            let idx = targets[t];
            attrs.set(idx, (Some(rule.page_type), rule.double_page));
            proof {
                assert forall|p: int| 0 <= p < page_count implies #[trigger] attrs@[p] == (
                if covers(targets@, t + 1, p) {
                    (Some(rule.page_type), rule.double_page)
                } else {
                    before[p]
                }) by {
                    if p as usize == idx {
                        assert(covers(targets@, t + 1, p));
                    } else if covers(targets@, t + 1, p) {
                        let w = choose|w: int| 0 <= w < t + 1 && #[trigger] targets@[w] == p as usize;
                        assert(covers(targets@, t as int, p));
                    } else {
                        assert(!covers(targets@, t as int, p));
                    }
                }
            }
            t = t + 1;
        }
        proof {
            assert forall|p: int| 0 <= p < page_count implies covers(targets@, targets.len() as int, p)
                == targets@.contains(p as usize) by {
                if targets@.contains(p as usize) {
                    let w = choose|w: int| 0 <= w < targets.len() && targets@[w] == p as usize;
                    assert(covers(targets@, targets.len() as int, p));
                }
            }
            assert(attrs@ =~= apply_rule(before, rule, page_count));
        }
        k = k + 1;
    }
    attrs
}

/// Appends the `<Page .../>` line of page `i`.
fn push_page_line(body: &mut String, i: usize, a: (Option<PageType>, bool))
    ensures
        final(body)@ == old(body)@ + page_line(i as nat, a),
{
    let ghost start = body@;
    body.append("    <Page Image=\"");
    push_decimal(body, i);
    body.append("\"");
    let ghost mid = body@;
    match a.0 {
        Some(t) => {
            body.append(" Type=\"");
            body.append(t.xml_value());
            body.append("\"");
        },
        None => {},
    }
    let ghost mid2 = body@;
    if a.1 {
        body.append(" DoublePage=\"true\"");
    }
    let ghost mid3 = body@;
    body.append(" />\n");
    proof {
        let typ: Seq<char> = match a.0 {
            Some(t) => " Type=\""@ + t.value_text() + "\""@,
            None => Seq::empty(),
        };
        let dbl: Seq<char> = if a.1 {
            " DoublePage=\"true\""@
        } else {
            Seq::empty()
        };
        assert(mid2 =~= mid + typ);
        assert(mid3 =~= mid2 + dbl);
        assert(body@ =~= start + page_line(i as nat, a));
    }
}

/// Builds the ComicInfo.xml document: title, series and writer from the
/// folder metadata, the merged tags, the preset fields in canonical order
/// (creator roles falling back to the author), and, for a book with pages,
/// the page count and one `<Page>` line per page with the attributes the
/// page rules give it.
pub fn build_comic_info_xml(
    meta: &ParsedMetadata,
    preset: &[PresetField],
    page_count: usize,
    page_rules: &[PageRule],
) -> (r: String)
    requires
        rules_resolvable(page_rules@, page_count),
    ensures
        r@ == comic_info_document(meta@, rows_view(preset@), page_count, page_rules@),
{
    let ghost rows = rows_view(preset@);
    let ghost m = meta@;
    let mut body = String::new();
    let author_value = join_text(&meta.author, ", ");
    assert(", "@ == list_sep()) by {
        reveal_strlit(", ");
    }
    push_element(&mut body, "Title", meta.title.as_str());
    push_element(&mut body, "Series", meta.series.as_str());
    push_element(&mut body, "Writer", author_value.as_str());
    let merged = merge_tags(meta, preset);
    let tags_value = join_text(&merged, ", ");
    push_element(&mut body, "Tags", tags_value.as_str());
    let ghost head = body@;
    assert(head =~= element("Title"@, m.title) + element("Series"@, m.series) + element(
        "Writer"@,
        author_text(m),
    ) + element("Tags"@, join(merged_tags(m, rows), list_sep())));
    let all = ComicInfoField::all();
    let mut fi: usize = 0;
    assert(head + fields_text(rows, m, 0) =~= head);
    while fi < all.len()
        invariant
            fi <= all.len(),
            all@ == all_fields(),
            rows == rows_view(preset@),
            m == meta@,
            author_value@ == author_text(m),
            body@ == head + fields_text(rows, m, fi as int),
        decreases all.len() - fi,
    {
        let field = all[fi];
        let ghost before = body@;
        if field != ComicInfoField::Tags {
            let mut emitted = false;
            let mut j: usize = 0;
            while j < preset.len()
                invariant
                    j <= preset.len(),
                    rows == rows_view(preset@),
                    m == meta@,
                    body@ == before + rows_text(field, rows, m, j as int),
                    emitted == emitted_upto(field, rows, m, j as int),
                decreases preset.len() - j,
            {
                if preset[j].field == field {
                    let value = if field.allowed_values().is_none() {
                        apply_placeholders(preset[j].value.as_str(), meta)
                    } else {
                        preset[j].value.clone()
                    };
                    assert(value@ == row_value(rows[j as int], m));
                    if !value.as_str().is_empty() {
                        push_element(&mut body, field.xml_tag(), value.as_str());
                        emitted = true;
                        assert(row_value(rows[j as int], m).len() > 0);
                    } else {
                        assert(body@ =~= before + rows_text(field, rows, m, j as int) + element(
                            field.tag_text(),
                            value@,
                        ));
                    }
                    proof {
                        assert(body@ =~= before + rows_text(field, rows, m, j + 1));
                        if !emitted_upto(field, rows, m, j as int) && row_value(
                            rows[j as int],
                            m,
                        ).len() == 0 {
                            assert forall|q: int|
                                0 <= q < j + 1 && rows[q].0 == field implies !(#[trigger] row_value(
                                rows[q],
                                m,
                            ).len() > 0) by {}
                        }
                    }
                } else {
                    proof {
                        assert(body@ =~= before + rows_text(field, rows, m, j + 1));
                    }
                }
                j = j + 1;
            }
            let ghost after_rows = body@;
            if !emitted && creator_role(field) && !author_value.as_str().is_empty() {
                push_element(&mut body, field.xml_tag(), author_value.as_str());
            }
            proof {
                assert(body@ =~= before + field_block(field, rows, m));
                assert(body@ =~= head + fields_text(rows, m, fi + 1));
            }
        } else {
            proof {
                assert(body@ =~= head + fields_text(rows, m, fi + 1));
            }
        }
        fi = fi + 1;
    }
    let ghost with_fields = body@;
    if page_count > 0 {
        let mut count = String::new();
        push_decimal(&mut count, page_count);
        assert(count@ =~= decimal(page_count as nat));
        push_element(&mut body, "PageCount", count.as_str());
        let attrs = page_attributes(page_count, page_rules);
        body.append("  <Pages>\n");
        let ghost lines_start = body@;
        let mut i: usize = 0;
        while i < page_count
            invariant
                i <= page_count,
                attrs@.len() == page_count,
                body@ == lines_start + page_lines(attrs@, i as int),
            decreases page_count - i,
        {
            push_page_line(&mut body, i, attrs[i]);
            assert(body@ =~= lines_start + page_lines(attrs@, i + 1));
            i = i + 1;
        }
        body.append("  </Pages>\n");
        assert(body@ =~= with_fields + pages_text(page_count, page_rules@));
    } else {
        assert(body@ =~= with_fields + pages_text(page_count, page_rules@));
    }
    let mut doc = String::new();
    doc.append("<?xml version=\"1.0\" encoding=\"utf-8\"?>\n<ComicInfo xmlns:xsi=\"http://www.w3.org/2001/XMLSchema-instance\"\n           xmlns:xsd=\"http://www.w3.org/2001/XMLSchema\">\n");
    doc.append(body.as_str());
    doc.append("</ComicInfo>\n");
    assert(doc@ =~= comic_info_document(m, rows, page_count, page_rules@));
    doc
}

/// The merged tags hold no tag twice and no empty tag, and they are exactly
/// the non-empty folder and preset tags.
pub proof fn lemma_merged_tags(m: MetaView, rows: Seq<(ComicInfoField, Seq<char>)>)
    ensures
        forall|i: int, j: int|
            0 <= i < j < merged_tags(m, rows).len() ==> merged_tags(m, rows)[i] != merged_tags(
                m,
                rows,
            )[j],
        forall|i: int| 0 <= i < merged_tags(m, rows).len() ==> (#[trigger] merged_tags(m, rows)[i]).len() > 0,
        forall|t: Seq<char>|
            merged_tags(m, rows).contains(t) <==> (t.len() > 0 && (m.tags + preset_tags(
                rows,
                m,
                rows.len() as int,
            )).contains(t)),
{
    lemma_dedup_tags(m.tags + preset_tags(rows, m, rows.len() as int));
}

/// `dedup_tags` keeps each non-empty item once.
pub proof fn lemma_dedup_tags(s: Seq<Seq<char>>)
    ensures
        forall|i: int, j: int|
            0 <= i < j < dedup_tags(s).len() ==> dedup_tags(s)[i] != dedup_tags(s)[j],
        forall|i: int| 0 <= i < dedup_tags(s).len() ==> (#[trigger] dedup_tags(s)[i]).len() > 0,
        forall|t: Seq<char>| dedup_tags(s).contains(t) <==> (t.len() > 0 && s.contains(t)),
    decreases s.len(),
{
    if s.len() > 0 {
        lemma_dedup_tags(s.drop_last());
        let d = dedup_tags(s.drop_last());
        assert(s =~= s.drop_last().push(s.last()));
        assert forall|t: Seq<char>| dedup_tags(s).contains(t) <==> (t.len() > 0 && s.contains(t)) by {
            crate::library::lemma_push_contains(s.drop_last(), s.last(), t);
            crate::library::lemma_push_contains(d, s.last(), t);
        }
        if !(s.last().len() == 0 || d.contains(s.last())) {
            assert forall|i: int, j: int|
                0 <= i < j < dedup_tags(s).len() implies dedup_tags(s)[i] != dedup_tags(s)[j] by {
                if j == d.len() {
                    assert(d[i] == dedup_tags(s)[i]);
                }
            }
            assert forall|i: int| 0 <= i < dedup_tags(s).len() implies (#[trigger] dedup_tags(
                s,
            )[i]).len() > 0 by {
                if i < d.len() {
                    assert(d[i] == dedup_tags(s)[i]);
                }
            }
        }
    }
}

/// The last of the first `k` rules that targets page `p`.
pub open spec fn last_rule_for(rules: Seq<PageRule>, page_count: usize, p: int, k: int) -> Option<
    int,
>
    decreases k,
{
    if k <= 0 {
        None
    } else if rules[k - 1].targets(page_count).contains(p as usize) {
        Some(k - 1)
    } else {
        last_rule_for(rules, page_count, p, k - 1)
    }
}

/// Later rules win: each page takes the type and double-page flag of the
/// last rule that targets it, and a page no rule targets stays plain.
pub proof fn lemma_later_rule_wins(rules: Seq<PageRule>, page_count: usize, p: int, k: int)
    requires
        0 <= p < page_count,
        0 <= k <= rules.len(),
    ensures
        page_attrs(rules, page_count, k).len() == page_count,
        page_attrs(rules, page_count, k)[p] == match last_rule_for(rules, page_count, p, k) {
            Some(q) => (Some(rules[q].page_type), rules[q].double_page),
            None => (None, false),
        },
    decreases k,
{
    if k > 0 {
        lemma_later_rule_wins(rules, page_count, p, k - 1);
    }
}

} // verus!
