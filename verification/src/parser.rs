//! Folder-name format templates such as `[{author}] {series} ({tags})`, with
//! the placeholders `{author}`, `{series}`, `{title}` and `{tags}`:
//! compiling a template into tokens, parsing folder names with it, and
//! formatting metadata back into a name.
use vstd::prelude::*;
use crate::models::{MetaView, ParsedMetadata, empty_meta};
use crate::text::{
    find, occurs_at, trim, join, split_at_chars, kept_pieces, lemma_find, chars_of, find_in,
    string_of_range, trim_bounds, split_trimmed, join_text, trimmed,
};

verus! {

/// The per-folder value a placeholder stands for.
#[derive(Clone, Copy, Debug, PartialEq, Eq, Structural)]
pub enum FieldKind {
    Author,
    Series,
    Title,
    Tags,
}

/// One piece of a compiled template: literal text or a placeholder.
#[derive(Debug)]
enum Token {
    Literal(String),
    Field(FieldKind),
}

/// The mathematical value of a token.
pub enum TokenView {
    Literal(Seq<char>),
    Field(FieldKind),
}

impl DeepView for Token {
    type V = TokenView;

    closed spec fn deep_view(&self) -> TokenView {
        match self {
            Token::Literal(s) => TokenView::Literal(s@),
            Token::Field(k) => TokenView::Field(*k),
        }
    }
}

/// `{author}`
pub open spec fn author_placeholder() -> Seq<char> {
    seq!['{', 'a', 'u', 't', 'h', 'o', 'r', '}']
}

/// `{series}`
pub open spec fn series_placeholder() -> Seq<char> {
    seq!['{', 's', 'e', 'r', 'i', 'e', 's', '}']
}

/// `{title}`
pub open spec fn title_placeholder() -> Seq<char> {
    seq!['{', 't', 'i', 't', 'l', 'e', '}']
}

/// `{tags}`
pub open spec fn tags_placeholder() -> Seq<char> {
    seq!['{', 't', 'a', 'g', 's', '}']
}

/// The placeholder text of a field kind.
pub open spec fn placeholder(k: FieldKind) -> Seq<char> {
    match k {
        FieldKind::Author => author_placeholder(),
        FieldKind::Series => series_placeholder(),
        FieldKind::Title => title_placeholder(),
        FieldKind::Tags => tags_placeholder(),
    }
}

/// An occurrence of the placeholder of `k`: its start, its end and `k`.
pub open spec fn occurrence(s: Seq<char>, k: FieldKind) -> Option<(int, int, FieldKind)> {
    match find(s, placeholder(k)) {
        Some(i) => Some((i, i + placeholder(k).len(), k)),
        None => None,
    }
}

/// Of two candidates, the one that starts first; the earlier candidate on a
/// tie.
pub open spec fn earlier(
    best: Option<(int, int, FieldKind)>,
    cand: Option<(int, int, FieldKind)>,
) -> Option<(int, int, FieldKind)> {
    match cand {
        None => best,
        Some(c) => match best {
            None => Some(c),
            Some(b) => if c.0 < b.0 {
                Some(c)
            } else {
                Some(b)
            },
        },
    }
}

/// The first placeholder in `s`.
pub open spec fn next_placeholder(s: Seq<char>) -> Option<(int, int, FieldKind)> {
    earlier(
        earlier(
            earlier(occurrence(s, FieldKind::Author), occurrence(s, FieldKind::Series)),
            occurrence(s, FieldKind::Title),
        ),
        occurrence(s, FieldKind::Tags),
    )
}

/// The tokens of a template: the literal runs between placeholders, and the
/// placeholders, in order. Empty literal runs are left out.
pub open spec fn tokenize(s: Seq<char>) -> Seq<TokenView>
    decreases s.len(),
{
    match next_placeholder(s) {
        None => if s.len() > 0 {
            seq![TokenView::Literal(s)]
        } else {
            Seq::empty()
        },
        Some((start, end, kind)) => if 0 <= start < end <= s.len() {
            (if start > 0 {
                seq![TokenView::Literal(s.subrange(0, start))]
            } else {
                Seq::empty()
            }) + seq![TokenView::Field(kind)] + tokenize(s.subrange(end, s.len() as int))
        } else {
            Seq::empty()
        },
    }
}

/// The template text a token stands for.
pub open spec fn token_source(t: TokenView) -> Seq<char> {
    match t {
        TokenView::Literal(s) => s,
        TokenView::Field(k) => placeholder(k),
    }
}

/// The template text a sequence of tokens stands for.
pub open spec fn source_text(toks: Seq<TokenView>) -> Seq<char>
    decreases toks.len(),
{
    if toks.len() == 0 {
        Seq::empty()
    } else {
        source_text(toks.drop_last()) + token_source(toks.last())
    }
}

/// The first placeholder found is a true occurrence of its kind's text.
pub proof fn lemma_next_placeholder(s: Seq<char>)
    ensures
        next_placeholder(s) matches Some((start, end, kind)) ==> end == start + placeholder(
            kind,
        ).len() && occurs_at(s, placeholder(kind), start) && 0 <= start < end <= s.len(),
{
    lemma_find(s, author_placeholder());
    lemma_find(s, series_placeholder());
    lemma_find(s, title_placeholder());
    lemma_find(s, tags_placeholder());
}

/// Concatenated sources split at any point.
pub proof fn lemma_source_text_append(a: Seq<TokenView>, b: Seq<TokenView>)
    ensures
        source_text(a + b) == source_text(a) + source_text(b),
    decreases b.len(),
{
    if b.len() == 0 {
        assert(a + b =~= a);
    } else {
        lemma_source_text_append(a, b.drop_last());
        assert((a + b).drop_last() =~= a + b.drop_last());
    }
}

/// The source of a single token.
pub proof fn lemma_source_text_single(t: TokenView)
    ensures
        source_text(seq![t]) == token_source(t),
{
    reveal_with_fuel(source_text, 2);
    assert(seq![t].drop_last() =~= Seq::<TokenView>::empty());
    assert(Seq::<char>::empty() + token_source(t) =~= token_source(t));
}

/// Compiling loses nothing: the tokens spell out the template again.
pub proof fn lemma_tokens_spell_template(s: Seq<char>)
    ensures
        source_text(tokenize(s)) == s,
    decreases s.len(),
{
    lemma_next_placeholder(s);
    match next_placeholder(s) {
        None => {
            if s.len() > 0 {
                lemma_source_text_single(TokenView::Literal(s));
            }
        },
        Some((start, end, kind)) => {
            let head: Seq<TokenView> = if start > 0 {
                seq![TokenView::Literal(s.subrange(0, start))]
            } else {
                Seq::empty()
            };
            let rest = s.subrange(end, s.len() as int);
            lemma_tokens_spell_template(rest);
            lemma_source_text_append(head + seq![TokenView::Field(kind)], tokenize(rest));
            lemma_source_text_append(head, seq![TokenView::Field(kind)]);
            lemma_source_text_single(TokenView::Field(kind));
            if start > 0 {
                lemma_source_text_single(TokenView::Literal(s.subrange(0, start)));
            }
            assert(s =~= s.subrange(0, start) + s.subrange(start, end) + rest);
            assert(s =~= source_text(head) + placeholder(kind) + rest);
        },
    }
}

// ---------------------------------------------------------------------------
// Parsing
// ---------------------------------------------------------------------------

/// The first literal at or after token `j`.
pub open spec fn first_literal_from(toks: Seq<TokenView>, j: int) -> Option<Seq<char>>
    decreases toks.len() - j,
{
    if j < 0 || j >= toks.len() {
        None
    } else {
        match toks[j] {
            TokenView::Literal(s) => Some(s),
            TokenView::Field(_) => first_literal_from(toks, j + 1),
        }
    }
}

/// Token `j` is an author or tags placeholder, whose region may be absent
/// from a name.
pub open spec fn is_optional_at(toks: Seq<TokenView>, j: int) -> bool {
    0 <= j < toks.len() && (toks[j] == TokenView::Field(FieldKind::Author) || toks[j]
        == TokenView::Field(FieldKind::Tags))
}

/// Token `j` is a literal.
pub open spec fn is_literal_at(toks: Seq<TokenView>, j: int) -> bool {
    0 <= j < toks.len() && toks[j] is Literal
}

/// The value a placeholder captures from `name[pos..]` and where reading goes
/// on: up to the next literal of the template (the rest of the name if there
/// is none, or if that literal does not occur), trimmed.
pub open spec fn capture(toks: Seq<TokenView>, name: Seq<char>, pos: int, i: int) -> (
    Seq<char>,
    int,
) {
    let rem = name.subrange(pos, name.len() as int);
    match first_literal_from(toks, i + 1) {
        Some(term) => match find(rem, term) {
            Some(p) => (trim(rem.subrange(0, p)), pos + p),
            None => (trim(rem), name.len() as int),
        },
        None => (trim(rem), name.len() as int),
    }
}

/// The metadata with a captured value stored under a placeholder: authors
/// are split at `sep`, trimmed, with empty names dropped; a series fills the
/// series; a title seeds both title and series; the tags region is read past
/// and dropped.
pub open spec fn store(m: MetaView, kind: FieldKind, value: Seq<char>, sep: char) -> MetaView {
    match kind {
        FieldKind::Author => MetaView {
            author: kept_pieces(split_at_chars(value, seq![sep])),
            ..m
        },
        FieldKind::Series => MetaView { series: value, ..m },
        FieldKind::Title => MetaView { title: value, series: value, ..m },
        FieldKind::Tags => m,
    }
}

/// Reading `name` from character `pos` with the tokens from `i` on, having
/// found `m` so far.
///
/// A literal is looked for in the rest of the name and reading goes on after
/// it; when it is missing and an author or tags placeholder follows, that
/// optional region (with the literal after it) is skipped; otherwise the
/// literal is passed over. A placeholder captures up to the next literal.
pub open spec fn parse_from(
    toks: Seq<TokenView>,
    sep: char,
    name: Seq<char>,
    pos: int,
    i: int,
    m: MetaView,
) -> MetaView
    decreases toks.len() + 3 - i,
{
    if i < 0 || i >= toks.len() {
        m
    } else {
        match toks[i] {
            TokenView::Literal(lit) => match find(name.subrange(pos, name.len() as int), lit) {
                Some(f) => parse_from(toks, sep, name, pos + f + lit.len(), i + 1, m),
                None => if is_optional_at(toks, i + 1) {
                    let j = if is_literal_at(toks, i + 2) {
                        i + 3
                    } else {
                        i + 2
                    };
                    parse_from(toks, sep, name, pos, j, m)
                } else {
                    parse_from(toks, sep, name, pos, i + 1, m)
                },
            },
            TokenView::Field(kind) => {
                let (value, next) = capture(toks, name, pos, i);
                parse_from(toks, sep, name, next, i + 1, store(m, kind, value, sep))
            },
        }
    }
}

/// The metadata a template reads from a folder name.
pub open spec fn parse_name(template: Seq<char>, name: Seq<char>) -> MetaView {
    parse_from(tokenize(template), ',', name, 0, 0, empty_meta())
}

/// Reading leaves the tags empty and keeps every author name trimmed and
/// non-empty.
pub open spec fn sound_meta(m: MetaView) -> bool {
    &&& m.tags.len() == 0
    &&& forall|k: int| 0 <= k < m.author.len() ==> (#[trigger] m.author[k]).len() > 0
        && crate::text::is_trimmed(m.author[k])
}

/// Every step of reading keeps `sound_meta`.
pub proof fn lemma_parse_from_sound(
    toks: Seq<TokenView>,
    sep: char,
    name: Seq<char>,
    pos: int,
    i: int,
    m: MetaView,
)
    requires
        sound_meta(m),
    ensures
        sound_meta(parse_from(toks, sep, name, pos, i, m)),
    decreases toks.len() + 3 - i,
{
    if i < 0 || i >= toks.len() {
    } else {
        match toks[i] {
            TokenView::Literal(lit) => match find(name.subrange(pos, name.len() as int), lit) {
                Some(f) => lemma_parse_from_sound(toks, sep, name, pos + f + lit.len(), i + 1, m),
                None => if is_optional_at(toks, i + 1) {
                    let j = if is_literal_at(toks, i + 2) {
                        i + 3
                    } else {
                        i + 2
                    };
                    lemma_parse_from_sound(toks, sep, name, pos, j, m)
                } else {
                    lemma_parse_from_sound(toks, sep, name, pos, i + 1, m)
                },
            },
            TokenView::Field(kind) => {
                let (value, next) = capture(toks, name, pos, i);
                crate::text::lemma_kept_pieces(split_at_chars(value, seq![sep]));
                lemma_parse_from_sound(toks, sep, name, next, i + 1, store(m, kind, value, sep))
            },
        }
    }
}

/// Whatever the template and the name, no tags are read, and each author
/// name read is trimmed and not empty.
pub proof fn lemma_parse_name_sound(template: Seq<char>, name: Seq<char>)
    ensures
        sound_meta(parse_name(template, name)),
{
    lemma_parse_from_sound(tokenize(template), ',', name, 0, 0, empty_meta());
}

// ---------------------------------------------------------------------------
// Formatting
// ---------------------------------------------------------------------------

/// A placeholder whose region is dropped when formatting `m`: an author
/// placeholder without authors, and every tags placeholder.
pub open spec fn empty_optional(t: TokenView, m: MetaView) -> bool {
    ||| (t == TokenView::Field(FieldKind::Author) && m.author.len() == 0)
    ||| t == TokenView::Field(FieldKind::Tags)
}

/// Token `i` is left out of the formatted name: an empty optional
/// placeholder, or a literal right before or after one.
pub open spec fn skipped(toks: Seq<TokenView>, m: MetaView, i: int) -> bool {
    ||| empty_optional(toks[i], m)
    ||| (toks[i] is Literal && ((i + 1 < toks.len() && empty_optional(toks[i + 1], m)) || (i > 0
        && empty_optional(toks[i - 1], m))))
}

/// What a token contributes to a formatted name.
pub open spec fn rendered(t: TokenView, m: MetaView, sep: char) -> Seq<char> {
    match t {
        TokenView::Literal(s) => s,
        TokenView::Field(FieldKind::Author) => join(m.author, seq![sep]),
        TokenView::Field(FieldKind::Series) => m.series,
        TokenView::Field(FieldKind::Title) => m.title,
        TokenView::Field(FieldKind::Tags) => Seq::empty(),
    }
}

/// The contributions of the first `k` tokens.
pub open spec fn format_prefix(toks: Seq<TokenView>, m: MetaView, sep: char, k: int) -> Seq<char>
    decreases k,
{
    if k <= 0 {
        Seq::empty()
    } else {
        format_prefix(toks, m, sep, k - 1) + (if skipped(toks, m, k - 1) {
            Seq::empty()
        } else {
            rendered(toks[k - 1], m, sep)
        })
    }
}

/// The folder name a template makes of `m`.
pub open spec fn format_name(template: Seq<char>, m: MetaView) -> Seq<char> {
    let toks = tokenize(template);
    trim(format_prefix(toks, m, ',', toks.len() as int))
}

/// An author placeholder without authors, or a tags placeholder, adds
/// nothing to a formatted name, and neither does the literal right after it
/// or the one right before it, wherever in the template it stands (the first
/// token included).
pub proof fn lemma_empty_region_dropped(toks: Seq<TokenView>, m: MetaView, sep: char, i: int)
    requires
        0 <= i < toks.len(),
        empty_optional(toks[i], m),
    ensures
        format_prefix(toks, m, sep, i + 1) == format_prefix(toks, m, sep, i),
        i + 1 < toks.len() && toks[i + 1] is Literal ==> format_prefix(toks, m, sep, i + 2)
            == format_prefix(toks, m, sep, i),
        i > 0 && toks[i - 1] is Literal ==> format_prefix(toks, m, sep, i + 1) == format_prefix(
            toks,
            m,
            sep,
            i - 1,
        ),
{
    let p = format_prefix(toks, m, sep, i);
    assert(format_prefix(toks, m, sep, i + 1) == p + Seq::<char>::empty());
    assert(p + Seq::<char>::empty() =~= p);
    if i + 1 < toks.len() && toks[i + 1] is Literal {
        assert(skipped(toks, m, i + 1));
        assert(format_prefix(toks, m, sep, i + 2) == format_prefix(toks, m, sep, i + 1)
            + Seq::<char>::empty());
    }
    if i > 0 && toks[i - 1] is Literal {
        let q = format_prefix(toks, m, sep, i - 1);
        assert(skipped(toks, m, i - 1));
        assert(p == q + Seq::<char>::empty());
        assert(q + Seq::<char>::empty() =~= q);
    }
}

/// Every other token adds its text to the formatted name: a literal with no
/// dropped placeholder beside it adds itself, an author placeholder with
/// authors adds them joined by `sep`, a title or series placeholder adds the
/// title or series.
pub proof fn lemma_kept_token_rendered(toks: Seq<TokenView>, m: MetaView, sep: char, i: int)
    requires
        0 <= i < toks.len(),
        !empty_optional(toks[i], m),
        toks[i] is Literal ==> !(i + 1 < toks.len() && empty_optional(toks[i + 1], m)) && !(i > 0
            && empty_optional(toks[i - 1], m)),
    ensures
        format_prefix(toks, m, sep, i + 1) == format_prefix(toks, m, sep, i) + match toks[i] {
            TokenView::Literal(l) => l,
            TokenView::Field(FieldKind::Author) => join(m.author, seq![sep]),
            TokenView::Field(FieldKind::Series) => m.series,
            TokenView::Field(FieldKind::Title) => m.title,
            TokenView::Field(FieldKind::Tags) => Seq::<char>::empty(),
        },
{
}

/// A located placeholder, with its bounds as integers.
pub open spec fn as_spec(o: Option<(usize, usize, FieldKind)>) -> Option<(int, int, FieldKind)> {
    match o {
        Some((a, b, k)) => Some((a as int, b as int, k)),
        None => None,
    }
}

/// A formatted name never starts or ends with whitespace.
pub proof fn lemma_format_name_trimmed(template: Seq<char>, m: MetaView)
    ensures
        crate::text::is_trimmed(format_name(template, m)),
{
    let toks = tokenize(template);
    crate::text::lemma_trim_is_trimmed(format_prefix(toks, m, ',', toks.len() as int));
}

// ---------------------------------------------------------------------------
// The bracketed templates
// ---------------------------------------------------------------------------

/// `[{author}] `, then the placeholder of `k`, then ` ({tags})`: the shape of
/// the pattern's default `[{author}] {title} ({tags})` and of the settings'
/// default `[{author}] {series} ({tags})`.
pub open spec fn bracket_template(k: FieldKind) -> Seq<char> {
    seq!['['] + author_placeholder() + seq![']', ' '] + placeholder(k) + seq![' ', '(']
        + tags_placeholder() + seq![')']
}

/// `[{author}] {title} ({tags})`, the template a pattern has by default.
pub open spec fn default_template() -> Seq<char> {
    bracket_template(FieldKind::Title)
}

/// `[{author}] {series} ({tags})`, the template the settings start with.
pub open spec fn settings_template() -> Seq<char> {
    bracket_template(FieldKind::Series)
}

/// The kinds that stand between the brackets and the tags.
pub open spec fn is_middle_kind(k: FieldKind) -> bool {
    k == FieldKind::Title || k == FieldKind::Series
}

/// The tokens of a bracketed template.
pub open spec fn bracket_tokens(k: FieldKind) -> Seq<TokenView> {
    seq![
        TokenView::Literal(seq!['[']),
        TokenView::Field(FieldKind::Author),
        TokenView::Literal(seq![']', ' ']),
        TokenView::Field(k),
        TokenView::Literal(seq![' ', '(']),
        TokenView::Field(FieldKind::Tags),
        TokenView::Literal(seq![')']),
    ]
}

/// What follows `[{author}` in a bracketed template.
pub open spec fn bracket_rest(k: FieldKind) -> Seq<char> {
    seq![']', ' '] + placeholder(k) + seq![' ', '('] + tags_placeholder() + seq![')']
}

/// ` ({tags})`, the end of a bracketed template.
pub open spec fn bracket_tail() -> Seq<char> {
    seq![' ', '(', '{', 't', 'a', 'g', 's', '}', ')']
}

/// The first placeholder of a bracketed template is `{author}`, at 1.
proof fn lemma_bracket_first(k: FieldKind)
    requires
        is_middle_kind(k),
    ensures
        next_placeholder(bracket_template(k)) == Some((1int, 9int, FieldKind::Author)),
        bracket_template(k).subrange(9, bracket_template(k).len() as int) == bracket_rest(k),
        bracket_template(k).subrange(0, 1) == seq!['['],
{
    let d0 = bracket_template(k);
    let a = author_placeholder();
    let r = series_placeholder();
    let t = title_placeholder();
    let g = tags_placeholder();
    assert(d0.subrange(1, 9) =~= a);
    assert(d0[0] == '[' && d0[2] == 'a');
    assert(d0.subrange(9, d0.len() as int) =~= bracket_rest(k));
    assert(d0.subrange(0, 1) =~= seq!['[']);
    crate::text::lemma_not_occurs(d0, a, 0, 0);
    crate::text::lemma_find_is(d0, a, 1);
    crate::text::lemma_not_occurs(d0, r, 0, 0);
    crate::text::lemma_not_occurs(d0, r, 1, 1);
    crate::text::lemma_find_after(d0, r, 1);
    crate::text::lemma_not_occurs(d0, t, 0, 0);
    crate::text::lemma_not_occurs(d0, t, 1, 1);
    crate::text::lemma_find_after(d0, t, 1);
    crate::text::lemma_not_occurs(d0, g, 0, 0);
    crate::text::lemma_not_occurs(d0, g, 1, 1);
    crate::text::lemma_find_after(d0, g, 1);
}

/// A placeholder `p` that differs from `d` at `2 + i` is not found in `d`
/// (which starts with `] `) up to index 2.
proof fn lemma_found_after_two(d: Seq<char>, p: Seq<char>, i: int)
    requires
        d.len() > 2 + i,
        d[0] == ']',
        d[1] == ' ',
        p.len() > 0,
        p[0] == '{',
        0 <= i < p.len(),
        d[2 + i] != p[i],
    ensures
        find(d, p) matches Some(x) ==> x > 2,
{
    crate::text::lemma_not_occurs(d, p, 0, 0);
    crate::text::lemma_not_occurs(d, p, 1, 0);
    crate::text::lemma_not_occurs(d, p, 2, i);
    crate::text::lemma_find_after(d, p, 2);
}

/// What follows `[{author}` in `[{author}] {title} ({tags})`.
pub open spec fn title_rest() -> Seq<char> {
    seq![']', ' ', '{', 't', 'i', 't', 'l', 'e', '}', ' ', '(', '{', 't', 'a', 'g', 's', '}', ')']
}

/// What follows `[{author}` in `[{author}] {series} ({tags})`.
pub open spec fn series_rest() -> Seq<char> {
    seq![
        ']', ' ', '{', 's', 'e', 'r', 'i', 'e', 's', '}', ' ', '(', '{', 't', 'a', 'g', 's', '}',
        ')',
    ]
}

/// In what follows `[{author}`, `{title}` is the next placeholder, at 2.
proof fn lemma_title_second()
    ensures
        next_placeholder(title_rest()) == Some((2int, 9int, FieldKind::Title)),
{
    let d1 = title_rest();
    let ph = title_placeholder();
    assert(d1.subrange(2, 9) =~= ph);
    crate::text::lemma_not_occurs(d1, ph, 0, 0);
    crate::text::lemma_not_occurs(d1, ph, 1, 0);
    crate::text::lemma_find_is(d1, ph, 2);
    lemma_found_after_two(d1, author_placeholder(), 1);
    lemma_found_after_two(d1, series_placeholder(), 1);
    lemma_found_after_two(d1, tags_placeholder(), 2);
}

/// In what follows `[{author}`, `{series}` is the next placeholder, at 2.
proof fn lemma_series_second()
    ensures
        next_placeholder(series_rest()) == Some((2int, 10int, FieldKind::Series)),
{
    let d1 = series_rest();
    let ph = series_placeholder();
    assert(d1.subrange(2, 10) =~= ph);
    crate::text::lemma_not_occurs(d1, ph, 0, 0);
    crate::text::lemma_not_occurs(d1, ph, 1, 0);
    crate::text::lemma_find_is(d1, ph, 2);
    lemma_found_after_two(d1, author_placeholder(), 1);
    lemma_found_after_two(d1, title_placeholder(), 1);
    lemma_found_after_two(d1, tags_placeholder(), 1);
}

/// After `[{author}`, the next placeholder is that of `k`, at 2.
proof fn lemma_bracket_second(k: FieldKind)
    requires
        is_middle_kind(k),
    ensures
        next_placeholder(bracket_rest(k)) == Some((2int, 2 + placeholder(k).len() as int, k)),
        bracket_rest(k).subrange(2 + placeholder(k).len() as int, bracket_rest(k).len() as int)
            == bracket_tail(),
        bracket_rest(k).subrange(0, 2) == seq![']', ' '],
{
    let l = placeholder(k).len() as int;
    let d1 = bracket_rest(k);
    assert(d1.subrange(2 + l, d1.len() as int) =~= bracket_tail());
    assert(d1.subrange(0, 2) =~= seq![']', ' ']);
    if k == FieldKind::Title {
        assert(d1 =~= title_rest());
        lemma_title_second();
    } else {
        assert(d1 =~= series_rest());
        lemma_series_second();
    }
}

/// ` ({tags})` compiles to a literal ` (`, the tags and a literal `)`.
proof fn lemma_bracket_tail()
    ensures
        tokenize(bracket_tail()) == seq![
            TokenView::Literal(seq![' ', '(']),
            TokenView::Field(FieldKind::Tags),
            TokenView::Literal(seq![')']),
        ],
{
    let d2 = bracket_tail();
    let a = author_placeholder();
    let r = series_placeholder();
    let t = title_placeholder();
    let g = tags_placeholder();
    let d3 = d2.subrange(8, 9);
    assert(d2.subrange(2, 8) =~= g);
    crate::text::lemma_not_occurs(d2, g, 0, 0);
    crate::text::lemma_not_occurs(d2, g, 1, 0);
    crate::text::lemma_find_is(d2, g, 2);
    crate::text::lemma_not_occurs(d2, a, 0, 0);
    crate::text::lemma_not_occurs(d2, a, 1, 0);
    crate::text::lemma_not_occurs(d2, a, 2, 1);
    crate::text::lemma_find_after(d2, a, 2);
    crate::text::lemma_not_occurs(d2, r, 0, 0);
    crate::text::lemma_not_occurs(d2, r, 1, 0);
    crate::text::lemma_not_occurs(d2, r, 2, 1);
    crate::text::lemma_find_after(d2, r, 2);
    crate::text::lemma_not_occurs(d2, t, 0, 0);
    crate::text::lemma_not_occurs(d2, t, 1, 0);
    crate::text::lemma_not_occurs(d2, t, 2, 2);
    crate::text::lemma_find_after(d2, t, 2);
    assert(next_placeholder(d2) == Some((2int, 8int, FieldKind::Tags)));
    // `)` holds no placeholder.
    assert(next_placeholder(d3) is None);
    assert(d3 =~= seq![')']);
    assert(tokenize(d3) =~= seq![TokenView::Literal(seq![')'])]);
    assert(d2.subrange(8, d2.len() as int) =~= d3);
    assert(d2.subrange(0, 2) =~= seq![' ', '(']);
}

/// A bracketed template compiles to a literal `[`, the authors, a literal
/// `] `, the title or series, a literal ` (`, the tags and a literal `)`.
pub proof fn lemma_bracket_tokens(k: FieldKind)
    requires
        is_middle_kind(k),
    ensures
        tokenize(bracket_template(k)) == bracket_tokens(k),
{
    lemma_bracket_first(k);
    lemma_bracket_second(k);
    lemma_bracket_tail();
    let d0 = bracket_template(k);
    let d1 = bracket_rest(k);
    assert(tokenize(d1) =~= seq![TokenView::Literal(seq![']', ' ']), TokenView::Field(k)]
        + tokenize(bracket_tail()));
    assert(tokenize(d0) =~= seq![
        TokenView::Literal(seq!['[']),
        TokenView::Field(FieldKind::Author),
    ] + tokenize(d1));
    assert(tokenize(d0) =~= bracket_tokens(k));
}

/// What a bracketed template puts between the brackets and the tags: the
/// series for `{series}`, the title otherwise.
pub open spec fn middle_value(k: FieldKind, m: MetaView) -> Seq<char> {
    if k == FieldKind::Series {
        m.series
    } else {
        m.title
    }
}

/// The folder name a bracketed template makes of `m`: the authors in
/// brackets before the title or series when there are any, else the title or
/// series alone.
pub open spec fn bracket_name(k: FieldKind, m: MetaView) -> Seq<char> {
    if m.author.len() > 0 {
        seq!['['] + join(m.author, seq![',']) + seq![']', ' '] + middle_value(k, m)
    } else {
        middle_value(k, m)
    }
}

/// Metadata that a bracketed template carries through a folder name
/// unchanged: a title or series (the one the template holds) that is not
/// empty, has no surrounding whitespace and holds no ` (`, and author names
/// that are not empty, have no surrounding whitespace and hold no comma,
/// with no `] ` in their joined text; without authors the title or series
/// holds no `[` either.
pub open spec fn bracket_round_trips(k: FieldKind, m: MetaView) -> bool {
    let v = middle_value(k, m);
    &&& v.len() > 0
    &&& crate::text::is_trimmed(v)
    &&& find(v, seq![' ', '(']) is None
    &&& m.author.len() == 0 ==> !v.contains('[')
    &&& forall|i: int|
        0 <= i < m.author.len() ==> (#[trigger] m.author[i]).len() > 0
            && crate::text::is_trimmed(m.author[i]) && !m.author[i].contains(',')
    &&& find(join(m.author, seq![',']), seq![']', ' ']) is None
}

/// What reading a bracketed name back gives: the authors, the title or
/// series (a title also seeds the series), and no tags.
pub open spec fn read_back(k: FieldKind, m: MetaView) -> MetaView {
    let v = middle_value(k, m);
    MetaView {
        author: m.author,
        series: v,
        title: if k == FieldKind::Title {
            v
        } else {
            Seq::empty()
        },
        tags: Seq::empty(),
    }
}

/// A bracketed template formats `m` as `bracket_name(k, m)`.
pub proof fn lemma_bracket_format(k: FieldKind, m: MetaView)
    requires
        is_middle_kind(k),
        bracket_round_trips(k, m),
    ensures
        format_name(bracket_template(k), m) == bracket_name(k, m),
{
    lemma_bracket_tokens(k);
    let toks = bracket_tokens(k);
    reveal_with_fuel(format_prefix, 8);
    let n = bracket_name(k, m);
    assert(rendered(toks[3], m, ',') == middle_value(k, m));
    if m.author.len() > 0 {
        assert(format_prefix(toks, m, ',', 7) =~= n);
        crate::text::lemma_join_ends(m.author, seq![',']);
    } else {
        assert(format_prefix(toks, m, ',', 7) =~= n);
    }
    assert(crate::text::is_trimmed(n));
    crate::text::lemma_trim_trimmed(n);
}

/// Reading a name of a bracketed template's shape back gives `read_back`.
pub proof fn lemma_bracket_parse(k: FieldKind, m: MetaView)
    requires
        is_middle_kind(k),
        bracket_round_trips(k, m),
    ensures
        parse_name(bracket_template(k), bracket_name(k, m)) == read_back(k, m),
{
    lemma_bracket_tokens(k);
    let toks = bracket_tokens(k);
    let n = bracket_name(k, m);
    let t = middle_value(k, m);
    let e = empty_meta();
    let close = seq![' ', '('];
    let open = seq!['['];
    // The ` (` region is never in the name: reading stops at the end.
    let m_end = read_back(k, m);
    assert(n.subrange(n.len() as int, n.len() as int) =~= Seq::<char>::empty());
    assert(find(Seq::<char>::empty(), close) is None);
    assert(is_optional_at(toks, 5) && is_literal_at(toks, 6));
    assert(parse_from(toks, ',', n, n.len() as int, 7, m_end) == m_end);
    assert(parse_from(toks, ',', n, n.len() as int, 4, m_end) == m_end);
    assert(first_literal_from(toks, 4) == Some(close));
    crate::text::lemma_trim_trimmed(t);
    if m.author.len() > 0 {
        let j = join(m.author, seq![',']);
        let lj = j.len() as int;
        let close_author = seq![']', ' '];
        crate::text::lemma_join_ends(m.author, seq![',']);
        assert(crate::text::is_trimmed(j));
        crate::text::lemma_trim_trimmed(j);
        // `[` opens the name.
        assert(n.subrange(0, n.len() as int) =~= n);
        assert(n.subrange(0, 1) =~= open);
        crate::text::lemma_find_is(n, open, 0);
        assert(parse_from(toks, ',', n, 0, 0, e) == parse_from(toks, ',', n, 1, 1, e));
        // The authors run up to the first `] `.
        let rem = n.subrange(1, n.len() as int);
        assert(rem =~= j + close_author + t);
        assert(rem.subrange(lj, lj + 2) =~= close_author);
        crate::text::lemma_find(j, close_author);
        assert forall|i: int| 0 <= i < lj implies !crate::text::occurs_at(rem, close_author, i) by {
            if i + 2 <= lj {
                if crate::text::occurs_at(rem, close_author, i) {
                    assert(j.subrange(i, i + 2) =~= rem.subrange(i, i + 2));
                    assert(crate::text::occurs_at(j, close_author, i));
                }
            } else {
                assert(rem[i + 1] == ']');
                crate::text::lemma_not_occurs(rem, close_author, i, 1);
            }
        }
        crate::text::lemma_find_is(rem, close_author, lj);
        assert(first_literal_from(toks, 2) == Some(close_author));
        assert(rem.subrange(0, lj) =~= j);
        assert(capture(toks, n, 1, 1) == (j, 1 + lj));
        crate::text::lemma_split_join(m.author, ',');
        crate::text::lemma_kept_pieces_all(m.author);
        let m_auth = store(e, FieldKind::Author, j, ',');
        assert(m_auth.author == m.author);
        assert(parse_from(toks, ',', n, 1, 1, e) == parse_from(toks, ',', n, 1 + lj, 2, m_auth));
        // `] ` follows them.
        let rem2 = n.subrange(1 + lj, n.len() as int);
        assert(rem2.subrange(0, 2) =~= close_author);
        crate::text::lemma_find_is(rem2, close_author, 0);
        assert(parse_from(toks, ',', n, 1 + lj, 2, m_auth) == parse_from(
            toks,
            ',',
            n,
            3 + lj,
            3,
            m_auth,
        ));
        // The title or series is the rest.
        let rem3 = n.subrange(3 + lj, n.len() as int);
        assert(rem3 =~= t);
        assert(capture(toks, n, 3 + lj, 3) == (t, n.len() as int));
        assert(store(m_auth, k, t, ',') =~= m_end);
        assert(parse_from(toks, ',', n, 3 + lj, 3, m_auth) == parse_from(
            toks,
            ',',
            n,
            n.len() as int,
            4,
            m_end,
        ));
    } else {
        // No `[` in the name: the author region is skipped.
        crate::text::lemma_find(t, open);
        if find(t, open) is Some {
            let i = find(t, open)->0;
            assert(t.subrange(i, i + 1)[0] == t[i]);
        }
        assert(n.subrange(0, n.len() as int) =~= t);
        assert(parse_from(toks, ',', n, 0, 0, e) == parse_from(toks, ',', n, 0, 3, e));
        assert(capture(toks, n, 0, 3) == (t, n.len() as int));
        assert(m.author =~= Seq::<Seq<char>>::empty());
        assert(store(e, k, t, ',') =~= m_end);
        assert(parse_from(toks, ',', n, 0, 3, e) == parse_from(
            toks,
            ',',
            n,
            n.len() as int,
            4,
            m_end,
        ));
    }
}

/// Formatting metadata with `[{author}] {title} ({tags})` or
/// `[{author}] {series} ({tags})` and reading the name back gives the
/// authors and the title or series again (a title also as the series), and
/// no tags.
pub proof fn lemma_bracket_round_trip(k: FieldKind, m: MetaView)
    requires
        is_middle_kind(k),
        bracket_round_trips(k, m),
    ensures
        parse_name(bracket_template(k), format_name(bracket_template(k), m)) == read_back(k, m),
{
    lemma_bracket_format(k, m);
    lemma_bracket_parse(k, m);
}

/// A compiled folder-name template.
pub struct FormatPattern {
    template: String,
    tokens: Vec<Token>,
    tags_sep: char,
}

impl FormatPattern {
    /// The tokens are those of the template, and authors are separated by
    /// commas.
    #[verifier::type_invariant]
    closed spec fn well_formed(self) -> bool {
        &&& self.tokens.deep_view() == tokenize(self.template@)
        &&& self.tags_sep == ','
    }

    /// The template the pattern was compiled from.
    pub closed spec fn template_text(self) -> Seq<char> {
        self.template@
    }

    /// The placeholder text of a kind.
    fn placeholder_chars(k: FieldKind) -> (v: Vec<char>)
        ensures
            v@ == placeholder(k),
    {
        let v = match k {
            FieldKind::Author => vec!['{', 'a', 'u', 't', 'h', 'o', 'r', '}'],
            FieldKind::Series => vec!['{', 's', 'e', 'r', 'i', 'e', 's', '}'],
            FieldKind::Title => vec!['{', 't', 'i', 't', 'l', 'e', '}'],
            FieldKind::Tags => vec!['{', 't', 'a', 'g', 's', '}'],
        };
        assert(v@ =~= placeholder(k));
        v
    }

    /// The occurrence of `k`'s placeholder in `s[lo..]`, relative to `lo`.
    fn locate(s: &Vec<char>, lo: usize, k: FieldKind) -> (r: Option<(usize, usize, FieldKind)>)
        requires
            lo <= s.len(),
        ensures
            as_spec(r) == occurrence(s@.subrange(lo as int, s.len() as int), k),
    {
        let p = Self::placeholder_chars(k);
        match find_in(s, lo, s.len(), &p) {
            Some(i) => {
                proof {
                    lemma_find(s@.subrange(lo as int, s.len() as int), p@);
                }
                Some((i, i + p.len(), k))
            },
            None => None,
        }
    }

    /// Of two candidates, the one that starts first; the earlier on a tie.
    fn earlier_of(
        best: Option<(usize, usize, FieldKind)>,
        cand: Option<(usize, usize, FieldKind)>,
    ) -> (r: Option<(usize, usize, FieldKind)>)
        ensures
            as_spec(r) == earlier(as_spec(best), as_spec(cand)),
    {
        match cand {
            None => best,
            Some(c) => match best {
                None => Some(c),
                Some(b) => if c.0 < b.0 {
                    Some(c)
                } else {
                    Some(b)
                },
            },
        }
    }

    /// Compiles a template, recognising the `{author}`, `{series}`,
    /// `{title}` and `{tags}` placeholders; any other text is literal.
    pub fn compile(template: &str) -> (r: Self)
        ensures
            r.template_text() == template@,
    {
        let s = chars_of(template);
        let mut tokens: Vec<Token> = Vec::new();
        let mut start: usize = 0;
        assert(s@.subrange(0, s.len() as int) =~= s@);
        assert(tokens.deep_view() + tokenize(s@) =~= tokenize(s@));
        loop
            invariant_except_break
                tokens.deep_view() + tokenize(s@.subrange(start as int, s.len() as int))
                    == tokenize(s@),
            invariant
                start <= s.len(),
                s@ == template@,
            ensures
                tokens.deep_view() == tokenize(s@),
            decreases s.len() - start,
        {
            let ghost rest = s@.subrange(start as int, s.len() as int);
            let ghost before = tokens.deep_view();
            let a = Self::locate(&s, start, FieldKind::Author);
            let r = Self::locate(&s, start, FieldKind::Series);
            let t = Self::locate(&s, start, FieldKind::Title);
            let g = Self::locate(&s, start, FieldKind::Tags);
            let next = Self::earlier_of(Self::earlier_of(Self::earlier_of(a, r), t), g);
            proof {
                lemma_next_placeholder(rest);
                assert(as_spec(next) == next_placeholder(rest));
            }
            match next {
                None => {
                    if start < s.len() {
                        let lit = string_of_range(&s, start, s.len());
                        tokens.push(Token::Literal(lit));
                        proof {
                            assert(tokens.deep_view() =~= before + seq![TokenView::Literal(rest)]);
                        }
                    } else {
                        proof {
                            assert(before + tokenize(rest) =~= before);
                        }
                    }
                    proof {
                        assert(before + tokenize(rest) =~= tokens.deep_view());
                    }
                    break ;
                },
                Some((b, e, kind)) => {
                    if b > 0 {
                        let lit = string_of_range(&s, start, start + b);
                        tokens.push(Token::Literal(lit));
                    }
                    tokens.push(Token::Field(kind));
                    proof {
                        let head: Seq<TokenView> = if b > 0 {
                            seq![TokenView::Literal(rest.subrange(0, b as int))]
                        } else {
                            Seq::empty()
                        };
                        assert(rest.subrange(0, b as int) =~= s@.subrange(
                            start as int,
                            start + b,
                        ));
                        assert(rest.subrange(e as int, rest.len() as int) =~= s@.subrange(
                            start + e,
                            s.len() as int,
                        ));
                        assert(tokens.deep_view() =~= before + head + seq![
                            TokenView::Field(kind),
                        ]);
                        assert(before + tokenize(rest) =~= before + head + seq![
                            TokenView::Field(kind),
                        ] + tokenize(s@.subrange(start + e, s.len() as int)));
                    }
                    start = start + e;
                },
            }
        }
        let text = string_of_range(&s, 0, s.len());
        assert(text@ =~= s@);
        FormatPattern { template: text, tokens, tags_sep: ',' }
    }

    /// The template the pattern was compiled from.
    pub fn template(&self) -> (r: &str)
        ensures
            r@ == self.template_text(),
    {
        self.template.as_str()
    }

    /// Whether token `j` is an author or tags placeholder.
    fn optional_at(&self, j: usize) -> (r: bool)
        ensures
            r == is_optional_at(self.tokens.deep_view(), j as int),
    {
        if j < self.tokens.len() {
            match &self.tokens[j] {
                Token::Field(k) => *k == FieldKind::Author || *k == FieldKind::Tags,
                Token::Literal(_) => false,
            }
        } else {
            false
        }
    }

    /// Whether token `j` is a literal.
    fn literal_at(&self, j: usize) -> (r: bool)
        ensures
            r == is_literal_at(self.tokens.deep_view(), j as int),
    {
        if j < self.tokens.len() {
            match &self.tokens[j] {
                Token::Literal(_) => true,
                Token::Field(_) => false,
            }
        } else {
            false
        }
    }

    /// The first literal at or after token `j`, as characters.
    fn first_literal(&self, j: usize) -> (r: Option<Vec<char>>)
        ensures
            match first_literal_from(self.tokens.deep_view(), j as int) {
                Some(s) => r matches Some(v) && v@ == s,
                None => r is None,
            },
    {
        let mut k = j;
        while k < self.tokens.len()
            invariant
                j <= k,
                first_literal_from(self.tokens.deep_view(), j as int) == first_literal_from(
                    self.tokens.deep_view(),
                    k as int,
                ),
            decreases self.tokens.len() - k,
        {
            match &self.tokens[k] {
                Token::Literal(s) => {
                    return Some(chars_of(s.as_str()));
                },
                Token::Field(_) => {},
            }
            k = k + 1;
        }
        None
    }

    /// Reads the metadata out of a folder name.
    pub fn parse(&self, name: &str) -> (r: ParsedMetadata)
        ensures
            r@ == parse_name(self.template_text(), name@),
    {
        proof {
            use_type_invariant(self);
        }
        let nv = chars_of(name);
        let ghost toks = self.tokens.deep_view();
        let mut meta = ParsedMetadata::default();
        let n = self.tokens.len();
        let mut pos: usize = 0;
        let mut i: usize = 0;
        let seps = vec![self.tags_sep];
        while i < n
            invariant
                n == self.tokens.len(),
                toks == self.tokens.deep_view(),
                toks == tokenize(self.template@),
                self.tags_sep == ',',
                seps@ == seq![','],
                nv@ == name@,
                pos <= nv.len(),
                parse_from(toks, ',', nv@, pos as int, i as int, meta@) == parse_name(
                    self.template@,
                    name@,
                ),
            decreases n + 3 - i,
        {
            let ghost rem = nv@.subrange(pos as int, nv.len() as int);
            match &self.tokens[i] {
                Token::Literal(lit) => {
                    let lv = chars_of(lit.as_str());
                    let next_is_optional = self.optional_at(i + 1);
                    match find_in(&nv, pos, nv.len(), &lv) {
                        Some(found) => {
                            proof {
                                lemma_find(rem, lv@);
                            }
                            pos = pos + found + lv.len();
                            i = i + 1;
                        },
                        None => {
                            if next_is_optional {
                                i = i + 2;
                                if self.literal_at(i) {
                                    i = i + 1;
                                }
                            } else {
                                i = i + 1;
                            }
                        },
                    }
                },
                Token::Field(kind) => {
                    let kind = *kind;
                    let terminator = self.first_literal(i + 1);
                    let (lo, hi, next) = match terminator {
                        Some(term) => {
                            match find_in(&nv, pos, nv.len(), &term) {
                                Some(p) => {
                                    proof {
                                        lemma_find(rem, term@);
                                        assert(rem.subrange(0, p as int) =~= nv@.subrange(
                                            pos as int,
                                            pos + p,
                                        ));
                                    }
                                    (pos, pos + p, pos + p)
                                },
                                None => (pos, nv.len(), nv.len()),
                            }
                        },
                        None => (pos, nv.len(), nv.len()),
                    };
                    let (a, b) = trim_bounds(&nv, lo, hi);
                    let ghost value = nv@.subrange(a as int, b as int);
                    let ghost before = meta@;
                    match kind {
                        FieldKind::Author => {
                            meta.author = split_trimmed(&nv, a, b, &seps);
                        },
                        FieldKind::Series => {
                            meta.series = string_of_range(&nv, a, b);
                        },
                        FieldKind::Title => {
                            let v = string_of_range(&nv, a, b);
                            meta.title = v.clone();
                            meta.series = v;
                        },
                        FieldKind::Tags => {},
                    }
                    proof {
                        assert(meta@ =~= store(before, kind, value, ','));
                    }
                    pos = next;
                    i = i + 1;
                },
            }
        }
        meta
    }

    /// Formats metadata as a folder name; the regions of an author
    /// placeholder without authors and of every tags placeholder are dropped
    /// together with the literals around them.
    pub fn format(&self, meta: &ParsedMetadata) -> (r: String)
        ensures
            r@ == format_name(self.template_text(), meta@),
    {
        proof {
            use_type_invariant(self);
        }
        let ghost toks = self.tokens.deep_view();
        let n = self.tokens.len();
        let mut sep = String::new();
        sep.push(self.tags_sep);
        let mut result = String::new();
        let mut i: usize = 0;
        while i < n
            invariant
                n == self.tokens.len(),
                toks == self.tokens.deep_view(),
                toks == tokenize(self.template@),
                sep@ == seq![','],
                i <= n,
                result@ == format_prefix(toks, meta@, ',', i as int),
            decreases n - i,
        {
            let skip = self.is_empty_optional(i, meta) || (self.literal_at(i) && ((i + 1 < n
                && self.is_empty_optional(i + 1, meta)) || (i > 0 && self.is_empty_optional(
                i - 1,
                meta,
            ))));
            let ghost before = result@;
            if !skip {
                match &self.tokens[i] {
                    Token::Literal(s) => {
                        result.append(s.as_str());
                    },
                    Token::Field(FieldKind::Author) => {
                        let joined = join_text(&meta.author, sep.as_str());
                        result.append(joined.as_str());
                    },
                    Token::Field(FieldKind::Series) => {
                        result.append(meta.series.as_str());
                    },
                    Token::Field(FieldKind::Title) => {
                        result.append(meta.title.as_str());
                    },
                    Token::Field(FieldKind::Tags) => {},
                }
            }
            proof {
                if skip {
                    assert(result@ =~= before + Seq::<char>::empty());
                } else {
                    assert(result@ =~= before + rendered(toks[i as int], meta@, ','));
                }
            }
            i = i + 1;
        }
        trimmed(result.as_str())
    }

    /// Whether token `i` is a placeholder whose region is dropped.
    fn is_empty_optional(&self, i: usize, meta: &ParsedMetadata) -> (r: bool)
        requires
            i < self.tokens.len(),
        ensures
            r == empty_optional(self.tokens.deep_view()[i as int], meta@),
    {
        match &self.tokens[i] {
            Token::Field(FieldKind::Author) => meta.author.len() == 0,
            Token::Field(FieldKind::Tags) => true,
            _ => false,
        }
    }
}

impl Clone for FormatPattern {
    fn clone(&self) -> (r: Self)
        ensures
            r.template_text() == self.template_text(),
    {
        Self::compile(self.template.as_str())
    }
}

impl Default for FormatPattern {
    /// The pattern of `[{author}] {title} ({tags})`.
    fn default() -> (r: Self)
        ensures
            r.template_text() == "[{author}] {title} ({tags})"@,
            r.template_text() == default_template(),
    {
        proof {
            reveal_strlit("[{author}] {title} ({tags})");
        }
        assert("[{author}] {title} ({tags})"@ =~= default_template());
        Self::compile("[{author}] {title} ({tags})")
    }
}

} // verus!
