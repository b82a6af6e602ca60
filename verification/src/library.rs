//! Editing the preset and the tag and genre libraries: comma-separated value
//! lists, chip toggling, renames that follow library edits, and keeping
//! preset rows in canonical order.
use vstd::prelude::*;
use crate::models::{ComicInfoField, PresetField};
use crate::text::{
    kept_pieces, split_at_chars, join, trim, chars_of, split_trimmed, join_text, contains_text,
    same_text, trimmed,
};

verus! {

/// The items of a comma- or newline-separated value: trimmed, the empty ones
/// dropped.
pub open spec fn csv_items(value: Seq<char>) -> Seq<Seq<char>> {
    kept_pieces(split_at_chars(value, seq![',', '\n']))
}

/// `, ` — the separator items are joined with.
pub open spec fn item_sep() -> Seq<char> {
    seq![',', ' ']
}

/// Split a comma- or newline-separated preset value into trimmed, non-empty
/// items. Newlines count as separators so multi-line value boxes parse
/// cleanly.
pub fn split_csv(value: &str) -> (r: Vec<String>)
    ensures
        r.deep_view() == csv_items(value@),
{
    let v = chars_of(value);
    let seps = vec![',', '\n'];
    assert(seps@ =~= seq![',', '\n']);
    assert(v@.subrange(0, v.len() as int) =~= v@);
    split_trimmed(&v, 0, v.len(), &seps)
}

/// The author names typed into an entry's author box: split at commas,
/// trimmed, the empty ones dropped.
pub fn split_authors(text: &str) -> (r: Vec<String>)
    ensures
        r.deep_view() == kept_pieces(split_at_chars(text@, seq![','])),
{
    let v = chars_of(text);
    let seps = vec![','];
    assert(seps@ =~= seq![',']);
    assert(v@.subrange(0, v.len() as int) =~= v@);
    split_trimmed(&v, 0, v.len(), &seps)
}

// ---------------------------------------------------------------------------
// Renames
// ---------------------------------------------------------------------------

/// The renames as pairs of texts.
pub open spec fn renames_view(renames: Seq<(String, String)>) -> Seq<(Seq<char>, Seq<char>)> {
    Seq::new(renames.len(), |i: int| (renames[i].0@, renames[i].1@))
}

/// An item after the first `k` renames, applied in turn: each rename turns
/// the item into its new text when the item equals its old text.
pub open spec fn renamed(item: Seq<char>, renames: Seq<(Seq<char>, Seq<char>)>, k: int) -> Seq<char>
    decreases k,
{
    if k <= 0 {
        item
    } else {
        let x = renamed(item, renames, k - 1);
        if x == renames[k - 1].0 {
            renames[k - 1].1
        } else {
            x
        }
    }
}

/// `s` with repeats removed, each item kept where it first occurs.
pub open spec fn dedup_all(s: Seq<Seq<char>>) -> Seq<Seq<char>>
    decreases s.len(),
{
    if s.len() == 0 {
        Seq::empty()
    } else {
        let d = dedup_all(s.drop_last());
        if d.contains(s.last()) {
            d
        } else {
            d.push(s.last())
        }
    }
}

/// A preset value after renames: its items renamed, repeats removed, joined
/// with `, `.
pub open spec fn renamed_value(value: Seq<char>, renames: Seq<(Seq<char>, Seq<char>)>) -> Seq<char> {
    let items = csv_items(value);
    join(
        dedup_all(Seq::new(items.len(), |i: int| renamed(items[i], renames, renames.len() as int))),
        item_sep(),
    )
}

/// Membership in a sequence with one more item.
pub proof fn lemma_push_contains(s: Seq<Seq<char>>, x: Seq<char>, t: Seq<char>)
    ensures
        s.push(x).contains(t) <==> (s.contains(t) || t == x),
{
    if s.contains(t) {
        let k = choose|k: int| 0 <= k < s.len() && s[k] == t;
        assert(s.push(x)[k] == t);
    }
    if t == x {
        assert(s.push(x)[s.len() as int] == t);
    }
    if s.push(x).contains(t) {
        let k = choose|k: int| 0 <= k < s.push(x).len() && s.push(x)[k] == t;
        if k < s.len() {
            assert(s[k] == t);
        }
    }
}

/// Membership in a non-empty sequence, split at its last item.
pub proof fn lemma_last_contains(s: Seq<Seq<char>>, t: Seq<char>)
    requires
        s.len() > 0,
    ensures
        s.contains(t) <==> (s.drop_last().contains(t) || t == s.last()),
{
    assert(s =~= s.drop_last().push(s.last()));
    lemma_push_contains(s.drop_last(), s.last(), t);
}

/// `dedup_all` leaves no item twice and keeps every item.
pub proof fn lemma_dedup_all_unique(s: Seq<Seq<char>>)
    ensures
        forall|i: int, j: int|
            0 <= i < j < dedup_all(s).len() ==> dedup_all(s)[i] != dedup_all(s)[j],
        forall|t: Seq<char>| dedup_all(s).contains(t) <==> s.contains(t),
    decreases s.len(),
{
    if s.len() > 0 {
        lemma_dedup_all_unique(s.drop_last());
        let d = dedup_all(s.drop_last());
        assert forall|t: Seq<char>| dedup_all(s).contains(t) <==> s.contains(t) by {
            lemma_last_contains(s, t);
            lemma_push_contains(d, s.last(), t);
        }
        if !d.contains(s.last()) {
            assert forall|i: int, j: int|
                0 <= i < j < dedup_all(s).len() implies dedup_all(s)[i] != dedup_all(s)[j] by {
                if j == d.len() {
                    assert(d[i] == dedup_all(s)[i]);
                }
            }
        }
    }
}

/// `item` after the renames.
fn rename_item(item: &String, renames: &[(String, String)]) -> (r: String)
    ensures
        r@ == renamed(item@, renames_view(renames@), renames@.len() as int),
{
    let ghost rv = renames_view(renames@);
    let mut x = item.clone();
    let mut k: usize = 0;
    while k < renames.len()
        invariant
            k <= renames.len(),
            rv == renames_view(renames@),
            x@ == renamed(item@, rv, k as int),
        decreases renames.len() - k,
    {
        if x == renames[k].0 {
            x = renames[k].1.clone();
        }
        k = k + 1;
    }
    x
}

/// Apply `(old, new)` renames to every preset row of `field`, removing
/// repeats; with no renames nothing changes.
pub fn rename_in_preset(
    preset: &mut Vec<PresetField>,
    field: ComicInfoField,
    renames: &[(String, String)],
)
    ensures
        final(preset)@.len() == old(preset)@.len(),
        forall|i: int|
            0 <= i < old(preset)@.len() ==> (#[trigger] final(preset)@[i]).field == old(
                preset,
            )@[i].field && final(preset)@[i].value@ == (if renames@.len() > 0 && old(
                preset,
            )@[i].field == field {
                renamed_value(old(preset)@[i].value@, renames_view(renames@))
            } else {
                old(preset)@[i].value@
            }),
{
    if renames.len() == 0 {
        return;
    }
    let ghost start = preset@;
    let ghost rv = renames_view(renames@);
    let mut i: usize = 0;
    while i < preset.len()
        invariant
            i <= preset.len(),
            preset@.len() == start.len(),
            rv == renames_view(renames@),
            renames@.len() > 0,
            forall|q: int|
                0 <= q < start.len() ==> (#[trigger] preset@[q]).field == start[q].field && preset@[q].value@
                    == (if q < i && start[q].field == field {
                    renamed_value(start[q].value@, rv)
                } else {
                    start[q].value@
                }),
        decreases preset.len() - i,
    {
        if preset[i].field == field {
            let items = split_csv(preset[i].value.as_str());
            let ghost iv = items.deep_view();
            let mut deduped: Vec<String> = Vec::new();
            let mut k: usize = 0;
            while k < items.len()
                invariant
                    k <= items.len(),
                    iv == items.deep_view(),
                    rv == renames_view(renames@),
                    deduped.deep_view() == dedup_all(
                        Seq::new(k as nat, |m: int| renamed(iv[m], rv, rv.len() as int)),
                    ),
                decreases items.len() - k,
            {
                let it = rename_item(&items[k], renames);
                let ghost before = deduped.deep_view();
                let ghost s_next = Seq::new((k + 1) as nat, |m: int| renamed(iv[m], rv, rv.len() as int));
                assert(s_next.drop_last() =~= Seq::new(
                    k as nat,
                    |m: int| renamed(iv[m], rv, rv.len() as int),
                ));
                if !contains_text(&deduped, &it) {
                    deduped.push(it);
                    assert(deduped.deep_view() =~= before.push(s_next.last()));
                }
                k = k + 1;
            }
            let value = join_text(&deduped, ", ");
            assert(", "@ == item_sep()) by {
                reveal_strlit(", ");
            }
            let f = preset[i].field;
            preset.set(i, PresetField { field: f, value });
        }
        i = i + 1;
    }
}

// ---------------------------------------------------------------------------
// Library chips and library entries
// ---------------------------------------------------------------------------

/// `s` without any copy of `t`.
pub open spec fn without(s: Seq<Seq<char>>, t: Seq<char>) -> Seq<Seq<char>>
    decreases s.len(),
{
    if s.len() == 0 {
        Seq::empty()
    } else if s.last() == t {
        without(s.drop_last(), t)
    } else {
        without(s.drop_last(), t).push(s.last())
    }
}

/// The selection after clicking a chip: a selected item is removed, an
/// unselected one is added at the end.
pub open spec fn toggled(selected: Seq<Seq<char>>, item: Seq<char>) -> Seq<Seq<char>> {
    if selected.contains(item) {
        without(selected, item)
    } else {
        selected.push(item)
    }
}

/// Nothing equal to `t` is left in `without(s, t)`, and everything else
/// stays.
pub proof fn lemma_without(s: Seq<Seq<char>>, t: Seq<char>)
    ensures
        !without(s, t).contains(t),
        forall|u: Seq<char>| u != t ==> (without(s, t).contains(u) <==> s.contains(u)),
    decreases s.len(),
{
    if s.len() > 0 {
        lemma_without(s.drop_last(), t);
        let w = without(s.drop_last(), t);
        assert forall|u: Seq<char>| u != t implies (without(s, t).contains(u) <==> s.contains(u)) by {
            if s.contains(u) {
                let k = choose|k: int| 0 <= k < s.len() && s[k] == u;
                if k < s.len() - 1 {
                    assert(s.drop_last()[k] == u);
                } else {
                    assert(without(s, t).last() == u);
                }
            }
            if w.contains(u) {
                let k = choose|k: int| 0 <= k < w.len() && w[k] == u;
                assert(without(s, t)[k] == u);
            }
            if without(s, t).contains(u) && !w.contains(u) {
                assert(u == s.last());
            }
            if s.drop_last().contains(u) {
                let k = choose|k: int| 0 <= k < s.drop_last().len() && s.drop_last()[k] == u;
                assert(s[k] == u);
            }
        }
        if without(s, t).contains(t) {
            let k = choose|k: int| 0 <= k < without(s, t).len() && without(s, t)[k] == t;
            if k < w.len() {
                assert(w[k] == t);
            }
        }
    }
}

/// Clicking a chip flips whether its item is selected, and leaves every
/// other item as it was.
pub proof fn lemma_toggle_flips(selected: Seq<Seq<char>>, item: Seq<char>)
    ensures
        toggled(selected, item).contains(item) <==> !selected.contains(item),
        forall|u: Seq<char>| u != item ==> (toggled(selected, item).contains(u) <==> selected.contains(u)),
{
    lemma_without(selected, item);
    if !selected.contains(item) {
        assert(selected.push(item)[selected.len() as int] == item);
        assert forall|u: Seq<char>| u != item implies (selected.push(item).contains(u)
            <==> selected.contains(u)) by {
            if selected.push(item).contains(u) {
                let k = choose|k: int| 0 <= k < selected.push(item).len() && selected.push(item)[k] == u;
                assert(selected[k] == u);
            }
            if selected.contains(u) {
                let k = choose|k: int| 0 <= k < selected.len() && selected[k] == u;
                assert(selected.push(item)[k] == u);
            }
        }
    }
}

/// Taking an item out keeps every other item, in its order: the result is
/// the sequence filtered of that item.
pub proof fn lemma_without_is_filter(s: Seq<Seq<char>>, t: Seq<char>)
    ensures
        without(s, t) == s.filter(|x: Seq<char>| x != t),
    decreases s.len(),
{
    reveal(Seq::filter);
    if s.len() > 0 {
        lemma_without_is_filter(s.drop_last(), t);
    }
}

/// Clicking a selected chip takes exactly that item out and keeps the other
/// items in their order; clicking an unselected chip appends its item.
pub proof fn lemma_toggle_keeps_order(selected: Seq<Seq<char>>, item: Seq<char>)
    ensures
        selected.contains(item) ==> toggled(selected, item) == selected.filter(
            |x: Seq<char>| x != item,
        ),
        !selected.contains(item) ==> toggled(selected, item) == selected.push(item),
{
    lemma_without_is_filter(selected, item);
}

/// The value after clicking the library chip of `item`: the item is taken
/// out of the comma-separated selection if it is there, added at the end
/// otherwise; the selection is written back joined with `, `.
pub fn toggle_chip(value: &str, item: &str) -> (r: String)
    ensures
        r@ == join(toggled(csv_items(value@), item@), item_sep()),
{
    let selected = split_csv(value);
    let ghost sel = selected.deep_view();
    let target = item.to_owned();
    let mut next: Vec<String> = Vec::new();
    if contains_text(&selected, &target) {
        let mut i: usize = 0;
        while i < selected.len()
            invariant
                i <= selected.len(),
                sel == selected.deep_view(),
                target@ == item@,
                next.deep_view() == without(sel.take(i as int), item@),
            decreases selected.len() - i,
        {
            assert(sel.take(i + 1).drop_last() =~= sel.take(i as int));
            if selected[i] != target {
                let ghost before = next.deep_view();
                next.push(selected[i].clone());
                assert(next.deep_view() =~= before.push(sel[i as int]));
            }
            i = i + 1;
        }
        assert(sel.take(selected.len() as int) =~= sel);
    } else {
        let mut i: usize = 0;
        while i < selected.len()
            invariant
                i <= selected.len(),
                sel == selected.deep_view(),
                next.deep_view() == sel.take(i as int),
            decreases selected.len() - i,
        {
            let ghost before = next.deep_view();
            next.push(selected[i].clone());
            assert(next.deep_view() =~= before.push(sel[i as int]));
            assert(sel.take(i + 1) =~= sel.take(i as int).push(sel[i as int]));
            i = i + 1;
        }
        let ghost before = next.deep_view();
        assert(before =~= sel.take(selected.len() as int));
        assert(sel.take(selected.len() as int) =~= sel);
        next.push(target);
        assert(next.deep_view() =~= before.push(item@));
    }
    assert(", "@ == item_sep()) by {
        reveal_strlit(", ");
    }
    join_text(&next, ", ")
}

/// Commits an inline edit of a library entry when its text field loses
/// focus, given the text it had when the edit began. A blank edit is
/// rejected (the old text comes back); a changed one is stored trimmed and
/// reported as the rename `(old, new)`; otherwise nothing changes.
pub fn commit_library_edit(item: &mut String, old_text: String) -> (r: Option<(String, String)>)
    ensures
        trim(old(item)@).len() == 0 ==> final(item)@ == old_text@ && r is None,
        trim(old(item)@).len() > 0 && trim(old(item)@) != old_text@ ==> (final(item)@ == trim(
            old(item)@,
        ) && (r matches Some(p) && p.0@ == old_text@ && p.1@ == trim(old(item)@))),
        trim(old(item)@).len() > 0 && trim(old(item)@) == old_text@ ==> final(item)@ == old(
            item,
        )@ && r is None,
{
    let new_text = trimmed(item.as_str());
    if new_text.as_str().is_empty() {
        *item = old_text;
        None
    } else if new_text != old_text {
        *item = new_text.clone();
        Some((old_text, new_text))
    } else {
        None
    }
}

/// Adds a typed value to a library: trimmed, and only when it is not blank
/// and not there already.
pub fn add_library_value(library: &mut Vec<String>, input: &str)
    ensures
        final(library).deep_view() == (if trim(input@).len() > 0 && !old(
            library,
        ).deep_view().contains(trim(input@)) {
            old(library).deep_view().push(trim(input@))
        } else {
            old(library).deep_view()
        }),
{
    let value = trimmed(input);
    if !value.as_str().is_empty() && !contains_text(library, &value) {
        let ghost before = library.deep_view();
        library.push(value);
        assert(library.deep_view() =~= before.push(trim(input@)));
    }
}

// ---------------------------------------------------------------------------
// Preset rows
// ---------------------------------------------------------------------------

/// The rows of `rows` whose field stands at canonical position `k`, in
/// their order.
pub open spec fn rows_at(rows: Seq<(ComicInfoField, Seq<char>)>, k: int) -> Seq<
    (ComicInfoField, Seq<char>),
>
    decreases rows.len(),
{
    if rows.len() == 0 {
        Seq::empty()
    } else if rows.last().0.position() == k {
        rows_at(rows.drop_last(), k).push(rows.last())
    } else {
        rows_at(rows.drop_last(), k)
    }
}

/// The rows sorted by the canonical position of their field, stably: the
/// rows of the first position, then those of the second, and so on, each
/// group in the order it had. Only the first `k` positions are taken.
pub open spec fn sorted_rows(rows: Seq<(ComicInfoField, Seq<char>)>, k: int) -> Seq<
    (ComicInfoField, Seq<char>),
>
    decreases k,
{
    if k <= 0 {
        Seq::empty()
    } else {
        sorted_rows(rows, k - 1) + rows_at(rows, k - 1)
    }
}

/// Keep preset rows in canonical ComicInfo order (the order the elements are
/// written in); stable, so several rows of one field keep their relative
/// order.
pub fn sort_preset_rows(preset: &mut Vec<PresetField>)
    ensures
        final(preset).deep_view() == sorted_rows(
            old(preset).deep_view(),
            crate::models::all_fields().len() as int,
        ),
{
    let ghost rows = preset.deep_view();
    let mut out: Vec<PresetField> = Vec::new();
    let mut k: usize = 0;
    proof {
        crate::models::lemma_position(ComicInfoField::Title);
    }
    while k < 40
        invariant
            k <= 40,
            crate::models::all_fields().len() == 40,
            rows == preset.deep_view(),
            out.deep_view() == sorted_rows(rows, k as int),
        decreases 40 - k,
    {
        let ghost base = out.deep_view();
        let mut j: usize = 0;
        while j < preset.len()
            invariant
                j <= preset.len(),
                rows == preset.deep_view(),
                out.deep_view() == base + rows_at(rows.take(j as int), k as int),
            decreases preset.len() - j,
        {
            assert(rows.take(j + 1).drop_last() =~= rows.take(j as int));
            if preset[j].field.order() == k {
                let ghost before = out.deep_view();
                let row = PresetField { field: preset[j].field, value: preset[j].value.clone() };
                out.push(row);
                assert(out.deep_view() =~= before.push(rows[j as int]));
            }
            j = j + 1;
        }
        assert(rows.take(preset.len() as int) =~= rows);
        k = k + 1;
    }
    *preset = out;
}

/// Every row picked for position `k` has its field at position `k`.
pub proof fn lemma_rows_at_position(rows: Seq<(ComicInfoField, Seq<char>)>, k: int)
    ensures
        forall|i: int| 0 <= i < rows_at(rows, k).len() ==> (#[trigger] rows_at(rows, k)[i]).0.position() == k,
    decreases rows.len(),
{
    if rows.len() > 0 {
        lemma_rows_at_position(rows.drop_last(), k);
        let front = rows_at(rows.drop_last(), k);
        assert forall|i: int| 0 <= i < rows_at(rows, k).len() implies (#[trigger] rows_at(
            rows,
            k,
        )[i]).0.position() == k by {
            if i < front.len() {
                assert(rows_at(rows, k)[i] == front[i]);
            }
        }
    }
}

/// Picking rows distributes over concatenation.
pub proof fn lemma_rows_at_append(
    a: Seq<(ComicInfoField, Seq<char>)>,
    b: Seq<(ComicInfoField, Seq<char>)>,
    k: int,
)
    ensures
        rows_at(a + b, k) == rows_at(a, k) + rows_at(b, k),
    decreases b.len(),
{
    if b.len() == 0 {
        assert(a + b =~= a);
        assert(rows_at(a, k) + rows_at(b, k) =~= rows_at(a, k));
    } else {
        lemma_rows_at_append(a, b.drop_last(), k);
        assert((a + b).drop_last() =~= a + b.drop_last());
        assert((a + b).last() == b.last());
        if b.last().0.position() == k {
            assert(rows_at(a, k) + rows_at(b.drop_last(), k).push(b.last()) =~= (rows_at(a, k)
                + rows_at(b.drop_last(), k)).push(b.last()));
        }
    }
}

/// Picking the rows of position `k` out of the rows of position `q`.
pub proof fn lemma_rows_at_twice(rows: Seq<(ComicInfoField, Seq<char>)>, q: int, k: int)
    ensures
        rows_at(rows_at(rows, q), k) == (if q == k {
            rows_at(rows, k)
        } else {
            Seq::empty()
        }),
    decreases rows.len(),
{
    if rows.len() > 0 {
        lemma_rows_at_twice(rows.drop_last(), q, k);
        let inner = rows_at(rows.drop_last(), q);
        if rows.last().0.position() == q {
            assert(rows_at(rows, q).drop_last() =~= inner);
        }
    }
}

/// Sorting keeps, for each field position, the rows of that position in
/// the order they had, and puts the positions in ascending order.
pub proof fn lemma_sorted_rows(rows: Seq<(ComicInfoField, Seq<char>)>, n: int)
    requires
        0 <= n,
    ensures
        forall|k: int| #![trigger rows_at(sorted_rows(rows, n), k)]
            rows_at(sorted_rows(rows, n), k) == (if 0 <= k < n {
                rows_at(rows, k)
            } else {
                Seq::empty()
            }),
        forall|i: int, j: int|
            0 <= i < j < sorted_rows(rows, n).len() ==> sorted_rows(rows, n)[i].0.position()
                <= sorted_rows(rows, n)[j].0.position(),
        forall|i: int|
            0 <= i < sorted_rows(rows, n).len() ==> (#[trigger] sorted_rows(rows, n)[i]).0.position() < n,
    decreases n,
{
    if n > 0 {
        lemma_sorted_rows(rows, n - 1);
        let a = sorted_rows(rows, n - 1);
        let b = rows_at(rows, n - 1);
        lemma_rows_at_position(rows, n - 1);
        assert forall|k: int| #![trigger rows_at(sorted_rows(rows, n), k)]
            rows_at(sorted_rows(rows, n), k) == (if 0 <= k < n {
                rows_at(rows, k)
            } else {
                Seq::empty()
            }) by {
            lemma_rows_at_append(a, b, k);
            lemma_rows_at_twice(rows, n - 1, k);
            assert(rows_at(a, k) == (if 0 <= k < n - 1 {
                rows_at(rows, k)
            } else {
                Seq::<(ComicInfoField, Seq<char>)>::empty()
            }));
            if k == n - 1 {
                assert(Seq::<(ComicInfoField, Seq<char>)>::empty() + rows_at(rows, k) =~= rows_at(rows, k));
            } else if 0 <= k < n - 1 {
                assert(rows_at(rows, k) + Seq::<(ComicInfoField, Seq<char>)>::empty() =~= rows_at(rows, k));
            } else {
                assert(Seq::<(ComicInfoField, Seq<char>)>::empty() + Seq::<(ComicInfoField, Seq<char>)>::empty()
                    =~= Seq::<(ComicInfoField, Seq<char>)>::empty());
            }
        }
        let s = sorted_rows(rows, n);
        assert(s == a + b);
        assert forall|i: int| 0 <= i < s.len() implies (#[trigger] s[i]).0.position() < n by {
            if i < a.len() {
                assert(s[i] == a[i]);
            } else {
                assert(s[i] == b[i - a.len()]);
            }
        }
        assert forall|i: int, j: int| 0 <= i < j < s.len() implies s[i].0.position()
            <= s[j].0.position() by {
            if j < a.len() {
                assert(s[i] == a[i] && s[j] == a[j]);
            } else if i < a.len() {
                assert(s[i] == a[i] && s[j] == b[j - a.len()]);
            } else {
                assert(s[i] == b[i - a.len()] && s[j] == b[j - a.len()]);
            }
        }
    }
}

/// Whether `value` is among the allowed values.
fn is_allowed(allowed: &[&'static str], value: &String) -> (r: bool)
    ensures
        r == allowed.deep_view().contains(value@),
{
    let mut i: usize = 0;
    while i < allowed.len()
        invariant
            i <= allowed.len(),
            forall|j: int| 0 <= j < i ==> allowed.deep_view()[j] != value@,
        decreases allowed.len() - i,
    {
        if same_text(allowed[i], value.as_str()) {
            assert(allowed.deep_view()[i as int] == value@);
            return true;
        }
        i = i + 1;
    }
    false
}

/// Switches a preset row to another field. When the new field is an
/// enumeration that does not allow the current value, the value is reset to
/// the field's default; choosing the row's own field changes nothing.
pub fn change_field(pf: &mut PresetField, field: ComicInfoField)
    ensures
        old(pf).field == field ==> final(pf)@ == old(pf)@,
        old(pf).field != field ==> final(pf).field == field && final(pf).value@ == (match field.allowed() {
            Some(vals) => if vals.contains(old(pf).value@) {
                old(pf).value@
            } else {
                field.default_text()
            },
            None => old(pf).value@,
        }),
{
    if pf.field != field {
        pf.field = field;
        if let Some(allowed) = field.allowed_values() {
            if !is_allowed(allowed, &pf.value) {
                pf.value = field.default_value();
            }
        }
    }
}

} // verus!
