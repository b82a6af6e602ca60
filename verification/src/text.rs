//! Character-level text operations with their mathematical models:
//! whitespace trimming, substring search, replacement, splitting, joining,
//! XML escaping and decimal rendering.
use vstd::prelude::*;

verus! {

/// Appends one character to a string (std's `String::push`).
pub assume_specification[ String::push ](string: &mut String, ch: char)
    ensures
        final(string)@ == old(string)@.push(ch),
;

// ---------------------------------------------------------------------------
// Whitespace and trimming
// ---------------------------------------------------------------------------

/// The Unicode `White_Space` property, which `char::is_whitespace` and
/// `str::trim` go by.
pub open spec fn is_white(c: char) -> bool {
    ||| ('\u{9}' <= c && c <= '\u{d}')
    ||| c == ' '
    ||| c == '\u{85}'
    ||| c == '\u{a0}'
    ||| c == '\u{1680}'
    ||| ('\u{2000}' <= c && c <= '\u{200a}')
    ||| c == '\u{2028}'
    ||| c == '\u{2029}'
    ||| c == '\u{202f}'
    ||| c == '\u{205f}'
    ||| c == '\u{3000}'
}

/// `s` without its leading whitespace.
pub open spec fn trim_start(s: Seq<char>) -> Seq<char>
    decreases s.len(),
{
    if s.len() > 0 && is_white(s[0]) {
        trim_start(s.drop_first())
    } else {
        s
    }
}

/// `s` without its trailing whitespace.
pub open spec fn trim_end(s: Seq<char>) -> Seq<char>
    decreases s.len(),
{
    if s.len() > 0 && is_white(s.last()) {
        trim_end(s.drop_last())
    } else {
        s
    }
}

/// `s` without leading and trailing whitespace (`str::trim`).
pub open spec fn trim(s: Seq<char>) -> Seq<char> {
    trim_end(trim_start(s))
}

/// A sequence is trimmed when it neither starts nor ends with whitespace.
pub open spec fn is_trimmed(s: Seq<char>) -> bool {
    s.len() > 0 ==> !is_white(s[0]) && !is_white(s.last())
}

pub fn is_white_char(c: char) -> (r: bool)
    ensures
        r == is_white(c),
{
    ('\u{9}' <= c && c <= '\u{d}') || c == ' ' || c == '\u{85}' || c == '\u{a0}' || c
        == '\u{1680}' || ('\u{2000}' <= c && c <= '\u{200a}') || c == '\u{2028}' || c
        == '\u{2029}' || c == '\u{202f}' || c == '\u{205f}' || c == '\u{3000}'
}

/// A trimmed sequence is its own trim.
pub proof fn lemma_trim_trimmed(s: Seq<char>)
    requires
        is_trimmed(s),
    ensures
        trim(s) == s,
{
}

/// The trim of any sequence is trimmed.
pub proof fn lemma_trim_is_trimmed(s: Seq<char>)
    ensures
        is_trimmed(trim(s)),
    decreases s.len(),
{
    lemma_trim_start_shape(s);
    lemma_trim_end_shape(trim_start(s));
    let t = trim_start(s);
    let u = trim_end(t);
    if u.len() > 0 {
        assert(u[0] == t[0]);
    }
}

/// `trim_start` drops a prefix made of whitespace only.
pub proof fn lemma_trim_start_shape(s: Seq<char>)
    ensures
        trim_start(s).len() <= s.len(),
        trim_start(s) == s.subrange(s.len() - trim_start(s).len(), s.len() as int),
        trim_start(s).len() > 0 ==> !is_white(trim_start(s)[0]),
        forall|i: int| 0 <= i < s.len() - trim_start(s).len() ==> is_white(#[trigger] s[i]),
    decreases s.len(),
{
    if s.len() > 0 && is_white(s[0]) {
        lemma_trim_start_shape(s.drop_first());
        let t = trim_start(s.drop_first());
        assert forall|i: int| 0 <= i < s.len() - t.len() implies is_white(#[trigger] s[i]) by {
            if i > 0 {
                assert(s[i] == s.drop_first()[i - 1]);
            }
        }
        assert(s.drop_first().subrange(s.drop_first().len() - t.len(), s.drop_first().len() as int)
            =~= s.subrange(s.len() - t.len(), s.len() as int));
    } else {
        assert(s.subrange(0, s.len() as int) =~= s);
    }
}

/// `trim_end` drops a suffix made of whitespace only.
pub proof fn lemma_trim_end_shape(s: Seq<char>)
    ensures
        trim_end(s).len() <= s.len(),
        trim_end(s) == s.subrange(0, trim_end(s).len() as int),
        trim_end(s).len() > 0 ==> !is_white(trim_end(s).last()),
        forall|i: int| trim_end(s).len() <= i < s.len() ==> is_white(#[trigger] s[i]),
    decreases s.len(),
{
    if s.len() > 0 && is_white(s.last()) {
        lemma_trim_end_shape(s.drop_last());
        let t = trim_end(s.drop_last());
        assert forall|i: int| t.len() <= i < s.len() implies is_white(#[trigger] s[i]) by {
            if i < s.len() - 1 {
                assert(s[i] == s.drop_last()[i]);
            }
        }
        assert(s.drop_last().subrange(0, t.len() as int) =~= s.subrange(0, t.len() as int));
    } else {
        assert(s.subrange(0, s.len() as int) =~= s);
    }
}

/// The bounds, within `s[lo..hi]`, of its trimmed part.
pub fn trim_bounds(s: &Vec<char>, lo: usize, hi: usize) -> (r: (usize, usize))
    requires
        lo <= hi <= s.len(),
    ensures
        lo <= r.0 <= r.1 <= hi,
        s@.subrange(r.0 as int, r.1 as int) == trim(s@.subrange(lo as int, hi as int)),
{
    let mut a = lo;
    while a < hi && is_white_char(s[a])
        invariant
            lo <= a <= hi <= s.len(),
            trim_start(s@.subrange(lo as int, hi as int)) == trim_start(
                s@.subrange(a as int, hi as int),
            ),
        decreases hi - a,
    {
        assert(s@.subrange(a as int, hi as int).drop_first() =~= s@.subrange(
            a + 1,
            hi as int,
        ));
        a = a + 1;
    }
    assert(trim_start(s@.subrange(a as int, hi as int)) == s@.subrange(a as int, hi as int));
    let mut b = hi;
    while b > a && is_white_char(s[b - 1])
        invariant
            lo <= a <= b <= hi <= s.len(),
            trim_end(s@.subrange(a as int, hi as int)) == trim_end(s@.subrange(a as int, b as int)),
        decreases b - a,
    {
        assert(s@.subrange(a as int, b as int).drop_last() =~= s@.subrange(
            a as int,
            b - 1,
        ));
        b = b - 1;
    }
    (a, b)
}

// ---------------------------------------------------------------------------
// Conversions between strings and character vectors
// ---------------------------------------------------------------------------

/// The characters of a string slice.
pub fn chars_of(s: &str) -> (v: Vec<char>)
    ensures
        v@ == s@,
{
    let mut v: Vec<char> = Vec::new();
    for c in it: s.chars()
        invariant
            v@ == it.seq().take(it.index() as int),
    {
        v.push(c);
    }
    v
}

/// Appends `s[lo..hi]` to `out`.
pub fn push_range(out: &mut String, s: &Vec<char>, lo: usize, hi: usize)
    requires
        lo <= hi <= s.len(),
    ensures
        final(out)@ == old(out)@ + s@.subrange(lo as int, hi as int),
{
    let mut i = lo;
    while i < hi
        invariant
            lo <= i <= hi <= s.len(),
            out@ == old(out)@ + s@.subrange(lo as int, i as int),
        decreases hi - i,
    {
        out.push(s[i]);
        assert(s@.subrange(lo as int, i + 1) =~= s@.subrange(lo as int, i as int).push(s@[i as int]));
        i = i + 1;
    }
}

/// The string made of `s[lo..hi]`.
pub fn string_of_range(s: &Vec<char>, lo: usize, hi: usize) -> (r: String)
    requires
        lo <= hi <= s.len(),
    ensures
        r@ == s@.subrange(lo as int, hi as int),
{
    let mut out = String::new();
    push_range(&mut out, s, lo, hi);
    assert(Seq::<char>::empty() + s@.subrange(lo as int, hi as int) =~= s@.subrange(
        lo as int,
        hi as int,
    ));
    out
}

/// The trimmed copy of a string (`str::trim` then `to_string`).
pub fn trimmed(s: &str) -> (r: String)
    ensures
        r@ == trim(s@),
{
    let v = chars_of(s);
    let (a, b) = trim_bounds(&v, 0, v.len());
    assert(v@.subrange(0, v@.len() as int) =~= v@);
    string_of_range(&v, a, b)
}

/// Whether two strings hold the same characters.
pub fn same_text(a: &str, b: &str) -> (r: bool)
    ensures
        r == (a@ == b@),
{
    let x = chars_of(a);
    let y = chars_of(b);
    if x.len() != y.len() {
        return false;
    }
    let mut i: usize = 0;
    while i < x.len()
        invariant
            x.len() == y.len(),
            x@ == a@,
            y@ == b@,
            i <= x.len(),
            forall|j: int| 0 <= j < i ==> x@[j] == y@[j],
        decreases x.len() - i,
    {
        if x[i] != y[i] {
            return false;
        }
        i = i + 1;
    }
    assert(x@ =~= y@);
    true
}

// ---------------------------------------------------------------------------
// Substring search
// ---------------------------------------------------------------------------

/// `p` occurs in `s` at index `i`.
pub open spec fn occurs_at(s: Seq<char>, p: Seq<char>, i: int) -> bool {
    0 <= i && i + p.len() <= s.len() && s.subrange(i, i + p.len()) == p
}

/// The first index at or after `k` where `p` occurs in `s`.
pub open spec fn find_from(s: Seq<char>, p: Seq<char>, k: int) -> Option<int>
    decreases s.len() + 1 - k,
{
    if k < 0 || k + p.len() > s.len() {
        None
    } else if occurs_at(s, p, k) {
        Some(k)
    } else {
        find_from(s, p, k + 1)
    }
}

/// The index of the first occurrence of `p` in `s` (`str::find`).
pub open spec fn find(s: Seq<char>, p: Seq<char>) -> Option<int> {
    find_from(s, p, 0)
}

/// What `find_from` returns is the first occurrence at or after `k`.
pub proof fn lemma_find_from(s: Seq<char>, p: Seq<char>, k: int)
    requires
        0 <= k,
    ensures
        find_from(s, p, k) matches Some(i) ==> k <= i && occurs_at(s, p, i) && forall|j: int|
            k <= j < i ==> !occurs_at(s, p, j),
        find_from(s, p, k) is None ==> forall|j: int| k <= j ==> !occurs_at(s, p, j),
    decreases s.len() + 1 - k,
{
    if k + p.len() > s.len() {
    } else if occurs_at(s, p, k) {
    } else {
        lemma_find_from(s, p, k + 1);
    }
}

/// An occurrence with none before it is what `find` returns.
pub proof fn lemma_find_is(s: Seq<char>, p: Seq<char>, i: int)
    requires
        occurs_at(s, p, i),
        forall|j: int| 0 <= j < i ==> !occurs_at(s, p, j),
    ensures
        find(s, p) == Some(i),
{
    lemma_find(s, p);
    match find(s, p) {
        Some(k) => {
            if k < i {
            } else if k > i {
            }
        },
        None => {},
    }
}

/// With no occurrence up to `i`, `find` finds none or a later one.
pub proof fn lemma_find_after(s: Seq<char>, p: Seq<char>, i: int)
    requires
        forall|j: int| 0 <= j <= i ==> !occurs_at(s, p, j),
    ensures
        find(s, p) matches Some(k) ==> k > i,
{
    lemma_find(s, p);
}

/// A differing character rules out an occurrence.
pub proof fn lemma_not_occurs(s: Seq<char>, p: Seq<char>, j: int, k: int)
    requires
        0 <= k < p.len(),
        0 <= j,
        j + k < s.len(),
        s[j + k] != p[k],
    ensures
        !occurs_at(s, p, j),
{
    if occurs_at(s, p, j) {
        assert(s.subrange(j, j + p.len())[k] == s[j + k]);
    }
}

/// What `find` returns is the first occurrence.
pub proof fn lemma_find(s: Seq<char>, p: Seq<char>)
    ensures
        find(s, p) matches Some(i) ==> occurs_at(s, p, i) && forall|j: int|
            0 <= j < i ==> !occurs_at(s, p, j),
        find(s, p) is None ==> forall|j: int| 0 <= j ==> !occurs_at(s, p, j),
{
    lemma_find_from(s, p, 0);
}

/// Whether `p` occurs in `s[lo..hi]` at offset `k` (relative to `lo`).
fn matches_at(s: &Vec<char>, lo: usize, hi: usize, p: &Vec<char>, k: usize) -> (r: bool)
    requires
        lo <= hi <= s.len(),
        k + p.len() <= hi - lo,
    ensures
        r == occurs_at(s@.subrange(lo as int, hi as int), p@, k as int),
{
    let ghost t = s@.subrange(lo as int, hi as int);
    let mut j: usize = 0;
    while j < p.len()
        invariant
            lo <= hi <= s.len(),
            k + p.len() <= hi - lo,
            t == s@.subrange(lo as int, hi as int),
            j <= p.len(),
            forall|m: int| 0 <= m < j ==> t[k + m] == p@[m],
        decreases p.len() - j,
    {
        if s[lo + k + j] != p[j] {
            assert(t.subrange(k as int, k + p.len())[j as int] != p@[j as int]);
            return false;
        }
        j = j + 1;
    }
    assert(t.subrange(k as int, k + p.len()) =~= p@);
    true
}

/// The first occurrence of `p` in `s[lo..hi]`, relative to `lo`.
pub fn find_in(s: &Vec<char>, lo: usize, hi: usize, p: &Vec<char>) -> (r: Option<usize>)
    requires
        lo <= hi <= s.len(),
    ensures
        match find(s@.subrange(lo as int, hi as int), p@) {
            Some(i) => r == Some(i as usize),
            None => r is None,
        },
{
    let ghost t = s@.subrange(lo as int, hi as int);
    if p.len() > hi - lo {
        return None;
    }
    let last = hi - lo - p.len();
    let mut k: usize = 0;
    loop
        invariant
            lo <= hi <= s.len(),
            p.len() <= hi - lo,
            last == hi - lo - p.len(),
            t == s@.subrange(lo as int, hi as int),
            k <= last,
            find(t, p@) == find_from(t, p@, k as int),
        decreases last - k,
    {
        if matches_at(s, lo, hi, p, k) {
            return Some(k);
        }
        if k == last {
            assert(find_from(t, p@, k + 1) is None);
            return None;
        }
        k = k + 1;
    }
}

/// Whether `s` occurs within `list`.
pub fn contains_text(list: &Vec<String>, s: &String) -> (r: bool)
    ensures
        r == list.deep_view().contains(s@),
{
    let mut i: usize = 0;
    while i < list.len()
        invariant
            i <= list.len(),
            forall|j: int| 0 <= j < i ==> list.deep_view()[j] != s@,
        decreases list.len() - i,
    {
        if list[i] == *s {
            assert(list.deep_view()[i as int] == s@);
            return true;
        }
        i = i + 1;
    }
    false
}

// ---------------------------------------------------------------------------
// Replacement, splitting, joining
// ---------------------------------------------------------------------------

/// `s` with every non-overlapping occurrence of the non-empty `p`, taken from
/// the left, replaced by `r` (`str::replace`).
pub open spec fn replace_all(s: Seq<char>, p: Seq<char>, r: Seq<char>) -> Seq<char>
    decreases s.len(),
{
    match find(s, p) {
        Some(i) => if p.len() > 0 && 0 <= i && i + p.len() <= s.len() {
            s.subrange(0, i) + r + replace_all(s.subrange(i + p.len(), s.len() as int), p, r)
        } else {
            s
        },
        None => s,
    }
}

/// Appends `s[lo..hi]` to `out`.
pub fn append_range(out: &mut Vec<char>, s: &Vec<char>, lo: usize, hi: usize)
    requires
        lo <= hi <= s.len(),
    ensures
        final(out)@ == old(out)@ + s@.subrange(lo as int, hi as int),
{
    let mut i = lo;
    while i < hi
        invariant
            lo <= i <= hi <= s.len(),
            out@ == old(out)@ + s@.subrange(lo as int, i as int),
        decreases hi - i,
    {
        out.push(s[i]);
        assert(s@.subrange(lo as int, i + 1) =~= s@.subrange(lo as int, i as int).push(s@[i as int]));
        i = i + 1;
    }
}

/// `s` with every occurrence of `p` replaced by `r`.
pub fn replace_text(s: &Vec<char>, p: &Vec<char>, r: &Vec<char>) -> (out: Vec<char>)
    requires
        p.len() > 0,
    ensures
        out@ == replace_all(s@, p@, r@),
{
    let mut out: Vec<char> = Vec::new();
    let mut pos: usize = 0;
    assert(s@.subrange(0, s.len() as int) =~= s@);
    assert(out@ + replace_all(s@, p@, r@) =~= replace_all(s@, p@, r@));
    loop
        invariant
            p.len() > 0,
            pos <= s.len(),
            out@ + replace_all(s@.subrange(pos as int, s.len() as int), p@, r@) == replace_all(
                s@,
                p@,
                r@,
            ),
        decreases s.len() - pos,
    {
        let ghost rest = s@.subrange(pos as int, s.len() as int);
        let ghost before = out@;
        match find_in(s, pos, s.len(), p) {
            Some(i) => {
                proof {
                    lemma_find(rest, p@);
                }
                let next = pos + i + p.len();
                append_range(&mut out, s, pos, pos + i);
                append_range(&mut out, r, 0, r.len());
                proof {
                    assert(rest.subrange(0, i as int) =~= s@.subrange(pos as int, pos + i));
                    assert(rest.subrange(i + p.len(), rest.len() as int) =~= s@.subrange(
                        next as int,
                        s.len() as int,
                    ));
                    assert(r@.subrange(0, r.len() as int) =~= r@);
                    let tail = replace_all(s@.subrange(next as int, s.len() as int), p@, r@);
                    assert(replace_all(rest, p@, r@) == rest.subrange(0, i as int) + r@ + tail);
                    assert(before + (rest.subrange(0, i as int) + r@ + tail) =~= before
                        + rest.subrange(0, i as int) + r@ + tail);
                }
                pos = next;
            },
            None => {
                append_range(&mut out, s, pos, s.len());
                return out;
            },
        }
    }
}

/// Splits `s` at every character of `seps`, keeping empty pieces
/// (`str::split` with a character pattern).
pub open spec fn split_at_chars(s: Seq<char>, seps: Seq<char>) -> Seq<Seq<char>>
    decreases s.len(),
{
    if s.len() == 0 {
        seq![Seq::<char>::empty()]
    } else {
        let front = split_at_chars(s.drop_last(), seps);
        if seps.contains(s.last()) {
            front.push(Seq::<char>::empty())
        } else {
            front.update(front.len() - 1, front.last().push(s.last()))
        }
    }
}

/// The trimmed pieces that are not empty, in order.
pub open spec fn kept_pieces(pieces: Seq<Seq<char>>) -> Seq<Seq<char>>
    decreases pieces.len(),
{
    if pieces.len() == 0 {
        Seq::empty()
    } else {
        let front = kept_pieces(pieces.drop_last());
        let t = trim(pieces.last());
        if t.len() > 0 {
            front.push(t)
        } else {
            front
        }
    }
}

/// Every kept piece is trimmed and not empty.
pub proof fn lemma_kept_pieces(pieces: Seq<Seq<char>>)
    ensures
        forall|i: int|
            0 <= i < kept_pieces(pieces).len() ==> (#[trigger] kept_pieces(pieces)[i]).len() > 0
                && is_trimmed(kept_pieces(pieces)[i]),
    decreases pieces.len(),
{
    if pieces.len() > 0 {
        lemma_kept_pieces(pieces.drop_last());
        lemma_trim_is_trimmed(pieces.last());
        let front = kept_pieces(pieces.drop_last());
        assert forall|i: int| 0 <= i < kept_pieces(pieces).len() implies (
        #[trigger] kept_pieces(pieces)[i]).len() > 0 && is_trimmed(kept_pieces(pieces)[i]) by {
            if i < front.len() {
                assert(kept_pieces(pieces)[i] == front[i]);
            }
        }
    }
}

/// Splitting always gives at least one piece.
pub proof fn lemma_split_len(s: Seq<char>, seps: Seq<char>)
    ensures
        split_at_chars(s, seps).len() >= 1,
    decreases s.len(),
{
    if s.len() > 0 {
        lemma_split_len(s.drop_last(), seps);
    }
}

/// Text without separators, appended, lengthens the last piece.
pub proof fn lemma_split_extend(x: Seq<char>, y: Seq<char>, seps: Seq<char>)
    requires
        forall|k: int| 0 <= k < y.len() ==> !seps.contains(#[trigger] y[k]),
    ensures
        split_at_chars(x + y, seps) == split_at_chars(x, seps).update(
            split_at_chars(x, seps).len() - 1,
            split_at_chars(x, seps).last() + y,
        ),
    decreases y.len(),
{
    let sx = split_at_chars(x, seps);
    lemma_split_len(x, seps);
    if y.len() == 0 {
        assert(x + y =~= x);
        assert(sx.last() + y =~= sx.last());
        assert(sx.update(sx.len() - 1, sx.last() + y) =~= sx);
    } else {
        let y0 = y.drop_last();
        lemma_split_extend(x, y0, seps);
        assert((x + y).drop_last() =~= x + y0);
        assert((x + y).last() == y[y.len() - 1]);
        let front = split_at_chars(x + y0, seps);
        assert(front.last() == sx.last() + y0);
        assert(front.last().push(y.last()) =~= sx.last() + y);
        assert(front.update(front.len() - 1, front.last().push(y.last())) =~= sx.update(
            sx.len() - 1,
            sx.last() + y,
        ));
    }
}

/// Splitting at `c` undoes joining with `c` when no piece holds `c`.
pub proof fn lemma_split_join(list: Seq<Seq<char>>, c: char)
    requires
        list.len() > 0,
        forall|k: int| 0 <= k < list.len() ==> !(#[trigger] list[k]).contains(c),
    ensures
        split_at_chars(join(list, seq![c]), seq![c]) == list,
    decreases list.len(),
{
    let last = list.last();
    assert forall|k: int| 0 <= k < last.len() implies !seq![c].contains(#[trigger] last[k]) by {
        if seq![c].contains(last[k]) {
            assert(seq![c][0] == c);
            assert(last.contains(c));
        }
    }
    if list.len() == 1 {
        lemma_split_extend(Seq::empty(), last, seq![c]);
        assert(Seq::<char>::empty() + last =~= last);
        assert(split_at_chars(Seq::<char>::empty(), seq![c]) =~= seq![Seq::<char>::empty()]);
        assert(Seq::<char>::empty() + last =~= last);
        assert(seq![Seq::<char>::empty()].update(0, Seq::<char>::empty() + last) =~= list);
    } else {
        let front = list.drop_last();
        lemma_split_join(front, c);
        let jf = join(front, seq![c]);
        let jc = jf + seq![c];
        assert(jc.drop_last() =~= jf);
        assert(seq![c].contains(jc.last()));
        let sc = split_at_chars(jc, seq![c]);
        assert(sc == front.push(Seq::<char>::empty()));
        lemma_split_extend(jc, last, seq![c]);
        assert(jc + last =~= join(list, seq![c]));
        assert(sc.update(sc.len() - 1, sc.last() + last) =~= list);
    }
}

/// Pieces that are all trimmed and non-empty are all kept.
pub proof fn lemma_kept_pieces_all(pieces: Seq<Seq<char>>)
    requires
        forall|k: int| 0 <= k < pieces.len() ==> (#[trigger] pieces[k]).len() > 0 && is_trimmed(
            pieces[k],
        ),
    ensures
        kept_pieces(pieces) == pieces,
    decreases pieces.len(),
{
    if pieces.len() > 0 {
        lemma_kept_pieces_all(pieces.drop_last());
        lemma_trim_trimmed(pieces.last());
        assert(pieces.drop_last().push(pieces.last()) =~= pieces);
    }
}

/// Whether `c` is one of `seps`.
pub fn is_one_of(c: char, seps: &Vec<char>) -> (r: bool)
    ensures
        r == seps@.contains(c),
{
    let mut i: usize = 0;
    while i < seps.len()
        invariant
            i <= seps.len(),
            forall|j: int| 0 <= j < i ==> seps@[j] != c,
        decreases seps.len() - i,
    {
        if seps[i] == c {
            assert(seps@[i as int] == c);
            return true;
        }
        i = i + 1;
    }
    false
}

/// `s[lo..hi]` split at the characters of `seps`, each piece trimmed, the
/// empty ones dropped.
pub fn split_trimmed(s: &Vec<char>, lo: usize, hi: usize, seps: &Vec<char>) -> (r: Vec<String>)
    requires
        lo <= hi <= s.len(),
    ensures
        r.deep_view() == kept_pieces(split_at_chars(s@.subrange(lo as int, hi as int), seps@)),
{
    let mut out: Vec<String> = Vec::new();
    let ghost mut done: Seq<Seq<char>> = Seq::empty();
    let mut start = lo;
    let mut i = lo;
    assert(s@.subrange(lo as int, lo as int) =~= Seq::<char>::empty());
    assert(split_at_chars(Seq::<char>::empty(), seps@) == seq![Seq::<char>::empty()]);
    while i < hi
        invariant
            lo <= start <= i <= hi <= s.len(),
            split_at_chars(s@.subrange(lo as int, i as int), seps@) == done.push(
                s@.subrange(start as int, i as int),
            ),
            out.deep_view() == kept_pieces(done),
        decreases hi - i,
    {
        let ghost prefix = s@.subrange(lo as int, i + 1);
        assert(prefix.drop_last() =~= s@.subrange(lo as int, i as int));
        assert(prefix.last() == s@[i as int]);
        if is_one_of(s[i], seps) {
            let (a, b) = trim_bounds(s, start, i);
            let ghost piece = s@.subrange(start as int, i as int);
            if a < b {
                let t = string_of_range(s, a, b);
                out.push(t);
            }
            proof {
                assert(done.push(piece).drop_last() =~= done);
                assert(out.deep_view() =~= kept_pieces(done.push(piece)));
                done = done.push(piece);
                assert(s@.subrange(i + 1, i + 1) =~= Seq::<char>::empty());
            }
            start = i + 1;
        } else {
            proof {
                assert(s@.subrange(start as int, i + 1) =~= s@.subrange(start as int, i as int).push(
                    s@[i as int],
                ));
                assert(done.push(s@.subrange(start as int, i as int)).update(
                    done.len() as int,
                    s@.subrange(start as int, i + 1),
                ) =~= done.push(s@.subrange(start as int, i + 1)));
            }
        }
        i = i + 1;
    }
    let ghost piece = s@.subrange(start as int, hi as int);
    let (a, b) = trim_bounds(s, start, hi);
    if a < b {
        let t = string_of_range(s, a, b);
        out.push(t);
    }
    proof {
        assert(done.push(piece).drop_last() =~= done);
        assert(out.deep_view() =~= kept_pieces(done.push(piece)));
    }
    out
}

/// The pieces joined by `sep`, as `[T]::join` does.
pub open spec fn join(list: Seq<Seq<char>>, sep: Seq<char>) -> Seq<char>
    decreases list.len(),
{
    if list.len() == 0 {
        Seq::<char>::empty()
    } else if list.len() == 1 {
        list[0]
    } else {
        join(list.drop_last(), sep) + sep + list.last()
    }
}

/// Joining non-empty pieces starts with the first piece's first character
/// and ends with the last piece's last character.
pub proof fn lemma_join_ends(list: Seq<Seq<char>>, sep: Seq<char>)
    requires
        list.len() > 0,
        forall|k: int| 0 <= k < list.len() ==> (#[trigger] list[k]).len() > 0,
    ensures
        join(list, sep).len() > 0,
        join(list, sep)[0] == list[0][0],
        join(list, sep).last() == list.last().last(),
    decreases list.len(),
{
    if list.len() > 1 {
        let front = list.drop_last();
        lemma_join_ends(front, sep);
        assert(front[0] == list[0]);
    }
}

/// The strings of `list` joined by `sep`.
pub fn join_text(list: &Vec<String>, sep: &str) -> (r: String)
    ensures
        r@ == join(list.deep_view(), sep@),
{
    let mut r = String::new();
    let ghost items = list.deep_view();
    let mut i: usize = 0;
    while i < list.len()
        invariant
            i <= list.len(),
            items == list.deep_view(),
            r@ == join(items.take(i as int), sep@),
        decreases list.len() - i,
    {
        if i > 0 {
            r.append(sep);
        }
        r.append(list[i].as_str());
        assert(items.take(i + 1).drop_last() =~= items.take(i as int));
        i = i + 1;
    }
    assert(items.take(list.len() as int) =~= items);
    r
}

// ---------------------------------------------------------------------------
// XML escaping
// ---------------------------------------------------------------------------

/// The escape of one character: the five XML special characters become
/// entity references, every other character stands for itself.
pub open spec fn escape_char(c: char) -> Seq<char> {
    if c == '&' {
        seq!['&', 'a', 'm', 'p', ';']
    } else if c == '<' {
        seq!['&', 'l', 't', ';']
    } else if c == '>' {
        seq!['&', 'g', 't', ';']
    } else if c == '"' {
        seq!['&', 'q', 'u', 'o', 't', ';']
    } else if c == '\'' {
        seq!['&', 'a', 'p', 'o', 's', ';']
    } else {
        seq![c]
    }
}

/// The escape of a text: each character escaped in turn.
pub open spec fn xml_escaped(s: Seq<char>) -> Seq<char>
    decreases s.len(),
{
    if s.len() == 0 {
        Seq::<char>::empty()
    } else {
        xml_escaped(s.drop_last()) + escape_char(s.last())
    }
}

/// A character that would be read as markup inside element text or an
/// attribute value.
pub open spec fn is_markup_char(c: char) -> bool {
    c == '<' || c == '>' || c == '"' || c == '\''
}

/// Escaping leaves no markup character in the text, and never shortens it.
pub proof fn lemma_escaped_has_no_markup(s: Seq<char>)
    ensures
        forall|i: int| 0 <= i < xml_escaped(s).len() ==> !is_markup_char(#[trigger] xml_escaped(s)[i]),
        xml_escaped(s).len() >= s.len(),
    decreases s.len(),
{
    if s.len() > 0 {
        lemma_escaped_has_no_markup(s.drop_last());
        let a = xml_escaped(s.drop_last());
        let b = escape_char(s.last());
        assert forall|i: int| 0 <= i < xml_escaped(s).len() implies !is_markup_char(
            #[trigger] xml_escaped(s)[i],
        ) by {
            if i < a.len() {
                assert(xml_escaped(s)[i] == a[i]);
            } else {
                assert(xml_escaped(s)[i] == b[i - a.len()]);
            }
        }
    }
}

/// Appends the escape of `c` to `out`.
fn push_escaped_char(out: &mut String, c: char)
    ensures
        final(out)@ == old(out)@ + escape_char(c),
{
    if c == '&' {
        out.push('&');
        out.push('a');
        out.push('m');
        out.push('p');
        out.push(';');
    } else if c == '<' {
        out.push('&');
        out.push('l');
        out.push('t');
        out.push(';');
    } else if c == '>' {
        out.push('&');
        out.push('g');
        out.push('t');
        out.push(';');
    } else if c == '"' {
        out.push('&');
        out.push('q');
        out.push('u');
        out.push('o');
        out.push('t');
        out.push(';');
    } else if c == '\'' {
        out.push('&');
        out.push('a');
        out.push('p');
        out.push('o');
        out.push('s');
        out.push(';');
    } else {
        out.push(c);
    }
    assert(final(out)@ =~= old(out)@ + escape_char(c));
}

/// Appends the XML escape of `s` to `out`.
pub fn push_escaped(out: &mut String, s: &str)
    ensures
        final(out)@ == old(out)@ + xml_escaped(s@),
{
    let v = chars_of(s);
    let mut i: usize = 0;
    while i < v.len()
        invariant
            i <= v.len(),
            v@ == s@,
            out@ == old(out)@ + xml_escaped(v@.take(i as int)),
        decreases v.len() - i,
    {
        push_escaped_char(out, v[i]);
        assert(v@.take(i + 1).drop_last() =~= v@.take(i as int));
        i = i + 1;
    }
    assert(v@.take(v.len() as int) =~= v@);
}

/// The XML escape of a string (`&`, `<`, `>`, `"` and `'` replaced by
/// their entity references).
pub fn xml_escape(s: &str) -> (r: String)
    ensures
        r@ == xml_escaped(s@),
{
    let mut r = String::new();
    push_escaped(&mut r, s);
    assert(r@ =~= xml_escaped(s@));
    r
}

// ---------------------------------------------------------------------------
// Decimal numbers
// ---------------------------------------------------------------------------

/// The decimal digit for `d < 10`.
pub open spec fn digit_char(d: nat) -> char {
    if d == 0 { '0' }
    else if d == 1 { '1' }
    else if d == 2 { '2' }
    else if d == 3 { '3' }
    else if d == 4 { '4' }
    else if d == 5 { '5' }
    else if d == 6 { '6' }
    else if d == 7 { '7' }
    else if d == 8 { '8' }
    else { '9' }
}

/// The decimal representation of `n`, without leading zeros.
pub open spec fn decimal(n: nat) -> Seq<char>
    decreases n,
{
    if n < 10 {
        seq![digit_char(n)]
    } else {
        decimal(n / 10).push(digit_char(n % 10))
    }
}

/// A decimal digit character.
pub open spec fn is_digit(c: char) -> bool {
    '0' <= c && c <= '9'
}

/// The number a run of decimal digits stands for, most significant digit
/// first.
pub open spec fn digits_value(s: Seq<char>) -> int
    decreases s.len(),
{
    if s.len() == 0 {
        0
    } else {
        10 * digits_value(s.drop_last()) + (s.last() as int - '0' as int)
    }
}

/// The digit character of `d` below ten is a digit whose value is `d`.
proof fn lemma_digit_char(d: nat)
    requires
        d < 10,
    ensures
        is_digit(digit_char(d)),
        digit_char(d) as int - '0' as int == d,
{
}

/// The numeral of `n` is made of decimal digits, has no leading zero, and
/// reads back as `n`: it is the base-10 representation of `n`.
pub proof fn lemma_decimal_reads_back(n: nat)
    ensures
        decimal(n).len() > 0,
        forall|i: int| 0 <= i < decimal(n).len() ==> is_digit(#[trigger] decimal(n)[i]),
        digits_value(decimal(n)) == n,
        decimal(n).len() > 1 ==> decimal(n)[0] != '0',
    decreases n,
{
    if n < 10 {
        lemma_digit_char(n);
        let d = decimal(n);
        assert(d.drop_last() =~= Seq::<char>::empty());
        assert(digits_value(d.drop_last()) == 0);
    } else {
        let m = n / 10;
        let r = n % 10;
        lemma_decimal_reads_back(m);
        lemma_digit_char(r);
        let d = decimal(n);
        let dm = decimal(m);
        assert(d.drop_last() =~= dm);
        assert(n == 10 * m + r);
        assert forall|i: int| 0 <= i < d.len() implies is_digit(#[trigger] d[i]) by {
            if i < dm.len() {
                assert(d[i] == dm[i]);
            }
        }
        assert(d[0] == dm[0]);
        if dm.len() == 1 {
            assert(dm.drop_last() =~= Seq::<char>::empty());
            assert(digits_value(dm.drop_last()) == 0);
        }
    }
}

fn digit(d: usize) -> (c: char)
    requires
        d < 10,
    ensures
        c == digit_char(d as nat),
{
    match d {
        0 => '0',
        1 => '1',
        2 => '2',
        3 => '3',
        4 => '4',
        5 => '5',
        6 => '6',
        7 => '7',
        8 => '8',
        _ => '9',
    }
}

/// Appends the decimal representation of `n` to `out`.
pub fn push_decimal(out: &mut String, n: usize)
    ensures
        final(out)@ == old(out)@ + decimal(n as nat),
    decreases n,
{
    if n >= 10 {
        push_decimal(out, n / 10);
    }
    out.push(digit(n % 10));
    assert(final(out)@ =~= old(out)@ + decimal(n as nat));
}

} // verus!
