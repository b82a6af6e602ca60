//! The decisions of converting a folder of images into a CBZ archive: which
//! files are pages, in what order, under which entry names, and the name of
//! the archive.
use vstd::prelude::*;
use crate::text::chars_of;

verus! {

/// The page image extensions, in lower case: `jpg`, `jpeg`, `png`, `webp`,
/// `gif`.
pub open spec fn image_extensions() -> Seq<Seq<char>> {
    seq![
        seq!['j', 'p', 'g'],
        seq!['j', 'p', 'e', 'g'],
        seq!['p', 'n', 'g'],
        seq!['w', 'e', 'b', 'p'],
        seq!['g', 'i', 'f'],
    ]
}

/// `c` is the lower-case ASCII letter `t` in either case, or equal to `t`.
pub open spec fn same_ignoring_case(c: char, t: char) -> bool {
    c == t || ('a' <= t && t <= 'z' && (c as u32) + 32 == (t as u32))
}

/// `s` spells the lower-case word `t`, ignoring ASCII case. For the ASCII
/// extension names this is the same as comparing the lower-case form of `s`
/// with `t`.
pub open spec fn spells_ignoring_case(s: Seq<char>, t: Seq<char>) -> bool {
    s.len() == t.len() && forall|i: int| 0 <= i < s.len() ==> same_ignoring_case(s[i], t[i])
}

/// The extension is that of a page image, in any letter case.
pub open spec fn is_image_ext(ext: Seq<char>) -> bool {
    exists|k: int| 0 <= k < image_extensions().len() && spells_ignoring_case(ext, #[trigger] image_extensions()[k])
}

fn spells(s: &Vec<char>, t: &Vec<char>) -> (r: bool)
    ensures
        r == spells_ignoring_case(s@, t@),
{
    if s.len() != t.len() {
        return false;
    }
    let mut i: usize = 0;
    while i < s.len()
        invariant
            s.len() == t.len(),
            i <= s.len(),
            forall|j: int| 0 <= j < i ==> same_ignoring_case(s@[j], t@[j]),
        decreases s.len() - i,
    {
        let c = s[i];
        let d = t[i];
        if !(c == d || ('a' <= d && d <= 'z' && (d as u32) - 32 == (c as u32))) {
            return false;
        }
        i = i + 1;
    }
    true
}

/// Whether a file with this extension is a page image (`jpg`, `jpeg`, `png`,
/// `webp` or `gif`, in any letter case).
pub fn is_image_extension(ext: &str) -> (r: bool)
    ensures
        r == is_image_ext(ext@),
{
    let e = chars_of(ext);
    let exts = vec![
        vec!['j', 'p', 'g'],
        vec!['j', 'p', 'e', 'g'],
        vec!['p', 'n', 'g'],
        vec!['w', 'e', 'b', 'p'],
        vec!['g', 'i', 'f'],
    ];
    assert(exts@.len() == image_extensions().len());
    assert forall|k: int| 0 <= k < 5 implies (#[trigger] exts@[k])@ == image_extensions()[k] by {
        assert(exts@[0]@ =~= image_extensions()[0]);
        assert(exts@[1]@ =~= image_extensions()[1]);
        assert(exts@[2]@ =~= image_extensions()[2]);
        assert(exts@[3]@ =~= image_extensions()[3]);
        assert(exts@[4]@ =~= image_extensions()[4]);
    }
    let mut k: usize = 0;
    while k < exts.len()
        invariant
            k <= exts.len(),
            exts@.len() == 5,
            e@ == ext@,
            forall|q: int| 0 <= q < 5 ==> (#[trigger] exts@[q])@ == image_extensions()[q],
            forall|q: int| 0 <= q < k ==> !spells_ignoring_case(ext@, #[trigger] image_extensions()[q]),
        decreases exts.len() - k,
    {
        if spells(&e, &exts[k]) {
            assert(spells_ignoring_case(ext@, image_extensions()[k as int]));
            return true;
        }
        k = k + 1;
    }
    false
}

/// The extension is that of a ComicInfo-carrying archive: `cbz` or `zip`, in
/// any letter case.
pub open spec fn is_archive_ext(ext: Seq<char>) -> bool {
    spells_ignoring_case(ext, seq!['c', 'b', 'z']) || spells_ignoring_case(ext, seq!['z', 'i', 'p'])
}

/// Whether a file with this extension is read as an archive (`cbz` or `zip`,
/// in any letter case) rather than as a standalone XML file.
pub fn is_archive_extension(ext: &str) -> (r: bool)
    ensures
        r == is_archive_ext(ext@),
{
    let e = chars_of(ext);
    let cbz = vec!['c', 'b', 'z'];
    let zip = vec!['z', 'i', 'p'];
    assert(cbz@ =~= seq!['c', 'b', 'z']);
    assert(zip@ =~= seq!['z', 'i', 'p']);
    spells(&e, &cbz) || spells(&e, &zip)
}

/// The name of the archive made of a folder: the folder's name and `.cbz`.
pub fn archive_file_name(folder_name: &str) -> (r: String)
    ensures
        r@ == folder_name@ + seq!['.', 'c', 'b', 'z'],
{
    let mut r = folder_name.to_owned();
    r.push('.');
    r.push('c');
    r.push('b');
    r.push('z');
    assert(r@ =~= folder_name@ + seq!['.', 'c', 'b', 'z']);
    r
}

/// A path relative to the folder with backslashes turned into slashes, as
/// archive entry names want.
pub open spec fn entry_name(relative: Seq<char>) -> Seq<char> {
    Seq::new(relative.len(), |i: int| if relative[i] == '\\' { '/' } else { relative[i] })
}

/// An entry name holds no backslash: it is as long as the relative path,
/// with `/` where the path has `\` and the path's own character elsewhere.
pub proof fn lemma_entry_name_slashes(relative: Seq<char>)
    ensures
        entry_name(relative).len() == relative.len(),
        !entry_name(relative).contains('\\'),
        forall|i: int|
            0 <= i < relative.len() ==> (relative[i] == '\\' ==> #[trigger] entry_name(relative)[i]
                == '/') && (relative[i] != '\\' ==> entry_name(relative)[i] == relative[i]),
{
    let e = entry_name(relative);
    if e.contains('\\') {
        let k = choose|k: int| 0 <= k < e.len() && e[k] == '\\';
        assert(e[k] == (if relative[k] == '\\' { '/' } else { relative[k] }));
    }
}

/// The archive entry name of an image, from its path relative to the
/// folder.
pub fn zip_entry_name(relative: &str) -> (r: String)
    ensures
        r@ == entry_name(relative@),
{
    let v = chars_of(relative);
    let mut r = String::new();
    let mut i: usize = 0;
    while i < v.len()
        invariant
            i <= v.len(),
            v@ == relative@,
            r@ == entry_name(relative@).take(i as int),
        decreases v.len() - i,
    {
        let c = v[i];
        r.push(if c == '\\' { '/' } else { c });
        assert(r@ =~= entry_name(relative@).take(i + 1));
        i = i + 1;
    }
    assert(entry_name(relative@).take(v.len() as int) =~= entry_name(relative@));
    r
}

} // verus!
