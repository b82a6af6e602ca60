//! Turning the name of a dropped item (a `file://` URI) back into a path:
//! `%XX` percent-decoding.
use vstd::prelude::*;
use vstd::string::StringSliceAdditionalSpecFns;
use vstd::utf8::{is_continuation_byte, valid_utf8, decode_utf8, encode_utf8, encode_utf8_valid_utf8, encode_utf8_decode_utf8};

verus! {

/// The value of a hexadecimal digit byte.
pub open spec fn hex_digit(b: u8) -> Option<nat> {
    if 0x30 <= b && b <= 0x39 {
        Some((b - 0x30) as nat)
    } else if 0x61 <= b && b <= 0x66 {
        Some((b - 0x61 + 10) as nat)
    } else if 0x41 <= b && b <= 0x46 {
        Some((b - 0x41 + 10) as nat)
    } else {
        None
    }
}

/// The byte two characters after a `%` stand for: two hexadecimal digits,
/// high digit first; anything else is no escape.
pub open spec fn hex_pair(b1: u8, b2: u8) -> Option<u8> {
    match (hex_digit(b1), hex_digit(b2)) {
        (Some(h), Some(l)) => Some((16 * h + l) as u8),
        _ => None,
    }
}

/// The bytes from position `i` on, with each `%XX` escape that reads as a
/// byte replaced by that byte; every other byte stays.
pub open spec fn decoded_from(bytes: Seq<u8>, i: int) -> Seq<u8>
    decreases bytes.len() - i,
{
    if i < 0 || i >= bytes.len() {
        Seq::empty()
    } else if bytes[i] == 0x25 && i + 2 < bytes.len() && hex_pair(bytes[i + 1], bytes[i + 2]) is Some {
        seq![hex_pair(bytes[i + 1], bytes[i + 2])->0] + decoded_from(bytes, i + 3)
    } else {
        seq![bytes[i]] + decoded_from(bytes, i + 1)
    }
}

/// The percent-decoded bytes.
pub open spec fn percent_decoded(bytes: Seq<u8>) -> Seq<u8> {
    decoded_from(bytes, 0)
}

/// No escape's two characters end inside a multi-byte character: the byte
/// three places after each `%` starts a character (or is past the end).
pub open spec fn escapes_on_char_boundaries(bytes: Seq<u8>) -> bool {
    forall|i: int|
        0 <= i && i + 3 < bytes.len() && #[trigger] bytes[i] == 0x25 ==> !is_continuation_byte(
            bytes[i + 3],
        )
}

/// What `String::from_utf8_lossy` makes of a byte sequence.
pub uninterp spec fn utf8_lossy(bytes: Seq<u8>) -> Seq<char>;

/// Calls `String::from_utf8_lossy`. Its documentation says valid UTF-8 comes
/// back unchanged; how invalid sequences are replaced is not stated.
#[verifier::external_body]
fn lossy_string(bytes: &[u8]) -> (r: String)
    ensures
        r@ == utf8_lossy(bytes@),
        valid_utf8(bytes@) ==> r@ == decode_utf8(bytes@),
{
    String::from_utf8_lossy(bytes).into_owned()
}

fn hex_value(b: u8) -> (r: Option<u8>)
    ensures
        match hex_digit(b) {
            Some(v) => r == Some(v as u8),
            None => r is None,
        },
{
    if b >= 0x30 && b <= 0x39 {
        Some(b - 0x30)
    } else if b >= 0x61 && b <= 0x66 {
        Some(b - 0x61 + 10)
    } else if b >= 0x41 && b <= 0x46 {
        Some(b - 0x41 + 10)
    } else {
        None
    }
}

fn pair_value(b1: u8, b2: u8) -> (r: Option<u8>)
    ensures
        r == hex_pair(b1, b2),
{
    match (hex_value(b1), hex_value(b2)) {
        (Some(h), Some(l)) => Some(16 * h + l),
        _ => None,
    }
}

/// Replaces each `%XX` escape by the byte it stands for.
pub fn decode_percent_bytes(bytes: &[u8]) -> (r: Vec<u8>)
    ensures
        r@ == percent_decoded(bytes@),
{
    let mut out: Vec<u8> = Vec::new();
    let mut i: usize = 0;
    while i < bytes.len()
        invariant
            i <= bytes.len(),
            out@ + decoded_from(bytes@, i as int) == percent_decoded(bytes@),
        decreases bytes.len() - i,
    {
        let ghost before = out@;
        if bytes[i] == 0x25 && bytes.len() - i > 2 {
            match pair_value(bytes[i + 1], bytes[i + 2]) {
                Some(b) => {
                    out.push(b);
                    assert(before + decoded_from(bytes@, i as int) =~= out@ + decoded_from(
                        bytes@,
                        i + 3,
                    ));
                    i = i + 3;
                    continue ;
                },
                None => {},
            }
        }
        out.push(bytes[i]);
        assert(before + decoded_from(bytes@, i as int) =~= out@ + decoded_from(bytes@, i + 1));
        i = i + 1;
    }
    assert(out@ + decoded_from(bytes@, i as int) =~= out@);
    out
}

/// Minimal `%XX` percent-decoding for `file://` URIs: each escape that reads
/// as a byte is replaced by it, and the bytes are read as UTF-8 with
/// invalid sequences replaced.
pub fn percent_decode(s: &str) -> (r: String)
    requires
        escapes_on_char_boundaries(s.spec_bytes()),
    ensures
        r@ == utf8_lossy(percent_decoded(s.spec_bytes())),
        valid_utf8(percent_decoded(s.spec_bytes())) ==> r@ == decode_utf8(
            percent_decoded(s.spec_bytes()),
        ),
{
    let bytes = s.as_bytes();
    let out = decode_percent_bytes(bytes);
    lossy_string(out.as_slice())
}

/// Bytes without `%` decode to themselves.
pub proof fn lemma_decoded_without_escapes(bytes: Seq<u8>, i: int)
    requires
        0 <= i,
        !bytes.contains(0x25u8),
    ensures
        decoded_from(bytes, i) == (if i <= bytes.len() {
            bytes.subrange(i, bytes.len() as int)
        } else {
            Seq::empty()
        }),
    decreases bytes.len() - i,
{
    if i < bytes.len() {
        assert(bytes[i] != 0x25);
        lemma_decoded_without_escapes(bytes, i + 1);
        assert(seq![bytes[i]] + bytes.subrange(i + 1, bytes.len() as int) =~= bytes.subrange(
            i,
            bytes.len() as int,
        ));
    } else if i == bytes.len() {
        assert(bytes.subrange(i, bytes.len() as int) =~= Seq::<u8>::empty());
    }
}

/// A text without `%` decodes to itself.
pub proof fn lemma_percent_decode_identity(s: Seq<char>)
    requires
        !encode_utf8(s).contains(0x25u8),
    ensures
        percent_decoded(encode_utf8(s)) == encode_utf8(s),
        valid_utf8(percent_decoded(encode_utf8(s))),
        decode_utf8(percent_decoded(encode_utf8(s))) == s,
{
    lemma_decoded_without_escapes(encode_utf8(s), 0);
    assert(encode_utf8(s).subrange(0, encode_utf8(s).len() as int) =~= encode_utf8(s));
    encode_utf8_valid_utf8(s);
    encode_utf8_decode_utf8(s);
}

} // verus!
