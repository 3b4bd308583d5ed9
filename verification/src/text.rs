//! Byte/string conversions shared by the codec and the error classifier.

use vstd::prelude::*;
use vstd::utf8::{decode_utf8, encode_utf8, valid_utf8};

verus! {

/// The characters of a byte sequence read one byte per character.
pub open spec fn chars_of_bytes(b: Seq<u8>) -> Seq<char> {
    Seq::new(b.len(), |i: int| b[i] as char)
}

/// Whether every byte is an ASCII code.
pub open spec fn all_ascii(b: Seq<u8>) -> bool {
    forall|i: int| 0 <= i < b.len() ==> #[trigger] b[i] < 128
}

/// The bytes of a character sequence read one character per byte.
pub open spec fn bytes_of_chars(s: Seq<char>) -> Seq<u8> {
    Seq::new(s.len(), |i: int| s[i] as u8)
}

/// Reading ASCII bytes as characters and back is the identity.
pub proof fn lemma_bytes_chars_roundtrip(b: Seq<u8>)
    requires
        all_ascii(b),
    ensures
        bytes_of_chars(chars_of_bytes(b)) == b,
        vstd::utf8::is_ascii_chars(chars_of_bytes(b)),
{
    let cs = chars_of_bytes(b);
    assert forall|i: int| 0 <= i < b.len() implies #[trigger] bytes_of_chars(cs)[i] == b[i] by {
        assert(b[i] < 128);
        assert((b[i] as char) as u8 == b[i]);
    }
    assert(bytes_of_chars(cs) =~= b);
    assert forall|i: int| 0 <= i < cs.len() implies '\0' <= #[trigger] cs[i] <= '\u{7f}' by {
        assert(b[i] < 128);
    }
}

/// The lowercase form that the platform's Unicode case folding gives a string:
/// a function of the characters alone.
pub uninterp spec fn lower_of(s: Seq<char>) -> Seq<char>;

/// Relies on str::to_lowercase: the result depends on the characters alone.
#[verifier::external_body]
pub(crate) fn lowercase(s: &str) -> (r: String)
    ensures
        r@ == lower_of(s@),
{
    s.to_lowercase()
}

/// Relies on String::from_utf8: it succeeds exactly on valid UTF-8 and
/// yields the decoded characters.
#[verifier::external_body]
pub(crate) fn string_from_utf8(v: Vec<u8>) -> (r: Option<String>)
    ensures
        r is Some <==> valid_utf8(v@),
        r matches Some(s) ==> s@ == decode_utf8(v@),
{
    String::from_utf8(v).ok()
}

/// An all-ASCII byte sequence is valid UTF-8 and decodes byte for byte.
pub proof fn lemma_ascii_bytes_utf8(b: Seq<u8>)
    requires
        all_ascii(b),
    ensures
        valid_utf8(b),
        decode_utf8(b) == chars_of_bytes(b),
        encode_utf8(chars_of_bytes(b)) == b,
{
    let cs = chars_of_bytes(b);
    assert(vstd::utf8::is_ascii_chars(cs)) by {
        assert forall|i: int| 0 <= i < cs.len() implies '\0' <= #[trigger] cs[i] <= '\u{7f}' by {
            assert(b[i] < 128);
        }
    }
    vstd::utf8::is_ascii_chars_encode_utf8(cs);
    assert forall|i: int| 0 <= i < cs.len() implies #[trigger] encode_utf8(cs)[i] == b[i] by {
        assert(cs[i] as u8 == encode_utf8(cs)[i]);
        assert(b[i] < 128);
        assert((b[i] as char) as u8 == b[i]);
    }
    assert(encode_utf8(cs) =~= b);
    vstd::utf8::encode_utf8_valid_utf8(cs);
    vstd::utf8::encode_utf8_decode_utf8(cs);
}

/// Build a string from ASCII bytes.
pub fn ascii_string(v: Vec<u8>) -> (r: String)
    requires
        all_ascii(v@),
    ensures
        r@ == chars_of_bytes(v@),
        encode_utf8(r@) == v@,
{
    proof {
        lemma_ascii_bytes_utf8(v@);
    }
    let ghost gv = v@;
    match string_from_utf8(v) {
        Some(s) => s,
        None => {
            proof {
                assert(valid_utf8(gv));
            }
            // unreachable: ASCII bytes are valid UTF-8
            String::new()
        },
    }
}

} // verus!
