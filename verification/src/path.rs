//! File-name-safe forms of persona names: URL-safe base64 without padding.
use base64::prelude::BASE64_URL_SAFE_NO_PAD;
use base64::Engine;

use vstd::prelude::*;
use vstd::utf8::*;

verus! {

/// The URL-safe base64 text, without padding, of some bytes.
pub uninterp spec fn base64_url_encoding(bytes: Seq<u8>) -> Seq<char>;

/// The bytes that a URL-safe base64 text without padding stands for; `None` where
/// it is no such text.
pub uninterp spec fn base64_url_decoding(text: Seq<char>) -> Option<Seq<u8>>;

/// A character of the URL-safe base64 alphabet: `A` to `Z`, `a` to `z`, `0` to
/// `9`, `-` and `_`.
pub open spec fn is_url_safe_base64_char(c: char) -> bool {
    ||| 'A' <= c <= 'Z'
    ||| 'a' <= c <= 'z'
    ||| '0' <= c <= '9'
    ||| c == '-'
    ||| c == '_'
}

/// The length of unpadded base64 text for `n` bytes: four characters for each
/// three bytes, and two or three for one or two bytes left over.
pub open spec fn unpadded_base64_len(n: nat) -> nat {
    (4 * n + 2) / 3
}

/// Calls `Engine::encode` of `BASE64_URL_SAFE_NO_PAD`: the result is named by
/// `base64_url_encoding`, decoding it gives back the input, it is written in the
/// URL-safe alphabet, and it has the unpadded length.
#[verifier::external_body]
fn base64_encode(input: &[u8]) -> (r: String)
    ensures
        r@ == base64_url_encoding(input@),
        base64_url_decoding(r@) == Some(input@),
        r@.len() == unpadded_base64_len(input@.len()),
        forall|i: int| 0 <= i < r@.len() ==> is_url_safe_base64_char(#[trigger] r@[i]),
{
    BASE64_URL_SAFE_NO_PAD.encode(input)
}

/// Calls `Engine::decode` of `BASE64_URL_SAFE_NO_PAD`; the outcome is named by
/// `base64_url_decoding` (its error becomes `None`).
#[verifier::external_body]
fn base64_decode(input: &str) -> (r: Option<Vec<u8>>)
    ensures
        match base64_url_decoding(input@) {
            Some(b) => r matches Some(v) && v@ == b,
            None => r is None,
        },
{
    BASE64_URL_SAFE_NO_PAD.decode(input).ok()
}

/// Calls `String::from_utf8`: the text the bytes encode in UTF-8, where they are
/// valid UTF-8 (its error becomes `None`).
#[verifier::external_body]
pub(crate) fn string_from_utf8(bytes: Vec<u8>) -> (r: Option<String>)
    ensures
        r is Some <==> valid_utf8(bytes@),
        r matches Some(s) ==> s@ == decode_utf8(bytes@),
{
    String::from_utf8(bytes).ok()
}

/// The text a sanitized name stands for, where it stands for one.
pub open spec fn desanitized(text: Seq<char>) -> Option<Seq<char>> {
    match base64_url_decoding(text) {
        Some(b) => if valid_utf8(b) {
            Some(decode_utf8(b))
        } else {
            None
        },
        None => None,
    }
}

/// The name in URL-safe base64 of its UTF-8 bytes; decoding the result gives the
/// name back, so names that differ get sanitized forms that differ. The result
/// holds only characters of the URL-safe alphabet (no `/`, `.` or `=`).
pub fn sanitize(input: &str) -> (r: String)
    ensures
        r@ == base64_url_encoding(encode_utf8(input@)),
        desanitized(r@) == Some(input@),
        r@.len() == unpadded_base64_len(encode_utf8(input@).len()),
        forall|i: int| 0 <= i < r@.len() ==> is_url_safe_base64_char(#[trigger] r@[i]),
{
    let bytes = input.as_bytes();
    proof {
        encode_utf8_valid_utf8(input@);
        encode_utf8_decode_utf8(input@);
    }
    base64_encode(bytes)
}

/// The name a sanitized text stands for; the text must be URL-safe base64 of
/// UTF-8 bytes.
pub fn decode_sanitized(input: &str) -> (r: String)
    requires
        desanitized(input@) is Some,
    ensures
        Some(r@) == desanitized(input@),
{
    let bytes = match base64_decode(input) {
        Some(b) => b,
        None => Vec::new(),
    };
    match string_from_utf8(bytes) {
        Some(s) => s,
        None => String::new(),
    }
}

/// The name a text stands for, where it is URL-safe base64 of UTF-8 bytes; `None`
/// elsewhere.
pub fn try_decode_sanitized(input: &str) -> (r: Option<String>)
    ensures
        r is Some <==> desanitized(input@) is Some,
        r matches Some(s) ==> Some(s@) == desanitized(input@),
{
    match base64_decode(input) {
        Some(bytes) => match string_from_utf8(bytes) {
            Some(_) => Some(decode_sanitized(input)),
            None => None,
        },
        None => None,
    }
}

} // verus!
