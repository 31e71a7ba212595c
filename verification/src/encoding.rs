//! Calls into the encoding crates: standard base64, percent-decoding, and
//! lossy UTF-8 decoding.
use vstd::prelude::*;
use vstd::utf8::*;
use vstd::string::StringSliceAdditionalSpecFns;
use base64::Engine;

verus! {

/// What `base64::engine::general_purpose::STANDARD.encode` produces for `bytes`.
pub uninterp spec fn base64_encoding(bytes: Seq<u8>) -> Seq<char>;

/// What `base64::engine::general_purpose::STANDARD.decode` gives for `text`:
/// the decoded bytes, or `None` where it returns an error.
pub uninterp spec fn base64_decoding(text: Seq<char>) -> Option<Seq<u8>>;

/// What `String::from_utf8_lossy` gives for `bytes`.
pub uninterp spec fn utf8_lossy(bytes: Seq<u8>) -> Seq<char>;

#[verifier::external_type_specification]
#[verifier::external_body]
pub struct ExDecodeError(base64::DecodeError);

/// `STANDARD.encode(data)` (padded standard-alphabet base64). Its result is
/// named, not spelled out; decoding it with `STANDARD.decode` gives `data`
/// back, as the crate's own round-trip tests check.
#[verifier::external_body]
pub(crate) fn b64_encode(data: &[u8]) -> (s: String)
    ensures
        s@ == base64_encoding(data@),
        base64_decoding(s@) == Some(data@),
{
    base64::engine::general_purpose::STANDARD.encode(data)
}

/// `STANDARD.decode(text)`: the bytes on success, the crate's error otherwise.
#[verifier::external_body]
pub(crate) fn b64_decode(text: &str) -> (r: Result<Vec<u8>, base64::DecodeError>)
    ensures
        match r {
            Ok(v) => base64_decoding(text@) == Some(v@),
            Err(_) => base64_decoding(text@) is None,
        },
{
    base64::engine::general_purpose::STANDARD.decode(text)
}

/// The `Display` text of a base64 decoding error. Nothing is claimed of it.
#[verifier::external_body]
pub(crate) fn decode_error_text(e: &base64::DecodeError) -> String {
    e.to_string()
}

/// `String::from_utf8_lossy(bytes)`, as an owned string: the text itself when
/// `bytes` is valid UTF-8 (invalid sequences otherwise become U+FFFD).
#[verifier::external_body]
pub(crate) fn lossy_text(bytes: &[u8]) -> (s: String)
    ensures
        s@ == utf8_lossy(bytes@),
        valid_utf8(bytes@) ==> s@ == decode_utf8(bytes@),
{
    String::from_utf8_lossy(bytes).to_string()
}

/// The value of a hexadecimal digit (`char::to_digit(16)`), if `b` is one.
pub open spec fn hex_value(b: u8) -> Option<u8> {
    if 48 <= b <= 57 {
        Some((b - 48) as u8)
    } else if 97 <= b <= 102 {
        Some((b - 87) as u8)
    } else if 65 <= b <= 70 {
        Some((b - 55) as u8)
    } else {
        None
    }
}

/// Percent-decoding as the `percent_encoding` crate documents it: every `%`
/// followed by two hexadecimal digits becomes the byte they denote; every
/// other byte, a lone `%` included, stays.
pub open spec fn percent_decoded(b: Seq<u8>) -> Seq<u8>
    decreases b.len(),
{
    if b.len() == 0 {
        Seq::empty()
    } else if b[0] == 37 && b.len() >= 3 && hex_value(b[1]) is Some && hex_value(b[2]) is Some {
        seq![(hex_value(b[1])->0 * 16 + hex_value(b[2])->0) as u8] + percent_decoded(
            b.subrange(3, b.len() as int),
        )
    } else {
        seq![b[0]] + percent_decoded(b.subrange(1, b.len() as int))
    }
}

/// `percent_decode_str(raw).decode_utf8()`: the percent-decoded bytes read as
/// UTF-8, or `None` when they are not valid UTF-8.
#[verifier::external_body]
pub(crate) fn percent_decode_utf8(raw: &str) -> (r: Option<String>)
    ensures
        r is Some <==> valid_utf8(percent_decoded(raw.spec_bytes())),
        r matches Some(s) ==> s@ == decode_utf8(percent_decoded(raw.spec_bytes())),
{
    match percent_encoding::percent_decode_str(raw).decode_utf8() {
        Ok(s) => Some(s.into_owned()),
        Err(_) => None,
    }
}

} // verus!
