//! Text encodings the application exchanges: percent-encoded URL parts and
//! base64 data URLs.

use vstd::prelude::*;
use base64::Engine;

verus! {

broadcast use vstd::string::group_string_axioms;

/// The value of an ASCII hexadecimal digit.
pub open spec fn hex_value(b: u8) -> Option<u8> {
    if 0x30 <= b <= 0x39 {
        Some((b - 0x30) as u8)
    } else if 0x41 <= b <= 0x46 {
        Some((b - 0x41 + 10) as u8)
    } else if 0x61 <= b <= 0x66 {
        Some((b - 0x61 + 10) as u8)
    } else {
        None
    }
}

/// Percent-decoding of bytes: each `%` followed by two hexadecimal digits
/// becomes the byte they spell; every other byte, a lone `%` included, is
/// kept.
pub open spec fn percent_decoded(b: Seq<u8>) -> Seq<u8>
    decreases b.len(),
{
    if b.len() == 0 {
        seq![]
    } else if b[0] == 0x25 && b.len() >= 3 && hex_value(b[1]) is Some && hex_value(b[2]) is Some {
        seq![(hex_value(b[1])->0 * 16 + hex_value(b[2])->0) as u8] + percent_decoded(b.skip(3))
    } else {
        seq![b[0]] + percent_decoded(b.skip(1))
    }
}

/// `percent_encoding::percent_decode_str`, collected: the percent-decoded
/// bytes of the string's UTF-8 encoding (the crate decodes exactly the
/// `%XX` sequences with two hexadecimal digits).
#[verifier::external_body]
fn percent_decode_bytes(value: &str) -> (r: Vec<u8>)
    ensures
        r@ == percent_decoded(vstd::utf8::encode_utf8(value@)),
{
    percent_encoding::percent_decode_str(value).collect()
}

/// The text `String::from_utf8_lossy` makes of some bytes (malformed
/// sequences become U+FFFD); it depends on the bytes alone.
pub uninterp spec fn utf8_lossy(bytes: Seq<u8>) -> Seq<char>;

/// `String::from_utf8_lossy`: valid UTF-8 is decoded as it is; malformed
/// sequences are replaced, as named by `utf8_lossy`.
#[verifier::external_body]
fn from_utf8_lossy(bytes: &[u8]) -> (s: String)
    ensures
        s@ == utf8_lossy(bytes@),
        vstd::utf8::valid_utf8(bytes@) ==> s@ == vstd::utf8::decode_utf8(bytes@),
{
    String::from_utf8_lossy(bytes).into_owned()
}

/// A percent-encoded URL part as text: decoded, then read as UTF-8 with
/// malformed sequences replaced.
pub fn percent_decode_lossy(value: &str) -> (s: String)
    ensures
        s@ == utf8_lossy(percent_decoded(vstd::utf8::encode_utf8(value@))),
{
    let bytes = percent_decode_bytes(value);
    from_utf8_lossy(&bytes)
}

/// The standard base64 alphabet.
pub open spec fn b64_char(v: int) -> char {
    if 0 <= v < 26 {
        (0x41 + v) as char
    } else if 26 <= v < 52 {
        (0x61 + v - 26) as char
    } else if 52 <= v < 62 {
        (0x30 + v - 52) as char
    } else if v == 62 {
        '+'
    } else {
        '/'
    }
}

/// Standard base64 with `=` padding (RFC 4648): each three bytes become
/// four characters; a last one or two bytes are padded.
pub open spec fn base64_standard(b: Seq<u8>) -> Seq<char>
    decreases b.len(),
{
    if b.len() == 0 {
        seq![]
    } else if b.len() == 1 {
        seq![b64_char(b[0] as int / 4), b64_char((b[0] as int % 4) * 16), '=', '=']
    } else if b.len() == 2 {
        seq![
            b64_char(b[0] as int / 4),
            b64_char((b[0] as int % 4) * 16 + b[1] as int / 16),
            b64_char((b[1] as int % 16) * 4),
            '=',
        ]
    } else {
        seq![
            b64_char(b[0] as int / 4),
            b64_char((b[0] as int % 4) * 16 + b[1] as int / 16),
            b64_char((b[1] as int % 16) * 4 + b[2] as int / 64),
            b64_char(b[2] as int % 64),
        ] + base64_standard(b.skip(3))
    }
}

/// `base64::engine::general_purpose::STANDARD.encode`: standard base64 with
/// padding. The crate panics when the encoded length overflows `usize`,
/// which the bound on the input rules out.
#[verifier::external_body]
fn base64_encode(bytes: &[u8]) -> (s: String)
    requires
        bytes@.len() <= usize::MAX / 2,
    ensures
        s@ == base64_standard(bytes@),
{
    base64::engine::general_purpose::STANDARD.encode(bytes)
}

/// A PNG image as a `data:` URL.
pub fn png_data_url(bytes: &[u8]) -> (s: String)
    requires
        bytes@.len() <= usize::MAX / 2,
    ensures
        s@ == "data:image/png;base64,"@ + base64_standard(bytes@),
{
    let encoded = base64_encode(bytes);
    let mut out = "data:image/png;base64,".to_string();
    let ghost head = out@;
    let chars = crate::text::chars_of(encoded.as_str());
    let mut i: usize = 0;
    while i < chars.len()
        invariant
            i <= chars@.len(),
            out@ == head + chars@.take(i as int),
        decreases chars@.len() - i,
    {
        out.push(chars[i]);
        i += 1;
        assert(out@ =~= head + chars@.take(i as int));
    }
    assert(chars@.take(i as int) =~= chars@);
    out
}

} // verus!
