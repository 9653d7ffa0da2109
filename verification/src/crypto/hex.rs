//! Hexadecimal text of byte strings, and the trimming of whitespace.

use vstd::prelude::*;

verus! {

/// The value of a hexadecimal digit (either case), if `c` is one.
pub open spec fn hex_value(c: char) -> Option<u8> {
    if '0' <= c && c <= '9' {
        Some((c as u32 - '0' as u32) as u8)
    } else if 'a' <= c && c <= 'f' {
        Some((c as u32 - 'a' as u32 + 10) as u8)
    } else if 'A' <= c && c <= 'F' {
        Some((c as u32 - 'A' as u32 + 10) as u8)
    } else {
        None
    }
}

/// The lowercase hexadecimal digit of a value below 16.
pub open spec fn hex_digit(v: u8) -> char {
    if v < 10 { ((v as u32) + ('0' as u32)) as char } else { ((v as u32) - 10 + ('a' as u32)) as char }
}

/// Lowercase hexadecimal text of bytes: two digits per byte, high nibble
/// first.
pub open spec fn hex_encode_spec(b: Seq<u8>) -> Seq<char> {
    Seq::new(2 * b.len(), |i: int| if i % 2 == 0 { hex_digit(b[i / 2] / 16) } else { hex_digit(b[i / 2] % 16) })
}

/// Decoding hexadecimal text: defined when the text has an even number of
/// characters, all hexadecimal digits; each pair gives one byte.
pub open spec fn hex_decode_spec(s: Seq<char>) -> Option<Seq<u8>> {
    if s.len() % 2 == 0 && forall|i: int| 0 <= i < s.len() ==> (#[trigger] hex_value(s[i])) is Some {
        Some(Seq::new(s.len() / 2, |k: int| (hex_value(s[2 * k]).unwrap() * 16 + hex_value(s[2 * k + 1]).unwrap()) as u8))
    } else {
        None
    }
}

/// Calls `hex::encode`: lowercase hexadecimal, two digits per byte.
#[verifier::external_body]
pub(crate) fn hex_encode(data: &[u8]) -> (r: String)
    ensures
        r@ == hex_encode_spec(data@),
{
    hex::encode(data)
}

/// Calls `hex::decode`: the bytes when the text is an even number of
/// hexadecimal digits (either case), otherwise the error's message.
#[verifier::external_body]
pub(crate) fn hex_decode(s: &str) -> (r: core::result::Result<Vec<u8>, String>)
    ensures
        r is Ok <==> hex_decode_spec(s@) is Some,
        r matches Ok(b) ==> Some(b@) == hex_decode_spec(s@),
{
    hex::decode(s).map_err(|e| e.to_string())
}

/// The message of a key read from text that is not hexadecimal: "hex
/// decode: " and the decoder's message.
pub(crate) fn hex_error_text(msg: String) -> (r: String)
    ensures
        r@ == "hex decode: "@ + msg@,
{
    let mut r = "hex decode: ".to_string();
    proof { reveal_strlit("hex decode: "); }
    r.push_str(msg.as_str());
    r
}

/// Unicode white space (the property `char::is_whitespace` tests).
pub open spec fn is_white_space(c: char) -> bool {
    ('\u{9}' <= c && c <= '\u{d}') || c == ' ' || c == '\u{85}' || c == '\u{a0}' || c == '\u{1680}'
        || ('\u{2000}' <= c && c <= '\u{200a}') || c == '\u{2028}' || c == '\u{2029}' || c == '\u{202f}'
        || c == '\u{205f}' || c == '\u{3000}'
}

/// The text without its leading and trailing white space.
pub open spec fn trim_spec(s: Seq<char>) -> Seq<char>
    decreases s.len(),
{
    if s.len() == 0 {
        s
    } else if is_white_space(s[0]) {
        trim_spec(s.drop_first())
    } else if is_white_space(s.last()) {
        trim_spec(s.drop_last())
    } else {
        s
    }
}

/// Calls `str::trim`: the text without leading and trailing white space.
#[verifier::external_body]
pub(crate) fn trim(s: &str) -> (r: &str)
    ensures
        r@ == trim_spec(s@),
{
    s.trim()
}

proof fn lemma_hex_digit(v: u8)
    requires
        v < 16,
    ensures
        hex_value(hex_digit(v)) == Some(v),
        !is_white_space(hex_digit(v)),
{
}

/// Hexadecimal text has nothing to trim, and decodes back to the bytes it
/// encodes.
pub proof fn law_hex_round_trip(b: Seq<u8>)
    ensures
        trim_spec(hex_encode_spec(b)) == hex_encode_spec(b),
        hex_decode_spec(hex_encode_spec(b)) == Some(b),
{
    let s = hex_encode_spec(b);
    assert forall|i: int| 0 <= i < s.len() implies (#[trigger] hex_value(s[i])) is Some && !is_white_space(s[i]) by {
        lemma_hex_digit(b[i / 2] / 16);
        lemma_hex_digit(b[i / 2] % 16);
    }
    if s.len() > 0 {
        assert(!is_white_space(s[0]));
        assert(!is_white_space(s.last()));
    }
    let d = Seq::new(s.len() / 2, |k: int| (hex_value(s[2 * k]).unwrap() * 16 + hex_value(s[2 * k + 1]).unwrap()) as u8);
    assert forall|k: int| 0 <= k < b.len() implies d[k] == b[k] by {
        lemma_hex_digit(b[k] / 16);
        lemma_hex_digit(b[k] % 16);
        assert((2 * k) % 2 == 0);
        assert((2 * k + 1) % 2 == 1);
        assert((2 * k) / 2 == k);
        assert((2 * k + 1) / 2 == k);
    }
    assert(d =~= b);
}

} // verus!
