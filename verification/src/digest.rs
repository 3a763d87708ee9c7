//! Content digests: the SHA-256 of an encoding, in hexadecimal.
use crate::json::{json_text, Json, JsonView};
use crate::text::hex_digit;
use sha2::Digest;
use vstd::prelude::*;
use vstd::utf8::*;

verus! {

/// The SHA-256 digest of some bytes.
pub uninterp spec fn sha256_of(bytes: Seq<u8>) -> Seq<u8>;

/// `sha2::Sha256::digest`, which hashes the bytes to thirty-two bytes. Which bytes come out is
/// left to the name.
#[verifier::external_body]
fn sha256(bytes: &[u8]) -> (digest: Vec<u8>)
    ensures
        digest@ == sha256_of(bytes@),
        digest@.len() == 32,
{
    sha2::Sha256::digest(bytes).to_vec()
}

/// Each byte as two hexadecimal digits.
pub open spec fn hex_text(bytes: Seq<u8>) -> Seq<char>
    decreases bytes.len(),
{
    if bytes.len() == 0 {
        Seq::empty()
    } else {
        hex_text(bytes.drop_last()) + seq![
            hex_digit(bytes.last() as int / 16),
            hex_digit(bytes.last() as int % 16),
        ]
    }
}

/// Writes a hexadecimal digit.
fn push_hex_digit(text: &mut String, n: u8)
    requires
        n < 16,
    ensures
        final(text)@ == old(text)@ + seq![hex_digit(n as int)],
{
    proof {
        reveal_strlit("0123456789abcdef");
    }
    let digits = "0123456789abcdef";
    let digit = digits.substring_char(n as usize, n as usize + 1);
    text.append(digit);
    assert(digit@ =~= seq![hex_digit(n as int)]);
}

/// Writes bytes in hexadecimal.
fn to_hex(bytes: &Vec<u8>) -> (text: String)
    ensures
        text@ == hex_text(bytes@),
        text@.len() == 2 * bytes@.len(),
{
    let mut text = String::new();
    let mut i: usize = 0;
    while i < bytes.len()
        invariant
            i <= bytes.len(),
            text@ == hex_text(bytes@.take(i as int)),
            text@.len() == 2 * i,
        decreases bytes.len() - i,
    {
        let byte: u8 = bytes[i];
        let ghost before = text@;
        push_hex_digit(&mut text, byte / 16);
        push_hex_digit(&mut text, byte % 16);
        proof {
            assert(bytes@.take(i + 1).drop_last() =~= bytes@.take(i as int));
            assert(text@ =~= before + seq![hex_digit(byte as int / 16), hex_digit(byte as int % 16)]);
        }
        i = i + 1;
    }
    assert(bytes@.take(i as int) =~= bytes@);
    text
}

/// The digest of an encoding.
pub open spec fn digest_of(bytes: Seq<u8>) -> Seq<char> {
    hex_text(sha256_of(bytes))
}

/// The digest of a value whose encoding may have failed: none where it did.
pub open spec fn content_digest_of(encoding: Option<Seq<u8>>) -> Option<Seq<char>> {
    match encoding {
        Some(bytes) => Some(digest_of(bytes)),
        None => None,
    }
}

/// An encoding, by its bytes.
pub open spec fn encoding_view(encoding: Option<Vec<u8>>) -> Option<Seq<u8>> {
    match encoding {
        Some(bytes) => Some(bytes@),
        None => None,
    }
}

/// A text that may be absent, by its characters.
pub open spec fn text_view(text: Option<String>) -> Option<Seq<char>> {
    match text {
        Some(text) => Some(text@),
        None => None,
    }
}

fn digest_bytes(bytes: &[u8]) -> (digest: String)
    ensures
        digest@ == digest_of(bytes@),
        digest@.len() == 64,
{
    let hash = sha256(bytes);
    to_hex(&hash)
}

/// The digest of a value's JSON encoding; none where the value has no encoding.
pub fn content_digest(encoding: &Option<Vec<u8>>) -> (digest: Option<String>)
    ensures
        text_view(digest) == content_digest_of(encoding_view(*encoding)),
        digest matches Some(text) ==> text@.len() == 64,
{
    match encoding {
        Some(bytes) => Some(digest_bytes(bytes.as_slice())),
        None => None,
    }
}

/// The digest of a JSON value: that of the bytes of its compact text.
pub open spec fn json_digest_of(value: JsonView) -> Seq<char> {
    digest_of(encode_utf8(json_text(value)))
}

/// The digest of a JSON value.
pub fn json_digest(value: &Json) -> (digest: String)
    ensures
        digest@ == json_digest_of(value@),
        digest@.len() == 64,
{
    let text = value.text();
    digest_bytes(text.as_str().as_bytes())
}

/// The encoding of a text: the bytes of its JSON text.
pub open spec fn text_encoding(text: Seq<char>) -> Option<Seq<u8>> {
    Some(encode_utf8(json_text(JsonView::Text(text))))
}

/// Encodes a text.
pub(crate) fn encode_text(text: &str) -> (encoding: Option<Vec<u8>>)
    ensures
        encoding_view(encoding) == text_encoding(text@),
{
    let quotation = Json::Text(text.to_owned()).text();
    Some(quotation.as_str().as_bytes_vec())
}

/// Bytes are written in order, each as two digits: the upper half of it first.
pub proof fn bytes_are_written_in_order(first: Seq<u8>, second: Seq<u8>, byte: u8)
    ensures
        hex_text(first + second) == hex_text(first) + hex_text(second),
        hex_text(seq![byte]) == seq![
            "0123456789abcdef"@[byte as int / 16],
            "0123456789abcdef"@[byte as int % 16],
        ],
        hex_text(first).len() == 2 * first.len(),
    decreases first.len() + second.len(),
{
    let one = seq![byte];
    assert(one.drop_last() =~= Seq::empty());
    reveal_with_fuel(hex_text, 2);
    assert(hex_text(one) =~= seq![hex_digit(byte as int / 16), hex_digit(byte as int % 16)]);
    if second.len() == 0 {
        assert(first + second =~= first);
        assert(hex_text(first) + hex_text(second) =~= hex_text(first));
        if first.len() > 0 {
            bytes_are_written_in_order(first.drop_last(), second, byte);
        }
    } else {
        bytes_are_written_in_order(first, second.drop_last(), byte);
        assert((first + second).drop_last() =~= first + second.drop_last());
        assert((first + second).last() == second.last());
        assert(hex_text(first + second) =~= hex_text(first) + hex_text(second));
    }
}

/// The digest of a JSON value is the digest of the bytes of its text, and that of a text is the
/// digest of the text in quotation marks.
pub proof fn values_are_digested_by_their_text(value: JsonView, text: Seq<char>)
    ensures
        json_digest_of(value) == hex_text(sha256_of(encode_utf8(json_text(value)))),
        content_digest_of(text_encoding(text)) == Some(json_digest_of(JsonView::Text(text))),
{
}

} // verus!
