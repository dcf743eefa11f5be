//! Content digests and the identifiers made of them.

use vstd::prelude::*;
use vstd::string::StringExecFns;
use vstd::utf8::encode_utf8;

use crate::text::{chars_of, string_of};
use sha2::Digest;

verus! {

/// The SHA-256 digest of a byte string.
pub uninterp spec fn sha256_of(bytes: Seq<u8>) -> Seq<u8>;

/// The lower-case form of a text by the rules of Unicode.
pub uninterp spec fn lowercase(s: Seq<char>) -> Seq<char>;

/// The hexadecimal digit for a number below sixteen.
pub open spec fn hex_digit(n: int) -> char {
    if n < 10 {
        ('0' as int + n) as char
    } else {
        ('a' as int + (n - 10)) as char
    }
}

/// The bytes in lower-case hexadecimal, two digits each, the high one first.
pub open spec fn hex_of(bytes: Seq<u8>) -> Seq<char> {
    Seq::new(
        2 * bytes.len(),
        |i: int|
            if i % 2 == 0 {
                hex_digit(bytes[i / 2] as int / 16)
            } else {
                hex_digit(bytes[i / 2] as int % 16)
            },
    )
}

/// The digest of a text: SHA-256 of its UTF-8 bytes, in hexadecimal.
pub open spec fn text_digest(s: Seq<char>) -> Seq<char> {
    hex_of(sha256_of(encode_utf8(s)))
}

/// An identifier: a prefix and the first twenty-four digits of a digest.
pub open spec fn short_id(prefix: Seq<char>, material: Seq<char>) -> Seq<char> {
    prefix + text_digest(material).take(24)
}

/// Whether a character is a digit of lower-case hexadecimal.
pub open spec fn is_hex_digit(c: char) -> bool {
    '0' <= c <= '9' || 'a' <= c <= 'f'
}

/// Whether a text has the form of an identifier with this prefix: the prefix and
/// twenty-four digits of lower-case hexadecimal.
pub open spec fn is_short_id(prefix: Seq<char>, id: Seq<char>) -> bool {
    &&& id.len() == prefix.len() + 24
    &&& id.take(prefix.len() as int) == prefix
    &&& forall|i: int| prefix.len() <= i < id.len() ==> is_hex_digit(#[trigger] id[i])
}

/// Bytes in hexadecimal are digits of lower-case hexadecimal, two for each byte.
pub proof fn law_hex_digits(bytes: Seq<u8>)
    ensures
        hex_of(bytes).len() == 2 * bytes.len(),
        forall|i: int| 0 <= i < hex_of(bytes).len() ==> is_hex_digit(#[trigger] hex_of(bytes)[i]),
{
}

/// `sha2::Sha256::digest`: thirty-two bytes that are a function of the input.
#[verifier::external_body]
fn sha256(bytes: &[u8]) -> (r: Vec<u8>)
    ensures
        r@ == sha256_of(bytes@),
        r@.len() == 32,
{
    sha2::Sha256::digest(bytes).to_vec()
}

/// `hex::encode`: two lower-case hexadecimal digits for each byte.
#[verifier::external_body]
fn hex_encode(bytes: &[u8]) -> (r: String)
    ensures
        r@ == hex_of(bytes@),
{
    hex::encode(bytes)
}

/// `str::to_lowercase`: a function of the text.
#[verifier::external_body]
pub(crate) fn to_lower(s: &str) -> (r: String)
    ensures
        r@ == lowercase(s@),
{
    s.to_lowercase()
}

/// The SHA-256 digest of a text, in hexadecimal.
pub fn content_sha256(content: &str) -> (r: String)
    ensures
        r@ == text_digest(content@),
        r@.len() == 64,
{
    let digest = sha256(content.as_bytes());
    hex_encode(digest.as_slice())
}

/// The identifier with this prefix for this material.
pub fn make_id(prefix: &str, material: &str) -> (r: String)
    ensures
        r@ == short_id(prefix@, material@),
        is_short_id(prefix@, r@),
{
    let digest = content_sha256(material);
    let mut chars = chars_of(digest.as_str());
    chars.truncate(24);
    let tail = string_of(chars.as_slice());
    assert(tail@ =~= text_digest(material@).take(24));
    let mut out = prefix.to_owned();
    out.append(tail.as_str());
    proof {
        law_hex_digits(sha256_of(encode_utf8(material@)));
        assert(out@.take(prefix@.len() as int) =~= prefix@);
    }
    out
}

/// The value of a hexadecimal digit.
pub open spec fn hex_value(c: char) -> int {
    if 48 <= c as int <= 57 {
        c as int - 48
    } else {
        c as int - 87
    }
}

/// Bytes can be read back from their digits: the two of a byte stand at twice its
/// place, the higher first.
pub proof fn law_hex_digits_spell_the_bytes(bytes: Seq<u8>, i: int)
    requires
        0 <= i < bytes.len(),
    ensures
        hex_of(bytes).len() == 2 * bytes.len(),
        bytes[i] == 16 * hex_value(hex_of(bytes)[2 * i]) + hex_value(hex_of(bytes)[2 * i + 1]),
        hex_value(hex_of(bytes)[2 * i + 1]) < 16,
{
    assert((2 * i) / 2 == i && (2 * i) % 2 == 0);
    assert((2 * i + 1) / 2 == i && (2 * i + 1) % 2 == 1);
}

/// An identifier is its prefix and the first twenty-four digits of the digest.
pub proof fn law_identifiers_begin_the_digest(prefix: Seq<char>, material: Seq<char>, i: int)
    requires
        text_digest(material).len() == 64,
        0 <= i < 24,
    ensures
        short_id(prefix, material).len() == prefix.len() + 24,
        short_id(prefix, material)[prefix.len() + i] == hex_of(
            sha256_of(encode_utf8(material)),
        )[i],
        short_id(prefix, material).take(prefix.len() as int) == prefix,
{
    assert(short_id(prefix, material).take(prefix.len() as int) =~= prefix);
}

/// A text has the form of an identifier where what is behind the prefix is
/// twenty-four digits.
pub proof fn law_identifiers_have_their_form(prefix: Seq<char>, tail: Seq<char>)
    ensures
        is_short_id(prefix, prefix + tail) <==> tail.len() == 24 && (forall|i: int|
            0 <= i < tail.len() ==> is_hex_digit(#[trigger] tail[i])),
{
    let id = prefix + tail;
    assert(id.take(prefix.len() as int) =~= prefix);
    assert forall|i: int| 0 <= i < tail.len() implies id[prefix.len() + i] == #[trigger] tail[i] by {
    }
    if is_short_id(prefix, id) {
        assert forall|i: int| 0 <= i < tail.len() implies is_hex_digit(#[trigger] tail[i]) by {
            assert(is_hex_digit(id[prefix.len() + i]));
        }
    }
    if tail.len() == 24 && (forall|i: int|
        0 <= i < tail.len() ==> is_hex_digit(#[trigger] tail[i])) {
        assert forall|i: int| prefix.len() <= i < id.len() implies is_hex_digit(
            #[trigger] id[i],
        ) by {
            assert(id[i] == tail[i - prefix.len()]);
        }
    }
}

} // verus!
