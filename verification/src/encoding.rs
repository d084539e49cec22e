//! Digests and text encodings that the registry protocol prescribes. The
//! algorithms themselves live in the `sha2`, `base64`, `hex`,
//! `percent-encoding` and `uuid` crates; this module states what the rest of
//! the library relies on from each of them.

use base64::Engine;
use sha2::Digest;
use vstd::prelude::*;

verus! {

/// The SHA-256 digest of `data`, as computed by the `sha2` crate.
pub uninterp spec fn sha256_digest(data: Seq<u8>) -> Seq<u8>;

/// The RFC 4648 base64 text of `data` in the standard alphabet with padding,
/// as produced by the `base64` crate's `STANDARD` engine.
pub uninterp spec fn base64_standard_text(data: Seq<u8>) -> Seq<char>;

/// The two lower-case hexadecimal digits of each byte, in order.
pub open spec fn hex_lower_text(data: Seq<u8>) -> Seq<char> {
    Seq::new(
        2 * data.len(),
        |i: int|
            if i % 2 == 0 {
                "0123456789abcdef"@[data[i / 2] as int / 16]
            } else {
                "0123456789abcdef"@[data[i / 2] as int % 16]
            },
    )
}

/// ASCII letters and digits: the only bytes that percent-encoding leaves as
/// they are.
pub open spec fn is_ascii_alphanumeric(b: u8) -> bool {
    (0x30 <= b <= 0x39) || (0x41 <= b <= 0x5a) || (0x61 <= b <= 0x7a)
}

/// One byte, percent-encoded: itself when alphanumeric, else `%` and its two
/// upper-case hexadecimal digits.
pub open spec fn percent_encoded_byte(b: u8) -> Seq<char> {
    if is_ascii_alphanumeric(b) {
        seq![b as char]
    } else {
        seq!['%', "0123456789ABCDEF"@[b as int / 16], "0123456789ABCDEF"@[b as int % 16]]
    }
}

/// A byte string, percent-encoded byte by byte.
pub open spec fn percent_encoded(bytes: Seq<u8>) -> Seq<char>
    decreases bytes.len(),
{
    if bytes.len() == 0 {
        Seq::empty()
    } else {
        percent_encoded(bytes.drop_last()) + percent_encoded_byte(bytes.last())
    }
}

/// The shape of a hyphenated lower-case UUID: 36 characters, hyphens at
/// positions 8, 13, 18 and 23, hexadecimal digits elsewhere.
pub open spec fn is_hyphenated_uuid(text: Seq<char>) -> bool {
    &&& text.len() == 36
    &&& forall|i: int|
        0 <= i < 36 ==> if i == 8 || i == 13 || i == 18 || i == 23 {
            text[i] == '-'
        } else {
            "0123456789abcdef"@.contains(#[trigger] text[i])
        }
}

/// Calls `sha2::Sha256::digest`. Trusted: the result is the digest named by
/// [`sha256_digest`], and SHA-256 digests are 32 bytes long.
#[verifier::external_body]
pub(crate) fn sha256(data: &[u8]) -> (digest: Vec<u8>)
    ensures
        digest@ == sha256_digest(data@),
        digest@.len() == 32,
{
    sha2::Sha256::digest(data).to_vec()
}

/// Calls `encode` on `base64::prelude::BASE64_STANDARD`. Trusted: the result
/// is the text named by [`base64_standard_text`]. The length bound keeps the
/// encoder's own size computation from overflowing.
#[verifier::external_body]
pub(crate) fn base64_standard(data: &[u8]) -> (text: String)
    requires
        data@.len() <= 0x7fff_ffff,
    ensures
        text@ == base64_standard_text(data@),
{
    base64::prelude::BASE64_STANDARD.encode(data)
}

/// Calls `hex::encode`. Trusted: every byte becomes its two lower-case
/// hexadecimal digits, high nibble first.
#[verifier::external_body]
pub(crate) fn hex_lower(data: &[u8]) -> (text: String)
    ensures
        text@ == hex_lower_text(data@),
{
    hex::encode(data)
}

/// Calls `percent_encoding::percent_encode` with the `NON_ALPHANUMERIC` set.
/// Trusted: ASCII letters and digits are kept, every other byte becomes `%`
/// followed by two upper-case hexadecimal digits.
#[verifier::external_body]
pub(crate) fn percent_encode(bytes: &[u8]) -> (text: String)
    ensures
        text@ == percent_encoded(bytes@),
{
    percent_encoding::percent_encode(bytes, percent_encoding::NON_ALPHANUMERIC).to_string()
}

/// Calls `uuid::Uuid::new_v4` and formats the result. The value is random;
/// trusted is only its shape, that of a hyphenated lower-case UUID.
#[verifier::external_body]
pub(crate) fn random_uuid_text() -> (text: String)
    ensures
        is_hyphenated_uuid(text@),
{
    uuid::Uuid::new_v4().to_string()
}

} // verus!
