//! Request signatures: HMAC-SHA256 written as lowercase hexadecimal.

use hmac::{Hmac, Mac};
use sha2::Sha256;
use vstd::prelude::*;
use vstd::string::StringSliceAdditionalSpecFns;
use vstd::utf8::encode_utf8;

verus! {

/// The HMAC-SHA256 tag (RFC 2104 over SHA-256) of `message` under `key`.
pub uninterp spec fn hmac_sha256_tag(key: Seq<u8>, message: Seq<u8>) -> Seq<u8>;

/// Calls `Mac::new_from_slice`, `Mac::update` and `Mac::finalize` of the `hmac`
/// crate on `Hmac<Sha256>`: one HMAC computation over one message.
/// Claims that the result is the HMAC-SHA256 tag of `message` under `key` (named,
/// not spelled out) and that it is 32 bytes long, SHA-256's output size.
/// `new_from_slice` of `Hmac` accepts keys of every length (a longer key is
/// hashed first), so the `expect` never fires.
#[verifier::external_body]
fn hmac_sha256(key: &[u8], message: &[u8]) -> (tag: Vec<u8>)
    ensures
        tag@ == hmac_sha256_tag(key@, message@),
        tag@.len() == 32,
{
    let mut mac = <Hmac<Sha256> as Mac>::new_from_slice(key).expect("HMAC takes a key of any length");
    mac.update(message);
    mac.finalize().into_bytes().to_vec()
}

/// The lowercase hexadecimal digit for a value below sixteen.
pub open spec fn hex_digit(v: int) -> char {
    seq!['0', '1', '2', '3', '4', '5', '6', '7', '8', '9', 'a', 'b', 'c', 'd', 'e', 'f'][v]
}

/// Each byte as two lowercase hexadecimal digits, high half first.
pub open spec fn hex_lower(bytes: Seq<u8>) -> Seq<char>
    decreases bytes.len(),
{
    if bytes.len() == 0 {
        seq![]
    } else {
        hex_lower(bytes.drop_last()) + seq![
            hex_digit((bytes.last() / 16) as int),
            hex_digit((bytes.last() % 16) as int),
        ]
    }
}

/// Calls `hex::encode`, which the `hex` crate documents as writing each byte
/// as two lowercase hexadecimal digits, in order. Claims exactly that.
#[verifier::external_body]
fn hex_encode(bytes: &[u8]) -> (text: String)
    ensures
        text@ == hex_lower(bytes@),
{
    hex::encode(bytes)
}

/// The signature Bybit expects: the hexadecimal HMAC-SHA256 tag of the
/// payload's UTF-8 bytes under the secret's UTF-8 bytes.
pub open spec fn signature_text(secret: Seq<char>, payload: Seq<char>) -> Seq<char> {
    hex_lower(hmac_sha256_tag(encode_utf8(secret), encode_utf8(payload)))
}

/// A tag written out as lowercase hexadecimal.
pub fn tag_to_hex(tag: &Vec<u8>) -> (text: String)
    ensures
        text@ == hex_lower(tag@),
{
    hex_encode(tag.as_slice())
}

/// Signs `payload` with `secret`.
pub fn sign(secret: &str, payload: &str) -> (signature: String)
    ensures
        signature@ == signature_text(secret@, payload@),
        signature@.len() == 64,
{
    let tag = hmac_sha256(secret.as_bytes(), payload.as_bytes());
    proof {
        lemma_hex_lower_len(tag@);
    }
    tag_to_hex(&tag)
}

/// Hexadecimal text is twice as long as the bytes it writes.
pub proof fn lemma_hex_lower_len(bytes: Seq<u8>)
    ensures
        hex_lower(bytes).len() == 2 * bytes.len(),
    decreases bytes.len(),
{
    if bytes.len() > 0 {
        lemma_hex_lower_len(bytes.drop_last());
    }
}

} // verus!
