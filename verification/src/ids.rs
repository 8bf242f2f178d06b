//! Fresh identifiers: the SHA-256 digest of a random UUID, in lowercase hex.

use sha2::Digest;
use vstd::prelude::*;

use crate::text::{digit_chars, hex_lower, lemma_hex_lower_len, to_hex_lower};

verus! {

/// The SHA-256 digest of `data`, as computed by the `sha2` crate.
pub uninterp spec fn sha256_digest(data: Seq<u8>) -> Seq<u8>;

/// Hashes `data` with `sha2::Sha256::digest`. Claims: the digest is the
/// crate's SHA-256 of `data`, and it is 32 bytes long.
#[verifier::external_body]
fn sha256(data: &[u8]) -> (digest: Vec<u8>)
    ensures
        digest@ == sha256_digest(data@),
        digest@.len() == 32,
{
    sha2::Sha256::digest(data).to_vec()
}

/// The hyphenated lowercase text of a version-4 UUID: 36 characters, hyphens
/// at positions 8, 13, 18 and 23, hex digits elsewhere, version digit `4` at
/// position 14 and a variant digit from `8`, `9`, `a`, `b` at position 19.
pub open spec fn is_uuid_v4_text(s: Seq<char>) -> bool {
    &&& s.len() == 36
    &&& forall|i: int|
        #![trigger s[i]]
        0 <= i < 36 ==> if i == 8 || i == 13 || i == 18 || i == 23 {
            s[i] == '-'
        } else {
            digit_chars().contains(s[i])
        }
    &&& s[14] == '4'
    &&& (s[19] == '8' || s[19] == '9' || s[19] == 'a' || s[19] == 'b')
}

/// A random version-4 UUID from `uuid::Uuid::new_v4`, written with its
/// `Display` form (`to_string`). Claims only the text form, which holds of
/// every outcome; the value itself is random.
#[verifier::external_body]
fn random_uuid_text() -> (s: String)
    ensures
        is_uuid_v4_text(s@),
{
    uuid::Uuid::new_v4().to_string()
}

/// An identifier made from `seed`: the lowercase hex of its SHA-256 digest.
pub fn id_from_seed(seed: &str) -> (id: String)
    ensures
        id@ == hex_lower(sha256_digest(vstd::utf8::encode_utf8(seed@))),
        id@.len() == 64,
{
    let digest = sha256(seed.as_bytes());
    proof {
        lemma_hex_lower_len(digest@);
    }
    to_hex_lower(digest.as_slice())
}

/// `id` has the form of a generated identifier.
pub open spec fn is_generated_id(id: Seq<char>) -> bool {
    &&& id.len() == 64
    &&& exists|seed: Seq<u8>| id == hex_lower(sha256_digest(seed))
}

/// `id` is the lowercase hex of the SHA-256 digest of the text of a
/// version-4 UUID.
pub open spec fn is_uuid_id(id: Seq<char>) -> bool {
    exists|uuid: Seq<char>| #[trigger] is_uuid_v4_text(uuid) && id == hex_lower(sha256_digest(vstd::utf8::encode_utf8(uuid)))
}

/// A fresh identifier: the lowercase hex of the SHA-256 digest of the text of
/// a random version-4 UUID.
pub fn generate_id() -> (id: String)
    ensures
        is_generated_id(id@),
        is_uuid_id(id@),
        exists|uuid: Seq<char>| #[trigger] is_uuid_v4_text(uuid) && id@ == hex_lower(sha256_digest(vstd::utf8::encode_utf8(uuid))),
{
    let seed = random_uuid_text();
    let id = id_from_seed(seed.as_str());
    assert(id@ == hex_lower(sha256_digest(vstd::utf8::encode_utf8(seed@))));
    assert(is_uuid_v4_text(seed@));
    id
}

} // verus!
