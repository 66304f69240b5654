//! Content hashing: SHA-256 over the canonical text of a value, written as
//! sixty-four lowercase hexadecimal characters.

use crate::chain::Chain;
use crate::hex::{hex_text, is_lower_hex, lemma_hex_text_is_lower_hex, push_hex};
use crate::text::{json_quote, json_string};
use sha2::{Digest, Sha256};
use vstd::prelude::*;
use vstd::utf8::encode_utf8;

verus! {

/// The number of characters in a digest's hexadecimal text.
pub const DIGEST_HEX_LEN: u32 = 64;

/// The SHA-256 digest of a byte string.
pub uninterp spec fn sha256(data: Seq<u8>) -> [u8; 32];

/// Calls `sha2::Sha256::digest` (the `Digest` trait's one-shot function) and
/// copies its thirty-two output bytes into an array. The contract claims only
/// that the digest is a function of the input bytes.
#[verifier::external_body]
pub(crate) fn sha256_digest(data: &[u8]) -> (out: [u8; 32])
    ensures
        out == sha256(data@),
{
    Sha256::digest(data).into()
}

/// The hexadecimal digest of a text: SHA-256 over its UTF-8 bytes.
pub open spec fn digest_text(text: Seq<char>) -> Seq<char> {
    hex_text(sha256(encode_utf8(text))@)
}

/// A value with a canonical text, the form in which it is hashed.
pub trait Canonical {
    /// The canonical text of the value.
    spec fn canonical(&self) -> Seq<char>;

    /// Writes the canonical text of the value.
    fn to_canonical(&self) -> (text: String)
        ensures
            text@ == self.canonical(),
    ;
}

/// A string is hashed as a string value: in the form of a JSON string literal.
impl Canonical for String {
    open spec fn canonical(&self) -> Seq<char> {
        json_string(self@)
    }

    fn to_canonical(&self) -> (text: String) {
        json_quote(self.as_str())
    }
}

/// Every digest has the same length.
pub proof fn lemma_digest_len(text: Seq<char>)
    ensures
        digest_text(text).len() == DIGEST_HEX_LEN,
{
    broadcast use vstd::array::group_array_axioms;
}

/// Every digest is written in lowercase hexadecimal digits.
pub proof fn lemma_digest_is_lower_hex(text: Seq<char>)
    ensures
        forall|k: int|
            0 <= k < DIGEST_HEX_LEN ==> is_lower_hex(#[trigger] digest_text(text)[k]),
{
    broadcast use vstd::array::group_array_axioms;

    lemma_hex_text_is_lower_hex(sha256(encode_utf8(text))@);
}

/// Hashing looks at the canonical text alone: two values with the same text
/// have the same hash, and so has one value hashed twice.
pub proof fn lemma_hash_deterministic<A: Canonical, B: Canonical>(a: A, b: B)
    requires
        a.canonical() == b.canonical(),
    ensures
        digest_text(a.canonical()) == digest_text(b.canonical()),
{
}

impl Chain {
    /// The lowercase hexadecimal text of `bytes`, two characters a byte.
    pub fn hex_to_string(bytes: &[u8]) -> (text: String)
        ensures
            text@ == hex_text(bytes@),
    {
        let mut text = String::new();
        push_hex(&mut text, bytes);
        text
    }

    /// The content hash of `item`: the hexadecimal SHA-256 digest of its
    /// canonical text. Equal canonical texts give equal hashes.
    pub fn hash<T: Canonical>(item: &T) -> (digest: String)
        ensures
            digest@ == digest_text(item.canonical()),
            digest@.len() == DIGEST_HEX_LEN,
    {
        let text = item.to_canonical();
        let raw = sha256_digest(text.as_str().as_bytes());
        proof {
            lemma_digest_len(item.canonical());
        }
        Chain::hex_to_string(raw.as_slice())
    }
}

} // verus!
