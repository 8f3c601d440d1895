//! Comparing and hashing bytes and text.

use core::hash::Hasher;
use std::collections::hash_map::DefaultHasher;
use vstd::prelude::*;
use vstd::std_specs::hash::DefaultHasherAdditionalSpecFns;
use vstd::string::StringSliceAdditionalSpecFns;
use vstd::utf8::{
    decode_utf8, encode_utf8, encode_utf8_decode_utf8, encode_utf8_valid_utf8, valid_utf8,
};

verus! {

/// Two texts with the same UTF-8 encoding are the same text.
pub proof fn lemma_encoding_injective(a: Seq<char>, b: Seq<char>)
    requires
        encode_utf8(a) == encode_utf8(b),
    ensures
        a == b,
{
    encode_utf8_decode_utf8(a);
    encode_utf8_decode_utf8(b);
    assert(decode_utf8(encode_utf8(a)) == decode_utf8(encode_utf8(b)));
}

/// Whether two slices hold the same bytes.
pub fn bytes_equal(left: &[u8], right: &[u8]) -> (same: bool)
    ensures
        same == (left@ == right@),
{
    if left.len() != right.len() {
        return false;
    }
    let mut i: usize = 0;
    while i < left.len()
        invariant
            left@.len() == right@.len(),
            i <= left@.len(),
            forall|j: int| 0 <= j < i ==> left@[j] == right@[j],
        decreases left@.len() - i,
    {
        if left[i] != right[i] {
            return false;
        }
        i += 1;
    }
    assert(left@ =~= right@);
    true
}

/// Whether two string slices hold the same text.
pub fn str_equal(a: &str, b: &str) -> (same: bool)
    ensures
        same == (a@ == b@),
{
    let same = bytes_equal(a.as_bytes(), b.as_bytes());
    proof {
        if same {
            lemma_encoding_injective(a@, b@);
        }
    }
    same
}

/// The text that bytes encode, where they are UTF-8.
pub open spec fn text_of(bytes: Seq<u8>) -> Option<Seq<char>> {
    if valid_utf8(bytes) {
        Some(decode_utf8(bytes))
    } else {
        None
    }
}

/// What an optional string slice holds.
pub open spec fn str_view(text: Option<&str>) -> Option<Seq<char>> {
    match text {
        Some(text) => Some(text@),
        None => None,
    }
}

/// `core::str::from_utf8`, with its error dropped: the string slice over
/// the same bytes where they are UTF-8, else nothing. Assumed: the slice
/// has those bytes, and std refuses only what is not UTF-8.
#[verifier::external_body]
fn str_over<'a>(bytes: &'a [u8]) -> (text: Option<&'a str>)
    ensures
        match text {
            Some(text) => text.spec_bytes() == bytes@,
            None => !valid_utf8(bytes@),
        },
{
    core::str::from_utf8(bytes).ok()
}

/// Reads bytes as text: the string slice over them where they are UTF-8,
/// else nothing.
pub fn text_of_bytes<'a>(bytes: &'a [u8]) -> (text: Option<&'a str>)
    ensures
        str_view(text) == text_of(bytes@),
        text matches Some(text) ==> text.spec_bytes() == bytes@,
{
    let text = str_over(bytes);
    proof {
        match text {
            Some(text) => {
                encode_utf8_valid_utf8(text@);
                encode_utf8_decode_utf8(text@);
            },
            None => {},
        }
    }
    text
}

/// The digest of bytes: what the standard hasher makes of them, written in
/// one piece.
pub open spec fn bytes_digest(bytes: Seq<u8>) -> u64 {
    DefaultHasher::spec_finish(seq![bytes])
}

/// Computes the digest of bytes.
pub fn digest_bytes(bytes: &[u8]) -> (digest: u64)
    ensures
        digest == bytes_digest(bytes@),
{
    let mut hasher = DefaultHasher::new();
    hasher.write(bytes);
    assert(hasher@ =~= seq![bytes@]);
    hasher.finish()
}

/// The digest of a text: the digest of its UTF-8 bytes.
pub open spec fn text_digest(text: Seq<char>) -> u64 {
    bytes_digest(encode_utf8(text))
}

/// Computes the digest of a text.
pub fn digest_str(text: &str) -> (digest: u64)
    ensures
        digest == text_digest(text@),
{
    digest_bytes(text.as_bytes())
}

} // verus!
