//! What this library takes from outside: random bytes, the SHA-1 digest and
//! the base64 text of a byte string, and the appending of a character to a
//! string. What is claimed of each is written on the item; the proofs of
//! this library take those claims on trust.

use rand::RngCore;
use vstd::prelude::*;

verus! {

/// The SHA-1 digest of a message (FIPS 180-4), twenty bytes.
pub uninterp spec fn sha1_digest(message: Seq<u8>) -> Seq<u8>;

/// The base64 text of a byte string (RFC 4648, section 4): the standard
/// alphabet, padded with `=`.
pub uninterp spec fn base64_text(bytes: Seq<u8>) -> Seq<char>;

/// The longest message, in bytes, that has a SHA-1 digest: its length in
/// bits must fit the sixty-four-bit length field of the final block.
pub const SHA1_MAX_MESSAGE: u64 = 0x1fff_ffff_ffff_ffff;

/// The longest byte string that is handed to the base64 encoder. Its text
/// is a third longer than the bytes, and the encoder stops the program when
/// the length of the text does not fit a `usize`.
pub const BASE64_MAX_INPUT: usize = 0x3fff_ffff;

/// `N` bytes from `rand::thread_rng()`, by `RngCore::fill_bytes`. Nothing is
/// claimed of the bytes: two calls may give different arrays. The generator
/// stops the program if the operating system gives it no seed.
#[verifier::external_body]
pub(crate) fn random_bytes<const N: usize>() -> (bytes: [u8; N]) {
    let mut bytes = [0u8; N];
    rand::thread_rng().fill_bytes(&mut bytes);
    bytes
}

/// `sha1_smol::Sha1::from`, `Sha1::digest` and `Digest::bytes`: the digest
/// of the message as an array of twenty bytes. The same message always has
/// the same digest. The hasher counts the message's bits in a `u64`, so the
/// message must be short enough for that.
#[verifier::external_body]
pub(crate) fn sha1(message: &[u8]) -> (digest: [u8; 20])
    requires
        message@.len() <= SHA1_MAX_MESSAGE,
    ensures
        digest@ == sha1_digest(message@),
{
    sha1_smol::Sha1::from(message).digest().bytes()
}

/// `base64::encode`: the bytes as text in the standard alphabet, padded.
/// The same bytes always give the same text.
#[verifier::external_body]
pub(crate) fn base64(bytes: &[u8]) -> (text: String)
    requires
        bytes@.len() <= BASE64_MAX_INPUT,
    ensures
        text@ == base64_text(bytes@),
{
    base64::encode(bytes)
}

/// `String::push`, which appends one character to the end of a string.
#[verifier::external_body]
pub(crate) fn push_char(text: &mut String, c: char)
    ensures
        final(text)@ == old(text)@.push(c),
{
    text.push(c);
}

} // verus!
