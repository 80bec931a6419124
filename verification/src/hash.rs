//! The fixed hash algorithm that seeds a simulation, taken from the
//! `rust-crypto` crate as a black box.

use vstd::prelude::*;

verus! {

/// The SHA3-256 digest of a string, as the 32 bytes it hashes to.
/// The digest is a pure function of the input text: the same text gives the
/// same digest in every run and on every machine.
pub uninterp spec fn sha3_256_of(text: Seq<char>) -> Seq<u8>;

/// Relies on `crypto::sha3::Sha3::sha3_256`, `crypto::digest::Digest::input_str`
/// and `crypto::digest::Digest::result`: SHA3-256 maps the input bytes alone to
/// a digest of exactly 32 bytes (256 output bits).
#[verifier::external_body]
pub(crate) fn sha3_256(text: &str) -> (r: Vec<u8>)
    ensures
        r@ == sha3_256_of(text@),
        r@.len() == 32,
{
    let mut hasher = crypto::sha3::Sha3::sha3_256();
    crypto::digest::Digest::input_str(&mut hasher, text);
    let mut out = vec![0u8; 32];
    crypto::digest::Digest::result(&mut hasher, &mut out);
    out
}

} // verus!
