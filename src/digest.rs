use vstd::prelude::*;

use crypto::digest::Digest;
use crypto::sha2::Sha256;

verus! {

/// The lowercase hexadecimal text of the SHA-256 digest of `bytes`.
pub uninterp spec fn sha256_hex(bytes: Seq<u8>) -> Seq<char>;

/// Relies on `crypto::sha2::Sha256` fed through `Digest::input` and read with
/// `Digest::result_str`: the hex text of the 32-byte digest, two digits a byte.
#[verifier::external_body]
pub(crate) fn sha256_hex_of(bytes: &[u8]) -> (r: String)
    ensures
        r@ == sha256_hex(bytes@),
        r@.len() == 64,
{
    let mut hasher = Sha256::new();
    hasher.input(bytes);
    hasher.result_str()
}

} // verus!
