use vstd::prelude::*;

verus! {

/// The SHA-256 digest of a byte string.
pub uninterp spec fn sha256_of(data: Seq<u8>) -> Seq<u8>;

/// SHA-256 as a function value, for use where a hash is a parameter.
pub open spec fn sha256_fn() -> spec_fn(Seq<u8>) -> Seq<u8> {
    |data: Seq<u8>| sha256_of(data)
}

/// Relies on `bitcoin::hashes::sha256::Hash::hash`: the SHA-256 digest of the
/// input, which depends on the bytes alone and is always 32 bytes long.
#[verifier::external_body]
pub(crate) fn sha256(data: &Vec<u8>) -> (r: Vec<u8>)
    ensures
        r@ == sha256_of(data@),
        r@.len() == 32,
{
    let digest = <bitcoin::hashes::sha256::Hash as bitcoin::hashes::Hash>::hash(data.as_slice());
    <bitcoin::hashes::sha256::Hash as bitcoin::hashes::Hash>::to_byte_array(digest).to_vec()
}

} // verus!
