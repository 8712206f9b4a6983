use vstd::prelude::*;

verus! {

/// The SHA-1 digest of a byte sequence. The algorithm is not restated
/// here; the digest is a function of the input bytes alone.
pub uninterp spec fn sha1_of(data: Seq<u8>) -> Seq<u8>;

/// Relies on sha1::Sha1 (the RustCrypto SHA-1 implementation): the digest
/// is twenty bytes long and depends on the input bytes alone.
#[verifier::external_body]
pub(crate) fn sha1_digest(data: &Vec<u8>) -> (r: Vec<u8>)
    ensures
        r@ == sha1_of(data@),
        r@.len() == 20,
{
    let digest = <sha1::Sha1 as sha1::Digest>::digest(data.as_slice());
    digest.to_vec()
}

} // verus!
