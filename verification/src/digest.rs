//! SHA-1, computed by the `sha1` crate. Verus does not look inside the
//! hash: the digest of given bytes has the name [`sha1_of`], and the one
//! function below is believed to compute it.

use sha1::{Digest, Sha1};
use vstd::prelude::*;

verus! {

/// The SHA-1 digest of `data`, twenty bytes.
pub uninterp spec fn sha1_of(data: Seq<u8>) -> Seq<u8>;

/// `Sha1::new`, `update` with `data`, `finalize`: the digest of `data`,
/// which depends on the bytes of `data` and on nothing else.
#[verifier::external_body]
pub(crate) fn sha1_digest(data: &[u8]) -> (digest: [u8; 20])
    ensures
        digest@ == sha1_of(data@),
{
    let mut hasher = Sha1::new();
    hasher.update(data);
    hasher.finalize().into()
}

} // verus!
