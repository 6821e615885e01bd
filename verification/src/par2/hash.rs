//! The fingerprint of a file.
use crate::nntp::yenc::compute_hash16k;
use crate::nntp::yenc::head16k;
use crate::nntp::yenc::md5_digest;
use vstd::prelude::*;

verus! {

/// The fingerprint of a file from its first bytes: the MD5 digest of the
/// first 16 KiB of `bytes`.
pub fn compute_hash16k_from_bytes(bytes: &[u8]) -> (r: Vec<u8>)
    ensures
        r@ == md5_digest(head16k(bytes@)),
        r@.len() == 16,
{
    compute_hash16k(bytes)
}

} // verus!
