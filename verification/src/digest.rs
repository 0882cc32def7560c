//! The content digest behind class fingerprints.
//!
//! The digest itself is computed by the outside md5 crate; its
//! result is only named here, never restated: `md5_of` stands for
//! the 128-bit MD5 of a byte sequence, a function of the bytes
//! alone.

use vstd::prelude::*;

use md5::Digest;

verus! {

pub uninterp spec fn md5_of(data: Seq<u8>) -> Seq<u8>;

/// Relies on md5's `Md5` through the `Digest` interface: the MD5 of
/// the input, 16 bytes long, a function of the input bytes alone.
#[verifier::external_body]
pub(crate) fn md5_digest(data: &[u8]) -> (r: Vec<u8>)
    ensures
        r@ == md5_of(data@),
        r@.len() == 16,
{
    md5::Md5::digest(data).as_slice().to_vec()
}

} // verus!
