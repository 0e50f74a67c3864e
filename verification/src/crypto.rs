//! The cryptographic primitives that authentication rests on.

use hmac::{Hmac, Mac};
use sha2::Sha256;
use subtle::ConstantTimeEq;
use vstd::prelude::*;

verus! {

/// The length of an HMAC-SHA256 tag.
pub const TAG_LEN: usize = 32;

/// The HMAC-SHA256 tag of `message` under `key`.
pub uninterp spec fn hmac_sha256(key: Seq<u8>, message: Seq<u8>) -> Seq<u8>;

/// Trusted: `hmac::Hmac<sha2::Sha256>`, keyed with `key` (of any length) and fed
/// `message`, finalizes to a tag that depends on the two alone. The tag is given
/// a name; how it is computed is not described.
#[verifier::external_body]
pub(crate) fn hmac_tag(key: &[u8], message: &[u8]) -> (tag: [u8; TAG_LEN])
    ensures
        tag@ == hmac_sha256(key@, message@),
{
    let mut mac = Hmac::<Sha256>::new_from_slice(key).expect("HMAC accepts any key length");
    mac.update(message);
    mac.finalize().into_bytes().into()
}

/// Trusted: `subtle::ConstantTimeEq::ct_eq` on byte slices says whether the two
/// hold the same bytes; slices of different lengths are unequal. That its running
/// time does not depend on the bytes is not described.
#[verifier::external_body]
pub(crate) fn same_bytes(a: &[u8], b: &[u8]) -> (same: bool)
    ensures
        same == (a@ == b@),
{
    a.ct_eq(b).into()
}

} // verus!
