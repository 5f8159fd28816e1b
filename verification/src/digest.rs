//! The privacy hash under which a hardware address leaves the station.

use sha2::Digest;
use vstd::prelude::*;

use crate::mac::MacAddress;

verus! {

/// The SHA-256 digest of a byte string.
pub uninterp spec fn spec_sha256(data: Seq<u8>) -> Seq<u8>;

/// Calls `sha2::Sha256::digest` on `data`. The contract names the digest:
/// it depends on the bytes alone. Its length is fixed by the result's type.
#[verifier::external_body]
fn sha256(data: &[u8]) -> (digest: [u8; 32])
    ensures
        digest@ == spec_sha256(data@),
{
    sha2::Sha256::digest(data).into()
}

/// The unkeyed 256-bit digest of the six raw address bytes. Every station
/// maps one address to one hash, so the server can join their reports.
pub fn privacy_hash(mac: &MacAddress) -> (hash: [u8; 32])
    ensures
        hash@ == spec_sha256(mac@),
{
    sha256(mac.0.as_slice())
}

} // verus!
