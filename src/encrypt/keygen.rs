//! Generation of the keys that the hybrid scheme uses.
use vstd::prelude::*;

verus! {

/// The Curve25519 secret key made from 32 random bytes: the three low bits
/// and the top bit cleared, the second-highest bit set.
pub open spec fn clamp(b: Seq<u8>) -> Seq<u8> {
    b.update(0, b[0] & 248).update(31, (b[31] & 127) | 64)
}

/// A Curve25519 secret key made from 32 bytes of a secure random source.
pub fn curve25519_seckey_gen(random: &[u8; 32]) -> (r: [u8; 32])
    ensures
        r@ == clamp(random@),
{
    let mut result = *random;
    result[0] = result[0] & 248;
    result[31] = result[31] & 127;
    result[31] = result[31] | 64;
    result
}

} // verus!
