//! A hybrid encryption scheme, and the traits that describe encryption and
//! decryption with a domain-separation tweak.
use vstd::prelude::*;

pub mod hybrid;
pub mod keygen;

verus! {

/// The random values that one encryption consumes: 32 bytes for the
/// ephemeral Curve25519 secret key and a 16-byte salt. They must come from
/// a secure random source.
pub struct EncryptionRandomness {
    /// Random bytes from which the ephemeral secret key is made.
    pub ephemeral: [u8; 32],
    /// The salt bound into the key derivation.
    pub salt: [u8; 16],
}

/// An object that knows how to compute tweaked encryptions of its input,
/// holding whatever public keys or shared secrets that takes.
pub trait Encryptor {
    /// Encrypts `inp` under the tweak `tweak`, drawing on `randomness`. The
    /// output is longer than the input.
    fn encrypt(&self, inp: &[u8], tweak: &[u8], randomness: &EncryptionRandomness) -> Result<
        Vec<u8>,
        &'static str,
    >;
}

/// An object that knows how to decrypt tweaked encryptions, holding
/// whatever private keys or shared secrets that takes.
pub trait Decryptor {
    /// Decrypts `inp` under the tweak `tweak`. A result means that the key
    /// and tweak were right and the input well formed; nothing tells apart
    /// the reasons for a failure.
    fn decrypt(&self, inp: &[u8], tweak: &[u8]) -> Option<Vec<u8>>;
}

} // verus!
