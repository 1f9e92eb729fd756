//! The hybrid encryption scheme: an ephemeral Curve25519 key agreement,
//! SHAKE-256 key derivation, AES-256 in counter mode, and a SHA3-256 MAC.
//!
//! A ciphertext is the ephemeral public key (32 bytes), the salt (16
//! bytes), the encrypted message, and a 32-byte MAC over all that precedes
//! it.
use super::keygen::{clamp, curve25519_seckey_gen};
use super::{Decryptor, EncryptionRandomness, Encryptor};
use crate::primitives::{
    aes256_ctr,
    aes256_ctr_keystream,
    be_encode,
    curve25519,
    curve25519_of,
    fixed_time_eq,
    sha3_256,
    sha3_256_of,
    shake256,
    shake256_of,
    write_be_u64,
    xor_bytes,
};
use vstd::prelude::*;

verus! {

/// Length of the salt.
pub const SALT_LEN: usize = 16;

/// Length of the AES key.
pub const S_KEY_LEN: usize = 32;

/// Length of the AES initial counter block.
pub const S_IV_LEN: usize = 16;

/// Length of the MAC key.
pub const MAC_KEY_LEN: usize = 32;

/// Length of the MAC.
pub const MAC_OUT_LEN: usize = 32;

/// Length of the Curve25519 public key used by this encryption.
pub const PK_PUBLIC_LEN: usize = 32;

/// Length of the Curve25519 secret key used by this encryption.
pub const PK_SECRET_LEN: usize = 32;

/// Length of the Ed25519 public key used by this encryption.
pub const SIGNING_PUBLIC_LEN: usize = 32;

/// Number of bytes that encryption adds to a message.
pub const ENCRYPTED_OVERHEAD: usize = 80;

/// Length of the derived key material: AES key, counter block, MAC key.
const KEY_MATERIAL_LEN: usize = 80;

/// The u-coordinate of the Curve25519 base point.
pub open spec fn basepoint() -> Seq<u8> {
    Seq::new(32, |i: int| if i == 0 { 9u8 } else { 0u8 })
}

/// The key material derived from a shared secret, the recipient's signing
/// key, a salt and a tweak: AES key, counter block and MAC key, in order.
pub open spec fn derived_keys(shared: Seq<u8>, signing: Seq<u8>, salt: Seq<u8>, tweak: Seq<u8>) -> Seq<u8> {
    shake256_of(shared + signing + salt + tweak, 80)
}

/// The MAC of `msg` under `key`: SHA3-256 of the key's length (eight bytes,
/// big-endian), the key, and the message.
pub open spec fn mac_of(key: Seq<u8>, msg: Seq<u8>) -> Seq<u8> {
    sha3_256_of(be_encode(key.len(), 8) + key + msg)
}

/// `msg` encrypted or decrypted in counter mode with the key material `keys`.
pub open spec fn ctr_with(keys: Seq<u8>, msg: Seq<u8>) -> Seq<u8> {
    xor_bytes(msg, aes256_ctr_keystream(keys.subrange(0, 32), keys.subrange(32, 48), msg.len()))
}

/// The encryption of `msg` under `tweak` to the holder of the secret key for
/// `recipient`, whose signing key is `signing`, with the ephemeral secret key
/// `secret` and the salt `salt`.
pub open spec fn sealed(
    recipient: Seq<u8>,
    signing: Seq<u8>,
    secret: Seq<u8>,
    salt: Seq<u8>,
    tweak: Seq<u8>,
    msg: Seq<u8>,
) -> Seq<u8> {
    let keys = derived_keys(curve25519_of(secret, recipient), signing, salt, tweak);
    let head = curve25519_of(secret, basepoint()) + salt + ctr_with(keys, msg);
    head + mac_of(keys.subrange(48, 80), head)
}

/// The decryption of `inp` under `tweak` by the holder of `secret_key`,
/// whose signing key is `signing`: nothing when `inp` is too short or its
/// MAC does not check.
pub open spec fn opened(secret_key: Seq<u8>, signing: Seq<u8>, inp: Seq<u8>, tweak: Seq<u8>) -> Option<
    Seq<u8>,
> {
    if inp.len() < 80 {
        None
    } else {
        let keys = derived_keys(
            curve25519_of(secret_key, inp.subrange(0, 32)),
            signing,
            inp.subrange(32, 48),
            tweak,
        );
        if mac_of(keys.subrange(48, 80), inp.subrange(0, inp.len() - 32)) == inp.subrange(
            inp.len() - 32,
            inp.len() as int,
        ) {
            Some(ctr_with(keys, inp.subrange(48, inp.len() - 32)))
        } else {
            None
        }
    }
}

/// Exclusive or with the same key stream twice gives back the message.
proof fn lemma_xor_twice(m: Seq<u8>, k: Seq<u8>)
    ensures
        xor_bytes(xor_bytes(m, k), k) == m,
{
    assert forall|i: int| 0 <= i < m.len() implies #[trigger] xor_bytes(xor_bytes(m, k), k)[i]
        == m[i] by {
        let a = m[i];
        let b = k[i];
        assert((a ^ b) ^ b == a) by (bit_vector);
    }
    assert(xor_bytes(xor_bytes(m, k), k) =~= m);
}

/// Decrypting an encryption under the same tweak, with the secret key whose
/// shared secret with the ephemeral key is the one the encryption used,
/// gives back the message. X25519 key agreement provides that shared
/// secret when `recipient` is the public key of `secret_key`; the lengths
/// are those of the X25519, SHAKE-256 and SHA3-256 outputs.
pub proof fn lemma_open_sealed(
    recipient: Seq<u8>,
    signing: Seq<u8>,
    secret_key: Seq<u8>,
    ephemeral: Seq<u8>,
    salt: Seq<u8>,
    tweak: Seq<u8>,
    msg: Seq<u8>,
)
    requires
        salt.len() == 16,
        curve25519_of(ephemeral, basepoint()).len() == 32,
        curve25519_of(secret_key, curve25519_of(ephemeral, basepoint())) == curve25519_of(
            ephemeral,
            recipient,
        ),
        derived_keys(curve25519_of(ephemeral, recipient), signing, salt, tweak).len() == 80,
        ({
            let keys = derived_keys(curve25519_of(ephemeral, recipient), signing, salt, tweak);
            let head = curve25519_of(ephemeral, basepoint()) + salt + ctr_with(keys, msg);
            mac_of(keys.subrange(48, 80), head).len() == 32
        }),
    ensures
        opened(secret_key, signing, sealed(recipient, signing, ephemeral, salt, tweak, msg), tweak)
            == Some(msg),
{
    let keys = derived_keys(curve25519_of(ephemeral, recipient), signing, salt, tweak);
    let body = ctr_with(keys, msg);
    let head = curve25519_of(ephemeral, basepoint()) + salt + body;
    let inp = sealed(recipient, signing, ephemeral, salt, tweak, msg);
    let n = inp.len();
    assert(body.len() == msg.len());
    assert(inp.subrange(0, 32) =~= curve25519_of(ephemeral, basepoint()));
    assert(inp.subrange(32, 48) =~= salt);
    assert(inp.subrange(0, n - 32) =~= head);
    assert(inp.subrange(n - 32, n as int) =~= mac_of(keys.subrange(48, 80), head));
    assert(inp.subrange(48, n - 32) =~= body);
    lemma_xor_twice(
        msg,
        aes256_ctr_keystream(keys.subrange(0, 32), keys.subrange(32, 48), msg.len()),
    );
}

/// The Curve25519 base point.
fn basepoint_bytes() -> (r: [u8; 32])
    ensures
        r@ == basepoint(),
{
    let mut b = [0u8; 32];
    b[0] = 9;
    assert(b@ =~= basepoint());
    b
}

/// Fills 80 bytes of key material with SHAKE-256 over the secret input,
/// the salt and the tweak.
fn generate_keys(secret_input: &[u8], string_const: &[u8], salt: &[u8]) -> (r: Vec<u8>)
    ensures
        r@ == shake256_of(secret_input@ + salt@ + string_const@, 80),
        r@.len() == 80,
{
    let mut input: Vec<u8> = Vec::new();
    input.extend_from_slice(secret_input);
    input.extend_from_slice(salt);
    input.extend_from_slice(string_const);
    assert(input@ =~= secret_input@ + salt@ + string_const@);
    shake256(input.as_slice(), KEY_MATERIAL_LEN)
}

/// The SHA3-based MAC that authenticates a ciphertext.
fn mac(key: &[u8], val: &[u8]) -> (r: [u8; 32])
    requires
        key@.len() < 0x1_0000_0000_0000_0000,
    ensures
        r@ == mac_of(key@, val@),
{
    let keylen = write_be_u64(key.len() as u64);
    let mut input: Vec<u8> = Vec::new();
    input.extend_from_slice(&keylen);
    input.extend_from_slice(key);
    input.extend_from_slice(val);
    assert(input@ =~= be_encode(key@.len(), 8) + key@ + val@);
    sha3_256(input.as_slice())
}

/// The secret input of the key derivation: the shared secret followed by
/// the recipient's signing key.
fn secret_input(shared_key: &[u8; 32], signing_key: &[u8; 32]) -> (r: Vec<u8>)
    ensures
        r@ == shared_key@ + signing_key@,
{
    let mut v: Vec<u8> = Vec::new();
    v.extend_from_slice(shared_key);
    v.extend_from_slice(signing_key);
    assert(v@ =~= shared_key@ + signing_key@);
    v
}

/// An encryptor for the hybrid scheme.
pub struct PrivcountEncryptor {
    key: [u8; 32],
    signing_key: [u8; 32],
}

impl PrivcountEncryptor {
    pub closed spec fn spec_key(&self) -> Seq<u8> {
        self.key@
    }

    pub closed spec fn spec_signing_key(&self) -> Seq<u8> {
        self.signing_key@
    }

    /// An encryptor to the holder of the secret for the Curve25519 public key
    /// `key`, whose Ed25519 signing key is `signing_key`.
    pub fn new(key: &[u8; 32], signing_key: &[u8; 32]) -> (r: PrivcountEncryptor)
        ensures
            r.spec_key() == key@,
            r.spec_signing_key() == signing_key@,
    {
        PrivcountEncryptor { key: *key, signing_key: *signing_key }
    }

    /// The public key that this encryptor encrypts to.
    pub fn key(&self) -> (r: &[u8; 32])
        ensures
            r@ == self.spec_key(),
    {
        &self.key
    }
}

impl Encryptor for PrivcountEncryptor {
    fn encrypt(&self, inp: &[u8], tweak: &[u8], randomness: &EncryptionRandomness) -> (r: Result<
        Vec<u8>,
        &'static str,
    >)
        ensures
            match r {
                Ok(c) => {
                    let secret = clamp(randomness.ephemeral@);
                    let keys = derived_keys(
                        curve25519_of(secret, self.spec_key()),
                        self.spec_signing_key(),
                        randomness.salt@,
                        tweak@,
                    );
                    let l = inp@.len() as int;
                    &&& c@ == sealed(
                        self.spec_key(),
                        self.spec_signing_key(),
                        secret,
                        randomness.salt@,
                        tweak@,
                        inp@,
                    )
                    &&& c@.len() == inp@.len() + ENCRYPTED_OVERHEAD
                    &&& c@.subrange(0, 32) == curve25519_of(secret, basepoint())
                    &&& c@.subrange(32, 48) == randomness.salt@
                    &&& c@.subrange(48, 48 + l) == ctr_with(keys, inp@)
                    &&& c@.subrange(48 + l, 80 + l) == mac_of(
                        keys.subrange(48, 80),
                        c@.subrange(0, 48 + l),
                    )
                },
                Err(_) => false,
            },
    {
        let seckey_tmp = curve25519_seckey_gen(&randomness.ephemeral);
        let pubkey_tmp = curve25519(&seckey_tmp, &basepoint_bytes());
        let shared_key = curve25519(&seckey_tmp, &self.key);
        let secret = secret_input(&shared_key, &self.signing_key);
        let keys = generate_keys(secret.as_slice(), tweak, &randomness.salt);
        let ghost shared = shared_key@;
        assert(keys@ == derived_keys(shared, self.signing_key@, randomness.salt@, tweak@)) by {
            assert(secret@ + randomness.salt@ + tweak@ =~= shared + self.signing_key@
                + randomness.salt@ + tweak@);
        }
        let (enc_key, rest) = keys.as_slice().split_at(S_KEY_LEN);
        let (enc_iv, mac_key) = rest.split_at(S_IV_LEN);
        assert(enc_key@ =~= keys@.subrange(0, 32));
        assert(enc_iv@ =~= keys@.subrange(32, 48));
        assert(mac_key@ =~= keys@.subrange(48, 80));

        let mut result: Vec<u8> = Vec::new();
        result.extend_from_slice(&pubkey_tmp);
        result.extend_from_slice(&randomness.salt);
        let body = aes256_ctr(enc_key, enc_iv, inp);
        result.extend_from_slice(body.as_slice());
        let ghost head = result@;
        assert(head =~= pubkey_tmp@ + randomness.salt@ + ctr_with(keys@, inp@));
        let tag = mac(mac_key, result.as_slice());
        result.extend_from_slice(&tag);
        assert(result@ =~= head + mac_of(keys@.subrange(48, 80), head));
        proof {
            let l = inp@.len() as int;
            assert(head.len() == 48 + l);
            assert(result@.subrange(0, 32) =~= pubkey_tmp@);
            assert(result@.subrange(32, 48) =~= randomness.salt@);
            assert(result@.subrange(48, 48 + l) =~= ctr_with(keys@, inp@));
            assert(result@.subrange(0, 48 + l) =~= head);
            assert(result@.subrange(48 + l, 80 + l) =~= tag@);
        }
        Ok(result)
    }
}

/// A decryptor for the hybrid scheme.
pub struct PrivcountDecryptor {
    secret_key: [u8; 32],
    signing_key: [u8; 32],
}

impl PrivcountDecryptor {
    pub closed spec fn spec_secret_key(&self) -> Seq<u8> {
        self.secret_key@
    }

    pub closed spec fn spec_signing_key(&self) -> Seq<u8> {
        self.signing_key@
    }

    /// A decryptor with the Curve25519 secret key `secret_key`, for messages
    /// sent to the holder of the Ed25519 key `signing_key`.
    pub fn new(secret_key: &[u8; 32], signing_key: &[u8; 32]) -> (r: PrivcountDecryptor)
        ensures
            r.spec_secret_key() == secret_key@,
            r.spec_signing_key() == signing_key@,
    {
        PrivcountDecryptor { secret_key: *secret_key, signing_key: *signing_key }
    }
}

impl Decryptor for PrivcountDecryptor {
    fn decrypt(&self, inp: &[u8], tweak: &[u8]) -> (r: Option<Vec<u8>>)
        ensures
            match r {
                Some(m) => opened(self.spec_secret_key(), self.spec_signing_key(), inp@, tweak@)
                    == Some(m@),
                None => opened(self.spec_secret_key(), self.spec_signing_key(), inp@, tweak@)
                    is None,
            },
    {
        if inp.len() < ENCRYPTED_OVERHEAD {
            return None;
        }
        let enc_len = inp.len() - ENCRYPTED_OVERHEAD;
        let (pubkey, rest) = inp.split_at(PK_PUBLIC_LEN);
        let (salt, rest) = rest.split_at(SALT_LEN);
        let (enc, mac_received) = rest.split_at(enc_len);
        assert(pubkey@ =~= inp@.subrange(0, 32));
        assert(salt@ =~= inp@.subrange(32, 48));
        assert(enc@ =~= inp@.subrange(48, inp@.len() - 32));
        assert(mac_received@ =~= inp@.subrange(inp@.len() - 32, inp@.len() as int));

        let shared_key = curve25519(&self.secret_key, pubkey);
        let secret = secret_input(&shared_key, &self.signing_key);
        let keys = generate_keys(secret.as_slice(), tweak, salt);
        let ghost shared = shared_key@;
        assert(keys@ == derived_keys(shared, self.signing_key@, salt@, tweak@)) by {
            assert(secret@ + salt@ + tweak@ =~= shared + self.signing_key@ + salt@ + tweak@);
        }
        let (enc_key, rest) = keys.as_slice().split_at(S_KEY_LEN);
        let (enc_iv, mac_key) = rest.split_at(S_IV_LEN);
        assert(enc_key@ =~= keys@.subrange(0, 32));
        assert(enc_iv@ =~= keys@.subrange(32, 48));
        assert(mac_key@ =~= keys@.subrange(48, 80));

        let covered = &inp[0..inp.len() - MAC_OUT_LEN];
        let mac_computed = mac(mac_key, covered);
        if !fixed_time_eq(&mac_computed, mac_received) {
            return None;
        }
        let result = aes256_ctr(enc_key, enc_iv, enc);
        Some(result)
    }
}

} // verus!
