//! The cryptographic and byte-order primitives that the protocol is built
//! from, provided by outside crates. Each function here makes one call;
//! its contract states what the outside function computes, over a name
//! where the result takes more than a few lines to state.
use byteorder::{ByteOrder, NetworkEndian};
use crypto::digest::Digest;
use vstd::prelude::*;

verus! {

/// The integer that the bytes `b` encode, most significant first.
pub open spec fn be_value(b: Seq<u8>) -> nat
    decreases b.len(),
{
    if b.len() == 0 {
        0
    } else {
        be_value(b.drop_last()) * 256 + b.last() as nat
    }
}

/// The last `len` base-256 digits of `v`, most significant first.
pub open spec fn be_encode(v: nat, len: nat) -> Seq<u8>
    decreases len,
{
    if len == 0 {
        Seq::empty()
    } else {
        be_encode(v / 256, (len - 1) as nat).push((v % 256) as u8)
    }
}

/// The bytewise exclusive or of `a` with the first `a.len()` bytes of `b`.
pub open spec fn xor_bytes(a: Seq<u8>, b: Seq<u8>) -> Seq<u8> {
    Seq::new(a.len(), |i: int| a[i] ^ b[i])
}

/// The first `out_len` bytes of the SHAKE-256 output stream on `input`.
pub uninterp spec fn shake256_of(input: Seq<u8>, out_len: nat) -> Seq<u8>;

/// The SHA3-256 digest of `input`.
pub uninterp spec fn sha3_256_of(input: Seq<u8>) -> Seq<u8>;

/// The first `len` bytes of the AES-256 counter-mode key stream for `key`,
/// starting from the counter block `iv`.
pub uninterp spec fn aes256_ctr_keystream(key: Seq<u8>, iv: Seq<u8>, len: nat) -> Seq<u8>;

/// The X25519 function: the scalar (clamped as X25519 prescribes) times
/// the curve point with u-coordinate `point`, as 32 bytes.
pub uninterp spec fn curve25519_of(scalar: Seq<u8>, point: Seq<u8>) -> Seq<u8>;

/// The value of a digit character: `0`-`9`, then `a`-`z` or `A`-`Z` for
/// 10 to 35; 36 for any other character, which no base admits.
pub open spec fn digit_value(c: char) -> nat {
    let u = c as u32;
    if 48 <= u <= 57 {
        (u - 48) as nat
    } else if 97 <= u <= 122 {
        (u - 87) as nat
    } else if 65 <= u <= 90 {
        (u - 55) as nat
    } else {
        36
    }
}

/// The value of the digits `d` in base `radix`, most significant first.
pub open spec fn digits_value(d: Seq<char>, radix: nat) -> nat
    decreases d.len(),
{
    if d.len() == 0 {
        0
    } else {
        digits_value(d.drop_last(), radix) * radix + digit_value(d.last())
    }
}

/// What `u64::from_str_radix` parses from `s`: an optional `+` followed by
/// one or more digits of the base, whose value must fit in 64 bits.
pub open spec fn parsed_u64(s: Seq<char>, radix: u32) -> Option<u64> {
    let d = if s.len() > 0 && s[0] == '+' {
        s.drop_first()
    } else {
        s
    };
    if d.len() > 0 && (forall|i: int| 0 <= i < d.len() ==> #[trigger] digit_value(d[i]) < radix)
        && digits_value(d, radix as nat) < 0x1_0000_0000_0000_0000 {
        Some(digits_value(d, radix as nat) as u64)
    } else {
        None
    }
}

/// Relies on std's `u64::from_str_radix`: an optional `+` followed by
/// digits (`0`-`9`, `a`-`z`, `A`-`Z`) of base `radix`, with no other
/// characters, whose value fits in 64 bits. It panics on a radix outside
/// `2..=36`.
#[verifier::external_body]
pub(crate) fn parse_u64_radix(s: &str, radix: u32) -> (r: Option<u64>)
    requires
        2 <= radix <= 36,
    ensures
        r == parsed_u64(s@, radix),
{
    u64::from_str_radix(s, radix).ok()
}

/// Relies on byteorder's `NetworkEndian::read_u64`: the first eight bytes,
/// most significant first.
#[verifier::external_body]
pub(crate) fn read_be_u64(b: &[u8]) -> (r: u64)
    requires
        b@.len() >= 8,
    ensures
        r as nat == be_value(b@.subrange(0, 8)),
{
    NetworkEndian::read_u64(b)
}

/// Relies on byteorder's `NetworkEndian::write_u64`: eight bytes, most
/// significant first.
#[verifier::external_body]
pub(crate) fn write_be_u64(v: u64) -> (r: [u8; 8])
    ensures
        r@ == be_encode(v as nat, 8),
{
    let mut out = [0u8; 8];
    NetworkEndian::write_u64(&mut out, v);
    out
}

/// Relies on rust-crypto's `Sha3::shake_256`, `Digest::input` and
/// `Digest::result`: the first `out_len` bytes of SHAKE-256 on `input`.
#[verifier::external_body]
pub(crate) fn shake256(input: &[u8], out_len: usize) -> (r: Vec<u8>)
    ensures
        r@ == shake256_of(input@, out_len as nat),
        r@.len() == out_len,
{
    let mut xof = crypto::sha3::Sha3::shake_256();
    let mut out = vec![0u8; out_len];
    xof.input(input);
    xof.result(&mut out);
    out
}

/// Relies on rust-crypto's `Sha3::sha3_256`, `Digest::input` and
/// `Digest::result`: the 32-byte SHA3-256 digest of `input`.
#[verifier::external_body]
pub(crate) fn sha3_256(input: &[u8]) -> (r: [u8; 32])
    ensures
        r@ == sha3_256_of(input@),
{
    let mut d = crypto::sha3::Sha3::sha3_256();
    let mut out = [0u8; 32];
    d.input(input);
    d.result(&mut out);
    out
}

/// Relies on rust-crypto's `aes::ctr` with a 256-bit key and
/// `SynchronousStreamCipher::process`: counter mode XORs `data` with the
/// key stream.
#[verifier::external_body]
pub(crate) fn aes256_ctr(key: &[u8], iv: &[u8], data: &[u8]) -> (r: Vec<u8>)
    requires
        key@.len() == 32,
        iv@.len() == 16,
    ensures
        r@ == xor_bytes(data@, aes256_ctr_keystream(key@, iv@, data@.len())),
{
    let mut cipher = crypto::aes::ctr(crypto::aes::KeySize::KeySize256, key, iv);
    let mut out = vec![0u8; data.len()];
    cipher.process(data, &mut out);
    out
}

/// Relies on rust-crypto's `curve25519::curve25519`: X25519 of a 32-byte
/// scalar and a 32-byte point.
#[verifier::external_body]
pub(crate) fn curve25519(scalar: &[u8], point: &[u8]) -> (r: [u8; 32])
    requires
        scalar@.len() == 32,
        point@.len() == 32,
    ensures
        r@ == curve25519_of(scalar@, point@),
{
    crypto::curve25519::curve25519(scalar, point)
}

/// Relies on rust-crypto's `util::fixed_time_eq`: whether two 32-byte
/// strings are equal, compared in time that does not depend on their
/// contents. (It mishandles empty inputs, which the lengths rule out.)
#[verifier::external_body]
pub(crate) fn fixed_time_eq(a: &[u8], b: &[u8]) -> (r: bool)
    requires
        a@.len() == 32,
        b@.len() == 32,
    ensures
        r == (a@ == b@),
{
    crypto::util::fixed_time_eq(a, b)
}

} // verus!
