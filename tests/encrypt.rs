use crypto::curve25519::curve25519_base;
use privcount::encrypt::hybrid::{
    PrivcountDecryptor, PrivcountEncryptor, ENCRYPTED_OVERHEAD, SIGNING_PUBLIC_LEN,
};
use privcount::encrypt::keygen::curve25519_seckey_gen;
use privcount::encrypt::{Decryptor, EncryptionRandomness, Encryptor};
use rand::Rng;

fn random_bytes32(rng: &mut rand::os::OsRng) -> [u8; 32] {
    let mut b = [0u8; 32];
    rng.fill_bytes(&mut b);
    b
}

fn randomness(rng: &mut rand::os::OsRng) -> EncryptionRandomness {
    let mut salt = [0u8; 16];
    rng.fill_bytes(&mut salt);
    EncryptionRandomness { ephemeral: random_bytes32(rng), salt }
}

#[test]
fn roundtrip() {
    let msg = b"Why must you record my phonecalls? \
                Are you planning a bootleg LP?";
    let tweak = b"Said you've been threatened by gangsters.";
    let mut rng = rand::os::OsRng::new().unwrap();
    let signing_key = [17; SIGNING_PUBLIC_LEN]; // not actually used to sign
    let sk = curve25519_seckey_gen(&random_bytes32(&mut rng));
    let pk = curve25519_base(&sk);
    let encryptor = PrivcountEncryptor::new(&pk, &signing_key);
    let decryptor = PrivcountDecryptor::new(&sk, &signing_key);

    let r = randomness(&mut rng);
    let encrypted = encryptor.encrypt(&msg[..], &tweak[..], &r).unwrap();
    assert_eq!(encrypted.len() - msg.len(), ENCRYPTED_OVERHEAD);

    let result = decryptor.decrypt(&encrypted, &tweak[..]);
    let mut expected = Vec::new();
    expected.extend_from_slice(&msg[..]);
    assert_eq!(result, Some(expected));

    let wrong_tweak = b"Now it's you that's threatening me.";
    let result = decryptor.decrypt(&encrypted, &wrong_tweak[..]);
    assert_eq!(result, None);

    let too_short = b"foo";
    let result = decryptor.decrypt(&too_short[..], &tweak[..]);
    assert_eq!(result, None);
}

#[test]
fn is_randomized() {
    let msg = b"Can't fight corruption with con tricks \
                They use the law to commit crime";
    let tweak = b"I dread to think what the future'll bring \
                  When we're living in gangster times";

    let mut rng = rand::os::OsRng::new().unwrap();
    let signing_key = [62; SIGNING_PUBLIC_LEN]; // not actually used to sign
    let sk = curve25519_seckey_gen(&random_bytes32(&mut rng));
    let pk = curve25519_base(&sk);
    let encryptor = PrivcountEncryptor::new(&pk, &signing_key);

    let enc1 = encryptor.encrypt(&msg[..], &tweak[..], &randomness(&mut rng));
    let enc2 = encryptor.encrypt(&msg[..], &tweak[..], &randomness(&mut rng));
    assert_ne!(enc1, enc2);
}

#[test]
fn same_randomness_gives_same_ciphertext() {
    let mut rng = rand::os::OsRng::new().unwrap();
    let sk = curve25519_seckey_gen(&random_bytes32(&mut rng));
    let pk = curve25519_base(&sk);
    let encryptor = PrivcountEncryptor::new(&pk, &[5; 32]);
    let r = randomness(&mut rng);
    let again = EncryptionRandomness { ephemeral: r.ephemeral, salt: r.salt };
    assert_eq!(
        encryptor.encrypt(b"abc", b"t", &r).unwrap(),
        encryptor.encrypt(b"abc", b"t", &again).unwrap()
    );
}

#[test]
fn every_bit_flip_is_rejected() {
    let mut rng = rand::os::OsRng::new().unwrap();
    let signing_key = [3; 32];
    let sk = curve25519_seckey_gen(&random_bytes32(&mut rng));
    let pk = curve25519_base(&sk);
    let encryptor = PrivcountEncryptor::new(&pk, &signing_key);
    let decryptor = PrivcountDecryptor::new(&sk, &signing_key);
    let encrypted = encryptor.encrypt(b"counter values", b"tweak", &randomness(&mut rng)).unwrap();
    assert_eq!(decryptor.decrypt(&encrypted, b"tweak"), Some(b"counter values".to_vec()));
    for i in 0..encrypted.len() {
        let mut bad = encrypted.clone();
        bad[i] ^= 1;
        assert_eq!(decryptor.decrypt(&bad, b"tweak"), None);
    }
}

#[test]
fn truncation_below_overhead_is_rejected() {
    let mut rng = rand::os::OsRng::new().unwrap();
    let sk = curve25519_seckey_gen(&random_bytes32(&mut rng));
    let pk = curve25519_base(&sk);
    let encryptor = PrivcountEncryptor::new(&pk, &[9; 32]);
    let decryptor = PrivcountDecryptor::new(&sk, &[9; 32]);
    let encrypted = encryptor.encrypt(b"", b"tweak", &randomness(&mut rng)).unwrap();
    assert_eq!(encrypted.len(), ENCRYPTED_OVERHEAD);
    assert_eq!(decryptor.decrypt(&encrypted, b"tweak"), Some(Vec::new()));
    for len in 0..ENCRYPTED_OVERHEAD {
        assert_eq!(decryptor.decrypt(&encrypted[..len], b"tweak"), None);
    }
}

#[test]
fn wrong_signing_key_is_rejected() {
    let mut rng = rand::os::OsRng::new().unwrap();
    let sk = curve25519_seckey_gen(&random_bytes32(&mut rng));
    let pk = curve25519_base(&sk);
    let encryptor = PrivcountEncryptor::new(&pk, &[1; 32]);
    let decryptor = PrivcountDecryptor::new(&sk, &[2; 32]);
    let encrypted = encryptor.encrypt(b"hello", b"tweak", &randomness(&mut rng)).unwrap();
    assert_eq!(decryptor.decrypt(&encrypted, b"tweak"), None);
}

#[test]
fn ciphertext_body_differs_from_plaintext() {
    let mut rng = rand::os::OsRng::new().unwrap();
    let sk = curve25519_seckey_gen(&random_bytes32(&mut rng));
    let pk = curve25519_base(&sk);
    let encryptor = PrivcountEncryptor::new(&pk, &[4; 32]);
    let msg = [0u8; 64];
    let encrypted = encryptor.encrypt(&msg, b"tweak", &randomness(&mut rng)).unwrap();
    assert_eq!(encrypted.len(), 64 + ENCRYPTED_OVERHEAD);
    assert_ne!(&encrypted[48..112], &msg[..]);
}

#[test]
fn encryptor_reports_its_key() {
    let encryptor = PrivcountEncryptor::new(&[7; 32], &[8; 32]);
    assert_eq!(encryptor.key(), &[7; 32]);
}

#[test]
fn secret_keys_are_clamped() {
    let k = curve25519_seckey_gen(&[0xff; 32]);
    assert_eq!(k[0], 0xf8);
    assert_eq!(k[31], 0x7f);
    assert_eq!(&k[1..31], &[0xff; 30][..]);
    let k = curve25519_seckey_gen(&[0; 32]);
    assert_eq!(k[0], 0);
    assert_eq!(k[31], 0x40);
}
