use privcount::client::encode_counters;
use privcount::data::{masks_from_stream, CtrId, Seed, TrKeys, MAX_COUNTERS, SEED_LEN};
use privcount::{FE, PRIME_ORDER};

fn frame(v: u64) -> Vec<u8> {
    v.to_be_bytes().to_vec()
}

#[test]
fn masks_skip_frames_not_below_the_prime() {
    let mut stream = Vec::new();
    stream.extend(frame(5));
    stream.extend(frame(PRIME_ORDER));
    stream.extend(frame(PRIME_ORDER - 1));
    stream.extend(frame(u64::MAX));
    stream.extend(frame(0));
    stream.extend([1, 2, 3]);
    let masks = masks_from_stream(&stream, 3).unwrap();
    let values: Vec<u64> = masks.iter().map(|m| m.value()).collect();
    assert_eq!(values, vec![5, PRIME_ORDER - 1, 0]);
    assert!(masks_from_stream(&stream, 4).is_err());
    assert_eq!(masks_from_stream(&stream, 0).unwrap().len(), 0);
    assert!(masks_from_stream(&[], 1).is_err());
}

#[test]
fn masks_reject_whole_frames_not_below_the_prime() {
    // 45 bytes: five frames with the top bits set, and a 5-byte tail.
    let mut stream = Vec::new();
    for _ in 0..5 {
        stream.extend(frame(0xc000_0000_0000_0000));
    }
    stream.extend([0u8; 5]);
    assert_eq!(masks_from_stream(&stream, 1).err(), Some("Too many masks were out of range."));
    let mut stream = Vec::new();
    stream.extend(frame(0x4000_0000_0000_0000 | 5));
    stream.extend(frame(PRIME_ORDER - 2));
    let masks = masks_from_stream(&stream, 1).unwrap();
    assert_eq!(masks[0].value(), PRIME_ORDER - 2);
}

#[test]
fn masks_are_big_endian() {
    let stream = [0, 0, 0, 0, 0, 0, 1, 2];
    let masks = masks_from_stream(&stream, 1).unwrap();
    assert_eq!(masks[0].value(), 258);
}

#[test]
fn seed_length_is_checked() {
    assert!(Seed::from_bytes(&[0u8; SEED_LEN]).is_ok());
    assert_eq!(Seed::from_bytes(&[0u8; 31]).err(), Some("Incorrect seed length."));
    assert!(Seed::from_bytes(&[0u8; 33]).is_err());
}

/// A seed of repeated bytes that yields `n` masks.
fn working_seed(n: u32) -> [u8; SEED_LEN] {
    for b in 0..=255u8 {
        let seed = [b; SEED_LEN];
        if Seed::from_bytes(&seed).unwrap().counter_masks(n).is_ok() {
            return seed;
        }
    }
    panic!("no seed of repeated bytes yields the masks");
}

#[test]
fn counter_masks_are_deterministic_and_canonical() {
    let seed = working_seed(3);
    let a = Seed::from_bytes(&seed).unwrap().counter_masks(3).unwrap();
    let b = Seed::from_bytes(&seed).unwrap().counter_masks(3).unwrap();
    assert_eq!(a.len(), 3);
    assert_eq!(a, b);
    assert!(a.iter().all(|m| m.value() < PRIME_ORDER));
    assert_ne!(a[0].value(), u64::from_be_bytes([seed[0]; 8]));
    let other = working_seed(1);
    let c = Seed::from_bytes(&other).unwrap().counter_masks(1).unwrap();
    assert_eq!(c.len(), 1);
}

#[test]
fn counter_masks_can_run_out() {
    // Each frame is kept with probability about 1/4, and the stream holds
    // (n + 4) * 9 / 8 frames: for 50 masks almost every seed runs out.
    let failures = (0..=255u8)
        .filter(|b| Seed::from_bytes(&[*b; SEED_LEN]).unwrap().counter_masks(50).is_err())
        .count();
    assert!(failures > 200);
    assert_eq!(
        Seed::from_bytes(&[0u8; SEED_LEN]).unwrap().counter_masks(0).unwrap().len(),
        0
    );
}

#[test]
fn too_many_masks_are_refused() {
    assert_eq!(
        Seed::from_bytes(&[1u8; SEED_LEN]).unwrap().counter_masks(MAX_COUNTERS + 1).err(),
        Some("Too many counters to generate masks for.")
    );
}

#[test]
fn x_coordinate_comes_from_signing_key() {
    let mut signing_key = [0u8; 32];
    signing_key[7] = 3;
    signing_key[6] = 1;
    signing_key[8] = 0xff;
    let keys = TrKeys { enc_key: [0; 32], signing_key };
    assert_eq!(keys.get_x_coord().value(), 259);
    let keys = TrKeys { enc_key: [0; 32], signing_key: [0xff; 32] };
    assert_eq!(keys.get_x_coord(), FE::new(u64::MAX));
}

#[test]
fn tr_keys_compare_both_keys() {
    let a = TrKeys { enc_key: [1; 32], signing_key: [2; 32] };
    assert!(a == TrKeys { enc_key: [1; 32], signing_key: [2; 32] });
    assert!(a != TrKeys { enc_key: [1; 32], signing_key: [3; 32] });
    assert!(a != TrKeys { enc_key: [0; 32], signing_key: [2; 32] });
    assert_eq!(CtrId(3), CtrId(3));
}

#[test]
fn counters_encode_big_endian() {
    let encoded = encode_counters(&[FE::new(1), FE::new(PRIME_ORDER + 258)]);
    assert_eq!(encoded, vec![0, 0, 0, 0, 0, 0, 0, 1, 0, 0, 0, 0, 0, 0, 1, 2]);
    assert!(encode_counters(&[]).is_empty());
}
