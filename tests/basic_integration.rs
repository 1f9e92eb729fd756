use crypto::curve25519::curve25519_base;
use privcount::client::{CounterRandomness, CounterSet, TrRandomness};
use privcount::data::{ClientKey, CtrId, Seed, TrKeys};
use privcount::encrypt::keygen::curve25519_seckey_gen;
use privcount::encrypt::EncryptionRandomness;
use privcount::server::{sum_shares, unblind, ClientData, ServerKeys};
use privcount::{shamir, FE};
use rand::Rng;
use std::collections::HashMap;

fn random_fe(rng: &mut dyn Rng) -> FE {
    loop {
        if let Some(x) = FE::from_random_u64(rng.next_u64()) {
            return x;
        }
    }
}

fn encryption_randomness(rng: &mut dyn Rng) -> EncryptionRandomness {
    let mut ephemeral = [0u8; 32];
    let mut salt = [0u8; 16];
    rng.fill_bytes(&mut ephemeral);
    rng.fill_bytes(&mut salt);
    EncryptionRandomness { ephemeral, salt }
}

/// A random seed that yields `n` masks: a seed that runs out of
/// acceptable frames is replaced by a fresh one.
fn seed_with_masks(rng: &mut dyn Rng, n: u32) -> [u8; 32] {
    loop {
        let mut seed = [0u8; 32];
        rng.fill_bytes(&mut seed);
        if Seed::from_bytes(&seed).unwrap().counter_masks(n).is_ok() {
            return seed;
        }
    }
}

fn gen_server_keys(rng: &mut dyn Rng) -> ServerKeys {
    let mut signing_key = [0; 32];
    rng.fill_bytes(&mut signing_key);
    let mut random = [0; 32];
    rng.fill_bytes(&mut random);
    let seckey = curve25519_seckey_gen(&random);
    let pk = curve25519_base(&seckey);
    ServerKeys { enc_secret: seckey, public: TrKeys { enc_key: pk, signing_key } }
}

fn new_counter_set(
    rng: &mut dyn Rng,
    counter_ids: &[CtrId],
    tr_keys: &[TrKeys],
    k: u32,
) -> CounterSet {
    let tr_randomness: Vec<TrRandomness> = tr_keys
        .iter()
        .map(|_| TrRandomness {
            seed: seed_with_masks(rng, counter_ids.len() as u32),
            seed_encryption: encryption_randomness(rng),
        })
        .collect();
    let n_coefficients = if k == 0 { 0 } else { k as usize - 1 };
    let counter_randomness: Vec<CounterRandomness> = counter_ids
        .iter()
        .map(|_| CounterRandomness {
            blind: random_fe(rng),
            coefficients: (0..n_coefficients).map(|_| random_fe(rng)).collect(),
        })
        .collect();
    CounterSet::new(counter_ids, tr_keys, k, &tr_randomness, &counter_randomness).unwrap()
}

fn run_protocol(
    n_counters: usize,
    n_clients: usize,
    n_trs: usize,
    k_value: usize,
) -> (Vec<CtrId>, HashMap<CtrId, u32>, HashMap<CtrId, FE>) {
    let mut rng = rand::os::OsRng::new().unwrap();

    assert!(k_value <= n_trs);

    let server_keys: Vec<ServerKeys> = (0..n_trs).map(|_| gen_server_keys(&mut rng)).collect();
    let tr_keys: Vec<TrKeys> = server_keys.iter().map(|sk| sk.public.clone()).collect();
    let counter_ids: Vec<CtrId> = (1..n_counters + 1).map(|n| CtrId(n as u32)).collect();

    let mut client_data = Vec::new();
    let mut accurate_sum = HashMap::new();

    // Simulate each client.
    for client_idx in 0..n_clients {
        let mut ctrs = new_counter_set(&mut rng, &counter_ids, &tr_keys, k_value as u32);
        for id in counter_ids.iter() {
            let to_add = id.0 + (client_idx * 17) as u32;
            ctrs.ctr(*id).unwrap().inc(to_add);
            let true_ctr = accurate_sum.entry(*id).or_insert(0);
            *true_ctr += to_add;
        }
        let randomness: Vec<EncryptionRandomness> =
            (0..n_trs).map(|_| encryption_randomness(&mut rng)).collect();
        client_data.push(ctrs.finalize(&randomness).unwrap());
    }

    // Simulate each server: each one's share of each counter's sum.
    let mut shares = Vec::new();
    for my_keys in server_keys.iter() {
        let mut all_my_client_data = Vec::new();
        for this_client in client_data.iter() {
            let client_id = ClientKey { signing_key: [42; 32] };
            let my_data = this_client
                .tr_data
                .iter()
                .find(|trdata| trdata.keys == my_keys.public)
                .unwrap();
            let decoded = my_keys
                .decode_from(&client_id, &this_client.counter_ids, my_data)
                .unwrap();
            all_my_client_data.push(decoded);
        }
        let my_shares = sum_shares(&all_my_client_data);
        shares.push((my_keys.public.get_x_coord(), my_shares));
    }

    // Use the first k shares to recover each counter.
    let mut recovered = HashMap::new();
    for cid in counter_ids.iter() {
        let mut ctr_shares = Vec::new();
        for &(x, ref map) in shares[0..k_value].iter() {
            let y = map.get(&cid.0).unwrap();
            ctr_shares.push(shamir::Share { x, y: *y });
        }
        recovered.insert(*cid, shamir::recover_secret(&ctr_shares));
    }
    (counter_ids, accurate_sum, recovered)
}

fn test_combination(n_counters: usize, n_clients: usize, n_trs: usize, k_value: usize) {
    let (counter_ids, accurate_sum, recovered) =
        run_protocol(n_counters, n_clients, n_trs, k_value);
    for cid in counter_ids.iter() {
        let sum = recovered[cid];
        println!("{:?} : {}", cid, sum.value());
        assert_eq!(*accurate_sum.get(cid).unwrap() as u64, sum.value());
        let i = cid.0 as u64;
        let c = n_clients as u64;
        assert_eq!(sum.value(), c * i + 17 * (c * (c - 1) / 2));
    }
}

#[test]
fn one_out_of_one() {
    test_combination(5, 2, 1, 1);
}

#[test]
fn two_out_of_two() {
    test_combination(5, 2, 2, 2);
}

#[test]
fn three_out_of_five() {
    test_combination(10, 3, 5, 3);
}

#[test]
fn one_out_of_one_gives_the_expected_totals() {
    let (_, _, recovered) = run_protocol(5, 2, 1, 1);
    // Client c adds i + 17 * c to counter i: the totals are 2 * i + 17.
    let expected = [(1u32, 19u64), (2, 21), (3, 23), (4, 25), (5, 27)];
    for (id, total) in expected {
        assert_eq!(recovered[&CtrId(id)].value(), total);
    }
}

#[test]
fn decrements_cancel_increments() {
    let mut rng = rand::os::OsRng::new().unwrap();
    let server = gen_server_keys(&mut rng);
    let ids = vec![CtrId(1), CtrId(2)];
    let mut ctrs = new_counter_set(&mut rng, &ids, &[server.public.clone()], 1);
    ctrs.ctr(CtrId(1)).unwrap().inc(10);
    ctrs.ctr(CtrId(1)).unwrap().dec(4);
    ctrs.ctr(CtrId(2)).unwrap().dec(1);
    assert!(ctrs.ctr(CtrId(3)).is_none());
    let data = ctrs.finalize(&[encryption_randomness(&mut rng)]).unwrap();
    let decoded = server
        .decode_from(&ClientKey { signing_key: [0; 32] }, &data.counter_ids, &data.tr_data[0])
        .unwrap();
    let totals = sum_shares(&[decoded]);
    assert_eq!(totals[&1].value(), 6);
    assert_eq!(totals[&2], -FE::new(1));
}

#[test]
fn counter_set_rejects_bad_threshold_and_zero_x() {
    let mut rng = rand::os::OsRng::new().unwrap();
    let server = gen_server_keys(&mut rng);
    let ids = [CtrId(1)];
    let seed = seed_with_masks(&mut rng, 1);
    let tr = vec![TrRandomness { seed, seed_encryption: encryption_randomness(&mut rng) }];
    let cr = vec![CounterRandomness { blind: FE::new(3), coefficients: vec![FE::new(1)] }];
    assert!(CounterSet::new(&ids, &[server.public.clone()], 2, &tr, &cr).is_err());
    let no_coefficients = vec![CounterRandomness { blind: FE::new(3), coefficients: vec![] }];
    assert!(CounterSet::new(&ids, &[server.public.clone()], 0, &tr, &no_coefficients).is_err());

    let zero_x = TrKeys { enc_key: server.public.enc_key, signing_key: [0; 32] };
    let cr = vec![CounterRandomness { blind: FE::new(3), coefficients: vec![] }];
    assert!(CounterSet::new(&ids, &[zero_x], 1, &tr, &cr).is_err());
    assert!(CounterSet::new(&ids, &[server.public.clone()], 1, &tr, &cr).is_ok());
}

#[test]
fn decode_rejects_data_for_another_reporter() {
    let mut rng = rand::os::OsRng::new().unwrap();
    let a = gen_server_keys(&mut rng);
    let b = gen_server_keys(&mut rng);
    let ids = vec![CtrId(1)];
    let ctrs = new_counter_set(&mut rng, &ids, &[a.public.clone(), b.public.clone()], 2);
    let data = ctrs
        .finalize(&[encryption_randomness(&mut rng), encryption_randomness(&mut rng)])
        .unwrap();
    let client = ClientKey { signing_key: [0; 32] };
    assert!(b.decode_from(&client, &ids, &data.tr_data[0]).is_err());
    assert!(a.decode_from(&client, &ids, &data.tr_data[0]).is_ok());
    assert!(a.decode_from(&client, &[CtrId(1), CtrId(2)], &data.tr_data[0]).is_err());
    let mut tampered = data.tr_data[0].encrypted_counters.clone();
    tampered[50] ^= 4;
    let bad = privcount::data::TrData::new(
        &data.tr_data[0].keys,
        data.tr_data[0].encrypted_seed.clone(),
        data.tr_data[0].x,
        tampered,
    );
    assert!(a.decode_from(&client, &ids, &bad).is_err());
}

#[test]
fn unblind_adds_masks_and_checks_values() {
    let ids = [CtrId(4), CtrId(9)];
    let masks = vec![FE::new(10), FE::new(20)];
    let mut encoded = Vec::new();
    encoded.extend(5u64.to_be_bytes());
    encoded.extend(7u64.to_be_bytes());
    let shares = unblind(&ids, &masks, &encoded).unwrap();
    assert_eq!(shares[0].0, CtrId(4));
    assert_eq!(shares[0].1.value(), 15);
    assert_eq!(shares[1].0, CtrId(9));
    assert_eq!(shares[1].1.value(), 27);
    assert_eq!(unblind(&ids, &masks, &encoded[..15]).err(), Some("Wrong number of counters."));
    let mut big = encoded.clone();
    big[8..16].copy_from_slice(&privcount::PRIME_ORDER.to_be_bytes());
    assert_eq!(unblind(&ids, &masks, &big).err(), Some("BadFE"));
}

#[test]
fn sum_shares_adds_per_counter() {
    let key = ClientKey { signing_key: [0; 32] };
    let a = ClientData::new(key.clone(), vec![(CtrId(1), FE::new(2)), (CtrId(2), FE::new(5))]);
    let b = ClientData::new(key.clone(), vec![(CtrId(1), FE::new(3)), (CtrId(3), FE::new(1))]);
    let c = ClientData::new(key, vec![(CtrId(1), -FE::new(1))]);
    let totals = sum_shares(&[a, b, c]);
    assert_eq!(totals.len(), 3);
    assert_eq!(totals[&1].value(), 4);
    assert_eq!(totals[&2].value(), 5);
    assert_eq!(totals[&3].value(), 1);
    assert!(sum_shares(&[]).is_empty());
}

#[test]
fn decode_reports_each_failure() {
    let mut rng = rand::os::OsRng::new().unwrap();
    let a = gen_server_keys(&mut rng);
    let ids = vec![CtrId(1), CtrId(2)];
    let ctrs = new_counter_set(&mut rng, &ids, &[a.public.clone()], 1);
    let data = ctrs.finalize(&[encryption_randomness(&mut rng)]).unwrap();
    let td = &data.tr_data[0];
    let client = ClientKey { signing_key: [0; 32] };

    let mut seed = td.encrypted_seed.clone();
    seed[40] ^= 1;
    let bad_seed = privcount::data::TrData::new(&td.keys, seed, td.x, td.encrypted_counters.clone());
    assert_eq!(a.decode_from(&client, &ids, &bad_seed).err(), Some("Seed decryption failed."));

    let mut ctrs_ct = td.encrypted_counters.clone();
    ctrs_ct[40] ^= 1;
    let bad_ctrs = privcount::data::TrData::new(&td.keys, td.encrypted_seed.clone(), td.x, ctrs_ct);
    assert_eq!(a.decode_from(&client, &ids, &bad_ctrs).err(), Some("Counter decryption failed."));

    let bad_x = privcount::data::TrData::new(
        &td.keys,
        td.encrypted_seed.clone(),
        td.x + FE::one(),
        td.encrypted_counters.clone(),
    );
    assert_eq!(a.decode_from(&client, &ids, &bad_x).err(), Some("Wrong X coordinate."));

    assert_eq!(a.decode_from(&client, &ids[..1], td).err(), Some("Wrong number of counters."));
    let other = gen_server_keys(&mut rng);
    assert_eq!(other.decode_from(&client, &ids, td).err(), Some("Keys aren't our key."));
    let decoded = a.decode_from(&client, &ids, td).unwrap();
    assert_eq!(sum_shares(&[decoded]).len(), 2);
}

#[test]
fn counter_set_reports_its_reporters() {
    let mut rng = rand::os::OsRng::new().unwrap();
    let keys: Vec<TrKeys> = (0..3).map(|_| gen_server_keys(&mut rng).public).collect();
    let ctrs = new_counter_set(&mut rng, &[CtrId(5)], &keys, 2);
    assert_eq!(ctrs.n_trs(), 3);
    let data = ctrs
        .finalize(&[
            encryption_randomness(&mut rng),
            encryption_randomness(&mut rng),
            encryption_randomness(&mut rng),
        ])
        .unwrap();
    assert_eq!(data.counter_ids, vec![CtrId(5)]);
    assert_eq!(data.tr_data.len(), 3);
    for (td, k) in data.tr_data.iter().zip(keys.iter()) {
        assert!(td.keys == *k);
        assert_eq!(td.x, k.get_x_coord());
        assert_eq!(td.encrypted_counters.len(), 8 + 80);
        assert_eq!(td.encrypted_seed.len(), 32 + 80);
    }
}
