//! The tally reporter side of the protocol.
//!
//! A tally reporter receives reports from many clients, recovers its share
//! of each counter from each report, and adds the shares together; any K
//! tally reporters can then recover the true totals from their sums.
use crate::data::{
    frame_values,
    masks_available,
    masks_of,
    x_coord_of,
    ClientKey,
    MAX_COUNTERS,
    CtrId,
    Seed,
    TrData,
    TrKeys,
    SEED_ENCRYPTION_TWEAK,
    Y_ENCRYPTION_TWEAK,
};
use crate::encrypt::hybrid::{opened, PrivcountDecryptor};
use crate::encrypt::Decryptor;
use crate::math::{field_add, p, views, FE};
use crate::primitives::read_be_u64;
use std::collections::HashMap;
use vstd::prelude::*;
use vstd::string::StringSliceAdditionalSpecFns;

verus! {

broadcast use vstd::std_specs::hash::group_hash_axioms;

/// What a tally reporter recovers from one client.
pub struct ClientData {
    client_key: ClientKey,
    shares: Vec<(CtrId, FE)>,
}

/// The keys that a tally reporter holds.
pub struct ServerKeys {
    /// The Curve25519 secret key used for decryption.
    pub enc_secret: [u8; 32],
    /// The tally reporter's public keys.
    pub public: TrKeys,
}

impl ClientData {
    pub closed spec fn spec_client_key(&self) -> ClientKey {
        self.client_key
    }

    pub closed spec fn spec_shares(&self) -> Seq<(CtrId, FE)> {
        self.shares@
    }

    /// The data recovered from the client `client_key`: one share per counter.
    pub fn new(client_key: ClientKey, shares: Vec<(CtrId, FE)>) -> (r: ClientData)
        ensures
            r.spec_client_key() == client_key,
            r.spec_shares() == shares@,
    {
        ClientData { client_key, shares }
    }
}

/// Whether every one of the first `n` frames of `encoded` is below the prime.
pub open spec fn frames_canonical(encoded: Seq<u8>, n: int) -> bool {
    forall|i: int| 0 <= i < n ==> #[trigger] frame_values(encoded)[i] < p()
}

/// Removes the masks from the values that a client sent: pairs each counter
/// with its mask plus the value that arrived for it. The values arrive as
/// eight big-endian bytes each, and each must be below the prime.
pub fn unblind(counters: &[CtrId], masks: &Vec<FE>, encoded: &[u8]) -> (r: Result<
    Vec<(CtrId, FE)>,
    &'static str,
>)
    requires
        counters@.len() == masks@.len(),
    ensures
        match r {
            Ok(shares) => {
                &&& encoded@.len() == 8 * masks@.len()
                &&& frames_canonical(encoded@, masks@.len() as int)
                &&& shares@.len() == counters@.len()
                &&& forall|i: int|
                    0 <= i < shares@.len() ==> (#[trigger] shares@[i]).0 == counters@[i]
                        && shares@[i].1@ == field_add(masks@[i]@, frame_values(encoded@)[i])
            },
            Err(e) => if encoded@.len() != 8 * masks@.len() {
                e == "Wrong number of counters."
            } else {
                !frames_canonical(encoded@, masks@.len() as int) && e == "BadFE"
            },
        },
{
    if encoded.len() % 8 != 0 || encoded.len() / 8 != masks.len() {
        return Err("Wrong number of counters.");
    }
    assert(encoded@.len() == 8 * masks@.len());
    let len = encoded.len();
    let mut shares: Vec<(CtrId, FE)> = Vec::new();
    let mut i: usize = 0;
    while i < masks.len()
        invariant
            counters@.len() == masks@.len(),
            encoded@.len() == 8 * masks@.len(),
            len == encoded@.len(),
            i <= masks@.len(),
            frames_canonical(encoded@, i as int),
            shares@.len() == i,
            forall|ii: int|
                0 <= ii < i ==> (#[trigger] shares@[ii]).0 == counters@[ii] && shares@[ii].1@
                    == field_add(masks@[ii]@, frame_values(encoded@)[ii]),
        decreases masks@.len() - i,
    {
        let frame = &encoded[8 * i..8 * i + 8];
        let u = read_be_u64(frame);
        proof {
            assert(frame@.subrange(0, 8) =~= encoded@.subrange(8 * i, 8 * i + 8));
            assert(frame_values(encoded@)[i as int] == u as int);
        }
        let y = match FE::from_reduced(u) {
            Some(y) => y,
            None => return Err("BadFE"),
        };
        shares.push((counters[i], masks[i] + y));
        i = i + 1;
    }
    Ok(shares)
}

impl ServerKeys {
    /// What this tally reporter decrypts from an encrypted seed.
    pub open spec fn seed_plaintext(&self, data: TrData) -> Option<Seq<u8>> {
        opened(
            self.enc_secret@,
            self.public.signing_key@,
            data.encrypted_seed@,
            SEED_ENCRYPTION_TWEAK.spec_bytes(),
        )
    }

    /// What this tally reporter decrypts from encrypted counters.
    pub open spec fn counters_plaintext(&self, data: TrData) -> Option<Seq<u8>> {
        opened(
            self.enc_secret@,
            self.public.signing_key@,
            data.encrypted_counters@,
            Y_ENCRYPTION_TWEAK.spec_bytes(),
        )
    }

    /// Why `data` does not decode, for `n` counters: the message of the first
    /// check that fails, in the order they are made; nothing when it
    /// decodes. It must be addressed to this tally reporter at its X
    /// coordinate, both parts must decrypt, the seed must have the right
    /// length and yield `n` masks, and the counters must be `n` canonical
    /// values.
    pub open spec fn decode_error(&self, n: nat, data: TrData) -> Option<&'static str> {
        if !(data.keys.enc_key@ == self.public.enc_key@ && data.keys.signing_key@
            == self.public.signing_key@) {
            Some("Keys aren't our key.")
        } else if data.x@ != x_coord_of(self.public.signing_key@) {
            Some("Wrong X coordinate.")
        } else if n > u32::MAX {
            Some("Too many counters.")
        } else if self.seed_plaintext(data) is None {
            Some("Seed decryption failed.")
        } else if self.counters_plaintext(data) is None {
            Some("Counter decryption failed.")
        } else if self.seed_plaintext(data)->0.len() != 32 {
            Some("Incorrect seed length.")
        } else if n > MAX_COUNTERS {
            Some("Too many counters to generate masks for.")
        } else if !masks_available(self.seed_plaintext(data)->0, n) {
            Some("Too many masks were out of range.")
        } else if self.counters_plaintext(data)->0.len() != 8 * n {
            Some("Wrong number of counters.")
        } else if !frames_canonical(self.counters_plaintext(data)->0, n as int) {
            Some("BadFE")
        } else {
            None
        }
    }

    /// Whether `data` decodes, for `n` counters.
    pub open spec fn decodes(&self, n: nat, data: TrData) -> bool {
        self.decode_error(n, data) is None
    }

    /// Decrypts what a client sent to this tally reporter, and removes the
    /// masks: the result holds this tally reporter's share of each counter.
    pub fn decode_from(&self, client: &ClientKey, counters: &[CtrId], data: &TrData) -> (r:
        Result<ClientData, &'static str>)
        ensures
            match r {
                Ok(cd) => {
                    let n = counters@.len();
                    let masks = masks_of(self.seed_plaintext(*data)->0, n);
                    let ys = frame_values(self.counters_plaintext(*data)->0);
                    &&& self.decodes(n, *data)
                    &&& cd.spec_client_key() == *client
                    &&& cd.spec_shares().len() == n
                    &&& forall|i: int|
                        0 <= i < n ==> (#[trigger] cd.spec_shares()[i]).0 == counters@[i]
                            && cd.spec_shares()[i].1@ == field_add(masks[i], ys[i])
                },
                Err(e) => self.decode_error(counters@.len(), *data) == Some(e),
            },
    {
        // Is this for us?
        if data.keys != self.public {
            return Err("Keys aren't our key.");
        }
        if data.x != self.public.get_x_coord() {
            return Err("Wrong X coordinate.");
        }
        if counters.len() > u32::MAX as usize {
            return Err("Too many counters.");
        }
        let n_counters = counters.len() as u32;

        // It is for us: recover the encrypted parts.
        let dec = PrivcountDecryptor::new(&self.enc_secret, &self.public.signing_key);
        let seedval = match dec.decrypt(
            data.encrypted_seed.as_slice(),
            SEED_ENCRYPTION_TWEAK.as_bytes(),
        ) {
            Some(v) => v,
            None => return Err("Seed decryption failed."),
        };
        let ctrs = match dec.decrypt(
            data.encrypted_counters.as_slice(),
            Y_ENCRYPTION_TWEAK.as_bytes(),
        ) {
            Some(v) => v,
            None => return Err("Counter decryption failed."),
        };
        let seed = match Seed::from_bytes(seedval.as_slice()) {
            Ok(s) => s,
            Err(e) => return Err(e),
        };
        let masks = match seed.counter_masks(n_counters) {
            Ok(m) => m,
            Err(e) => return Err(e),
        };
        proof {
            assert(views(masks@).len() == masks@.len());
            assert(masks@.len() == counters@.len());
        }
        let shares = match unblind(counters, &masks, ctrs.as_slice()) {
            Ok(s) => s,
            Err(e) => return Err(e),
        };
        Ok(ClientData { client_key: ClientKey { signing_key: client.signing_key }, shares })
    }
}

/// The (identifier, value) pairs of one client's shares.
pub open spec fn client_pairs(cd: ClientData) -> Seq<(u32, int)> {
    cd.spec_shares().map_values(|s: (CtrId, FE)| (s.0.0, s.1@))
}

/// The pairs of all the clients' shares, client by client.
pub open spec fn all_pairs(cds: Seq<ClientData>) -> Seq<(u32, int)>
    decreases cds.len(),
{
    if cds.len() == 0 {
        Seq::empty()
    } else {
        all_pairs(cds.drop_last()) + client_pairs(cds.last())
    }
}

/// For each identifier among `pairs`, the field sum of its values.
pub open spec fn totals(pairs: Seq<(u32, int)>) -> Map<u32, int>
    decreases pairs.len(),
{
    if pairs.len() == 0 {
        Map::empty()
    } else {
        let m = totals(pairs.drop_last());
        let id = pairs.last().0;
        let before = if m.contains_key(id) {
            m[id]
        } else {
            0
        };
        m.insert(id, field_add(before, pairs.last().1))
    }
}

/// For each counter that appears in `client_data`, the sum of its shares
/// over all the clients, keyed by the number inside the counter's
/// identifier. Together with this tally reporter's X coordinate, this is
/// its share of each counter's total.
pub fn sum_shares(client_data: &[ClientData]) -> (r: HashMap<u32, FE>)
    ensures
        r@.dom() == totals(all_pairs(client_data@)).dom(),
        forall|id: u32| #[trigger]
            r@.contains_key(id) ==> r@[id]@ == totals(all_pairs(client_data@))[id],
{
    let mut result: HashMap<u32, FE> = HashMap::new();
    let mut i: usize = 0;
    while i < client_data.len()
        invariant
            i <= client_data@.len(),
            result@.dom() == totals(all_pairs(client_data@.take(i as int))).dom(),
            forall|id: u32| #[trigger]
                result@.contains_key(id) ==> result@[id]@ == totals(
                    all_pairs(client_data@.take(i as int)),
                )[id],
        decreases client_data@.len() - i,
    {
        let cd = &client_data[i];
        let ghost prefix = all_pairs(client_data@.take(i as int));
        let ghost cp = client_pairs(*cd);
        proof {
            assert(prefix + cp.take(0) =~= prefix);
        }
        let mut j: usize = 0;
        while j < cd.shares.len()
            invariant
                i < client_data@.len(),
                *cd == client_data@[i as int],
                cp == client_pairs(*cd),
                j <= cd.shares@.len(),
                result@.dom() == totals(prefix + cp.take(j as int)).dom(),
                forall|id: u32| #[trigger]
                    result@.contains_key(id) ==> result@[id]@ == totals(prefix + cp.take(j as int))[id],
            decreases cd.shares@.len() - j,
        {
            let (id, val) = cd.shares[j];
            let key = id.0;
            let cur = match result.get(&key) {
                Some(v) => *v,
                None => FE::zero(),
            };
            result.insert(key, cur + val);
            proof {
                let before = prefix + cp.take(j as int);
                let after = prefix + cp.take(j as int + 1);
                assert(after.drop_last() =~= before);
                assert(after.last() == (key, val@));
                assert(result@.dom() =~= totals(after).dom());
            }
            j = j + 1;
        }
        proof {
            assert(client_data@.take(i as int + 1).drop_last() =~= client_data@.take(i as int));
            assert(cp.take(cd.shares@.len() as int) =~= cp);
        }
        i = i + 1;
    }
    assert(client_data@.take(client_data@.len() as int) =~= client_data@);
    result
}

} // verus!
