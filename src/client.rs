//! The client side of the protocol.
//!
//! A client creates a set of counters, blinds them and shares them among
//! the tally reporters, increments them, and finally encrypts one share of
//! each counter to each tally reporter.
use crate::data::{
    frame_values,
    masks_available,
    masks_of,
    x_coord_of,
    CounterData,
    CtrId,
    Seed,
    TrData,
    TrKeys,
    SEED_ENCRYPTION_TWEAK,
    Y_ENCRYPTION_TWEAK,
};
use crate::encrypt::hybrid::{sealed, PrivcountEncryptor};
use crate::encrypt::keygen::clamp;
use crate::encrypt::{EncryptionRandomness, Encryptor};
use crate::math::{field_add, field_sub, views, FE};
use crate::primitives::{be_encode, be_value, write_be_u64};
use crate::shamir::{poly_at, ParamBuilder};
use std::collections::hash_map::Entry;
use std::collections::HashMap;
use vstd::arithmetic::div_mod::*;
use vstd::arithmetic::mul::*;
use vstd::arithmetic::power::*;
use vstd::prelude::*;
use vstd::string::StringSliceAdditionalSpecFns;

verus! {

broadcast use vstd::std_specs::hash::group_hash_axioms;

/// The random values that a client draws for one tally reporter. They must
/// come from a secure random source.
pub struct TrRandomness {
    /// The seed from which this tally reporter's masks are derived.
    pub seed: [u8; 32],
    /// The randomness of the seed's encryption.
    pub seed_encryption: EncryptionRandomness,
}

/// The random values that a client draws for one counter. They must be
/// uniform field elements from a secure random source.
pub struct CounterRandomness {
    /// The client's private additive share of the counter.
    pub blind: FE,
    /// The coefficients of the sharing polynomial above its constant term,
    /// highest order first: `K - 1` of them.
    pub coefficients: Vec<FE>,
}

/// The value that a client holds for one tally reporter and one counter
/// before any increment: the share of zero at the tally reporter's X
/// coordinate, minus the tally reporter's mask, minus the client's blind.
pub open spec fn blinded_entry(coefficients: Seq<FE>, x: int, mask: int, blind: int) -> int {
    field_sub(field_sub(poly_at(views(coefficients).push(0), x), mask), blind)
}

/// Adding a tally reporter's mask back to what a client reports for a
/// counter (its blinded value plus the counter's value) leaves the
/// tally reporter's share of zero plus the counter's value minus its blind:
/// the share of the sum of the increments.
pub proof fn lemma_unmasking_leaves_share(
    coefficients: Seq<FE>,
    x: int,
    mask: int,
    blind: int,
    value: int,
)
    ensures
        field_add(mask, field_add(blinded_entry(coefficients, x, mask, blind), value)) == field_add(
            poly_at(views(coefficients).push(0), x),
            field_sub(value, blind),
        ),
{
    let m = crate::math::p();
    let y = poly_at(views(coefficients).push(0), x);
    lemma_residue_shifts(y, mask, blind, value, m);
}

/// `mask + (((y - mask) - blind) + value)` and `y + (value - blind)` agree
/// modulo `m`, with every intermediate result reduced.
proof fn lemma_residue_shifts(y: int, mask: int, blind: int, value: int, m: int)
    requires
        m > 0,
    ensures
        (mask + (((y - mask) % m - blind) % m + value) % m) % m == (y + (value - blind) % m) % m,
{
    let a = (y - mask) % m;
    let b = (a - blind) % m;
    let c = (b + value) % m;
    assert(b == (y - mask - blind) % m) by {
        lemma_add_mod_noop_right(-blind, y - mask, m);
    }
    assert(c == (y - mask - blind + value) % m) by {
        lemma_add_mod_noop_right(value, y - mask - blind, m);
    }
    assert((mask + c) % m == (y - blind + value) % m) by {
        lemma_add_mod_noop_right(mask, y - mask - blind + value, m);
    }
    assert((y + (value - blind) % m) % m == (y - blind + value) % m) by {
        lemma_add_mod_noop_right(y, value - blind, m);
    }
}

/// The wire encoding of a sequence of canonical field values: eight bytes
/// each, big-endian, in order.
pub open spec fn encode_values(vals: Seq<int>) -> Seq<u8>
    decreases vals.len(),
{
    if vals.len() == 0 {
        Seq::empty()
    } else {
        encode_values(vals.drop_last()) + be_encode(vals.last() as nat, 8)
    }
}

/// An encoding to `n` digits has `n` bytes.
proof fn lemma_be_encode_len(v: nat, n: nat)
    ensures
        be_encode(v, n).len() == n,
    decreases n,
{
    if n > 0 {
        lemma_be_encode_len(v / 256, (n - 1) as nat);
    }
}

/// Reading back an encoding to `n` digits gives the value modulo `256^n`.
proof fn lemma_be_value_of_encode(v: nat, n: nat)
    ensures
        be_value(be_encode(v, n)) == v % pow(256, n) as nat,
    decreases n,
{
    if n == 0 {
        lemma_pow0(256);
        assert(v as int % 1 == 0) by (nonlinear_arith);
    } else {
        let q = pow(256, (n - 1) as nat);
        lemma_be_value_of_encode(v / 256, (n - 1) as nat);
        let s = be_encode(v, n);
        assert(s.drop_last() == be_encode(v / 256, (n - 1) as nat));
        assert(s.last() as nat == v % 256);
        lemma_pow_positive(256, (n - 1) as nat);
        lemma_mod_breakdown(v as int, 256, q);
        assert(pow(256, n) == 256 * q) by {
            lemma_pow_adds(256, 1, (n - 1) as nat);
            lemma_pow1(256);
        }
        assert(be_value(s) == ((v / 256) as int % q) * 256 + v % 256);
        lemma_mul_is_commutative((v / 256) as int % q, 256);
        assert(be_value(s) == v as int % (256 * q));
    }
}

/// The encoding of a sequence takes eight bytes per value.
proof fn lemma_encode_values_len(vals: Seq<int>)
    ensures
        encode_values(vals).len() == 8 * vals.len(),
    decreases vals.len(),
{
    if vals.len() > 0 {
        lemma_encode_values_len(vals.drop_last());
        lemma_be_encode_len(vals.last() as nat, 8);
    }
}

/// The `i`-th eight bytes of the encoding encode the `i`-th value.
proof fn lemma_encode_values_frame(vals: Seq<int>, i: int)
    requires
        0 <= i < vals.len(),
    ensures
        encode_values(vals).subrange(8 * i, 8 * i + 8) == be_encode(vals[i] as nat, 8),
    decreases vals.len(),
{
    let prefix = encode_values(vals.drop_last());
    lemma_encode_values_len(vals.drop_last());
    lemma_be_encode_len(vals.last() as nat, 8);
    if i < vals.len() - 1 {
        lemma_encode_values_frame(vals.drop_last(), i);
        assert(encode_values(vals).subrange(8 * i, 8 * i + 8) =~= prefix.subrange(8 * i, 8 * i + 8));
    } else {
        assert(encode_values(vals).subrange(8 * i, 8 * i + 8) =~= be_encode(vals.last() as nat, 8));
    }
}

/// Reading the wire encoding of values below 2^64 frame by frame gives the
/// values back: what a client encodes is what a tally reporter reads.
pub proof fn lemma_encoded_values_decode(vals: Seq<int>)
    requires
        forall|i: int| 0 <= i < vals.len() ==> 0 <= #[trigger] vals[i] < 0x1_0000_0000_0000_0000,
    ensures
        frame_values(encode_values(vals)) == vals,
{
    lemma_encode_values_len(vals);
    assert(pow(256, 8) == 0x1_0000_0000_0000_0000) by {
        reveal_with_fuel(pow, 9);
    }
    assert forall|i: int| 0 <= i < vals.len() implies #[trigger] frame_values(encode_values(vals))[i]
        == vals[i] by {
        lemma_encode_values_frame(vals, i);
        lemma_be_value_of_encode(vals[i] as nat, 8);
        lemma_small_mod(vals[i] as nat, pow(256, 8) as nat);
    }
    assert(frame_values(encode_values(vals)) =~= vals);
}

/// The encoding of `values` as they go on the wire: each canonical value
/// as eight big-endian bytes, in order.
pub fn encode_counters(values: &[FE]) -> (r: Vec<u8>)
    ensures
        r@ == encode_values(views(values@)),
        r@.len() == 8 * values@.len(),
{
    let mut encoded: Vec<u8> = Vec::new();
    let mut i: usize = 0;
    while i < values.len()
        invariant
            i <= values@.len(),
            encoded@ == encode_values(views(values@.subrange(0, i as int))),
        decreases values@.len() - i,
    {
        let bytes = write_be_u64(values[i].value());
        encoded.extend_from_slice(&bytes);
        proof {
            let s = values@.subrange(0, i as int + 1);
            assert(views(s).drop_last() =~= views(values@.subrange(0, i as int)));
        }
        i = i + 1;
    }
    assert(values@.subrange(0, values@.len() as int) =~= values@);
    proof {
        lemma_encode_values_len(views(values@));
    }
    encoded
}

/// Makes the seed for a tally reporter and encrypts it to the tally
/// reporter: returns the seed and its encryption.
fn new_seed(keys: &TrKeys, randomness: &TrRandomness) -> (r: Result<(Seed, Vec<u8>), &'static str>)
    ensures
        match r {
            Ok((seed, encrypted)) => seed@ == randomness.seed@ && encrypted@ == sealed(
                keys.enc_key@,
                keys.signing_key@,
                clamp(randomness.seed_encryption.ephemeral@),
                randomness.seed_encryption.salt@,
                SEED_ENCRYPTION_TWEAK.spec_bytes(),
                randomness.seed@,
            ),
            Err(_) => false,
        },
{
    let enc = PrivcountEncryptor::new(&keys.enc_key, &keys.signing_key);
    let encrypted = match enc.encrypt(
        &randomness.seed,
        SEED_ENCRYPTION_TWEAK.as_bytes(),
        &randomness.seed_encryption,
    ) {
        Ok(c) => c,
        Err(e) => return Err(e),
    };
    match Seed::from_bytes(&randomness.seed) {
        Ok(seed) => Ok((seed, encrypted)),
        Err(e) => Err(e),
    }
}

/// All that a client keeps about, or sends to, one tally reporter.
pub struct TrState {
    /// The tally reporter's keys.
    keys: TrKeys,
    /// The seed, encrypted to the tally reporter's public key.
    encrypted_seed: Vec<u8>,
    /// The X coordinate of the tally reporter's shares.
    x: FE,
    /// One blinded value for each counter. They reveal nothing without the
    /// seed.
    counters: Vec<FE>,
}

impl TrState {
    pub closed spec fn spec_keys(&self) -> TrKeys {
        self.keys
    }

    pub closed spec fn spec_encrypted_seed(&self) -> Seq<u8> {
        self.encrypted_seed@
    }

    pub closed spec fn spec_x(&self) -> FE {
        self.x
    }

    pub closed spec fn spec_counters(&self) -> Seq<FE> {
        self.counters@
    }

    /// The state for the tally reporter with keys `keys`, holding
    /// `n_counters` masks; fails when the seed does not yield them.
    fn new(keys: &TrKeys, n_counters: u32, randomness: &TrRandomness) -> (r: Result<
        TrState,
        &'static str,
    >)
        ensures
            match r {
                Ok(st) => masks_available(randomness.seed@, n_counters as nat) && st.spec_keys()
                    == *keys && st.spec_encrypted_seed() == sealed(
                    keys.enc_key@,
                    keys.signing_key@,
                    clamp(randomness.seed_encryption.ephemeral@),
                    randomness.seed_encryption.salt@,
                    SEED_ENCRYPTION_TWEAK.spec_bytes(),
                    randomness.seed@,
                ) && st.spec_x()@ == x_coord_of(keys.signing_key@) && views(st.spec_counters())
                    == masks_of(randomness.seed@, n_counters as nat),
                Err(_) => !masks_available(randomness.seed@, n_counters as nat),
            },
    {
        let (seed, encrypted_seed) = match new_seed(keys, randomness) {
            Ok(pair) => pair,
            Err(e) => return Err(e),
        };
        let counters = match seed.counter_masks(n_counters) {
            Ok(masks) => masks,
            Err(e) => return Err(e),
        };
        Ok(
            TrState {
                keys: TrKeys { enc_key: keys.enc_key, signing_key: keys.signing_key },
                encrypted_seed,
                x: keys.get_x_coord(),
                counters,
            },
        )
    }

    /// Encrypts the counters to the tally reporter and packs what it is
    /// sent.
    fn finalize(self, randomness: &EncryptionRandomness) -> (r: Result<TrData, &'static str>)
        ensures
            match r {
                Ok(d) => d.keys == self.spec_keys() && d.encrypted_seed@
                    == self.spec_encrypted_seed() && d.x == self.spec_x()
                    && d.encrypted_counters@ == sealed(
                    self.spec_keys().enc_key@,
                    self.spec_keys().signing_key@,
                    clamp(randomness.ephemeral@),
                    randomness.salt@,
                    Y_ENCRYPTION_TWEAK.spec_bytes(),
                    encode_values(views(self.spec_counters())),
                ) && d.encrypted_counters@.len() == 8 * self.spec_counters().len() + 80,
                Err(_) => false,
            },
    {
        let enc = PrivcountEncryptor::new(&self.keys.enc_key, &self.keys.signing_key);
        let encoded = encode_counters(self.counters.as_slice());
        let encrypted = match enc.encrypt(
            encoded.as_slice(),
            Y_ENCRYPTION_TWEAK.as_bytes(),
            randomness,
        ) {
            Ok(c) => c,
            Err(e) => return Err(e),
        };
        Ok(TrData::new(&self.keys, self.encrypted_seed, self.x, encrypted))
    }
}

/// A client's view of one counter.
///
/// The value is blinded: it conveys nothing without the tally reporters'
/// seeds. Values wrap at the prime, so no total may come close to it.
#[derive(Debug, Clone, Copy)]
pub struct Counter {
    id: CtrId,
    val: FE,
}

impl Counter {
    pub closed spec fn spec_id(&self) -> CtrId {
        self.id
    }

    pub closed spec fn spec_val(&self) -> FE {
        self.val
    }

    /// A counter with identifier `id` and value zero.
    fn new(id: CtrId) -> (r: Counter)
        ensures
            r.spec_id() == id,
            r.spec_val()@ == 0,
    {
        Counter { id, val: FE::zero() }
    }

    /// Adds `v` to this counter.
    pub fn inc(&mut self, v: u32)
        ensures
            final(self).spec_id() == old(self).spec_id(),
            final(self).spec_val()@ == field_add(old(self).spec_val()@, v as int),
    {
        self.val = self.val + FE::from(v);
    }

    /// Subtracts `v` from this counter.
    pub fn dec(&mut self, v: u32)
        ensures
            final(self).spec_id() == old(self).spec_id(),
            final(self).spec_val()@ == field_sub(old(self).spec_val()@, v as int),
    {
        self.val = self.val - FE::from(v);
    }
}

/// The blinds of the counters, keyed by identifier, as inserting them in
/// order leaves them: a later counter with the same identifier wins.
pub open spec fn blind_map(ids: Seq<CtrId>, blinds: Seq<int>, upto: int) -> Map<u32, int>
    decreases upto,
{
    if upto <= 0 {
        Map::empty()
    } else {
        blind_map(ids, blinds, upto - 1).insert(ids[upto - 1].0, blinds[upto - 1])
    }
}

/// Every identifier among the first `upto` is a key of the map.
proof fn lemma_blind_map_keys(ids: Seq<CtrId>, blinds: Seq<int>, upto: int)
    requires
        0 <= upto <= ids.len(),
    ensures
        forall|i: int|
            0 <= i < upto ==> #[trigger] blind_map(ids, blinds, upto).contains_key(ids[i].0),
    decreases upto,
{
    if upto > 0 {
        lemma_blind_map_keys(ids, blinds, upto - 1);
        assert forall|i: int| 0 <= i < upto implies #[trigger] blind_map(
            ids,
            blinds,
            upto,
        ).contains_key(ids[i].0) by {
            if i < upto - 1 {
                assert(blind_map(ids, blinds, upto - 1).contains_key(ids[i].0));
            }
        }
    }
}

/// How many random coefficients a sharing polynomial for threshold `k`
/// takes: `k - 1`, and none when `k` is zero.
pub open spec fn coefficient_count(k: u32) -> nat {
    if k == 0 {
        0
    } else {
        (k - 1) as nat
    }
}

/// The blinds drawn for the counters.
pub open spec fn blinds_of(rand: Seq<CounterRandomness>) -> Seq<int> {
    rand.map_values(|c: CounterRandomness| c.blind@)
}

/// The inputs on which a counter set can be made: sizes within bounds,
/// every seed yields its masks, `1 <= k <= n_trs <= MAX_SHARES`, and no tally
/// reporter's X coordinate is zero.
pub open spec fn counter_set_possible(
    counter_ids: Seq<CtrId>,
    tr_ids: Seq<TrKeys>,
    k: u32,
    tr_randomness: Seq<TrRandomness>,
) -> bool {
    &&& counter_ids.len() <= u32::MAX
    &&& tr_ids.len() <= u32::MAX
    &&& forall|j: int|
        0 <= j < tr_ids.len() ==> masks_available(
            #[trigger] tr_randomness[j].seed@,
            counter_ids.len(),
        )
    &&& 1 <= k <= tr_ids.len() <= crate::shamir::MAX_SHARES
    &&& forall|j: int| 0 <= j < tr_ids.len() ==> x_coord_of(#[trigger] tr_ids[j].signing_key@) != 0
}

/// The tally reporter states hold the keys, encrypted seed and X
/// coordinate that belong to `tr_ids` and `tr_randomness`, and `n` values.
pub open spec fn states_prepared(
    states: Seq<TrState>,
    tr_ids: Seq<TrKeys>,
    tr_randomness: Seq<TrRandomness>,
    n: nat,
) -> bool {
    forall|jj: int|
        0 <= jj < states.len() ==> {
            let st = #[trigger] states[jj];
            let rand = tr_randomness[jj];
            &&& st.spec_keys() == tr_ids[jj]
            &&& st.spec_encrypted_seed() == sealed(
                tr_ids[jj].enc_key@,
                tr_ids[jj].signing_key@,
                clamp(rand.seed_encryption.ephemeral@),
                rand.seed_encryption.salt@,
                SEED_ENCRYPTION_TWEAK.spec_bytes(),
                rand.seed@,
            )
            &&& st.spec_x()@ == x_coord_of(tr_ids[jj].signing_key@)
            &&& st.spec_counters().len() == n
        }
}

/// The values that a tally reporter is sent: each blinded value plus the
/// value of the counter whose identifier stands at its position.
pub open spec fn reported_values(
    blinded: Seq<FE>,
    ids: Seq<CtrId>,
    counters: Map<u32, Counter>,
) -> Seq<int> {
    Seq::new(blinded.len(), |i: int| field_add(blinded[i]@, counters[ids[i].0].spec_val()@))
}

/// A client's view of all of its counters.
pub struct CounterSet {
    /// The identifiers of the counters, in order.
    counter_ids: Vec<CtrId>,
    /// The counters, keyed by the number inside their identifier.
    counters: HashMap<u32, Counter>,
    /// The state for each tally reporter, each with one value per counter.
    tr_states: Vec<TrState>,
}

impl CounterSet {
    pub closed spec fn spec_counter_ids(&self) -> Seq<CtrId> {
        self.counter_ids@
    }

    pub closed spec fn spec_counters(&self) -> Map<u32, Counter> {
        self.counters@
    }

    pub closed spec fn spec_tr_states(&self) -> Seq<TrState> {
        self.tr_states@
    }

    /// Every listed counter is present, and every tally reporter holds one
    /// value per counter.
    pub open spec fn wf(&self) -> bool {
        &&& forall|i: int|
            0 <= i < self.spec_counter_ids().len() ==> self.spec_counters().contains_key(
                (#[trigger] self.spec_counter_ids()[i]).0,
            )
        &&& forall|j: int|
            0 <= j < self.spec_tr_states().len() ==> (#[trigger] self.spec_tr_states()[j]).spec_counters().len()
                == self.spec_counter_ids().len()
    }

    /// A counter set for the counters `counter_ids`, shared among the tally
    /// reporters `tr_ids` so that any `k` of them can recover the totals.
    ///
    /// For each tally reporter, a seed is encrypted to it and expanded into
    /// one mask per counter. For each counter, zero is split into shares at
    /// the tally reporters' X coordinates, and each tally reporter's value
    /// is its share minus its mask minus the counter's blind.
    pub fn new(
        counter_ids: &[CtrId],
        tr_ids: &[TrKeys],
        k: u32,
        tr_randomness: &[TrRandomness],
        counter_randomness: &[CounterRandomness],
    ) -> (r: Result<CounterSet, &'static str>)
        requires
            tr_randomness@.len() == tr_ids@.len(),
            counter_randomness@.len() == counter_ids@.len(),
            forall|i: int|
                0 <= i < counter_randomness@.len() ==> (
                #[trigger] counter_randomness@[i]).coefficients@.len() == coefficient_count(k),
        ensures
            match r {
                Ok(cs) => {
                    &&& counter_set_possible(counter_ids@, tr_ids@, k, tr_randomness@)
                    &&& cs.wf()
                    &&& cs.spec_counter_ids() == counter_ids@
                    &&& cs.spec_tr_states().len() == tr_ids@.len()
                    &&& forall|j: int|
                        0 <= j < tr_ids@.len() ==> {
                            let st = #[trigger] cs.spec_tr_states()[j];
                            let rand = tr_randomness@[j];
                            &&& st.spec_keys() == tr_ids@[j]
                            &&& st.spec_encrypted_seed() == sealed(
                                tr_ids@[j].enc_key@,
                                tr_ids@[j].signing_key@,
                                clamp(rand.seed_encryption.ephemeral@),
                                rand.seed_encryption.salt@,
                                SEED_ENCRYPTION_TWEAK.spec_bytes(),
                                rand.seed@,
                            )
                            &&& st.spec_x()@ == x_coord_of(tr_ids@[j].signing_key@)
                            &&& forall|i: int|
                                0 <= i < counter_ids@.len() ==> (#[trigger] st.spec_counters()[i])@
                                    == blinded_entry(
                                    counter_randomness@[i].coefficients@,
                                    st.spec_x()@,
                                    masks_of(rand.seed@, counter_ids@.len())[i],
                                    counter_randomness@[i].blind@,
                                )
                        }
                    &&& cs.spec_counters().dom() == blind_map(
                        counter_ids@,
                        blinds_of(counter_randomness@),
                        counter_ids@.len() as int,
                    ).dom()
                    &&& forall|key: u32|
                        #[trigger] cs.spec_counters().contains_key(key) ==> cs.spec_counters()[key].spec_id().0
                            == key && cs.spec_counters()[key].spec_val()@ == blind_map(
                            counter_ids@,
                            blinds_of(counter_randomness@),
                            counter_ids@.len() as int,
                        )[key]
                },
                Err(_) => !counter_set_possible(counter_ids@, tr_ids@, k, tr_randomness@),
            },
    {
        if counter_ids.len() > u32::MAX as usize {
            return Err("Too many counters.");
        }
        if tr_ids.len() > u32::MAX as usize {
            return Err("Too many tr_ids.");
        }
        let mut ids: Vec<CtrId> = Vec::new();
        ids.extend_from_slice(counter_ids);
        assert(ids@ =~= counter_ids@);
        let n_counters = counter_ids.len() as u32;
        let n_trs = tr_ids.len() as u32;
        let ghost n = counter_ids@.len();

        // One state per tally reporter, holding its masks.
        let mut tr_states: Vec<TrState> = Vec::new();
        let mut j: usize = 0;
        while j < tr_ids.len()
            invariant
                n == counter_ids@.len(),
                n_counters == n,
                tr_randomness@.len() == tr_ids@.len(),
                j <= tr_ids@.len(),
                tr_states@.len() == j,
                forall|jj: int|
                    0 <= jj < j ==> masks_available(#[trigger] tr_randomness@[jj].seed@, n),
                states_prepared(tr_states@, tr_ids@, tr_randomness@, n),
                forall|jj: int|
                    0 <= jj < j ==> views(#[trigger] tr_states@[jj].spec_counters()) == masks_of(
                        tr_randomness@[jj].seed@,
                        n,
                    ),
            decreases tr_ids@.len() - j,
        {
            let st = match TrState::new(&tr_ids[j], n_counters, &tr_randomness[j]) {
                Ok(st) => st,
                Err(e) => return Err(e),
            };
            tr_states.push(st);
            proof {
                assert(views(st.spec_counters()).len() == st.spec_counters().len());
            }
            j = j + 1;
        }
        let ghost masks = Seq::new(
            tr_states@.len(),
            |jj: int| masks_of(tr_randomness@[jj].seed@, n),
        );
        proof {
            assert forall|jj: int, i: int|
                0 <= jj < tr_states@.len() && 0 <= i < n implies (
                #[trigger] tr_states@[jj].spec_counters()[i])@ == masks[jj][i] by {
                assert(views(tr_states@[jj].spec_counters())[i] == masks[jj][i]);
            }
        }

        // The sharing parameters: one X coordinate per tally reporter.
        let mut builder = match ParamBuilder::new(k, n_trs) {
            Ok(b) => b,
            Err(e) => return Err(e),
        };
        let mut j: usize = 0;
        while j < tr_states.len()
            invariant
                j <= tr_states@.len(),
                n == counter_ids@.len(),
                tr_states@.len() == tr_ids@.len(),
                states_prepared(tr_states@, tr_ids@, tr_randomness@, n),
                forall|jj: int|
                    0 <= jj < tr_ids@.len() ==> masks_available(#[trigger] tr_randomness@[jj].seed@, n),
                masks.len() == tr_states@.len(),
                forall|jj: int|
                    0 <= jj < tr_states@.len() ==> (#[trigger] masks[jj]).len() == n,
                forall|jj: int, i: int|
                    0 <= jj < tr_states@.len() && 0 <= i < n ==> (#[trigger] tr_states@[jj].spec_counters()[i])@
                        == masks[jj][i],
                builder.params().spec_n() == tr_states@.len(),
                builder.wf(),
                builder.params().spec_k() == k,
                builder.params().spec_x_coordinates().len() == j,
                forall|jj: int|
                    0 <= jj < j ==> #[trigger] builder.params().spec_x_coordinates()[jj]
                        == tr_states@[jj].spec_x(),
            decreases tr_states@.len() - j,
        {
            builder.add_x_coordinate(&tr_states[j].x);
            j = j + 1;
        }
        let shamir_params = match builder.finalize() {
            Ok(p) => p,
            Err(e) => {
                proof {
                    let xs = builder.params().spec_x_coordinates();
                    if builder.params().spec_x_coordinates().len() == builder.params().spec_n() {
                        let jj = choose|jj: int| 0 <= jj < xs.len() && #[trigger] xs[jj]@ == 0;
                        assert(tr_states@[jj].spec_x()@ == 0);
                    }
                }
                return Err(e);
            },
        };
        proof {
            assert forall|jj: int| 0 <= jj < tr_ids@.len() implies x_coord_of(
                #[trigger] tr_ids@[jj].signing_key@,
            ) != 0 by {
                assert(shamir_params.spec_x_coordinates()[jj]@ != 0);
            }
        }

        // Blind each counter for each tally reporter.
        let mut counters: HashMap<u32, Counter> = HashMap::new();
        let mut idx: usize = 0;
        while idx < ids.len()
            invariant
                n == counter_ids@.len(),
                ids@ == counter_ids@,
                counter_randomness@.len() == n,
                forall|i: int|
                    0 <= i < counter_randomness@.len() ==> (
                    #[trigger] counter_randomness@[i]).coefficients@.len() == coefficient_count(k),
                states_prepared(tr_states@, tr_ids@, tr_randomness@, n),
                forall|jj: int|
                    0 <= jj < tr_ids@.len() ==> masks_available(#[trigger] tr_randomness@[jj].seed@, n),
                forall|jj: int|
                    0 <= jj < tr_ids@.len() ==> x_coord_of(#[trigger] tr_ids@[jj].signing_key@) != 0,
                forall|jj: int|
                    0 <= jj < tr_states@.len() ==> #[trigger] masks[jj] == masks_of(tr_randomness@[jj].seed@, n),
                counter_ids@.len() <= u32::MAX,
                tr_ids@.len() <= u32::MAX,
                1 <= k <= tr_ids@.len() <= crate::shamir::MAX_SHARES,
                shamir_params.wf(),
                shamir_params.spec_k() == k,
                shamir_params.spec_x_coordinates().len() == tr_states@.len(),
                tr_states@.len() == tr_ids@.len(),
                masks.len() == tr_states@.len(),
                forall|jj: int|
                    0 <= jj < tr_states@.len() ==> #[trigger] shamir_params.spec_x_coordinates()[jj]
                        == tr_states@[jj].spec_x(),
                idx <= n,
                forall|jj: int|
                    0 <= jj < tr_states@.len() ==> (#[trigger] masks[jj]).len() == n,
                forall|jj: int, i: int|
                    0 <= jj < tr_states@.len() && 0 <= i < n ==> (#[trigger] tr_states@[jj].spec_counters()[i])@
                        == if i < idx {
                        blinded_entry(
                            counter_randomness@[i].coefficients@,
                            tr_states@[jj].spec_x()@,
                            masks[jj][i],
                            counter_randomness@[i].blind@,
                        )
                    } else {
                        masks[jj][i]
                    },
                forall|jj: int|
                    0 <= jj < tr_states@.len() ==> (#[trigger] tr_states@[jj]).spec_counters().len()
                        == n,
                counters@.dom() == blind_map(counter_ids@, blinds_of(counter_randomness@), idx as int).dom(),
                forall|key: u32|
                    #[trigger] counters@.contains_key(key) ==> counters@[key].spec_id().0 == key
                        && counters@[key].spec_val()@ == blind_map(
                        counter_ids@,
                        blinds_of(counter_randomness@),
                        idx as int,
                    )[key],
            decreases n - idx,
        {
            let cid = ids[idx];
            let mut counter = Counter::new(cid);
            // The shared value: zero, so far without noise.
            let noise = FE::new(0);
            let shares = shamir_params.share_secret(noise, &counter_randomness[idx].coefficients);
            if shares.len() != tr_states.len() {
                return Err("Internal error: incorrect number of shares generated.");
            }
            counter.val = counter_randomness[idx].blind;
            proof {
                assert(views(counter_randomness@[idx as int].coefficients@.push(noise)) =~= views(
                    counter_randomness@[idx as int].coefficients@,
                ).push(0));
            }

            let mut j: usize = 0;
            while j < tr_states.len()
                invariant
                    n == counter_ids@.len(),
                    idx < n,
                    shares@.len() == tr_states@.len(),
                    masks.len() == tr_states@.len(),
                    counter.val == counter_randomness@[idx as int].blind,
                    shamir_params.spec_x_coordinates().len() == tr_states@.len(),
                    forall|jj: int|
                        0 <= jj < tr_states@.len() ==> #[trigger] shamir_params.spec_x_coordinates()[jj]
                            == tr_states@[jj].spec_x(),
                    forall|jj: int|
                        0 <= jj < shares@.len() ==> (#[trigger] shares@[jj]).x
                            == shamir_params.spec_x_coordinates()[jj] && shares@[jj].y@ == poly_at(
                            views(counter_randomness@[idx as int].coefficients@).push(0),
                            shares@[jj].x@,
                        ),
                    j <= tr_states@.len(),
                    states_prepared(tr_states@, tr_ids@, tr_randomness@, n),
                    forall|jj: int|
                        0 <= jj < tr_states@.len() ==> (#[trigger] masks[jj]).len() == n,
                    forall|jj: int, i: int|
                        0 <= jj < tr_states@.len() && 0 <= i < n ==> (#[trigger] tr_states@[jj].spec_counters()[i])@
                            == if i < idx || (i == idx && jj < j) {
                            blinded_entry(
                                counter_randomness@[i].coefficients@,
                                tr_states@[jj].spec_x()@,
                                masks[jj][i],
                                counter_randomness@[i].blind@,
                            )
                        } else {
                            masks[jj][i]
                        },
                    forall|jj: int|
                        0 <= jj < tr_states@.len() ==> (#[trigger] tr_states@[jj]).spec_counters().len()
                            == n,
                decreases tr_states@.len() - j,
            {
                let share = shares[j];
                if share.x != tr_states[j].x {
                    return Err("Internal error: mismatched share generated.");
                }
                let mask = tr_states[j].counters[idx];
                let blinded = share.y - mask - counter.val;
                tr_states[j].counters[idx] = blinded;
                j = j + 1;
            }
            counters.insert(cid.0, counter);
            proof {
                assert(blinds_of(counter_randomness@)[idx as int] == counter_randomness@[idx as int].blind@);
            }
            idx = idx + 1;
        }

        let cs = CounterSet { counter_ids: ids, counters, tr_states };
        proof {
            lemma_blind_map_keys(counter_ids@, blinds_of(counter_randomness@), n as int);
            assert(cs.wf());
        }
        Ok(cs)
    }

    /// Number of tally reporters that the counters are shared among.
    pub fn n_trs(&self) -> (r: usize)
        ensures
            r == self.spec_tr_states().len(),
    {
        self.tr_states.len()
    }

    /// The counter with identifier `ctr_id`, if there is one, to be changed
    /// in place.
    pub fn ctr(&mut self, ctr_id: CtrId) -> (r: Option<&mut Counter>)
        ensures
            final(self).spec_counter_ids() == old(self).spec_counter_ids(),
            final(self).spec_tr_states() == old(self).spec_tr_states(),
            match r {
                Some(c) => {
                    &&& old(self).spec_counters().contains_key(ctr_id.0)
                    &&& *c == old(self).spec_counters()[ctr_id.0]
                    &&& final(self).spec_counters() == old(self).spec_counters().insert(ctr_id.0, *final(c))
                },
                None => {
                    &&& !old(self).spec_counters().contains_key(ctr_id.0)
                    &&& final(self).spec_counters() == old(self).spec_counters()
                },
            },
    {
        match self.counters.entry(ctr_id.0) {
            Entry::Occupied(o) => Some(o.into_mut()),
            Entry::Vacant(_) => None,
        }
    }

    /// Adds each counter's value into every tally reporter's blinded value
    /// for it, then encrypts each tally reporter's values to it: the data
    /// to send, one part per tally reporter.
    pub fn finalize(self, randomness: &[EncryptionRandomness]) -> (r: Result<
        CounterData,
        &'static str,
    >)
        requires
            self.wf(),
            randomness@.len() == self.spec_tr_states().len(),
        ensures
            match r {
                Ok(d) => {
                    &&& d.counter_ids@ == self.spec_counter_ids()
                    &&& d.tr_data@.len() == self.spec_tr_states().len()
                    &&& forall|j: int|
                        0 <= j < d.tr_data@.len() ==> {
                            let st = self.spec_tr_states()[j];
                            let td = #[trigger] d.tr_data@[j];
                            &&& td.keys == st.spec_keys()
                            &&& td.encrypted_seed@ == st.spec_encrypted_seed()
                            &&& td.x == st.spec_x()
                            &&& td.encrypted_counters@ == sealed(
                                st.spec_keys().enc_key@,
                                st.spec_keys().signing_key@,
                                clamp(randomness@[j].ephemeral@),
                                randomness@[j].salt@,
                                Y_ENCRYPTION_TWEAK.spec_bytes(),
                                encode_values(
                                    reported_values(
                                        st.spec_counters(),
                                        self.spec_counter_ids(),
                                        self.spec_counters(),
                                    ),
                                ),
                            )
                            &&& td.encrypted_counters@.len() == 8 * self.spec_counter_ids().len() + 80
                        }
                },
                Err(_) => false,
            },
    {
        proof {
            assert forall|i: int| 0 <= i < self.counter_ids@.len() implies self.counters@.contains_key(
                (#[trigger] self.counter_ids@[i]).0,
            ) by {
                assert(self.spec_counter_ids()[i] == self.counter_ids@[i]);
            }
            assert forall|jj: int| 0 <= jj < self.tr_states@.len() implies (
            #[trigger] self.tr_states@[jj]).spec_counters().len() == self.counter_ids@.len() by {
                assert(self.spec_tr_states()[jj] == self.tr_states@[jj]);
            }
        }
        let CounterSet { counter_ids, counters, mut tr_states } = self;
        let ghost n = counter_ids@.len();
        let ghost states0 = tr_states@;
        let mut idx: usize = 0;
        while idx < counter_ids.len()
            invariant
                n == counter_ids@.len(),
                idx <= n,
                tr_states@.len() == states0.len(),
                forall|i: int|
                    0 <= i < n ==> counters@.contains_key((#[trigger] counter_ids@[i]).0),
                forall|jj: int|
                    0 <= jj < states0.len() ==> (#[trigger] states0[jj]).spec_counters().len() == n,
                forall|jj: int|
                    0 <= jj < states0.len() ==> {
                        let st = #[trigger] tr_states@[jj];
                        &&& st.spec_keys() == states0[jj].spec_keys()
                        &&& st.spec_encrypted_seed() == states0[jj].spec_encrypted_seed()
                        &&& st.spec_x() == states0[jj].spec_x()
                        &&& st.spec_counters().len() == n
                    },
                forall|jj: int, i: int|
                    0 <= jj < states0.len() && 0 <= i < n ==> (#[trigger] tr_states@[jj].spec_counters()[i])@
                        == if i < idx {
                        reported_values(states0[jj].spec_counters(), counter_ids@, counters@)[i]
                    } else {
                        states0[jj].spec_counters()[i]@
                    },
            decreases n - idx,
        {
            let counter = match counters.get(&counter_ids[idx].0) {
                Some(c) => *c,
                None => return Err("Internal error: missing counter."),
            };
            let mut j: usize = 0;
            while j < tr_states.len()
                invariant
                    n == counter_ids@.len(),
                    idx < n,
                    j <= tr_states@.len(),
                    tr_states@.len() == states0.len(),
                    counter == counters@[counter_ids@[idx as int].0],
                    forall|jj: int|
                        0 <= jj < states0.len() ==> (#[trigger] states0[jj]).spec_counters().len() == n,
                    forall|jj: int|
                        0 <= jj < states0.len() ==> {
                            let st = #[trigger] tr_states@[jj];
                            &&& st.spec_keys() == states0[jj].spec_keys()
                            &&& st.spec_encrypted_seed() == states0[jj].spec_encrypted_seed()
                            &&& st.spec_x() == states0[jj].spec_x()
                            &&& st.spec_counters().len() == n
                        },
                    forall|jj: int, i: int|
                        0 <= jj < states0.len() && 0 <= i < n ==> (#[trigger] tr_states@[jj].spec_counters()[i])@
                            == if i < idx || (i == idx && jj < j) {
                            reported_values(states0[jj].spec_counters(), counter_ids@, counters@)[i]
                        } else {
                            states0[jj].spec_counters()[i]@
                        },
                decreases tr_states@.len() - j,
            {
                let updated = tr_states[j].counters[idx] + counter.val;
                tr_states[j].counters[idx] = updated;
                j = j + 1;
            }
            idx = idx + 1;
        }

        let ghost states1 = tr_states@;
        let n_trs = tr_states.len();
        let mut tr_data: Vec<TrData> = Vec::new();
        let mut j: usize = 0;
        while j < n_trs
            invariant
                n_trs == states0.len(),
                n == counter_ids@.len(),
                j <= states0.len(),
                randomness@.len() == states0.len(),
                states1.len() == states0.len(),
                tr_states@ == states1.subrange(j as int, states1.len() as int),
                tr_data@.len() == j,
                forall|jj: int|
                    0 <= jj < states0.len() ==> {
                        let st = #[trigger] states1[jj];
                        &&& st.spec_keys() == states0[jj].spec_keys()
                        &&& st.spec_encrypted_seed() == states0[jj].spec_encrypted_seed()
                        &&& st.spec_x() == states0[jj].spec_x()
                        &&& views(st.spec_counters()) == reported_values(
                            states0[jj].spec_counters(),
                            counter_ids@,
                            counters@,
                        )
                    },
                forall|jj: int|
                    0 <= jj < j ==> {
                        let st = states0[jj];
                        let td = #[trigger] tr_data@[jj];
                        &&& td.keys == st.spec_keys()
                        &&& td.encrypted_seed@ == st.spec_encrypted_seed()
                        &&& td.x == st.spec_x()
                        &&& td.encrypted_counters@ == sealed(
                            st.spec_keys().enc_key@,
                            st.spec_keys().signing_key@,
                            clamp(randomness@[jj].ephemeral@),
                            randomness@[jj].salt@,
                            Y_ENCRYPTION_TWEAK.spec_bytes(),
                            encode_values(
                                reported_values(st.spec_counters(), counter_ids@, counters@),
                            ),
                        )
                        &&& td.encrypted_counters@.len() == 8 * n + 80
                    },
                forall|jj: int|
                    0 <= jj < states0.len() ==> (#[trigger] states0[jj]).spec_counters().len() == n,
            decreases states0.len() - j,
        {
            let state = tr_states.remove(0);
            assert(state == states1[j as int]);
            let data = match state.finalize(&randomness[j]) {
                Ok(d) => d,
                Err(e) => return Err(e),
            };
            tr_data.push(data);
            j = j + 1;
        }
        Ok(CounterData::new(counter_ids, tr_data))
    }
}

} // verus!
