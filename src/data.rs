//! Data structures shared by clients and tally reporters.
use crate::math::{p, views, FE};
use crate::primitives::{be_value, read_be_u64, shake256, shake256_of};
use vstd::prelude::*;

verus! {

/// A mostly opaque identifier for a single counter.
///
/// Semantically distinct counters must have different identifiers.
#[derive(Debug, Clone, Copy, PartialEq, Eq, Hash)]
pub struct CtrId(pub u32);

/// The key material of a single client.
#[derive(Debug, Clone, Copy, PartialEq, Eq, Hash)]
pub struct ClientKey {
    /// The Ed25519 key with which the client signs its messages.
    pub signing_key: [u8; 32],
}

/// The key material of a tally reporter, as a client sees it.
#[derive(Debug, Clone, Copy, Hash)]
pub struct TrKeys {
    /// The Curve25519 key to which results for the tally reporter are encrypted.
    pub enc_key: [u8; 32],
    /// The tally reporter's long-term Ed25519 signing key.
    pub signing_key: [u8; 32],
}

/// The data that a client sends to one tally reporter.
pub struct TrData {
    /// The keys of the tally reporter that receives the data.
    pub keys: TrKeys,
    /// A SHAKE-256 seed, encrypted to the tally reporter's public key.
    pub encrypted_seed: Vec<u8>,
    /// The X coordinate of every share sent to this tally reporter.
    pub x: FE,
    /// The encrypted Y coordinates of the shares, in the order of the
    /// `counter_ids` of the enclosing `CounterData`.
    pub encrypted_counters: Vec<u8>,
}

/// All the data that a client sends.
pub struct CounterData {
    /// The counters that the client reports.
    pub counter_ids: Vec<CtrId>,
    /// The data for each tally reporter that receives shares.
    pub tr_data: Vec<TrData>,
}

/// Largest number of counters supported.
pub const MAX_COUNTERS: u32 = 268435456;

/// Tweak used when encrypting a seed; its ASCII bytes are bound into the
/// key derivation.
pub const SEED_ENCRYPTION_TWEAK: &'static str = "privctr-seed-v1";

/// Tweak used when encrypting the Y coordinates; its ASCII bytes are bound
/// into the key derivation.
pub const Y_ENCRYPTION_TWEAK: &'static str = "privctr-shares-v1";

/// Length of a raw seed.
pub const SEED_LEN: usize = 32;

/// Whether two byte strings are equal.
fn bytes_equal(a: &[u8], b: &[u8]) -> (r: bool)
    ensures
        r == (a@ == b@),
{
    if a.len() != b.len() {
        return false;
    }
    let mut i: usize = 0;
    while i < a.len()
        invariant
            a@.len() == b@.len(),
            i <= a@.len(),
            forall|j: int| 0 <= j < i ==> a@[j] == b@[j],
        decreases a@.len() - i,
    {
        if a[i] != b[i] {
            return false;
        }
        i = i + 1;
    }
    assert(a@ =~= b@);
    true
}

impl PartialEq for TrKeys {
    fn eq(&self, other: &TrKeys) -> (r: bool) {
        bytes_equal(&self.enc_key, &other.enc_key) && bytes_equal(
            &self.signing_key,
            &other.signing_key,
        )
    }
}

impl vstd::std_specs::cmp::PartialEqSpecImpl for TrKeys {
    open spec fn obeys_eq_spec() -> bool {
        true
    }

    open spec fn eq_spec(&self, other: &TrKeys) -> bool {
        self.enc_key@ == other.enc_key@ && self.signing_key@ == other.signing_key@
    }
}

impl Eq for TrKeys {

}

/// The X coordinate that belongs to a tally reporter's signing key: its
/// first eight bytes, big-endian, as a field element.
pub open spec fn x_coord_of(signing_key: Seq<u8>) -> int {
    be_value(signing_key.subrange(0, 8)) as int % p()
}

impl TrKeys {
    /// The X coordinate of this tally reporter's shares.
    ///
    /// It comes from the public signing key, so that every client uses the
    /// same one for this tally reporter.
    pub fn get_x_coord(&self) -> (r: FE)
        ensures
            r@ == x_coord_of(self.signing_key@),
    {
        FE::new(read_be_u64(&self.signing_key))
    }
}

impl CounterData {
    /// A new CounterData from its parts.
    pub fn new(counter_ids: Vec<CtrId>, tr_data: Vec<TrData>) -> (r: CounterData)
        ensures
            r.counter_ids == counter_ids,
            r.tr_data == tr_data,
    {
        CounterData { counter_ids, tr_data }
    }
}

impl TrData {
    /// A new TrData from its parts.
    pub fn new(keys: &TrKeys, encrypted_seed: Vec<u8>, x: FE, encrypted_counters: Vec<u8>) -> (r:
        TrData)
        ensures
            r.keys.enc_key == keys.enc_key,
            r.keys.signing_key == keys.signing_key,
            r.encrypted_seed == encrypted_seed,
            r.x == x,
            r.encrypted_counters == encrypted_counters,
    {
        TrData {
            keys: TrKeys { enc_key: keys.enc_key, signing_key: keys.signing_key },
            encrypted_seed,
            x,
            encrypted_counters,
        }
    }
}

/// The big-endian values of the successive 8-byte frames of `s`; a
/// shorter tail is ignored.
pub open spec fn frame_values(s: Seq<u8>) -> Seq<int> {
    Seq::new(s.len() / 8, |i: int| be_value(s.subrange(8 * i, 8 * i + 8)) as int)
}

/// The frame values below the prime among the first `k` frames of `s`, in
/// order.
pub open spec fn accepted_prefix(s: Seq<u8>, k: int) -> Seq<int>
    decreases k,
{
    if k <= 0 {
        Seq::empty()
    } else {
        let v = frame_values(s)[k - 1];
        if v < p() {
            accepted_prefix(s, k - 1).push(v)
        } else {
            accepted_prefix(s, k - 1)
        }
    }
}

/// The frame values below the prime among all the frames of `s`, in order.
pub open spec fn accepted_frames(s: Seq<u8>) -> Seq<int> {
    accepted_prefix(s, s.len() as int / 8)
}

/// The SHAKE-256 stream from which `n` masks are drawn: `(n + 4) * 9`
/// bytes, enough with overwhelming probability.
pub open spec fn mask_stream(seed: Seq<u8>, n: nat) -> Seq<u8> {
    shake256_of(seed, (n + 4) * 9)
}

/// The masks that a seed yields for `n` counters.
pub open spec fn masks_of(seed: Seq<u8>, n: nat) -> Seq<int> {
    accepted_frames(mask_stream(seed, n)).take(n as int)
}

/// Whether a seed yields `n` masks: `n` is at most `MAX_COUNTERS` and the
/// stream holds enough acceptable frames.
pub open spec fn masks_available(seed: Seq<u8>, n: nat) -> bool {
    n <= MAX_COUNTERS && accepted_frames(mask_stream(seed, n)).len() >= n
}

/// `a` is a prefix of `b`.
pub open spec fn is_prefix(a: Seq<int>, b: Seq<int>) -> bool {
    a.len() <= b.len() && b.subrange(0, a.len() as int) == a
}

/// The accepted values of a shorter prefix of frames come first among
/// those of a longer one.
proof fn lemma_accepted_prefix_grows(s: Seq<u8>, k: int, m: int)
    requires
        0 <= k <= m <= s.len() as int / 8,
    ensures
        is_prefix(accepted_prefix(s, k), accepted_prefix(s, m)),
    decreases m - k,
{
    if k < m {
        lemma_accepted_prefix_grows(s, k, m - 1);
        let a = accepted_prefix(s, k);
        let b = accepted_prefix(s, m - 1);
        let c = accepted_prefix(s, m);
        assert(c.subrange(0, a.len() as int) =~= b.subrange(0, a.len() as int));
    } else {
        assert(accepted_prefix(s, k).subrange(0, accepted_prefix(s, k).len() as int)
            =~= accepted_prefix(s, k));
    }
}

/// The first `n_masks` masks in `stream`: the successive 8-byte frames read
/// big-endian, with every value not below the prime discarded (rejection
/// sampling, so that no mask is biased). Fails when the stream holds fewer
/// acceptable frames.
pub fn masks_from_stream(stream: &[u8], n_masks: usize) -> (r: Result<Vec<FE>, &'static str>)
    ensures
        match r {
            Ok(masks) => accepted_frames(stream@).len() >= n_masks && views(masks@)
                == accepted_frames(stream@).take(n_masks as int),
            Err(e) => accepted_frames(stream@).len() < n_masks && e
                == "Too many masks were out of range.",
        },
{
    let ghost s = stream@;
    let ghost nframes: int = s.len() as int / 8;
    let mut result: Vec<FE> = Vec::new();
    let mut pos: usize = 0;
    while result.len() < n_masks
        invariant
            s == stream@,
            nframes == s.len() as int / 8,
            pos % 8 == 0,
            pos <= s.len(),
            pos as int / 8 <= nframes,
            result@.len() <= n_masks,
            views(result@) == accepted_prefix(s, pos as int / 8),
        decreases s.len() - pos,
    {
        if stream.len() - pos < 8 {
            proof {
                assert(pos as int / 8 == nframes);
            }
            return Err("Too many masks were out of range.");
        }
        let frame = &stream[pos..pos + 8];
        let v64 = read_be_u64(frame);
        let ghost k: int = pos as int / 8;
        proof {
            let f = frame_values(s);
            assert(frame@.subrange(0, 8) =~= s.subrange(8 * k, 8 * k + 8));
            assert(v64 as int == f[k]);
        }
        match FE::from_reduced(v64) {
            Some(elt) => {
                result.push(elt);
                proof {
                    assert(views(result@) =~= accepted_prefix(s, k).push(v64 as int));
                }
            },
            None => {},
        }
        pos = pos + 8;
        assert(pos as int / 8 == k + 1);
    }
    proof {
        lemma_accepted_prefix_grows(s, pos as int / 8, nframes);
        assert(accepted_frames(s).take(n_masks as int) =~= accepted_prefix(s, pos as int / 8));
    }
    Ok(result)
}

/// A random seed, extended with SHAKE-256 into one mask for each counter.
pub struct Seed(Vec<u8>);

impl Seed {
    pub closed spec fn view(&self) -> Seq<u8> {
        self.0@
    }

    /// A seed made of `SEED_LEN` random bytes; fails on any other length.
    pub fn from_bytes(bytes: &[u8]) -> (r: Result<Seed, &'static str>)
        ensures
            match r {
                Ok(seed) => bytes@.len() == SEED_LEN && seed@ == bytes@,
                Err(e) => bytes@.len() != SEED_LEN && e == "Incorrect seed length.",
            },
    {
        if bytes.len() == SEED_LEN {
            let mut v: Vec<u8> = Vec::new();
            v.extend_from_slice(bytes);
            assert(v@ =~= bytes@);
            Ok(Seed(v))
        } else {
            Err("Incorrect seed length.")
        }
    }

    /// `n_masks` counter masks derived from this seed.
    ///
    /// The masks blind the counters with values that only the holder of
    /// the seed can recompute.
    pub fn counter_masks(self, n_masks: u32) -> (r: Result<Vec<FE>, &'static str>)
        ensures
            match r {
                Ok(masks) => n_masks <= MAX_COUNTERS && accepted_frames(
                    mask_stream(self@, n_masks as nat),
                ).len() >= n_masks && views(masks@) == accepted_frames(
                    mask_stream(self@, n_masks as nat),
                ).take(n_masks as int),
                Err(e) => if n_masks > MAX_COUNTERS {
                    e == "Too many counters to generate masks for."
                } else {
                    accepted_frames(mask_stream(self@, n_masks as nat)).len() < n_masks && e
                        == "Too many masks were out of range."
                },
            },
    {
        if n_masks > MAX_COUNTERS {
            return Err("Too many counters to generate masks for.");
        }
        // With very high probability this is more data than is needed.
        let bytes_needed: usize = (n_masks as usize + 4) * 9;
        let stream = shake256(self.0.as_slice(), bytes_needed);
        masks_from_stream(stream.as_slice(), n_masks as usize)
    }
}

} // verus!
