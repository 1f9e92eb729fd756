//! Arithmetic in the prime field of order 2^62 - 2^30 - 1.
//!
//! Elements are kept in a lazily reduced representation: the stored
//! integer is congruent to the element and at most `FE_VAL_MAX`. Every
//! branch and loop bound is independent of the values involved.
use crate::primitives::{parse_u64_radix, parsed_u64};
use core::ops::Neg;
use vstd::arithmetic::div_mod::*;
use vstd::arithmetic::mul::*;
use vstd::arithmetic::power::*;
use vstd::prelude::*;

verus! {

/// Number of bits in a reduced field element.
pub const N_BITS: u64 = 62;

/// The bit, other than bit 0, that is cleared in the prime.
pub const OFFSET_BIT: u64 = 30;

/// Order of the prime field: 2^62 - 2^30 - 1.
pub const PRIME_ORDER: u64 = 4611686017353646079;

/// Mask of the bits that a reduced field element uses: 2^62 - 1.
pub const FULL_BITS_MASK: u64 = 4611686018427387903;

/// Number of bits of a u64 above `N_BITS`.
pub const REMAINING_BITS: u64 = 2;

/// Largest value that the bits above `N_BITS` can hold.
pub const MAX_EXCESS: u64 = 3;

/// Largest stored representation:
/// `FULL_BITS_MASK + (MAX_EXCESS << OFFSET_BIT) + MAX_EXCESS`.
pub const FE_VAL_MAX: u64 = 4611686021648613378;

/// Half of `N_BITS`, the width of the limbs of the Karatsuba product.
const HALF_BITS: u64 = 31;

/// Mask of the low `HALF_BITS` bits.
const HALF_MASK: u64 = 2147483647;

/// The prime, as a mathematical integer.
pub open spec fn p() -> int {
    PRIME_ORDER as int
}

/// Sum in the field of two residues.
pub open spec fn field_add(a: int, b: int) -> int {
    (a + b) % p()
}

/// Additive inverse in the field.
pub open spec fn field_neg(a: int) -> int {
    (-a) % p()
}

/// Difference in the field.
pub open spec fn field_sub(a: int, b: int) -> int {
    (a - b) % p()
}

/// Product in the field.
pub open spec fn field_mul(a: int, b: int) -> int {
    (a * b) % p()
}

/// `a` raised to `P - 2`: the inverse of `a` wherever `a^(P-1) = 1`.
pub open spec fn field_recip(a: int) -> int {
    pow(a, (p() - 2) as nat) % p()
}

/// Quotient in the field: `a` times the reciprocal of `b`.
pub open spec fn field_div(a: int, b: int) -> int {
    field_mul(a, field_recip(b))
}

/// The views of a sequence of field elements.
pub open spec fn views(s: Seq<FE>) -> Seq<int> {
    s.map_values(|f: FE| f@)
}

/// An element of the prime field.
#[derive(Debug, Clone, Copy)]
pub struct FE {
    /// Congruent to the element modulo the prime, and at most `FE_VAL_MAX`.
    val: u64,
}

/// `(low + high * 2^62)` and `(low + high * (2^30 + 1))` are congruent, since
/// `2^62 = (2^30 + 1) + P`.
proof fn lemma_fold_high(low: int, high: int)
    ensures
        (low + high * 0x4000_0000_0000_0000) % p() == (low + high * 0x4000_0001) % p(),
{
    assert(low + high * 0x4000_0000_0000_0000 == high * 4611686017353646079 + (low + high
        * 0x4000_0001));
    assert(p() * high == high * 4611686017353646079) by (nonlinear_arith)
        requires
            p() == 4611686017353646079,
    ;
    lemma_mod_multiples_vanish(high, low + high * 0x4000_0001, p());
}

/// Replacing a factor by a congruent one keeps `c + x * k` in its class.
proof fn lemma_congruent_term(c: int, x: int, y: int, k: int)
    requires
        x % p() == y % p(),
    ensures
        (c + x * k) % p() == (c + y * k) % p(),
{
    lemma_mul_mod_noop_left(x, k, p());
    lemma_mul_mod_noop_left(y, k, p());
    lemma_add_mod_noop(c, x * k, p());
    lemma_add_mod_noop(c, y * k, p());
}

/// The residue of a sum depends only on the residues of its terms.
proof fn lemma_sum_residues(x: int, y: int)
    ensures
        (x % p() + y % p()) % p() == (x + y) % p(),
{
    lemma_add_mod_noop(x, y, p());
}

/// Folds the bits above bit 62 back into the low bits.
///
/// Any `u64` comes out at most `FE_VAL_MAX`; a value that is already at most
/// `FE_VAL_MAX` comes out at most `FULL_BITS_MASK`.
fn bit_reduce_once(v: u64) -> (r: u64)
    ensures
        r == (v & FULL_BITS_MASK) + (v >> 62u64) * 0x4000_0001,
        r <= FE_VAL_MAX,
        v <= FE_VAL_MAX ==> r <= FULL_BITS_MASK,
        v <= FULL_BITS_MASK ==> r == v,
        r as int % p() == v as int % p(),
{
    let excess = v >> 62u64;
    let lowpart = v & FULL_BITS_MASK;
    assert(excess <= 3 && lowpart <= 4611686018427387903u64 && v == lowpart + excess
        * 0x4000_0000_0000_0000 && (v <= 4611686018427387903u64 ==> excess == 0) && (v
        <= 4611686021648613378u64 ==> (excess == 0 || (excess == 1 && lowpart
        <= 3221225474u64)))) by (bit_vector)
        requires
            excess == v >> 62u64,
            lowpart == v & 4611686018427387903u64,
    ;
    assert((excess << 30u64) == excess * 0x4000_0000) by (bit_vector)
        requires
            excess <= 3,
    ;
    let result = lowpart + excess + (excess << 30u64);
    proof {
        lemma_fold_high(lowpart as int, excess as int);
    }
    result
}

/// Folds the bits above bit 62 of a 128-bit value back into the low bits.
fn bit_reduce_once_128(v: u128) -> (r: u128)
    requires
        v < 0x1000_0000_0000_0000_0000_0000_0000_0000,
    ensures
        r as int % p() == v as int % p(),
        v < 0x2000_0000_0000_0000_0000_0000 ==> r < 0x8000_0000_0000_0000,
        r < 0x2000_0000_0000_0000_0000_0000,
{
    let low = v & 0x3fff_ffff_ffff_ffffu128;
    let high = v >> 62u128;
    assert(low <= 0x3fff_ffff_ffff_ffffu128 && v == low + high * 0x4000_0000_0000_0000 && high
        < 0x4000_0000_0000_0000 && (v < 0x2000_0000_0000_0000_0000_0000 ==> high
        < 0x8000_0000)) by (bit_vector)
        requires
            low == v & 0x3fff_ffff_ffff_ffffu128,
            high == v >> 62u128,
            v < 0x1000_0000_0000_0000_0000_0000_0000_0000,
    ;
    assert((high << 30u128) == high * 0x4000_0000) by (bit_vector)
        requires
            high < 0x4000_0000_0000_0000,
    ;
    let result = low + (high << 30u128) + high;
    proof {
        lemma_fold_high(low as int, high as int);
    }
    result
}

/// Returns `v - PRIME_ORDER` when `v >= PRIME_ORDER` and `v` otherwise,
/// choosing between them with a mask rather than a branch.
fn reduce_by_p(v: u64) -> (r: u64)
    requires
        v < 2 * PRIME_ORDER,
    ensures
        r as int == v as int % p(),
{
    let difference = v.wrapping_sub(PRIME_ORDER);
    let overflow_bit = difference & 0x8000_0000_0000_0000u64;
    let mask = ((overflow_bit as i64) >> 63u64) as u64;
    let r = (mask & v) | ((!mask) & difference);
    assert(r == if v < 4611686017353646079u64 {
        v
    } else {
        (v - 4611686017353646079u64) as u64
    }) by (bit_vector)
        requires
            v < 9223372034707292158u64,
            difference == v.wrapping_sub(4611686017353646079u64),
            overflow_bit == difference & 0x8000_0000_0000_0000u64,
            mask == ((overflow_bit as i64) >> 63u64) as u64,
            r == (mask & v) | ((!mask) & difference),
    ;
    proof {
        if v >= PRIME_ORDER {
            lemma_mod_sub_multiples_vanish(v as int, p());
        }
        lemma_small_mod((r as int) as nat, p() as nat);
    }
    r
}

impl FE {
    #[verifier::type_invariant]
    spec fn inv(&self) -> bool {
        self.val <= FE_VAL_MAX
    }

    /// The element, as its canonical residue in `[0, P)`.
    pub closed spec fn view(&self) -> int {
        self.val as int % p()
    }

    /// The element congruent to `v`.
    pub fn new(v: u64) -> (r: FE)
        ensures
            r@ == v as int % p(),
    {
        FE { val: bit_reduce_once(v) }
    }

    /// The element congruent to `v`, stored as `v` itself.
    pub fn new_raw(v: u64) -> (r: FE)
        requires
            v <= FE_VAL_MAX,
        ensures
            r@ == v as int % p(),
    {
        FE { val: v }
    }

    /// The canonical value of this element, in `[0, P)`.
    pub fn value(self) -> (r: u64)
        ensures
            r as int == self@,
            r < PRIME_ORDER,
    {
        proof {
            use_type_invariant(&self);
        }
        let v = bit_reduce_once(self.val);
        reduce_by_p(v)
    }

    /// The additive identity.
    pub fn zero() -> (r: FE)
        ensures
            r@ == 0,
    {
        FE { val: 0 }
    }

    /// The multiplicative identity.
    pub fn one() -> (r: FE)
        ensures
            r@ == 1,
    {
        proof {
            lemma_small_mod(1, p() as nat);
        }
        FE { val: 1 }
    }

    /// Whether this element is the additive identity.
    pub fn is_zero(&self) -> (r: bool)
        ensures
            r == (self@ == 0),
    {
        self.value() == 0
    }

    /// The element `v`, when `v` is already a canonical value; otherwise
    /// nothing, so that a uniformly drawn integer yields a uniform element.
    pub fn from_reduced(v: u64) -> (r: Option<FE>)
        ensures
            match r {
                Some(x) => v < PRIME_ORDER && x@ == v as int,
                None => v >= PRIME_ORDER,
            },
    {
        if v < PRIME_ORDER {
            proof {
                lemma_small_mod(v as nat, p() as nat);
            }
            Some(FE { val: v })
        } else {
            None
        }
    }

    /// The element written as the numeral `s` in base `radix`; fails when
    /// `s` is not a numeral that fits in 64 bits, or when its value is not
    /// below the prime.
    pub fn from_str_radix(s: &str, radix: u32) -> (r: Result<FE, &'static str>)
        requires
            2 <= radix <= 36,
        ensures
            match parsed_u64(s@, radix) {
                Some(u) => match r {
                    Ok(x) => u < PRIME_ORDER && x@ == u as int,
                    Err(_) => u >= PRIME_ORDER,
                },
                None => r is Err,
            },
    {
        match parse_u64_radix(s, radix) {
            Some(u) => match FE::from_reduced(u) {
                Some(x) => Ok(x),
                None => Err("Too big"),
            },
            None => Err("Bad num"),
        }
    }

    /// One step of sampling a uniform element: keeps the low `N_BITS` bits
    /// of a random `u64` and accepts them when they are below the prime.
    pub fn from_random_u64(v: u64) -> (r: Option<FE>)
        ensures
            match r {
                Some(x) => v as int % 0x4000_0000_0000_0000 < p() && x@ == v as int
                    % 0x4000_0000_0000_0000,
                None => v as int % 0x4000_0000_0000_0000 >= p(),
            },
    {
        let bits = v & FULL_BITS_MASK;
        assert(bits == v % 0x4000_0000_0000_0000) by (bit_vector)
            requires
                bits == v & 4611686018427387903u64,
        ;
        FE::from_reduced(bits)
    }
}

/// Every view is a canonical residue.
pub broadcast proof fn lemma_view_bounds(a: FE)
    ensures
        0 <= #[trigger] a@ < p(),
{
}

impl PartialEq for FE {
    fn eq(&self, rhs: &FE) -> (r: bool) {
        self.value() == rhs.value()
    }
}

impl vstd::std_specs::cmp::PartialEqSpecImpl for FE {
    open spec fn obeys_eq_spec() -> bool {
        true
    }

    open spec fn eq_spec(&self, rhs: &FE) -> bool {
        self@ == rhs@
    }
}

impl Eq for FE {

}

impl core::hash::Hash for FE {
    /// Hashes the canonical value, so that equal elements hash alike.
    fn hash<H: core::hash::Hasher>(&self, state: &mut H) {
        let v = self.value();
        write_u64_to(state, v);
    }
}

/// Relies on std's `Hasher::write_u64`, which feeds one integer to a hasher.
#[verifier::external_body]
fn write_u64_to<H: core::hash::Hasher>(state: &mut H, v: u64) {
    state.write_u64(v)
}

impl core::ops::AddAssign for FE {
    fn add_assign(&mut self, other: FE)
        ensures
            final(self)@ == field_add(old(self)@, other@),
    {
        *self = *self + other;
    }
}

impl core::ops::SubAssign for FE {
    fn sub_assign(&mut self, other: FE)
        ensures
            final(self)@ == field_sub(old(self)@, other@),
    {
        *self = *self - other;
    }
}

impl Default for FE {
    fn default() -> (r: FE)
        ensures
            r@ == 0,
    {
        FE::zero()
    }
}

impl From<u8> for FE {
    fn from(v: u8) -> (r: FE)
        ensures
            r@ == v as int,
    {
        proof {
            lemma_small_mod(v as nat, p() as nat);
        }
        FE { val: v as u64 }
    }
}

impl vstd::std_specs::convert::FromSpecImpl<u8> for FE {
    open spec fn obeys_from_spec() -> bool {
        false
    }

    open spec fn from_spec(v: u8) -> FE {
        arbitrary()
    }
}

impl From<u16> for FE {
    fn from(v: u16) -> (r: FE)
        ensures
            r@ == v as int,
    {
        proof {
            lemma_small_mod(v as nat, p() as nat);
        }
        FE { val: v as u64 }
    }
}

impl vstd::std_specs::convert::FromSpecImpl<u16> for FE {
    open spec fn obeys_from_spec() -> bool {
        false
    }

    open spec fn from_spec(v: u16) -> FE {
        arbitrary()
    }
}

impl From<u32> for FE {
    fn from(v: u32) -> (r: FE)
        ensures
            r@ == v as int,
    {
        proof {
            lemma_small_mod(v as nat, p() as nat);
        }
        FE { val: v as u64 }
    }
}

impl vstd::std_specs::convert::FromSpecImpl<u32> for FE {
    open spec fn obeys_from_spec() -> bool {
        false
    }

    open spec fn from_spec(v: u32) -> FE {
        arbitrary()
    }
}

impl From<FE> for u64 {
    fn from(v: FE) -> (r: u64)
        ensures
            r as int == v@,
    {
        v.value()
    }
}

impl vstd::std_specs::convert::FromSpecImpl<FE> for u64 {
    open spec fn obeys_from_spec() -> bool {
        false
    }

    open spec fn from_spec(v: FE) -> u64 {
        arbitrary()
    }
}

impl core::ops::Add for FE {
    type Output = FE;

    fn add(self, rhs: FE) -> (r: FE)
        ensures
            r@ == field_add(self@, rhs@),
    {
        proof {
            use_type_invariant(&self);
            use_type_invariant(&rhs);
            lemma_sum_residues(self.val as int, rhs.val as int);
        }
        // Both are at most FE_VAL_MAX, and 2 * FE_VAL_MAX < 2^64.
        FE::new(self.val + rhs.val)
    }
}

impl vstd::std_specs::ops::AddSpecImpl for FE {
    open spec fn obeys_add_spec() -> bool {
        false
    }

    open spec fn add_req(self, rhs: FE) -> bool {
        true
    }

    open spec fn add_spec(self, rhs: FE) -> FE {
        arbitrary()
    }
}

impl core::ops::Neg for FE {
    type Output = FE;

    fn neg(self) -> (r: FE)
        ensures
            r@ == field_neg(self@),
    {
        proof {
            use_type_invariant(&self);
            lemma_mod_multiples_vanish(2, -(self.val as int), p());
            lemma_add_mod_noop(0, -(self.val as int), p());
            lemma_sub_mod_noop(0, self.val as int, p());
        }
        FE::new(PRIME_ORDER * 2 - self.val)
    }
}

impl vstd::std_specs::ops::NegSpecImpl for FE {
    open spec fn obeys_neg_spec() -> bool {
        false
    }

    open spec fn neg_req(self) -> bool {
        true
    }

    open spec fn neg_spec(self) -> FE {
        arbitrary()
    }
}

impl core::ops::Sub for FE {
    type Output = FE;

    fn sub(self, rhs: FE) -> (r: FE)
        ensures
            r@ == field_sub(self@, rhs@),
    {
        let r = self + rhs.neg();
        proof {
            lemma_view_bounds(self);
            lemma_small_mod(self@ as nat, p() as nat);
            lemma_add_mod_noop(self@, -rhs@, p());
        }
        r
    }
}

impl vstd::std_specs::ops::SubSpecImpl for FE {
    open spec fn obeys_sub_spec() -> bool {
        false
    }

    open spec fn sub_req(self, rhs: FE) -> bool {
        true
    }

    open spec fn sub_spec(self, rhs: FE) -> FE {
        arbitrary()
    }
}

impl core::ops::Mul for FE {
    type Output = FE;

    /// Multiplication through a full 128-bit product.
    fn mul(self, rhs: FE) -> (r: FE)
        ensures
            r@ == field_mul(self@, rhs@),
    {
        proof {
            use_type_invariant(&self);
            use_type_invariant(&rhs);
        }
        // Both operands come out below 2^62, so the product is below 2^124.
        let a = bit_reduce_once(self.val);
        let b = bit_reduce_once(rhs.val);
        let a128 = a as u128;
        let b128 = b as u128;
        assert(a128 * b128 < 0x1000_0000_0000_0000_0000_0000_0000_0000) by (nonlinear_arith)
            requires
                a128 <= FULL_BITS_MASK,
                b128 <= FULL_BITS_MASK,
        ;
        let product = a128 * b128;
        let once = bit_reduce_once_128(product);
        let twice = bit_reduce_once_128(once);
        let r = FE::new(twice as u64);
        proof {
            lemma_mul_mod_noop_general(a as int, b as int, p());
        }
        r
    }
}

impl vstd::std_specs::ops::MulSpecImpl for FE {
    open spec fn obeys_mul_spec() -> bool {
        false
    }

    open spec fn mul_req(self, rhs: FE) -> bool {
        true
    }

    open spec fn mul_spec(self, rhs: FE) -> FE {
        arbitrary()
    }
}

impl FE {
    /// Multiplication with 32x32-bit limb products only (Karatsuba), for
    /// platforms without a 64x64-bit multiply; it agrees with `*`.
    pub fn mul_karatsuba(self, rhs: FE) -> (r: FE)
        ensures
            r@ == field_mul(self@, rhs@),
    {
        proof {
            use_type_invariant(&self);
            use_type_invariant(&rhs);
        }
        // Both operands come out below 2^62.
        let a = bit_reduce_once(self.val);
        let b = bit_reduce_once(rhs.val);

        // Limbs of HALF_BITS bits each.
        let a_lo = a & HALF_MASK;
        let a_hi = a >> HALF_BITS;
        let b_lo = b & HALF_MASK;
        let b_hi = b >> HALF_BITS;
        assert(a_lo <= 0x7fff_ffff && a_hi <= 0x7fff_ffff && a == a_lo + a_hi * 0x8000_0000)
            by (bit_vector)
            requires
                a <= 4611686018427387903u64,
                a_lo == a & 2147483647u64,
                a_hi == a >> 31u64,
        ;
        assert(b_lo <= 0x7fff_ffff && b_hi <= 0x7fff_ffff && b == b_lo + b_hi * 0x8000_0000)
            by (bit_vector)
            requires
                b <= 4611686018427387903u64,
                b_lo == b & 2147483647u64,
                b_hi == b >> 31u64,
        ;
        assert(a_lo * b_lo <= 0x3fff_ffff_0000_0001 && a_hi * b_hi <= 0x3fff_ffff_0000_0001 && (
        a_lo + a_hi) * (b_lo + b_hi) <= 0xffff_fffc_0000_0004 && (a_lo + a_hi) * (b_lo + b_hi)
            == a_lo * b_lo + a_hi * b_hi + (a_lo * b_hi + a_hi * b_lo) && a_lo * b_hi + a_hi
            * b_lo <= 0x7fff_fffe_0000_0002) by (nonlinear_arith)
            requires
                a_lo <= 0x7fff_ffff,
                a_hi <= 0x7fff_ffff,
                b_lo <= 0x7fff_ffff,
                b_hi <= 0x7fff_ffff,
        ;
        let z0 = a_lo * b_lo;
        let z2 = a_hi * b_hi;
        let z1 = (a_lo + a_hi) * (b_lo + b_hi) - z0 - z2;

        let z1_lo = z1 & HALF_MASK;
        let z1_hi = z1 >> HALF_BITS;
        assert(z1_lo <= 0x7fff_ffff && z1_hi <= 0xffff_ffff && z1 == z1_lo + z1_hi * 0x8000_0000
            && (z1_lo << 31u64) == z1_lo * 0x8000_0000) by (bit_vector)
            requires
                z1 <= 0x7fff_fffe_0000_0002u64,
                z1_lo == z1 & 2147483647u64,
                z1_hi == z1 >> 31u64,
        ;

        // The product is (z0 + z1_lo * 2^31) + (z2 + z1_hi) * 2^62.
        let product_low = z0 + bit_reduce_once(z1_lo << HALF_BITS);
        let product_hi = bit_reduce_once(z2 + bit_reduce_once(z1_hi));

        // 2^62 is congruent to 2^30 + 1; split product_hi so that shifting
        // it by OFFSET_BIT cannot overflow.
        let product_hi_lo = product_hi & 0xffff_ffffu64;
        let product_hi_hi = product_hi >> 32u64;
        assert(product_hi_lo <= 0xffff_ffff && product_hi_hi < 0x8000_0000 && product_hi
            == product_hi_lo + product_hi_hi * 0x1_0000_0000 && (product_hi_lo << 30u64)
            == product_hi_lo * 0x4000_0000 && (product_hi_hi << 30u64) == product_hi_hi
            * 0x4000_0000) by (bit_vector)
            requires
                product_hi <= 4611686021648613378u64,
                product_hi_lo == product_hi & 0xffff_ffffu64,
                product_hi_hi == product_hi >> 32u64,
        ;

        let t1 = FE::new(product_low);
        let t2 = FE::new(product_hi);
        let t3 = FE::new(product_hi_lo << OFFSET_BIT);
        let t4 = FE::new(product_hi_hi);
        let t5 = FE::new(product_hi_hi << OFFSET_BIT);
        let r = t1 + t2 + t3 + t4 + t5;
        proof {
            let pl = product_low as int;
            let ph = product_hi as int;
            let hl = product_hi_lo as int;
            let hh = product_hi_hi as int;
            let whole = a as int * b as int;
            assert(whole == pl + (z2 + z1_hi) * 0x4000_0000_0000_0000) by (nonlinear_arith)
                requires
                    a == a_lo + a_hi * 0x8000_0000,
                    b == b_lo + b_hi * 0x8000_0000,
                    z0 == a_lo * b_lo,
                    z2 == a_hi * b_hi,
                    z1 == a_lo * b_hi + a_hi * b_lo,
                    z1 == z1_lo + z1_hi * 0x8000_0000,
                    pl == z0 + z1_lo * 0x8000_0000,
                    whole == a as int * b as int,
            ;
            lemma_fold_high(pl, (z2 + z1_hi) as int);
            lemma_congruent_term(pl, (z2 + z1_hi) as int, ph, 0x4000_0001);
            assert(pl + ph * 0x4000_0001 == (pl + ph + hl * 0x4000_0000) + hh
                * 0x4000_0000_0000_0000);
            lemma_fold_high(pl + ph + hl * 0x4000_0000, hh);
            let total = pl + ph + hl * 0x4000_0000 + hh + hh * 0x4000_0000;
            assert(whole % p() == total % p());
            lemma_sum_residues(pl, ph);
            lemma_sum_residues(pl + ph, hl * 0x4000_0000);
            lemma_sum_residues(pl + ph + hl * 0x4000_0000, hh);
            lemma_sum_residues(pl + ph + hl * 0x4000_0000 + hh, hh * 0x4000_0000);
            lemma_mul_mod_noop_general(a as int, b as int, p());
        }
        r
    }
}

/// Multiplying the residues of two powers adds their exponents.
proof fn lemma_pow_product(a: int, m: nat, n: nat)
    ensures
        ((pow(a, m) % p()) * (pow(a, n) % p())) % p() == pow(a, m + n) % p(),
{
    lemma_pow_adds(a, m, n);
    lemma_mul_mod_noop_general(pow(a, m), pow(a, n), p());
}

impl FE {
    /// The reciprocal of this element: the element raised to `P - 2`.
    ///
    /// The exponent `P - 2` has every bit below `N_BITS` set but bits 1 and
    /// `OFFSET_BIT`, so square-and-multiply runs a fixed sequence of steps.
    /// Zero has no reciprocal; for it the result is zero.
    pub fn recip(self) -> (r: FE)
        ensures
            r@ == field_recip(self@),
    {
        let ghost a = self@;
        let mut x = self;
        let mut y = FE::new(1);
        proof {
            lemma_view_bounds(self);
            lemma_small_mod(a as nat, p() as nat);
            lemma_pow1(a);
            lemma_pow0(a);
            lemma_pow_product(a, 1, 1);
            lemma_pow_product(a, 2, 2);
            lemma_pow_product(a, 1, 0);
        }

        // Bit 0 is set.
        y = x * y;
        x = x * x;
        // Bit 1 is clear.
        x = x * x;
        assert(x@ == pow(a, 4) % p() && y@ == pow(a, 1) % p()) by {
            lemma_small_mod(1, p() as nat);
        }
        proof {
            vstd::arithmetic::power2::lemma2_to64();
        }
        // Bits 2 through OFFSET_BIT - 1 are set.
        let mut i: u64 = 2;
        while i < OFFSET_BIT
            invariant
                2 <= i <= OFFSET_BIT,
                x@ == pow(a, vstd::arithmetic::power2::pow2(i as nat)) % p(),
                y@ == pow(a, (vstd::arithmetic::power2::pow2(i as nat) - 3) as nat) % p(),
            decreases OFFSET_BIT - i,
        {
            let ghost e = vstd::arithmetic::power2::pow2(i as nat);
            proof {
                vstd::arithmetic::power2::lemma_pow2_unfold((i + 1) as nat);
                vstd::arithmetic::power2::lemma_pow2_strictly_increases(1, i as nat);
                vstd::arithmetic::power2::lemma2_to64();
                lemma_pow_product(a, e, (e - 3) as nat);
                lemma_pow_product(a, e, e);
            }
            y = x * y;
            x = x * x;
            i = i + 1;
        }
        // OFFSET_BIT is clear.
        proof {
            vstd::arithmetic::power2::lemma2_to64();
            lemma_pow_product(a, 0x4000_0000, 0x4000_0000);
        }
        x = x * x;
        // Bits OFFSET_BIT + 1 through N_BITS - 2 are set.
        let mut j: u64 = OFFSET_BIT + 1;
        while j < N_BITS - 1
            invariant
                OFFSET_BIT + 1 <= j <= N_BITS - 1,
                x@ == pow(a, vstd::arithmetic::power2::pow2(j as nat)) % p(),
                y@ == pow(a, (vstd::arithmetic::power2::pow2(j as nat) - 0x4000_0003) as nat)
                    % p(),
            decreases N_BITS - 1 - j,
        {
            let ghost e = vstd::arithmetic::power2::pow2(j as nat);
            proof {
                vstd::arithmetic::power2::lemma_pow2_unfold((j + 1) as nat);
                if j > 31 {
                    vstd::arithmetic::power2::lemma_pow2_strictly_increases(31, j as nat);
                }
                vstd::arithmetic::power2::lemma2_to64();
                lemma_pow_product(a, e, (e - 0x4000_0003) as nat);
                lemma_pow_product(a, e, e);
            }
            y = x * y;
            x = x * x;
            j = j + 1;
        }
        // Bit N_BITS - 1 is set.
        proof {
            vstd::arithmetic::power2::lemma2_to64_rest();
            lemma_pow_product(a, 0x2000_0000_0000_0000, (0x2000_0000_0000_0000 - 0x4000_0003) as nat);
        }
        x * y
    }
}

impl core::ops::Div for FE {
    type Output = FE;

    fn div(self, rhs: FE) -> (r: FE)
        ensures
            r@ == field_div(self@, rhs@),
    {
        self * rhs.recip()
    }
}

impl vstd::std_specs::ops::DivSpecImpl for FE {
    open spec fn obeys_div_spec() -> bool {
        false
    }

    open spec fn div_req(self, rhs: FE) -> bool {
        true
    }

    open spec fn div_spec(self, rhs: FE) -> FE {
        arbitrary()
    }
}

impl core::ops::Rem for FE {
    type Output = FE;

    /// `self - self / rhs`: present so that the element type offers the
    /// full set of arithmetic operators.
    fn rem(self, rhs: FE) -> (r: FE)
        ensures
            r@ == field_sub(self@, field_div(self@, rhs@)),
    {
        self - (self / rhs)
    }
}

impl vstd::std_specs::ops::RemSpecImpl for FE {
    open spec fn obeys_rem_spec() -> bool {
        false
    }

    open spec fn rem_req(self, rhs: FE) -> bool {
        true
    }

    open spec fn rem_spec(self, rhs: FE) -> FE {
        arbitrary()
    }
}

/// Addition is commutative and associative, zero is its identity, and an
/// element minus itself is zero.
pub proof fn lemma_add_laws(a: FE, b: FE, c: FE)
    ensures
        field_add(a@, b@) == field_add(b@, a@),
        field_add(field_add(a@, b@), c@) == field_add(a@, field_add(b@, c@)),
        field_add(a@, 0) == a@,
        field_sub(a@, a@) == 0,
{
    lemma_view_bounds(a);
    lemma_small_mod(a@ as nat, p() as nat);
    lemma_add_mod_noop(a@ + b@, c@, p());
    lemma_add_mod_noop(a@, b@ + c@, p());
    lemma_mod_twice(a@ + b@, p());
    lemma_mod_twice(b@ + c@, p());
    lemma_add_mod_noop(a@, b@, p());
    lemma_add_mod_noop(b@, c@, p());
    lemma_view_bounds(b);
    lemma_view_bounds(c);
    lemma_small_mod(b@ as nat, p() as nat);
    lemma_small_mod(c@ as nat, p() as nat);
}

/// Multiplication is commutative and associative, one is its identity, and
/// zero annihilates.
pub proof fn lemma_mul_laws(a: FE, b: FE, c: FE)
    ensures
        field_mul(a@, b@) == field_mul(b@, a@),
        field_mul(field_mul(a@, b@), c@) == field_mul(a@, field_mul(b@, c@)),
        field_mul(a@, 1) == a@,
        field_mul(a@, 0) == 0,
{
    lemma_view_bounds(a);
    lemma_small_mod(a@ as nat, p() as nat);
    lemma_mul_is_commutative(a@, b@);
    lemma_mul_mod_noop_left(a@ * b@, c@, p());
    lemma_mul_mod_noop_right(a@, b@ * c@, p());
    lemma_mul_is_associative(a@, b@, c@);
}

/// Multiplication distributes over addition.
pub proof fn lemma_distributive(a: FE, b: FE, c: FE)
    ensures
        field_mul(a@, field_add(b@, c@)) == field_add(field_mul(a@, b@), field_mul(a@, c@)),
{
    lemma_mul_mod_noop_right(a@, b@ + c@, p());
    lemma_mul_is_distributive_add(a@, b@, c@);
    lemma_add_mod_noop(a@ * b@, a@ * c@, p());
}

/// Where Fermat's little theorem holds of a nonzero `a` (as it does of every
/// nonzero element when the order is prime), `a` times its reciprocal is one.
pub proof fn lemma_recip_inverse_where_fermat(a: FE)
    requires
        a@ != 0,
        pow(a@, (p() - 1) as nat) % p() == 1,
    ensures
        field_mul(a@, field_recip(a@)) == 1,
{
    lemma_view_bounds(a);
    lemma_small_mod(a@ as nat, p() as nat);
    lemma_pow1(a@);
    lemma_pow_product(a@, 1, (p() - 2) as nat);
}

/// Where Fermat's little theorem holds of a nonzero `b`, dividing by `b` and
/// then multiplying by `b` gives back `a`.
pub proof fn lemma_div_mul_cancel_where_fermat(a: FE, b: FE)
    requires
        b@ != 0,
        pow(b@, (p() - 1) as nat) % p() == 1,
    ensures
        field_mul(field_div(a@, b@), b@) == a@,
{
    let r = field_recip(b@);
    lemma_recip_inverse_where_fermat(b);
    lemma_view_bounds(a);
    lemma_small_mod(a@ as nat, p() as nat);
    lemma_mul_mod_noop_left(a@ * r, b@, p());
    lemma_mul_is_associative(a@, r, b@);
    lemma_mul_is_commutative(r, b@);
    lemma_mul_mod_noop_right(a@, r * b@, p());
}

/// The element made from `P` is zero, and the one made from `P + k` is the
/// one made from `k`.
pub proof fn lemma_new_wraps_at_order(k: u64)
    requires
        k < PRIME_ORDER,
    ensures
        PRIME_ORDER as int % p() == 0,
        (PRIME_ORDER + k) as int % p() == k as int % p(),
{
    lemma_mod_self_0(p());
    lemma_mod_add_multiples_vanish(k as int, p());
}

impl core::ops::MulAssign for FE {
    fn mul_assign(&mut self, other: FE)
        ensures
            final(self)@ == field_mul(old(self)@, other@),
    {
        *self = *self * other;
    }
}

impl core::ops::DivAssign for FE {
    fn div_assign(&mut self, other: FE)
        ensures
            final(self)@ == field_div(old(self)@, other@),
    {
        *self = *self / other;
    }
}

impl core::ops::RemAssign for FE {
    fn rem_assign(&mut self, other: FE)
        ensures
            final(self)@ == field_sub(old(self)@, field_div(old(self)@, other@)),
    {
        *self = *self % other;
    }
}

} // verus!
