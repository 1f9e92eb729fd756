use num::bigint::BigUint;
use num::traits::cast::{FromPrimitive, ToPrimitive};
use privcount::math::{FE_VAL_MAX, FULL_BITS_MASK, N_BITS, OFFSET_BIT};
use privcount::{FE, PRIME_ORDER};
use rand::Rng;
use std::hash::{Hash, Hasher};

fn maxrep() -> FE {
    FE::new_raw(FE_VAL_MAX)
}

fn fullbits() -> FE {
    FE::new_raw(FULL_BITS_MASK)
}

fn random_fe(rng: &mut rand::os::OsRng) -> FE {
    loop {
        if let Some(x) = FE::from_random_u64(rng.next_u64()) {
            return x;
        }
    }
}

fn mul_slow(a: FE, b: FE) -> FE {
    let a_big = BigUint::from_u64(a.value()).unwrap();
    let b_big = BigUint::from_u64(b.value()).unwrap();
    let product = (a_big * b_big) % PRIME_ORDER;
    FE::new(product.to_u64().unwrap())
}

#[test]
fn constants_in_range() {
    assert!(N_BITS % 2 == 0);
    assert!(N_BITS <= 62);
    assert!(OFFSET_BIT < N_BITS / 2);
    assert!(OFFSET_BIT != 2);
}

#[test]
fn constants_have_their_stated_form() {
    assert_eq!(PRIME_ORDER, (1u64 << N_BITS) - (1u64 << OFFSET_BIT) - 1);
    assert_eq!(FULL_BITS_MASK, (1u64 << N_BITS) - 1);
    assert_eq!(FE_VAL_MAX, FULL_BITS_MASK + (3u64 << OFFSET_BIT) + 3);
    assert_eq!(PRIME_ORDER, 4611686017353646079);
}

#[test]
fn prime_is_prime() {
    assert!(primal::is_prime(PRIME_ORDER));
}

#[test]
fn test_values() {
    assert_eq!(FE::new(0).value(), 0);
    assert_eq!(FE::new(1337).value(), 1337);
    assert_eq!(FE::new(PRIME_ORDER).value(), 0);
    assert_eq!(FE::new(PRIME_ORDER + 1).value(), 1);
    assert_eq!(FE::new(PRIME_ORDER - 1).value(), PRIME_ORDER - 1);
    assert_eq!(FE::new(PRIME_ORDER).value(), 0);
    assert_eq!(FE::new(!0u64).value(), (!0u64) % PRIME_ORDER);
    assert_eq!(maxrep().value(), FE_VAL_MAX - PRIME_ORDER);
}

#[test]
fn test_equivalence() {
    assert_eq!(FE::new(0), FE::new(PRIME_ORDER));
    assert_eq!(FE::new(1), FE::new(PRIME_ORDER + 1));
    assert_eq!(FE::new(1), FE::new(PRIME_ORDER * 2 + 1));
    assert_eq!(FE::new(PRIME_ORDER - 50), FE::new(PRIME_ORDER * 4 - 50));
    assert_eq!(maxrep(), FE::new(FE_VAL_MAX - PRIME_ORDER));
}

#[test]
fn test_add_sub() {
    assert_eq!(FE::new(0) - FE::new(100), FE::new(PRIME_ORDER - 100));
    assert_eq!(FE::new(100) - FE::new(5), FE::new(95));
    assert_eq!(FE::new(100) - FE::new(105), FE::new(PRIME_ORDER - 5));
    assert_eq!(FE::new(300) - FE::new(PRIME_ORDER + 1), FE::new(299));
    assert_eq!(FE::new(1050) + FE::new(1337), FE::new(2387));
    assert_eq!(FE::new(1337) + FE::new(PRIME_ORDER - 37), FE::new(1300));
    assert_eq!(-FE::new(10) + (-FE::new(15)), -FE::new(25));

    assert_eq!(-maxrep(), FE::new(PRIME_ORDER * 2 - FE_VAL_MAX));
    assert_eq!(maxrep() + maxrep(), FE::new((FE_VAL_MAX - PRIME_ORDER) * 2));
    assert_eq!(maxrep() - maxrep(), FE::zero());
    assert_eq!(FE::zero() - maxrep(), -maxrep());

    assert_eq!(FE::new(1000) - maxrep(), FE::new(PRIME_ORDER * 2 - FE_VAL_MAX + 1000));

    assert_eq!(-fullbits(), FE::new(PRIME_ORDER * 2 - FULL_BITS_MASK));
    assert_eq!(FE::zero() - fullbits(), -fullbits());
}

#[test]
fn mult() {
    assert_eq!(FE::new(0) * FE::new(1000), FE::new(0));
    assert_eq!(FE::new(999) * FE::new(1000), FE::new(999000));
    assert_eq!(FE::new(PRIME_ORDER) * FE::new(PRIME_ORDER), FE::new(0));
    assert_eq!(FE::new(PRIME_ORDER - 1) * FE::new(PRIME_ORDER - 1), FE::new(1));
    assert_eq!(FE::new(PRIME_ORDER - 2) * FE::new(PRIME_ORDER - 2), FE::new(4));

    assert_eq!(
        maxrep() * maxrep(),
        FE::new(FE_VAL_MAX % PRIME_ORDER) * FE::new(FE_VAL_MAX % PRIME_ORDER)
    );
    assert_eq!(
        fullbits() * fullbits(),
        FE::new(FULL_BITS_MASK % PRIME_ORDER) * FE::new(FULL_BITS_MASK % PRIME_ORDER)
    )
}

#[test]
fn recip() {
    assert_eq!(FE::new(1).recip(), FE::new(1));
    assert_eq!(FE::new(999).recip() * FE::new(999), FE::new(1));
    assert_eq!(FE::new(999).recip(), FE::new(2885188949795824624));
    assert_eq!(FE::new(999), FE::new(2885188949795824624).recip());
}

#[test]
fn recip_of_zero_is_zero() {
    assert_eq!(FE::zero().recip(), FE::zero());
}

#[test]
fn karatsuba_matches_examples() {
    assert_eq!(FE::new(999).mul_karatsuba(FE::new(1000)), FE::new(999000));
    assert_eq!(FE::new(PRIME_ORDER - 1).mul_karatsuba(FE::new(PRIME_ORDER - 1)), FE::new(1));
    assert_eq!(maxrep().mul_karatsuba(maxrep()), maxrep() * maxrep());
    assert_eq!(fullbits().mul_karatsuba(fullbits()), fullbits() * fullbits());
}

fn p_multiply(a: u64, b: u64) -> bool {
    let (a, b) = (FE::new(a), FE::new(b));
    a * b == mul_slow(a, b) && a.mul_karatsuba(b) == mul_slow(a, b)
}

fn p_recip(a: u64) -> bool {
    let a = FE::new(a);
    a.is_zero() || a * a.recip() == FE::new(1)
}

fn p_div(a: u64, b: u64) -> bool {
    let (a, b) = (FE::new(a), FE::new(b));
    b.is_zero() || (a / b) * b == a
}

#[test]
fn multiply_agrees_with_bignum() {
    quickcheck::quickcheck(p_multiply as fn(u64, u64) -> bool);
    let mut rng = rand::os::OsRng::new().unwrap();
    for _ in 0..1000 {
        assert!(p_multiply(rng.next_u64(), rng.next_u64()));
    }
    assert!(p_multiply(FE_VAL_MAX, FE_VAL_MAX));
    assert!(p_multiply(!0u64, !0u64));
}

#[test]
fn reciprocal_and_division() {
    quickcheck::quickcheck(p_recip as fn(u64) -> bool);
    quickcheck::quickcheck(p_div as fn(u64, u64) -> bool);
    let mut rng = rand::os::OsRng::new().unwrap();
    for _ in 0..200 {
        assert!(p_recip(rng.next_u64()));
        assert!(p_div(rng.next_u64(), rng.next_u64()));
    }
}

#[test]
fn field_laws_on_random_elements() {
    let mut rng = rand::os::OsRng::new().unwrap();
    for _ in 0..200 {
        let (a, b, c) = (random_fe(&mut rng), random_fe(&mut rng), random_fe(&mut rng));
        assert_eq!(a + b, b + a);
        assert_eq!((a + b) + c, a + (b + c));
        assert_eq!(a + FE::zero(), a);
        assert_eq!(a - a, FE::zero());
        assert_eq!(a * b, b * a);
        assert_eq!((a * b) * c, a * (b * c));
        assert_eq!(a * FE::one(), a);
        assert_eq!(a * FE::zero(), FE::zero());
        assert_eq!(a * (b + c), a * b + a * c);
        assert_eq!(a.mul_karatsuba(b), a * b);
    }
}

#[test]
fn new_wraps_at_the_order() {
    assert_eq!(FE::new(PRIME_ORDER), FE::new(0));
    for k in [0u64, 1, 2, 12345, 1 << 40, PRIME_ORDER - 1] {
        assert_eq!(FE::new(PRIME_ORDER + k), FE::new(k));
    }
}

#[test]
fn from_reduced_rejects_values_not_below_the_prime() {
    assert_eq!(FE::from_reduced(0), Some(FE::zero()));
    assert_eq!(FE::from_reduced(PRIME_ORDER - 1).map(|x| x.value()), Some(PRIME_ORDER - 1));
    assert!(FE::from_reduced(PRIME_ORDER).is_none());
    assert!(FE::from_reduced(!0u64).is_none());
}

#[test]
fn random_candidates_keep_low_bits() {
    assert_eq!(FE::from_random_u64(0xc000_0000_0000_0005).map(|x| x.value()), Some(5));
    assert!(FE::from_random_u64(PRIME_ORDER).is_none());
    assert!(FE::from_random_u64(FULL_BITS_MASK).is_none());
    assert_eq!(
        FE::from_random_u64(PRIME_ORDER - 1).map(|x| x.value()),
        Some(PRIME_ORDER - 1)
    );
}

#[test]
fn conversions_and_identities() {
    assert_eq!(FE::from(7u8).value(), 7);
    assert_eq!(FE::from(65535u16).value(), 65535);
    assert_eq!(FE::from(u32::MAX).value(), u32::MAX as u64);
    assert_eq!(u64::from(FE::new(PRIME_ORDER + 3)), 3);
    assert_eq!(FE::default(), FE::zero());
    assert!(FE::zero().is_zero());
    assert!(FE::new(PRIME_ORDER).is_zero());
    assert!(!FE::one().is_zero());
    assert_eq!(FE::one().value(), 1);
}

#[test]
fn remainder_is_self_minus_quotient() {
    let a = FE::new(1000);
    let b = FE::new(7);
    assert_eq!(a % b, a - a / b);
    assert_eq!((a / b) * b, a);
}

#[test]
fn parse_numerals() {
    assert_eq!(FE::from_str_radix("1337", 10).unwrap().value(), 1337);
    assert_eq!(FE::from_str_radix("ff", 16).unwrap().value(), 255);
    assert!(FE::from_str_radix("zz", 10).is_err());
    assert!(FE::from_str_radix("", 10).is_err());
    assert!(FE::from_str_radix(&PRIME_ORDER.to_string(), 10).is_err());
    assert_eq!(
        FE::from_str_radix(&(PRIME_ORDER - 1).to_string(), 10).unwrap().value(),
        PRIME_ORDER - 1
    );
    assert!(FE::from_str_radix("18446744073709551616", 10).is_err());
}

fn hash_of(x: FE) -> u64 {
    let mut h = std::collections::hash_map::DefaultHasher::new();
    x.hash(&mut h);
    h.finish()
}

#[test]
fn equal_elements_hash_alike() {
    assert_eq!(hash_of(FE::new(PRIME_ORDER + 1)), hash_of(FE::new(1)));
    assert_eq!(hash_of(maxrep()), hash_of(FE::new(FE_VAL_MAX - PRIME_ORDER)));
    assert_ne!(hash_of(FE::new(1)), hash_of(FE::new(2)));
    let mut set = std::collections::HashSet::new();
    set.insert(FE::new(5));
    assert!(set.contains(&FE::new(PRIME_ORDER + 5)));
}

#[test]
fn compound_assignment() {
    let mut a = FE::new(10);
    a += FE::new(5);
    assert_eq!(a.value(), 15);
    a -= FE::new(20);
    assert_eq!(a, -FE::new(5));
    a *= FE::new(3);
    assert_eq!(a, -FE::new(15));
    a /= FE::new(5);
    assert_eq!(a, -FE::new(3));
    let mut b = FE::new(1000);
    b %= FE::new(7);
    assert_eq!(b, FE::new(1000) - FE::new(1000) / FE::new(7));
}
