//! The arbitrary-precision non-negative integer type used throughout the
//! crate, together with the trusted arithmetic primitives it is built on.
//!
//! A [`Natural`] stores its value as base-2^32 digits in little-endian order,
//! so its mathematical value is a plain spec-level function of its limbs.
//! The heavy arithmetic (comparison, division, modular exponentiation) is
//! delegated to the `num_bigint` crate through `external_body` wrappers whose
//! contracts are stated over that value.

use num_bigint::BigUint;
use num_bigint::RandBigInt;
use num_integer::Integer;
use vstd::prelude::*;

verus! {

use vstd::arithmetic::div_mod::lemma_fundamental_div_mod;
use vstd::arithmetic::power::pow;

/// The value denoted by a little-endian sequence of base-2^32 digits.
pub closed spec fn limbs_value(s: Seq<u32>) -> nat
    decreases s.len(),
{
    if s.len() == 0 {
        0
    } else {
        (s[0] + 0x1_0000_0000 * limbs_value(s.subrange(1, s.len() as int))) as nat
    }
}

/// `a^e` reduced modulo `n`.
pub open spec fn pow_mod(a: nat, e: nat, n: nat) -> nat
    recommends
        n >= 1,
{
    (pow(a as int, e) % (n as int)) as nat
}

/// An arbitrary-precision non-negative integer.
#[derive(Clone, Debug, PartialEq, Eq)]
pub struct Natural {
    limbs: Vec<u32>,
}

proof fn lemma_limbs_value_small(lo: u32, hi: u32)
    ensures
        limbs_value(Seq::<u32>::empty()) == 0,
        limbs_value(seq![lo]) == lo,
        limbs_value(seq![lo, hi]) == lo + 0x1_0000_0000 * (hi as nat),
{
    assert(seq![lo].subrange(1, 1) =~= Seq::<u32>::empty());
    assert(seq![lo, hi].subrange(1, 2) =~= seq![hi]);
    assert(seq![hi].subrange(1, 1) =~= Seq::<u32>::empty());
    assert(limbs_value(Seq::<u32>::empty()) == 0);
    assert(limbs_value(seq![hi]) == hi);
    assert(limbs_value(seq![lo]) == lo);
    assert(limbs_value(seq![lo, hi]) == lo + 0x1_0000_0000 * (hi as nat));
}

impl Natural {
    /// The mathematical value this integer denotes.
    pub closed spec fn value(&self) -> nat {
        limbs_value(self.limbs@)
    }

    /// Converts a machine word, keeping the stored digits canonical
    /// (no trailing zero digit).
    pub fn from_u64(x: u64) -> (r: Natural)
        ensures
            r.value() == x as nat,
    {
        proof {
            assert(x & 0xFFFF_FFFF < 0x1_0000_0000) by (bit_vector);
            assert(x >> 32 < 0x1_0000_0000) by (bit_vector);
        }
        let lo: u32 = (x & 0xFFFF_FFFF) as u32;
        let hi: u32 = (x >> 32) as u32;
        let mut limbs: Vec<u32> = Vec::new();
        if hi != 0 {
            limbs.push(lo);
            limbs.push(hi);
            proof {
                assert(x & 0xFFFF_FFFF == x % 0x1_0000_0000) by (bit_vector);
                assert(x >> 32 == x / 0x1_0000_0000) by (bit_vector);
                lemma_fundamental_div_mod(x as int, 0x1_0000_0000);
                lemma_limbs_value_small(lo, hi);
                assert(limbs@ =~= seq![lo, hi]);
            }
        } else if lo != 0 {
            limbs.push(lo);
            proof {
                assert(x >> 32 == 0 ==> x & 0xFFFF_FFFF == x) by (bit_vector);
                lemma_limbs_value_small(lo, 0);
                assert(limbs@ =~= seq![lo]);
            }
        } else {
            proof {
                assert((x >> 32 == 0 && x & 0xFFFF_FFFF == 0) ==> x == 0) by (bit_vector);
                lemma_limbs_value_small(0, 0);
                assert(limbs@ =~= Seq::<u32>::empty());
            }
        }
        Natural { limbs }
    }

    /// Parses a decimal numeral: `None` exactly when the input is empty or
    /// holds a byte that is not an ASCII digit.
    pub fn from_decimal(s: &[u8]) -> (r: Option<Natural>)
        ensures
            r is Some <==> (s@.len() >= 1 && digits_only(s@)),
            r matches Some(v) ==> v.value() == dec_value(s@),
    {
        if s.len() == 0 {
            return None;
        }
        let mut acc = Natural::from_u64(0);
        let mut i: usize = 0;
        while i < s.len()
            invariant
                0 <= i <= s@.len(),
                digits_only(s@.take(i as int)),
                acc.value() == dec_value(s@.take(i as int)),
            decreases s@.len() - i,
        {
            let c = s[i];
            if c < 0x30 || c > 0x39 {
                proof {
                    assert(!(0x30 <= s@[i as int] <= 0x39));
                }
                return None;
            }
            let shifted = nat_mul_small(&acc, 10);
            acc = nat_add_small(&shifted, (c - 0x30) as u32);
            proof {
                assert(s@.take(i + 1).drop_last() =~= s@.take(i as int));
                assert(s@.take(i + 1).last() == s@[i as int]);
            }
            i = i + 1;
        }
        proof {
            assert(s@.take(i as int) =~= s@);
        }
        Some(acc)
    }
}

/// Holds when every byte of `s` is an ASCII decimal digit.
pub open spec fn digits_only(s: Seq<u8>) -> bool {
    forall|i: int| 0 <= i < s.len() ==> 0x30 <= #[trigger] s[i] <= 0x39
}

/// The number a sequence of ASCII decimal digits denotes.
pub open spec fn dec_value(s: Seq<u8>) -> nat
    recommends
        digits_only(s),
    decreases s.len(),
{
    if s.len() == 0 {
        0
    } else {
        (dec_value(s.drop_last()) * 10 + (s.last() - 0x30)) as nat
    }
}

/// Relies on num_bigint: `Sub<u32>` for `BigUint` is exact subtraction
/// (it panics on underflow, which the precondition rules out).
#[verifier::external_body]
pub(crate) fn nat_sub_one(a: &Natural) -> (r: Natural)
    requires
        a.value() >= 1,
    ensures
        r.value() == a.value() - 1,
{
    Natural { limbs: (BigUint::from_slice(&a.limbs) - 1u32).to_u32_digits() }
}

/// Relies on num_bigint: `Add<u32>` for `BigUint` is exact addition.
#[verifier::external_body]
pub(crate) fn nat_add_one(a: &Natural) -> (r: Natural)
    ensures
        r.value() == a.value() + 1,
{
    Natural { limbs: (BigUint::from_slice(&a.limbs) + 1u32).to_u32_digits() }
}

/// Relies on num_bigint: `Div<u32>` for `BigUint` is Euclidean division.
#[verifier::external_body]
pub(crate) fn nat_half(a: &Natural) -> (r: Natural)
    ensures
        r.value() == a.value() / 2,
{
    Natural { limbs: (BigUint::from_slice(&a.limbs) / 2u32).to_u32_digits() }
}

/// Relies on num_bigint: `Mul<u32>` for `BigUint` is exact multiplication.
#[verifier::external_body]
pub(crate) fn nat_mul_small(a: &Natural, m: u32) -> (r: Natural)
    ensures
        r.value() == a.value() * m,
{
    Natural { limbs: (BigUint::from_slice(&a.limbs) * m).to_u32_digits() }
}

/// Relies on num_bigint: `Add<u32>` for `BigUint` is exact addition.
#[verifier::external_body]
pub(crate) fn nat_add_small(a: &Natural, c: u32) -> (r: Natural)
    ensures
        r.value() == a.value() + c,
{
    Natural { limbs: (BigUint::from_slice(&a.limbs) + c).to_u32_digits() }
}

/// Relies on num_integer: `Integer::is_even` for `BigUint` tests divisibility
/// by two.
#[verifier::external_body]
pub(crate) fn nat_is_even(a: &Natural) -> (r: bool)
    ensures
        r == (a.value() % 2 == 0),
{
    BigUint::from_slice(&a.limbs).is_even()
}

/// Relies on num_bigint: `Ord` for `BigUint` compares by value.
#[verifier::external_body]
pub(crate) fn nat_lt(a: &Natural, b: &Natural) -> (r: bool)
    ensures
        r == (a.value() < b.value()),
{
    BigUint::from_slice(&a.limbs) < BigUint::from_slice(&b.limbs)
}

/// Relies on num_bigint: `PartialEq` for `BigUint` compares by value.
#[verifier::external_body]
pub(crate) fn nat_eq(a: &Natural, b: &Natural) -> (r: bool)
    ensures
        r == (a.value() == b.value()),
{
    BigUint::from_slice(&a.limbs) == BigUint::from_slice(&b.limbs)
}

/// Relies on num_bigint: `BigUint::modpow` returns `(self ^ exponent) %
/// modulus` and panics on a zero modulus, which the precondition rules out.
#[verifier::external_body]
pub(crate) fn nat_modpow(a: &Natural, e: &Natural, m: &Natural) -> (r: Natural)
    requires
        m.value() >= 1,
    ensures
        r.value() == pow_mod(a.value(), e.value(), m.value()),
{
    let base = BigUint::from_slice(&a.limbs);
    let exponent = BigUint::from_slice(&e.limbs);
    let modulus = BigUint::from_slice(&m.limbs);
    Natural { limbs: base.modpow(&exponent, &modulus).to_u32_digits() }
}

#[verifier::external_type_specification]
#[verifier::external_body]
pub struct ExThreadRng(rand::rngs::ThreadRng);

/// Relies on rand: `thread_rng` hands out the thread-local generator.
#[verifier::external_body]
pub(crate) fn fresh_rng() -> rand::rngs::ThreadRng {
    rand::thread_rng()
}

/// Relies on num_bigint: `RandBigInt::gen_biguint_below` draws a uniformly
/// random integer in `[0, bound)` and panics on a zero bound, which the
/// precondition rules out. Nothing more is promised of a random draw.
#[verifier::external_body]
pub(crate) fn random_below(rng: &mut rand::rngs::ThreadRng, bound: &Natural) -> (r: Natural)
    requires
        bound.value() >= 1,
    ensures
        r.value() < bound.value(),
{
    let big = rng.gen_biguint_below(&BigUint::from_slice(&bound.limbs));
    Natural { limbs: big.to_u32_digits() }
}

} // verus!
