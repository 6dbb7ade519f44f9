//! The Miller-Rabin primality test: the decomposer of `n - 1`, the
//! per-witness kernel, the deterministic and random base sources, and the
//! parallel driver with its early exit.

use crate::natural::{
    fresh_rng, nat_add_one, nat_eq, nat_half, nat_is_even, nat_lt, nat_modpow, nat_sub_one,
    pow_mod, random_below, Natural,
};
use rayon::iter::{IntoParallelRefIterator, ParallelIterator};
use vstd::prelude::*;

verus! {

use vstd::arithmetic::div_mod::{lemma_fundamental_div_mod, lemma_mul_mod_noop_general};
use vstd::arithmetic::power::{lemma_pow_adds, lemma_square_is_pow2, pow};
use vstd::arithmetic::power2::{lemma2_to64, lemma_pow2_unfold, pow2};

/// The odd factor of `m`: what remains after dividing out every factor of two.
pub open spec fn odd_part(m: nat) -> nat
    decreases m,
{
    if m == 0 || m % 2 == 1 {
        m
    } else {
        odd_part(m / 2)
    }
}

/// The number of factors of two in `m` (its 2-adic valuation).
pub open spec fn val2(m: nat) -> nat
    decreases m,
{
    if m == 0 || m % 2 == 1 {
        0
    } else {
        val2(m / 2) + 1
    }
}

/// The Miller-Rabin non-witness condition for base `a` against modulus `n`,
/// where `d` and `r` describe the decomposition `n - 1 == d * 2^r`: the base
/// fails to witness when `a^d == 1 (mod n)`, or `a^(d * 2^i) == n - 1 (mod n)`
/// for some `0 <= i < r`.
pub open spec fn mr_nonwitness(a: nat, n: nat, d: nat, r: nat) -> bool
    recommends
        n >= 2,
{
    ||| pow_mod(a, d, n) == 1
    ||| pow_mod(a, d, n) == (n - 1) as nat
    ||| exists|i: nat| 1 <= i < r && pow_mod(a, d * pow2(i), n) == (n - 1) as nat
}

/// Base `a` proves `n` composite: it fails the non-witness condition for the
/// canonical decomposition of `n - 1`.
pub open spec fn is_witness_val(a: nat, n: nat) -> bool
    recommends
        n >= 3,
{
    !mr_nonwitness(a, n, odd_part((n - 1) as nat), val2((n - 1) as nat))
}

proof fn lemma_odd_part_val2(m: nat)
    requires
        m >= 1,
    ensures
        odd_part(m) % 2 == 1,
        odd_part(m) >= 1,
        odd_part(m) * pow2(val2(m)) == m,
        m % 2 == 0 ==> val2(m) >= 1,
    decreases m,
{
    if m % 2 == 1 {
        assert(pow2(0) == 1) by {
            lemma2_to64();
        }
        assert(odd_part(m) * pow2(val2(m)) == m * 1);
    } else {
        lemma_fundamental_div_mod(m as int, 2);
        assert(m == 2 * (m / 2));
        lemma_odd_part_val2(m / 2);
        lemma_pow2_unfold(val2(m));
        assert(pow2(val2(m)) == 2 * pow2(val2(m / 2)));
        assert(odd_part(m / 2) * (2 * pow2(val2(m / 2))) == 2 * (odd_part(m / 2) * pow2(
            val2(m / 2),
        ))) by (nonlinear_arith);
        assert(odd_part(m) * pow2(val2(m)) == 2 * (m / 2));
    }
}

/// Law: for every odd `n >= 3` the decomposition of `n - 1` into an odd part
/// `d` and a power of two `2^r` has `d` odd, `r >= 1`, and `d * 2^r == n - 1`.
pub proof fn lemma_decomposition(n: nat)
    requires
        n >= 3,
        n % 2 == 1,
    ensures
        odd_part((n - 1) as nat) % 2 == 1,
        val2((n - 1) as nat) >= 1,
        odd_part((n - 1) as nat) * pow2(val2((n - 1) as nat)) == n - 1,
{
    lemma_odd_part_val2((n - 1) as nat);
}

proof fn lemma_square_step(a: nat, d: nat, i: nat, n: nat)
    requires
        n >= 1,
    ensures
        pow_mod(pow_mod(a, d * pow2(i), n), 2, n) == pow_mod(a, d * pow2(i + 1), n),
{
    let e = d * pow2(i);
    let p = pow(a as int, e);
    let x = pow_mod(a, e, n);
    assert(x as int == p % (n as int));
    lemma_square_is_pow2(x as int);
    lemma_mul_mod_noop_general(p, p, n as int);
    lemma_pow_adds(a as int, e, e);
    lemma_pow2_unfold(i + 1);
    assert(d * pow2(i + 1) == e + e) by (nonlinear_arith)
        requires
            pow2(i + 1) == 2 * pow2(i),
            e == d * pow2(i),
    ;
}

/// Splits `n - 1` into an odd factor and a power of two: returns `(d, r)`
/// with `d == odd_part(n - 1)`, `r == val2(n - 1)`, so `d * 2^r == n - 1`;
/// for odd `n` this gives an odd `d` and `r >= 1`.
pub fn decompose(n: &Natural) -> (dr: (Natural, Natural))
    requires
        n.value() >= 2,
    ensures
        dr.0.value() == odd_part((n.value() - 1) as nat),
        dr.1.value() == val2((n.value() - 1) as nat),
        dr.0.value() % 2 == 1,
        dr.0.value() >= 1,
        dr.0.value() * pow2(dr.1.value()) == n.value() - 1,
        n.value() % 2 == 1 ==> dr.1.value() >= 1,
{
    let mut d = nat_sub_one(n);
    let mut r = Natural::from_u64(0);
    loop
        invariant
            d.value() >= 1,
            odd_part(d.value()) == odd_part((n.value() - 1) as nat),
            val2((n.value() - 1) as nat) == r.value() + val2(d.value()),
        ensures
            d.value() % 2 == 1,
            d.value() >= 1,
            odd_part(d.value()) == odd_part((n.value() - 1) as nat),
            val2((n.value() - 1) as nat) == r.value() + val2(d.value()),
        decreases d.value(),
    {
        if !nat_is_even(&d) {
            break;
        }
        d = nat_half(&d);
        r = nat_add_one(&r);
    }
    proof {
        lemma_odd_part_val2((n.value() - 1) as nat);
    }
    (d, r)
}

/// The Miller-Rabin witness kernel: decides whether base `a` proves `n`
/// composite, for `d` and `r` as handed in by the caller.
pub(crate) fn miller_rabin(a: &Natural, n: &Natural, d: &Natural, r: &Natural) -> (w: bool)
    requires
        n.value() >= 3,
    ensures
        w == !mr_nonwitness(a.value(), n.value(), d.value(), r.value()),
{
    let n_minus_one = nat_sub_one(n);
    let one = Natural::from_u64(1);
    let two = Natural::from_u64(2);
    let mut x = nat_modpow(a, d, n);
    if nat_eq(&x, &one) || nat_eq(&x, &n_minus_one) {
        return false;
    }
    let mut count = Natural::from_u64(1);
    proof {
        lemma2_to64();
        assert(d.value() * pow2(0) == d.value());
    }
    loop
        invariant
            n.value() >= 3,
            n_minus_one.value() == n.value() - 1,
            two.value() == 2,
            count.value() >= 1,
            x.value() == pow_mod(
                a.value(),
                d.value() * pow2((count.value() - 1) as nat),
                n.value(),
            ),
            pow_mod(a.value(), d.value(), n.value()) != 1,
            forall|i: nat|
                i < count.value() ==> pow_mod(a.value(), d.value() * pow2(i), n.value()) != (
                n.value() - 1) as nat,
        ensures
            count.value() >= r.value(),
            pow_mod(a.value(), d.value(), n.value()) != 1,
            forall|i: nat|
                i < count.value() ==> pow_mod(a.value(), d.value() * pow2(i), n.value()) != (
                n.value() - 1) as nat,
        decreases r.value() - count.value(),
    {
        if !nat_lt(&count, r) {
            break;
        }
        x = nat_modpow(&x, &two, n);
        proof {
            lemma_square_step(a.value(), d.value(), (count.value() - 1) as nat, n.value());
            assert(((count.value() - 1) as nat) + 1 == count.value());
        }
        if nat_eq(&x, &n_minus_one) {
            proof {
                assert(1 <= count.value() < r.value() && pow_mod(
                    a.value(),
                    d.value() * pow2(count.value()),
                    n.value(),
                ) == (n.value() - 1) as nat);
            }
            return false;
        }
        count = nat_add_one(&count);
    }
    proof {
        lemma2_to64();
        assert(d.value() * pow2(0) == d.value());
        assert(pow_mod(a.value(), d.value(), n.value()) != (n.value() - 1) as nat);
    }
    true
}

/// The fixed bases that decide primality exactly for moduli below 2^64.
pub open spec fn det_bases() -> Seq<nat> {
    seq![2nat, 3, 5, 7, 11, 13, 17, 19, 23, 29, 31, 37]
}

/// No deterministic base below `n - 1` witnesses against `n`.
pub open spec fn passes_det_bases(n: nat) -> bool
    recommends
        n >= 3,
{
    forall|j: int|
        0 <= j < det_bases().len() && #[trigger] det_bases()[j] < (n - 1) as nat
            ==> !is_witness_val(det_bases()[j], n)
}

/// The verdict of the tester for every `n` in the deterministic band (the
/// inputs that fit a machine word): a function of `n` alone.
pub open spec fn small_verdict(n: nat) -> bool {
    if n <= 1 {
        false
    } else if n <= 3 {
        true
    } else if n % 2 == 0 {
        false
    } else {
        passes_det_bases(n)
    }
}

/// The values of a list of bases.
pub open spec fn base_vals(s: Seq<Natural>) -> Seq<nat> {
    s.map_values(|b: Natural| b.value())
}

/// Some base in the list witnesses against `n`.
pub open spec fn has_witness(vals: Seq<nat>, n: nat) -> bool {
    exists|t: int| 0 <= t < vals.len() && is_witness_val(#[trigger] vals[t], n)
}

/// `v` occurs in the list.
pub open spec fn contains_val(vals: Seq<nat>, v: nat) -> bool {
    exists|t: int| 0 <= t < vals.len() && vals[t] == v
}

/// Law: a witness, once found, stays found when the list of tested bases is
/// extended, so a `false` verdict cannot turn `true` by testing more bases.
pub proof fn lemma_witness_persists(vals1: Seq<nat>, vals2: Seq<nat>, n: nat)
    requires
        vals1.len() <= vals2.len(),
        forall|t: int| 0 <= t < vals1.len() ==> vals1[t] == #[trigger] vals2[t],
        has_witness(vals1, n),
    ensures
        has_witness(vals2, n),
{
    let t = choose|t: int| 0 <= t < vals1.len() && is_witness_val(#[trigger] vals1[t], n);
    assert(is_witness_val(vals2[t], n));
}

/// Law: in the deterministic band the verdict is a function of the tested
/// integer alone, so two runs of the tester on the same `n` agree, whatever
/// witness counts they were asked for.
pub proof fn lemma_small_band_idempotent(n: nat, first: bool, second: bool)
    requires
        n <= u64::MAX as nat,
        first == small_verdict(n),
        second == small_verdict(n),
    ensures
        first == second,
{
}

/// Law: the fast path pins the smallest inputs for every witness count:
/// 0 and 1 are not prime, 2 and 3 are.
pub proof fn lemma_fast_path()
    ensures
        !small_verdict(0),
        !small_verdict(1),
        small_verdict(2),
        small_verdict(3),
{
}

/// Relies on rayon: `find_any` over a parallel iterator returns `Some`
/// exactly when some element satisfies the predicate, cancelling outstanding
/// work once a match is found. The predicate only calls the verified witness
/// kernel.
#[verifier::external_body]
fn any_witness(bases: &Vec<Natural>, n: &Natural, d: &Natural, r: &Natural) -> (found: bool)
    requires
        n.value() >= 3,
    ensures
        found == (exists|t: int|
            0 <= t < bases@.len() && !mr_nonwitness(
                #[trigger] bases@[t].value(),
                n.value(),
                d.value(),
                r.value(),
            )),
{
    bases.par_iter().find_any(|b: &&Natural| miller_rabin(b, n, d, r)).is_some()
}

/// Tests `n` against every base in the list: returns `true` iff none of them
/// witnesses that `n` is composite. The bases are dispatched across workers
/// and the search stops at the first witness found.
pub fn survives_bases(n: &Natural, bases: &Vec<Natural>) -> (res: bool)
    requires
        n.value() >= 3,
    ensures
        res == !has_witness(base_vals(bases@), n.value()),
{
    let (d, r) = decompose(n);
    let found = any_witness(bases, n, &d, &r);
    proof {
        let vals = base_vals(bases@);
        assert forall|t: int| 0 <= t < bases@.len() implies vals[t] == bases@[t].value() by {}
        if found {
            let t = choose|t: int|
                0 <= t < bases@.len() && !mr_nonwitness(
                    #[trigger] bases@[t].value(),
                    n.value(),
                    d.value(),
                    r.value(),
                );
            assert(is_witness_val(vals[t], n.value()));
        }
        if has_witness(vals, n.value()) {
            let t = choose|t: int| 0 <= t < vals.len() && is_witness_val(#[trigger] vals[t], n.value());
            assert(!mr_nonwitness(bases@[t].value(), n.value(), d.value(), r.value()));
        }
    }
    !found
}

/// Tests whether `a` witnesses that `n` is composite: `None` exactly when
/// `a < 2` or `n < 3`, else the verdict of the witness kernel for the fresh
/// decomposition of `n - 1`.
pub fn is_witness(a: &Natural, n: &Natural) -> (res: Option<bool>)
    ensures
        res is None <==> (a.value() < 2 || n.value() < 3),
        res matches Some(w) ==> w == is_witness_val(a.value(), n.value()),
{
    let two = Natural::from_u64(2);
    let three = Natural::from_u64(3);
    if nat_lt(a, &two) || nat_lt(n, &three) {
        return None;
    }
    let (d, r) = decompose(n);
    Some(miller_rabin(a, n, &d, &r))
}

fn det_base(j: usize) -> (b: Natural)
    requires
        j < 12,
    ensures
        b.value() == det_bases()[j as int],
{
    let v: u64 = if j == 0 {
        2
    } else if j == 1 {
        3
    } else if j == 2 {
        5
    } else if j == 3 {
        7
    } else if j == 4 {
        11
    } else if j == 5 {
        13
    } else if j == 6 {
        17
    } else if j == 7 {
        19
    } else if j == 8 {
        23
    } else if j == 9 {
        29
    } else if j == 10 {
        31
    } else {
        37
    };
    Natural::from_u64(v)
}

/// Tests whether `n` is probably prime. For `n` up to `u64::MAX` the fixed
/// base list decides the verdict, so it depends on `n` alone; above that, `k`
/// uniformly random bases below `n - 1` are tried, a `false` verdict always
/// exhibits a witness, and `k == 0` yields `true` vacuously.
pub fn is_prime(n: &Natural, k: usize) -> (res: bool)
    ensures
        n.value() <= u64::MAX as nat ==> res == small_verdict(n.value()),
        n.value() > u64::MAX as nat && n.value() % 2 == 0 ==> !res,
        n.value() > u64::MAX as nat && n.value() % 2 == 1 && k == 0 ==> res,
        n.value() > u64::MAX as nat && n.value() % 2 == 1 && !res ==> exists|a: nat|
            a < n.value() - 1 && is_witness_val(a, n.value()),
{
    let one = Natural::from_u64(1);
    let three = Natural::from_u64(3);
    if !nat_lt(&one, n) {
        return false;
    }
    if !nat_lt(&three, n) {
        return true;
    }
    if nat_is_even(n) {
        return false;
    }
    let n_minus_one = nat_sub_one(n);
    let word_bound = Natural::from_u64(u64::MAX);
    if !nat_lt(&word_bound, n) {
        // Deterministic band: the fixed bases, filtered to those below n - 1.
        let mut bases: Vec<Natural> = Vec::new();
        let mut j: usize = 0;
        while j < 12
            invariant
                n.value() >= 5,
                n_minus_one.value() == n.value() - 1,
                0 <= j <= 12,
                forall|t: int|
                    0 <= t < bases@.len() ==> #[trigger] bases@[t].value() < n.value() - 1,
                forall|t: int|
                    0 <= t < bases@.len() ==> contains_val(
                        det_bases(),
                        #[trigger] bases@[t].value(),
                    ),
                forall|i: int|
                    0 <= i < j && #[trigger] det_bases()[i] < n.value() - 1 ==> contains_val(
                        base_vals(bases@),
                        det_bases()[i],
                    ),
            decreases 12 - j,
        {
            let ghost old_bases = bases@;
            let b = det_base(j);
            if nat_lt(&b, &n_minus_one) {
                bases.push(b);
            }
            proof {
                if b.value() < n.value() - 1 {
                    assert(bases@ =~= old_bases.push(b));
                    assert(bases@[bases@.len() - 1].value() == det_bases()[j as int]);
                }
                assert forall|i: int|
                    0 <= i < j + 1 && #[trigger] det_bases()[i] < n.value() - 1 implies contains_val(
                    base_vals(bases@),
                    det_bases()[i],
                ) by {
                    let vals = base_vals(bases@);
                    if i < j {
                        let t = choose|t: int|
                            0 <= t < base_vals(old_bases).len() && base_vals(old_bases)[t]
                                == det_bases()[i];
                        assert(vals[t] == det_bases()[i]);
                    } else {
                        assert(vals[vals.len() - 1] == det_bases()[j as int]);
                    }
                }
            }
            j = j + 1;
        }
        let res = survives_bases(n, &bases);
        proof {
            let nv = n.value();
            let vals = base_vals(bases@);
            assert forall|t: int| 0 <= t < bases@.len() implies vals[t] == bases@[t].value() by {}
            if has_witness(vals, nv) {
                let t = choose|t: int| 0 <= t < vals.len() && is_witness_val(#[trigger] vals[t], nv);
                let i = choose|i: int| 0 <= i < det_bases().len() && det_bases()[i] == vals[t];
                assert(det_bases()[i] < nv - 1 && is_witness_val(det_bases()[i], nv));
            }
            if !passes_det_bases(nv) {
                let i = choose|i: int|
                    0 <= i < det_bases().len() && #[trigger] det_bases()[i] < (nv - 1) as nat
                        && is_witness_val(det_bases()[i], nv);
                let t = choose|t: int| 0 <= t < vals.len() && vals[t] == det_bases()[i];
                assert(is_witness_val(vals[t], nv));
            }
        }
        return res;
    }
    // Probabilistic band: k uniformly random bases below n - 1.
    let mut rng = fresh_rng();
    let mut samples: Vec<Natural> = Vec::new();
    while samples.len() < k
        invariant
            n.value() >= 5,
            n_minus_one.value() == n.value() - 1,
            samples@.len() <= k,
            forall|t: int|
                0 <= t < samples@.len() ==> #[trigger] samples@[t].value() < n.value() - 1,
        decreases k - samples.len(),
    {
        let m = random_below(&mut rng, &n_minus_one);
        samples.push(m);
    }
    let res = survives_bases(n, &samples);
    proof {
        let nv = n.value();
        let vals = base_vals(samples@);
        assert forall|t: int| 0 <= t < samples@.len() implies vals[t] == samples@[t].value() by {}
        if !res {
            let t = choose|t: int| 0 <= t < vals.len() && is_witness_val(#[trigger] vals[t], nv);
            assert(vals[t] < nv - 1 && is_witness_val(vals[t], nv));
        }
    }
    res
}

} // verus!
