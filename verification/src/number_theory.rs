//! Primes and Fermat's little theorem, as far as field division rests on them.

use vstd::prelude::*;
use vstd::arithmetic::power::pow;
use vstd::arithmetic::power::{lemma_pow0, lemma_pow1, lemma_pow_adds};
use vstd::arithmetic::div_mod::{
    lemma_fundamental_div_mod,
    lemma_mod_multiples_basic,
    lemma_mul_mod_noop_general,
    lemma_small_mod,
    lemma_sub_mod_noop,
};
use vstd::seq_lib::lemma_fold_left_permutation;
use vstd::set_lib::lemma_subset_equality;

verus! {

/// `p` is at least 2 and no number strictly between 1 and `p` divides it.
pub open spec fn is_prime(p: int) -> bool {
    p >= 2 && forall|d: int| 1 < d < p ==> #[trigger] (p % d) != 0
}

/// Modulo a prime, a product of two nonzero residues is not zero.
pub proof fn lemma_prime_has_no_zero_divisors(p: int, a: int, i: int)
    requires
        is_prime(p),
        0 < a < p,
        0 < i < p,
    ensures
        (a * i) % p != 0,
    decreases i,
{
    if i == 1 {
        lemma_small_mod(a as nat, p as nat);
        assert(a * 1 == a);
    } else {
        let r = p % i;
        let q = p / i;
        lemma_fundamental_div_mod(p, i);
        assert(r != 0);
        lemma_prime_has_no_zero_divisors(p, a, r);
        if (a * i) % p == 0 {
            let k = (a * i) / p;
            lemma_fundamental_div_mod(a * i, p);
            assert(a * r == (a - q * k) * p) by (nonlinear_arith)
                requires
                    p == i * q + r,
                    a * i == p * k,
            ;
            lemma_mod_multiples_basic(a - q * k, p);
            assert(false);
        }
    }
}

/// Multiplication of an accumulator by the next item, the step of a product.
spec fn times() -> spec_fn(int, int) -> int {
    |acc: int, x: int| acc * x
}

/// The product of the items of `s`.
spec fn product_of(s: Seq<int>) -> int {
    s.fold_left(1, times())
}

/// The numbers `1, 2, .., k`.
spec fn first_numbers(k: nat) -> Seq<int>
    decreases k,
{
    if k == 0 {
        Seq::empty()
    } else {
        first_numbers((k - 1) as nat).push(k as int)
    }
}

/// The residues of `a, 2a, .., ka` modulo `p`.
spec fn first_multiples(a: int, p: int, k: nat) -> Seq<int>
    decreases k,
{
    if k == 0 {
        Seq::empty()
    } else {
        first_multiples(a, p, (k - 1) as nat).push((a * k) % p)
    }
}

proof fn lemma_first_numbers(k: nat)
    ensures
        first_numbers(k).len() == k,
        forall|i: int| 0 <= i < k ==> #[trigger] first_numbers(k)[i] == i + 1,
    decreases k,
{
    if k > 0 {
        lemma_first_numbers((k - 1) as nat);
    }
}

proof fn lemma_first_multiples(a: int, p: int, k: nat)
    ensures
        first_multiples(a, p, k).len() == k,
        forall|i: int| 0 <= i < k ==> #[trigger] first_multiples(a, p, k)[i] == (a * (i + 1)) % p,
    decreases k,
{
    if k > 0 {
        lemma_first_multiples(a, p, (k - 1) as nat);
    }
}

proof fn lemma_product_push(s: Seq<int>, x: int)
    ensures
        product_of(s.push(x)) == product_of(s) * x,
{
    assert(s.push(x).drop_last() =~= s);
    assert(s.push(x).last() == x);
}

/// The product of `a, 2a, .., ka`, each reduced modulo `p`, is congruent to
/// `a^k * k!`.
proof fn lemma_product_of_multiples(a: int, p: int, k: nat)
    requires
        p > 0,
    ensures
        product_of(first_multiples(a, p, k)) % p == (pow(a, k) * product_of(first_numbers(k))) % p,
    decreases k,
{
    if k == 0 {
        lemma_pow0(a);
    } else {
        let j = (k - 1) as nat;
        lemma_product_of_multiples(a, p, j);
        let t = product_of(first_multiples(a, p, j));
        let s = product_of(first_numbers(j));
        lemma_product_push(first_multiples(a, p, j), (a * k) % p);
        lemma_product_push(first_numbers(j), k as int);
        lemma_pow_adds(a, j, 1);
        lemma_pow1(a);
        assert(pow(a, k) == pow(a, j) * a);
        // t * ((a * k) % p)  ~  t * (a * k)  ~  (pow(a, j) * s) * (a * k)
        lemma_mul_mod_noop_general(t, a * k, p);
        lemma_mul_mod_noop_general(pow(a, j) * s, a * k, p);
        assert((pow(a, j) * s) * (a * k) == (pow(a, j) * a) * (s * k)) by (nonlinear_arith);
    }
}

/// Below a prime `p`, no factorial is divisible by `p`.
proof fn lemma_factorial_not_divisible(p: int, k: nat)
    requires
        is_prime(p),
        k < p,
    ensures
        product_of(first_numbers(k)) % p != 0,
    decreases k,
{
    if k == 0 {
        lemma_small_mod(1, p as nat);
    } else {
        let j = (k - 1) as nat;
        lemma_factorial_not_divisible(p, j);
        let s = product_of(first_numbers(j));
        lemma_product_push(first_numbers(j), k as int);
        lemma_prime_has_no_zero_divisors(p, s % p, k as int);
        lemma_mul_mod_noop_general(s, k as int, p);
    }
}

/// For `0 < a < p` with `p` prime, the residues of `a, 2a, .., (p-1)a` are
/// the numbers `1, .., p-1` in another order.
proof fn lemma_multiples_permute(p: int, a: int)
    requires
        is_prime(p),
        0 < a < p,
    ensures
        first_multiples(a, p, (p - 1) as nat).to_multiset() == first_numbers(
            (p - 1) as nat,
        ).to_multiset(),
{
    let n = (p - 1) as nat;
    let t = first_multiples(a, p, n);
    let s = first_numbers(n);
    lemma_first_multiples(a, p, n);
    lemma_first_numbers(n);
    assert(s.no_duplicates());
    assert forall|i: int, j: int| 0 <= i < j < n implies t[i] != t[j] by {
        let x = a * (i + 1);
        let y = a * (j + 1);
        if x % p == y % p {
            lemma_sub_mod_noop(y, x, p);
            lemma_small_mod(0, p as nat);
            assert(y - x == a * (j - i)) by (nonlinear_arith)
                requires
                    x == a * (i + 1),
                    y == a * (j + 1),
            ;
            lemma_prime_has_no_zero_divisors(p, a, j - i);
            assert(false);
        }
    }
    assert(t.no_duplicates());
    assert forall|x: int| t.to_set().contains(x) implies s.to_set().contains(x) by {
        let i = choose|i: int| 0 <= i < t.len() && t[i] == x;
        lemma_prime_has_no_zero_divisors(p, a, i + 1);
        assert(0 < x < p);
        assert(s[x - 1] == x);
    }
    t.unique_seq_to_set();
    s.unique_seq_to_set();
    lemma_subset_equality(t.to_set(), s.to_set());
    t.lemma_multiset_has_no_duplicates();
    s.lemma_multiset_has_no_duplicates();
    assert forall|x: int| t.to_multiset().count(x) == s.to_multiset().count(x) by {
        vstd::seq_lib::to_multiset_contains(t, x);
        vstd::seq_lib::to_multiset_contains(s, x);
        assert(t.contains(x) <==> t.to_set().contains(x));
        assert(s.contains(x) <==> s.to_set().contains(x));
    }
    assert(t.to_multiset() =~= s.to_multiset());
}

/// Fermat's little theorem: a nonzero residue of a prime `p`, raised to
/// `p - 1`, is congruent to 1.
pub proof fn lemma_fermat_little(p: int, a: int)
    requires
        is_prime(p),
        0 < a < p,
    ensures
        pow(a, (p - 1) as nat) % p == 1,
{
    let n = (p - 1) as nat;
    let t = first_multiples(a, p, n);
    let s = first_numbers(n);
    lemma_multiples_permute(p, a);
    assert(vstd::seq_lib::commutative_foldl(times())) by {
        assert forall|x: int, y: int, v: int| #[trigger]
            times()(times()(v, x), y) == times()(times()(v, y), x) by {
            assert((v * x) * y == (v * y) * x) by (nonlinear_arith);
        }
    }
    lemma_fold_left_permutation(t, s, times(), 1);
    assert(product_of(t) == product_of(s));
    lemma_product_of_multiples(a, p, n);
    lemma_factorial_not_divisible(p, n);
    let f = product_of(s) % p;
    let c = pow(a, n) % p;
    // c * f is congruent to f
    lemma_mul_mod_noop_general(pow(a, n), product_of(s), p);
    assert((c * f) % p == f);
    if c == 0 {
        assert(c * f == 0) by (nonlinear_arith)
            requires
                c == 0,
        ;
        lemma_small_mod(0, p as nat);
        assert(false);
    } else if c > 1 {
        lemma_small_mod(f as nat, p as nat);
        lemma_sub_mod_noop(c * f, f, p);
        lemma_small_mod(0, p as nat);
        assert(c * f - f == (c - 1) * f) by (nonlinear_arith);
        lemma_prime_has_no_zero_divisors(p, c - 1, f);
        assert(false);
    }
}

} // verus!
