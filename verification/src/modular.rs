//! Modular multiplication and exponentiation on machine words.

use vstd::prelude::*;
use vstd::arithmetic::power::pow;
use vstd::arithmetic::power::{lemma_pow0, lemma_pow1, lemma_pow_adds, lemma_pow_multiplies, lemma_pow_mod_noop};
use vstd::arithmetic::div_mod::{lemma_mul_mod_noop_general, lemma_small_mod, lemma_fundamental_div_mod};

verus! {

/// What square-and-multiply yields: the power reduced into `[0, modulus)`,
/// except that an exponent of zero leaves the initial accumulator, 1, as it is.
pub open spec fn pow_mod_spec(base: int, exponent: nat, modulus: int) -> int {
    if exponent == 0 {
        1
    } else {
        pow(base, exponent) % modulus
    }
}

/// The largest product of two machine words fits in 128 bits.
proof fn lemma_word_product_fits(a: usize, b: usize)
    ensures
        a * b <= 0xFFFF_FFFF_FFFF_FFFE_0000_0000_0000_0001,
{
    assert(a <= 0xFFFF_FFFF_FFFF_FFFF && b <= 0xFFFF_FFFF_FFFF_FFFF);
    assert(a * b <= 0xFFFF_FFFF_FFFF_FFFF * 0xFFFF_FFFF_FFFF_FFFF) by (nonlinear_arith)
        requires
            0 <= a <= 0xFFFF_FFFF_FFFF_FFFF,
            0 <= b <= 0xFFFF_FFFF_FFFF_FFFF,
    ;
}

/// `(a * b) mod modulus`, with the product held in 128 bits so that it cannot
/// wrap before it is reduced.
pub fn mul_mod(a: usize, b: usize, modulus: usize) -> (r: usize)
    requires
        modulus > 0,
    ensures
        r == (a * b) % (modulus as int),
        r < modulus,
{
    proof {
        lemma_word_product_fits(a, b);
    }
    let wide: u128 = (a as u128) * (b as u128);
    let reduced: u128 = wide % (modulus as u128);
    reduced as usize
}

/// The Euclidean remainder of `value` by a positive `modulus`: the
/// representative in `[0, modulus)`, whatever the sign of `value`.
pub fn rem_euclid(value: i128, modulus: i128) -> (r: i128)
    requires
        modulus > 0,
    ensures
        r == value % modulus,
        0 <= r < modulus,
{
    let r: i128 = value.checked_rem_euclid(modulus).unwrap();
    r
}

/// One step of square-and-multiply keeps `acc * base^exp` the same modulo `m`.
proof fn lemma_square_and_multiply_step(acc: int, base: int, exp: nat, m: int)
    requires
        m > 0,
        exp > 0,
    ensures
        exp % 2 == 1 ==> (((acc * base) % m) * pow((base * base) % m, exp / 2)) % m == (acc * pow(
            base,
            exp,
        )) % m,
        exp % 2 == 0 ==> (acc * pow((base * base) % m, exp / 2)) % m == (acc * pow(base, exp)) % m,
{
    let half = exp / 2;
    let sq = base * base;
    lemma_fundamental_div_mod(exp as int, 2);
    // pow(sq, half) == pow(base, 2 * half)
    lemma_pow_multiplies(base, 2, half);
    assert(pow(base, 2) == sq) by {
        reveal_with_fuel(pow, 3);
    }
    assert(pow(sq, half) == pow(base, 2 * half));
    // the squared base may be reduced before it is raised
    lemma_pow_mod_noop(sq, half, m);
    let reduced = pow(sq % m, half);
    assert(reduced % m == pow(sq, half) % m);
    if exp % 2 == 1 {
        assert(exp == 2 * half + 1);
        lemma_pow_adds(base, 1, 2 * half);
        lemma_pow1(base);
        assert(pow(base, exp) == base * pow(sq, half));
        lemma_mul_mod_noop_general((acc * base) % m, reduced, m);
        lemma_mul_mod_noop_general(acc * base, pow(sq, half), m);
        lemma_mul_mod_noop_general(acc * base, reduced, m);
        assert((acc * base) * pow(sq, half) == acc * (base * pow(sq, half))) by (nonlinear_arith);
    } else {
        assert(exp == 2 * half);
        lemma_mul_mod_noop_general(acc, reduced, m);
        lemma_mul_mod_noop_general(acc, pow(sq, half), m);
    }
}

/// Modular exponentiation by square-and-multiply: the bits of `exponent` are
/// taken from the lowest up, and every product is reduced at once, so that no
/// intermediate value leaves `[0, modulus)` after the first step.
pub fn pow_mod(base: usize, exponent: usize, modulus: usize) -> (r: usize)
    requires
        modulus > 0,
    ensures
        r == pow_mod_spec(base as int, exponent as nat, modulus as int),
        exponent > 0 ==> r < modulus,
        modulus >= 2 ==> r == pow(base as int, exponent as nat) % (modulus as int),
{
    let mut a: usize = base;
    let mut b: usize = exponent;
    let mut num: usize = 1;
    proof {
        lemma_pow0(base as int);
    }
    while b > 0
        invariant
            modulus > 0,
            exponent == 0 ==> b == 0 && num == 1,
            exponent > 0 ==> num < modulus || (num == 1 && b > 0),
            (num * pow(a as int, b as nat)) % (modulus as int) == pow(
                base as int,
                exponent as nat,
            ) % (modulus as int),
        decreases b,
    {
        proof {
            lemma_square_and_multiply_step(num as int, a as int, b as nat, modulus as int);
            assert(b & 1 == b % 2) by (bit_vector);
            assert(b >> 1 == b / 2) by (bit_vector);
        }
        if b & 1 != 0 {
            num = mul_mod(num, a, modulus);
        }
        b >>= 1;
        a = mul_mod(a, a, modulus);
    }
    proof {
        lemma_pow0(a as int);
        if exponent > 0 {
            lemma_small_mod(num as nat, modulus as nat);
        } else if modulus >= 2 {
            lemma_small_mod(1, modulus as nat);
        }
    }
    num
}

} // verus!
