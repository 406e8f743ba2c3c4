//! The algebraic laws of field elements, stated over the same spec functions
//! as the contracts of the operations.

use vstd::prelude::*;
use vstd::arithmetic::power::pow;
use vstd::arithmetic::power::{lemma_pow0, lemma_pow1, lemma_pow_adds, lemma_pow_multiplies, lemma_pow_mod_noop};
use vstd::arithmetic::div_mod::{
    lemma_fundamental_div_mod,
    lemma_mod_self_0,
    lemma_mod_twice,
    lemma_mul_mod_noop_general,
    lemma_small_mod,
    lemma_mod_bound,
    lemma_add_mod_noop,
};
use vstd::std_specs::cmp::PartialEqSpec;
use crate::element::{FieldElement, effective_exponent};
use crate::error::FieldError;
use crate::number_theory::{is_prime, lemma_fermat_little};

verus! {

/// Every element equals itself.
pub proof fn lemma_eq_reflexive(a: FieldElement)
    ensures
        a.eq_spec(&a),
{
}

/// Elements of fields with different moduli are never equal, whatever their
/// residues.
pub proof fn lemma_ne_across_fields(a: FieldElement, b: FieldElement)
    requires
        a.prime() != b.prime(),
    ensures
        !a.eq_spec(&b),
        a != b,
{
}

/// `==` holds exactly of identical elements.
pub proof fn lemma_eq_is_identity(a: FieldElement, b: FieldElement)
    ensures
        a.eq_spec(&b) <==> a == b,
{
    if a.eq_spec(&b) {
        a.lemma_determined_by_fields(b);
    }
}

/// Sum, difference and product of two elements of one field exist and are
/// elements of that field.
pub proof fn lemma_closure(a: FieldElement, b: FieldElement)
    requires
        a.wf(),
        b.wf(),
        a.prime() == b.prime(),
    ensures
        a.sum(b) matches Ok(e) && e.wf() && e.prime() == a.prime(),
        a.difference(b) matches Ok(e) && e.wf() && e.prime() == a.prime(),
        a.product(b) matches Ok(e) && e.wf() && e.prime() == a.prime(),
{
    broadcast use FieldElement::lemma_element_of;

    let p = a.prime() as int;
    a.lemma_fields_bounded();
    lemma_mod_bound((a.num() + b.num()) as int, p);
    lemma_mod_bound(a.num() - b.num(), p);
    lemma_mod_bound((a.num() * b.num()) as int, p);
}

/// Operands of fields with different moduli are refused by every operator.
pub proof fn lemma_field_mismatch(a: FieldElement, b: FieldElement)
    requires
        a.prime() != b.prime(),
    ensures
        a.sum(b) == Err::<FieldElement, FieldError>(FieldError::FieldMismatch),
        a.difference(b) == Err::<FieldElement, FieldError>(FieldError::FieldMismatch),
        a.product(b) == Err::<FieldElement, FieldError>(FieldError::FieldMismatch),
        a.quotient(b) == Err::<FieldElement, FieldError>(FieldError::FieldMismatch),
{
}

/// An element minus itself is the zero of its field.
pub proof fn lemma_sub_self(a: FieldElement)
    requires
        a.wf(),
    ensures
        a.difference(a) == Ok::<FieldElement, FieldError>(FieldElement::element_of(0, a.prime())),
{
    lemma_small_mod(0, a.prime());
}

/// Division by the zero of the same field is refused.
pub proof fn lemma_div_by_zero(a: FieldElement, b: FieldElement)
    requires
        a.prime() == b.prime(),
        b.num() == 0,
    ensures
        a.quotient(b) == Err::<FieldElement, FieldError>(FieldError::DivisionByZero),
{
}

/// In a field of prime modulus, dividing by a nonzero element and then
/// multiplying by it gives the dividend back.
pub proof fn lemma_div_then_mul(a: FieldElement, b: FieldElement)
    requires
        a.wf(),
        b.wf(),
        a.prime() == b.prime(),
        b.num() != 0,
        is_prime(a.prime() as int),
    ensures
        a.quotient(b) matches Ok(q) && q.wf() && q.product(b) == Ok::<FieldElement, FieldError>(a),
{
    broadcast use FieldElement::lemma_element_of;

    let p = a.prime() as int;
    let x = a.num() as int;
    let y = b.num() as int;
    let e = (p - 2) as nat;
    let inverse = pow(y, e) % p;
    let quotient = (x * inverse) % p;
    a.lemma_fields_bounded();
    lemma_mod_bound(x * inverse, p);
    let q = FieldElement::element_of(quotient as nat, a.prime());
    assert(a.quotient(b) == Ok::<FieldElement, FieldError>(q));
    assert(q.num() == quotient && q.prime() == a.prime());
    // the inverse times the divisor is y^(p-1), which is 1 by Fermat
    lemma_pow_adds(y, e, 1);
    lemma_pow1(y);
    lemma_fermat_little(p, y);
    lemma_mul_mod_noop_general(pow(y, e), y, p);
    assert((inverse * y) % p == 1);
    // (x * inverse % p) * y  ~  x * (inverse * y)  ~  x
    lemma_mul_mod_noop_general(x * inverse, y, p);
    assert((x * inverse) * y == x * (inverse * y)) by (nonlinear_arith);
    lemma_mul_mod_noop_general(x, inverse * y, p);
    assert(x * 1 == x);
    lemma_small_mod(x as nat, p as nat);
    assert((quotient * y) % p == x);
    a.lemma_determined_by_fields(FieldElement::element_of(a.num(), a.prime()));
}

/// Raising to the order of the multiplicative group, `prime - 1`, gives the
/// one of the field.
pub proof fn lemma_pow_group_order(a: FieldElement)
    requires
        a.wf(),
        a.prime() >= 2,
    ensures
        a.pow_spec(a.prime() - 1) == FieldElement::element_of(1, a.prime()),
{
    lemma_mod_self_0(a.prime() - 1);
    lemma_pow0(a.num() as int);
    lemma_small_mod(1, a.prime());
}

/// An exponent and its Euclidean remainder modulo `prime - 1` give the same
/// power, for negative exponents too.
pub proof fn lemma_pow_exponent_normalised(a: FieldElement, k: int)
    requires
        a.wf(),
        a.prime() >= 2,
    ensures
        a.pow_spec(k) == a.pow_spec(k % (a.prime() - 1)),
        effective_exponent(k, a.prime()) <= a.prime() - 2,
{
    lemma_mod_twice(k, a.prime() - 1);
    lemma_mod_bound(k, a.prime() - 1);
}

proof fn lemma_pow_of_one(e: nat)
    ensures
        pow(1, e) == 1,
    decreases e,
{
    if e == 0 {
        lemma_pow0(1);
    } else {
        lemma_pow_of_one((e - 1) as nat);
        lemma_pow_adds(1, (e - 1) as nat, 1);
        lemma_pow1(1);
    }
}

/// In a field of prime modulus, the power of a nonzero element by a
/// nonnegative exponent is the residue of the true power: normalising the
/// exponent loses nothing.
pub proof fn lemma_pow_is_true_power(a: FieldElement, k: nat)
    requires
        a.wf(),
        a.num() != 0,
        is_prime(a.prime() as int),
    ensures
        a.pow_spec(k as int).num() == pow(a.num() as int, k) % (a.prime() as int),
{
    broadcast use FieldElement::lemma_element_of;

    let p = a.prime() as int;
    let x = a.num() as int;
    let m = (p - 1) as nat;
    let q = (k / m) as nat;
    let r = (k % m) as nat;
    a.lemma_fields_bounded();
    lemma_fundamental_div_mod(k as int, m as int);
    assert(k == m * q + r);
    lemma_pow_adds(x, m * q, r);
    lemma_pow_multiplies(x, m, q);
    // x^(m q) is congruent to 1^q
    lemma_fermat_little(p, x);
    lemma_pow_mod_noop(pow(x, m), q, p);
    lemma_pow_of_one(q);
    lemma_small_mod(1, p as nat);
    assert(pow(x, m * q) % p == 1);
    lemma_mul_mod_noop_general(pow(x, m * q), pow(x, r), p);
    assert(1 * (pow(x, r) % p) == pow(x, r) % p);
    lemma_mod_twice(pow(x, r), p);
    assert(pow(x, k) % p == pow(x, r) % p);
    lemma_mod_bound(pow(x, r), p);
}

/// In a field of prime modulus, the powers of a nonzero element by `k` and
/// by `-k` are inverse to each other.
pub proof fn lemma_pow_negated_is_inverse(a: FieldElement, k: int)
    requires
        a.wf(),
        a.num() != 0,
        is_prime(a.prime() as int),
    ensures
        (a.pow_spec(k).num() * a.pow_spec(-k).num()) % a.prime() == 1,
{
    broadcast use FieldElement::lemma_element_of;

    let p = a.prime() as int;
    let x = a.num() as int;
    let m = p - 1;
    let e1 = effective_exponent(k, a.prime()) as int;
    let e2 = effective_exponent(-k, a.prime()) as int;
    a.lemma_fields_bounded();
    lemma_mod_bound(k, m);
    lemma_mod_bound(-k, m);
    lemma_mod_bound(pow(x, e1 as nat), p);
    lemma_mod_bound(pow(x, e2 as nat), p);
    // the two exponents add up to 0 or to p - 1
    lemma_add_mod_noop(k, -k, m);
    lemma_small_mod(0, m as nat);
    assert((e1 + e2) % m == 0);
    lemma_fundamental_div_mod(e1 + e2, m);
    let j = (e1 + e2) / m;
    assert(j == 0 || j == 1) by (nonlinear_arith)
        requires
            e1 + e2 == m * j,
            0 <= e1 + e2 < 2 * m,
            m > 0,
    ;
    assert(e1 + e2 == 0 || e1 + e2 == m) by (nonlinear_arith)
        requires
            e1 + e2 == m * j,
            j == 0 || j == 1,
    ;
    lemma_pow_adds(x, e1 as nat, e2 as nat);
    lemma_pow0(x);
    lemma_fermat_little(p, x);
    lemma_small_mod(1, p as nat);
    assert(pow(x, (e1 + e2) as nat) % p == 1);
    lemma_mul_mod_noop_general(pow(x, e1 as nat), pow(x, e2 as nat), p);
}

} // verus!
